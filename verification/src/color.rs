//! The terminal colour that marks each user's name.

use vstd::prelude::*;
use vstd::utf8::encode_utf8;
use crate::text::{chars_eq, chars_of};

verus! {

/// The sum of the byte values.
pub open spec fn byte_sum(bytes: Seq<u8>) -> nat
    decreases bytes.len(),
{
    if bytes.len() == 0 {
        0
    } else {
        byte_sum(bytes.drop_last()) + bytes.last() as nat
    }
}

/// Which of the five user colours a name's UTF-8 bytes select: their sum
/// taken modulo 2^32 (a wrapping `u32` sum), then modulo 5.
pub open spec fn color_index(bytes: Seq<u8>) -> nat {
    (byte_sum(bytes) % 0x1_0000_0000) % 5
}

/// The ANSI colour codes given to users: green, yellow, blue, magenta, cyan.
pub open spec fn palette(i: nat) -> Seq<char> {
    if i == 0 {
        "\x1B[32m"@
    } else if i == 1 {
        "\x1B[33m"@
    } else if i == 2 {
        "\x1B[34m"@
    } else if i == 3 {
        "\x1B[35m"@
    } else {
        "\x1B[36m"@
    }
}

/// The marker of lines that come from the server itself: a `+` (which the
/// clients read as "not encrypted") and red.
pub open spec fn server_marker() -> Seq<char> {
    "+\x1B[31m"@
}

/// The colour code for a user name: the server marker for `server`, else
/// the palette entry that the name's bytes select.
pub open spec fn user_color(name: Seq<char>) -> Seq<char> {
    if name == "server"@ {
        server_marker()
    } else {
        palette(color_index(encode_utf8(name)))
    }
}

proof fn lemma_sum_step(prefix: Seq<u8>, b: u8, acc: u32)
    requires
        acc == byte_sum(prefix) % 0x1_0000_0000,
    ensures
        vstd::wrapping::u32_specs::wrapping_add(acc, b as u32) == byte_sum(prefix.push(b))
            % 0x1_0000_0000,
{
    assert(prefix.push(b).drop_last() =~= prefix);
    vstd::arithmetic::div_mod::lemma_add_mod_noop(
        byte_sum(prefix) as int,
        b as int,
        0x1_0000_0000,
    );
}

/// The wrapping `u32` sum of the bytes.
pub(crate) fn wrapping_byte_sum(bytes: &[u8]) -> (sum: u32)
    ensures
        sum == byte_sum(bytes@) % 0x1_0000_0000,
{
    let mut acc: u32 = 0;
    let mut i: usize = 0;
    while i < bytes.len()
        invariant
            i <= bytes@.len(),
            acc == byte_sum(bytes@.take(i as int)) % 0x1_0000_0000,
        decreases bytes@.len() - i,
    {
        proof {
            lemma_sum_step(bytes@.take(i as int), bytes@[i as int], acc);
            assert(bytes@.take(i as int).push(bytes@[i as int]) =~= bytes@.take(i + 1));
        }
        acc = acc.wrapping_add(bytes[i] as u32);
        i = i + 1;
    }
    assert(bytes@.take(bytes@.len() as int) =~= bytes@);
    acc
}

/// The colour code that marks `username` in chat lines.
pub fn get_color(username: &str) -> (color: &'static str)
    ensures
        color@ == user_color(username@),
{
    let name = chars_of(username);
    let server = chars_of("server");
    if chars_eq(&name, &server) {
        return "+\x1B[31m";
    }
    palette_color(wrapping_byte_sum(username.as_bytes()))
}

/// The palette entry that a byte sum selects.
pub(crate) fn palette_color(sum: u32) -> (color: &'static str)
    ensures
        color@ == palette((sum as nat) % 5),
{
    let index = sum as usize % 5;
    if index == 0 {
        "\x1B[32m"
    } else if index == 1 {
        "\x1B[33m"
    } else if index == 2 {
        "\x1B[34m"
    } else if index == 3 {
        "\x1B[35m"
    } else {
        "\x1B[36m"
    }
}

} // verus!

verus! {

proof fn lemma_byte_sum_concat(a: Seq<u8>, b: Seq<u8>)
    ensures
        byte_sum(a + b) == byte_sum(a) + byte_sum(b),
    decreases b.len(),
{
    if b.len() == 0 {
        assert(a + b =~= a);
    } else {
        lemma_byte_sum_concat(a, b.drop_last());
        assert((a + b).drop_last() =~= a + b.drop_last());
    }
}

/// A name's colour depends on its bytes and not on their order: swapping
/// two parts of a name keeps its colour.
pub proof fn lemma_color_ignores_order(a: Seq<u8>, b: Seq<u8>)
    ensures
        color_index(a + b) == color_index(b + a),
{
    lemma_byte_sum_concat(a, b);
    lemma_byte_sum_concat(b, a);
}

/// The server alone gets the server marker; every other name gets one of
/// the five palette colours.
pub proof fn lemma_colors_of_names(name: Seq<char>)
    ensures
        name == "server"@ ==> user_color(name) == server_marker(),
        name != "server"@ ==> exists|i: nat| i < 5 && user_color(name) == palette(i),
{
    if name != "server"@ {
        let i = color_index(encode_utf8(name));
        assert(i < 5);
        assert(user_color(name) == palette(i));
    }
}

} // verus!
