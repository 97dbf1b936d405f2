//! The client's reading of what the server sends: the sealed handshake,
//! plain server lines (marked with a leading `+`), and sealed chat lines.

use vstd::prelude::*;
use vstd::utf8::encode_utf8;
use crate::color::{palette, user_color};
use crate::crypto::{
    decrypt_message, first_field, first_separator_from, lossy_string, opened_line, relayed_line,
    separator_at, utf8_lossy, DecryptError,
};
use crate::lines::{broadcast_line, broadcast_prefix};
use crate::text::chars_of;

verus! {

/// What the client shows of a line received from the server: a line that
/// starts with `+` comes from the server in the clear and is shown without
/// the `+`; any other line is a chat line, opened under `key`.
pub open spec fn shown_line(key: Seq<u8>, received: Seq<u8>) -> Result<Seq<char>, DecryptError> {
    let text = utf8_lossy(received);
    if text.len() > 0 && text[0] == '+' {
        Ok(text.drop_first())
    } else {
        opened_line(key, received, false)
    }
}

proof fn lemma_lossy_idempotent(bytes: Seq<u8>)
    ensures
        utf8_lossy(encode_utf8(utf8_lossy(bytes))) == utf8_lossy(bytes),
{
    broadcast use vstd::utf8::encode_utf8_valid_utf8, vstd::utf8::encode_utf8_decode_utf8;

}

/// The challenge that the server's sealed handshake carries, opened under
/// `key`. The received bytes are first read as lossy UTF-8 text, and that
/// text's bytes are opened.
pub fn answer_handshake(key: &[u8], received: &[u8]) -> (r: Result<String, DecryptError>)
    requires
        key@.len() == 32,
    ensures
        match r {
            Ok(s) => opened_line(key@, received@, true) == Ok::<Seq<char>, DecryptError>(s@),
            Err(e) => opened_line(key@, received@, true) == Err::<Seq<char>, DecryptError>(e),
        },
{
    let text = lossy_string(received);
    proof {
        lemma_lossy_idempotent(received@);
    }
    decrypt_message(key, text.as_str().as_bytes(), true)
}

/// What the client shows of one line received from the server: see
/// `shown_line`.
pub fn incoming_line(key: &[u8], received: &[u8]) -> (r: Result<String, DecryptError>)
    requires
        key@.len() == 32,
    ensures
        match r {
            Ok(s) => shown_line(key@, received@) == Ok::<Seq<char>, DecryptError>(s@),
            Err(e) => shown_line(key@, received@) == Err::<Seq<char>, DecryptError>(e),
        },
{
    let text = lossy_string(received);
    let cs = chars_of(text.as_str());
    if cs.len() > 0 && cs[0] == '+' {
        let mut rest: Vec<char> = Vec::new();
        let mut i: usize = 1;
        while i < cs.len()
            invariant
                1 <= i <= cs@.len(),
                rest@ == cs@.subrange(1, i as int),
            decreases cs@.len() - i,
        {
            rest.push(cs[i]);
            i = i + 1;
            assert(rest@ =~= cs@.subrange(1, i as int));
        }
        assert(rest@ =~= cs@.drop_first());
        Ok(crate::text::string_of(&rest))
    } else {
        decrypt_message(key, received, false)
    }
}

} // verus!

verus! {

/// No `": "` starts anywhere in `s`.
pub open spec fn has_no_separator(s: Seq<char>) -> bool {
    forall|i: int| !separator_at(s, i)
}

proof fn lemma_no_colon_no_separator(s: Seq<char>)
    requires
        forall|i: int| 0 <= i < s.len() ==> #[trigger] s[i] != ':',
    ensures
        has_no_separator(s),
{
    assert forall|i: int| !separator_at(s, i) by {
        if 0 <= i < s.len() {
            assert(s[i] != ':');
        }
    }
}

proof fn lemma_no_separator_concat(a: Seq<char>, b: Seq<char>)
    requires
        has_no_separator(a),
        has_no_separator(b),
        a.len() > 0 ==> a.last() != ':',
    ensures
        has_no_separator(a + b),
{
    let ab = a + b;
    assert forall|i: int| !separator_at(ab, i) by {
        if separator_at(ab, i) {
            if i + 1 < a.len() {
                assert(separator_at(a, i));
            } else if i + 1 == a.len() {
                assert(ab[i] == a.last());
            } else {
                assert(ab[i] == b[i - a.len()]);
                assert(ab[i + 1] == b[i + 1 - a.len()]);
                assert(separator_at(b, i - a.len()));
            }
        }
    }
}

proof fn lemma_no_separator_concat_spaced(a: Seq<char>, b: Seq<char>)
    requires
        has_no_separator(a),
        has_no_separator(b),
        b.len() > 0 ==> b[0] != ' ',
    ensures
        has_no_separator(a + b),
{
    let ab = a + b;
    assert forall|i: int| !separator_at(ab, i) by {
        if separator_at(ab, i) {
            if i + 1 < a.len() {
                assert(separator_at(a, i));
            } else if i + 1 == a.len() {
                assert(ab[i + 1] == b[0]);
            } else {
                assert(ab[i] == b[i - a.len()]);
                assert(ab[i + 1] == b[i + 1 - a.len()]);
                assert(separator_at(b, i - a.len()));
            }
        }
    }
}

proof fn lemma_first_separator_skip(s: Seq<char>, k: int, p: int)
    requires
        0 <= k <= p,
        p + 1 < s.len(),
        forall|i: int| k <= i < p ==> !separator_at(s, i),
    ensures
        first_separator_from(s, k as nat) == first_separator_from(s, p as nat),
    decreases p - k,
{
    if k < p {
        assert(!separator_at(s, k));
        lemma_first_separator_skip(s, k + 1, p);
    }
}

pub(crate) proof fn lemma_first_field_of_relayed(prefix: Seq<char>, payload: Seq<char>)
    requires
        has_no_separator(prefix),
    ensures
        first_field(relayed_line(prefix, payload)) == prefix,
{
    let line = relayed_line(prefix, payload);
    let p = prefix.len() as int;
    assert(separator_at(line, p));
    assert forall|i: int| 0 <= i < p implies !separator_at(line, i) by {
        if i + 1 < p {
            assert(line[i] == prefix[i] && line[i + 1] == prefix[i + 1]);
            assert(!separator_at(prefix, i));
        } else {
            assert(line[i + 1] == ':');
        }
    }
    lemma_first_separator_skip(line, 0, p);
    assert(line.take(p) =~= prefix);
}

pub(crate) proof fn lemma_color_has_no_colon(name: Seq<char>)
    ensures
        forall|i: int| 0 <= i < user_color(name).len() ==> #[trigger] user_color(name)[i] != ':',
        user_color(name).len() > 0,
        user_color(name).last() != ':',
        user_color(name)[0] == '+' <==> name == "server"@,
{
    reveal_strlit("server");
    reveal_strlit("+\x1B[31m");
    reveal_strlit("\x1B[32m");
    reveal_strlit("\x1B[33m");
    reveal_strlit("\x1B[34m");
    reveal_strlit("\x1B[35m");
    reveal_strlit("\x1B[36m");
    let i = crate::color::color_index(encode_utf8(name));
    assert(palette(i)[0] == '\x1B');
}

/// The text before the sender's name and after it in a relayed line holds
/// no `": "`; where the name and the time hold none either, the whole
/// prefix holds none.
proof fn lemma_prefix_has_no_separator(sender: Seq<char>, time: Seq<char>)
    requires
        has_no_separator(sender),
        has_no_separator(time),
    ensures
        has_no_separator(broadcast_prefix(sender, time)),
{
    reveal_strlit("\u{276E}");
    reveal_strlit("\u{276F} ");
    reveal_strlit("\u{276F}\x1B[0m");
    lemma_color_has_no_colon(sender);
    let c = user_color(sender);
    let open_b = "\u{276E}"@;
    let close_b = "\u{276F} "@;
    let reset = "\u{276F}\x1B[0m"@;
    lemma_no_colon_no_separator(c);
    lemma_no_colon_no_separator(open_b);
    lemma_no_colon_no_separator(close_b);
    lemma_no_colon_no_separator(reset);
    lemma_no_separator_concat(c, open_b);
    lemma_no_separator_concat(c + open_b, time);
    lemma_no_separator_concat_spaced(c + open_b + time, close_b);
    lemma_no_separator_concat(c + open_b + time + close_b, sender);
    lemma_no_separator_concat_spaced(c + open_b + time + close_b + sender, reset);
}

/// A line that the server relays from itself reaches the client in the
/// clear: the client shows it without its leading `+`.
pub proof fn lemma_server_line_shown_plain(key: Seq<u8>, time: Seq<char>, message: Seq<char>)
    ensures
        shown_line(key, encode_utf8(broadcast_line("server"@, time, message))) == Ok::<
            Seq<char>,
            DecryptError,
        >(broadcast_line("server"@, time, message).drop_first()),
{
    broadcast use vstd::utf8::encode_utf8_valid_utf8, vstd::utf8::encode_utf8_decode_utf8;

    lemma_color_has_no_colon("server"@);
    let line = broadcast_line("server"@, time, message);
    assert(line[0] == user_color("server"@)[0]);
}

/// A line that the server relays from a member goes to the decryption,
/// and where neither the member's name nor the time holds `": "`, the
/// sender part that the client shows is exactly the relayed prefix.
pub proof fn lemma_member_line_opened(
    key: Seq<u8>,
    sender: Seq<char>,
    time: Seq<char>,
    payload: Seq<char>,
)
    requires
        sender != "server"@,
    ensures
        broadcast_line(sender, time, payload) == relayed_line(broadcast_prefix(sender, time), payload),
        shown_line(key, encode_utf8(broadcast_line(sender, time, payload))) == opened_line(
            key,
            encode_utf8(relayed_line(broadcast_prefix(sender, time), payload)),
            false,
        ),
        has_no_separator(sender) && has_no_separator(time) ==> first_field(
            relayed_line(broadcast_prefix(sender, time), payload),
        ) == broadcast_prefix(sender, time),
{
    broadcast use vstd::utf8::encode_utf8_valid_utf8, vstd::utf8::encode_utf8_decode_utf8;

    reveal_strlit(": ");
    lemma_color_has_no_colon(sender);
    let line = broadcast_line(sender, time, payload);
    assert(line =~= relayed_line(broadcast_prefix(sender, time), payload));
    assert(line[0] == user_color(sender)[0]);
    if has_no_separator(sender) && has_no_separator(time) {
        lemma_prefix_has_no_separator(sender, time);
        lemma_first_field_of_relayed(broadcast_prefix(sender, time), payload);
    }
}

} // verus!

verus! {

/// A chat line goes from one member to another intact. Take sealed text
/// as `encrypt_message` gives it for `text` under `key` (only base64
/// characters, opening under the key as the last field of any relayed
/// line). The server relays what it reads of the sealed text's bytes, and
/// where the sender's name and the time hold no `": "`, the receiving
/// client shows the sender part, a space, and `text`.
pub proof fn lemma_chat_line_delivered(
    key: Seq<u8>,
    sender: Seq<char>,
    time: Seq<char>,
    sealed: Seq<char>,
    text: Seq<char>,
)
    requires
        forall|i: int| 0 <= i < sealed.len() ==> crate::crypto::is_base64_url_char(#[trigger] sealed[i]),
        forall|prefix: Seq<char>|
            #![trigger relayed_line(prefix, sealed)]
            opened_line(key, encode_utf8(relayed_line(prefix, sealed)), false) == Ok::<
                Seq<char>,
                DecryptError,
            >(first_field(relayed_line(prefix, sealed)) + seq![' '] + text),
        sender != "server"@,
        has_no_separator(sender),
        has_no_separator(time),
    ensures
        crate::session::answer_text(encode_utf8(sealed)) == sealed,
        shown_line(
            key,
            encode_utf8(broadcast_line(sender, time, crate::session::answer_text(encode_utf8(sealed)))),
        ) == Ok::<Seq<char>, DecryptError>(broadcast_prefix(sender, time) + seq![' '] + text),
{
    crate::session::lemma_sealed_text_relayed_unchanged(sealed);
    lemma_member_line_opened(key, sender, time, sealed);
    let line = relayed_line(broadcast_prefix(sender, time), sealed);
    assert(opened_line(key, encode_utf8(line), false) == Ok::<Seq<char>, DecryptError>(
        first_field(line) + seq![' '] + text,
    ));
}

} // verus!
