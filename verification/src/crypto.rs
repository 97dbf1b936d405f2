//! Keys derived from a passphrase, and chat lines sealed with AES-256-GCM
//! and carried as URL-safe base64 text.

use aes_gcm::aead::rand_core::RngCore;
use aes_gcm::aead::{Aead, KeyInit, OsRng};
use aes_gcm::{Aes256Gcm, Nonce};
use base64::engine::general_purpose::URL_SAFE;
use base64::Engine;
use sha2::{Digest, Sha256};
use vstd::prelude::*;
use vstd::utf8::{decode_utf8, encode_utf8, valid_utf8};
use crate::text::{chars_of, string_of};

verus! {

/// The SHA-256 digest of `data`.
pub uninterp spec fn sha256_digest(data: Seq<u8>) -> Seq<u8>;

/// The AES-256-GCM ciphertext, tag appended, of `plaintext` under `key` and
/// `nonce`, with no associated data.
pub uninterp spec fn aes256gcm_seal(key: Seq<u8>, nonce: Seq<u8>, plaintext: Seq<u8>) -> Seq<u8>;

/// The plaintext that AES-256-GCM recovers from `ciphertext` (tag appended)
/// under `key` and `nonce`, or `None` where the tag does not check out.
pub uninterp spec fn aes256gcm_open(key: Seq<u8>, nonce: Seq<u8>, ciphertext: Seq<u8>) -> Option<Seq<u8>>;

/// The padded URL-safe base64 text of `data`.
pub uninterp spec fn base64_url_encode(data: Seq<u8>) -> Seq<char>;

/// The bytes that padded URL-safe base64 `text` stands for, or `None` where
/// it is not such text.
pub uninterp spec fn base64_url_decode(text: Seq<u8>) -> Option<Seq<u8>>;

/// The text that `String::from_utf8_lossy` makes of bytes that are not valid
/// UTF-8.
pub uninterp spec fn utf8_lossy_repair(bytes: Seq<u8>) -> Seq<char>;

/// The largest plaintext, in bytes, that AES-256-GCM accepts.
pub open spec fn max_plaintext_len() -> nat {
    0x10_0000_0000
}

/// The characters of the URL-safe base64 alphabet, and the padding `=`.
pub open spec fn is_base64_url_char(c: char) -> bool {
    ||| 'A' <= c <= 'Z'
    ||| 'a' <= c <= 'z'
    ||| '0' <= c <= '9'
    ||| c == '-'
    ||| c == '_'
    ||| c == '='
}

/// The characters of the URL-safe base64 alphabet, without the padding.
pub open spec fn is_base64_url_symbol(c: char) -> bool {
    is_base64_url_char(c) && c != '='
}

/// How many `=` pad the base64 text of `n` bytes.
pub open spec fn base64_pad_count(n: nat) -> int {
    (3 - n % 3) % 3
}

/// Whether `text` has the shape of the padded base64 text of `n` bytes:
/// four characters for every three bytes begun, alphabet symbols followed
/// by the padding.
pub open spec fn is_padded_base64_of_len(text: Seq<char>, n: nat) -> bool {
    &&& text.len() == 4 * ((n + 2) / 3)
    &&& forall|i: int|
        0 <= i < text.len() - base64_pad_count(n) ==> is_base64_url_symbol(#[trigger] text[i])
    &&& forall|i: int| text.len() - base64_pad_count(n) <= i < text.len() ==> #[trigger] text[i] == '='
}

/// The text of `bytes` as `String::from_utf8_lossy` gives it: the decoded
/// characters where the bytes are valid UTF-8.
pub open spec fn utf8_lossy(bytes: Seq<u8>) -> Seq<char> {
    if valid_utf8(bytes) {
        decode_utf8(bytes)
    } else {
        utf8_lossy_repair(bytes)
    }
}

/// SHA-256 of `data` (sha2's `Sha256::digest`).
#[verifier::external_body]
fn sha256(data: &[u8]) -> (digest: [u8; 32])
    ensures
        digest@ == sha256_digest(data@),
{
    let d = Sha256::digest(data);
    let mut out = [0u8; 32];
    out.copy_from_slice(&d);
    out
}

/// Twelve bytes from the operating system's random source (`OsRng`); nothing
/// is promised of their value.
#[verifier::external_body]
fn random_nonce() -> (nonce: [u8; 12]) {
    let mut nonce = [0u8; 12];
    OsRng.fill_bytes(&mut nonce);
    nonce
}

/// AES-256-GCM encryption with no associated data (`Aead::encrypt` of
/// aes-gcm). The crate refuses plaintexts longer than 2^36 bytes and
/// otherwise appends the 16-byte tag; the ciphertext opens under the same
/// key and nonce to the plaintext.
#[verifier::external_body]
fn aes256gcm_encrypt(key: &[u8], nonce: &[u8], plaintext: &[u8]) -> (ciphertext: Option<Vec<u8>>)
    requires
        key@.len() == 32,
        nonce@.len() == 12,
    ensures
        ciphertext is Some <==> plaintext@.len() <= max_plaintext_len(),
        ciphertext matches Some(c) ==> {
            &&& c@ == aes256gcm_seal(key@, nonce@, plaintext@)
            &&& c@.len() == plaintext@.len() + 16
            &&& aes256gcm_open(key@, nonce@, c@) == Some(plaintext@)
        },
{
    Aes256Gcm::new(key.into()).encrypt(Nonce::from_slice(nonce), plaintext).ok()
}

/// AES-256-GCM decryption with no associated data (`Aead::decrypt` of
/// aes-gcm); `None` where the tag does not match, which includes every
/// input shorter than the tag.
#[verifier::external_body]
pub(crate) fn aes256gcm_decrypt(key: &[u8], nonce: &[u8], ciphertext: &[u8]) -> (plaintext: Option<Vec<u8>>)
    requires
        key@.len() == 32,
        nonce@.len() == 12,
    ensures
        match plaintext {
            Some(p) => aes256gcm_open(key@, nonce@, ciphertext@) == Some(p@),
            None => aes256gcm_open(key@, nonce@, ciphertext@) is None,
        },
        ciphertext@.len() < 16 ==> plaintext is None,
{
    Aes256Gcm::new(key.into()).decrypt(Nonce::from_slice(nonce), ciphertext).ok()
}

/// Padded URL-safe base64 encoding (base64's `URL_SAFE.encode`). The text
/// has four characters for every three bytes begun, uses only the URL-safe
/// alphabet followed by the `=` padding, and decodes back to `data`.
#[verifier::external_body]
fn base64_encode(data: &[u8]) -> (text: String)
    ensures
        text@ == base64_url_encode(data@),
        forall|i: int| 0 <= i < text@.len() ==> is_base64_url_char(#[trigger] text@[i]),
        is_padded_base64_of_len(text@, data@.len()),
        base64_url_decode(encode_utf8(text@)) == Some(data@),
{
    URL_SAFE.encode(data)
}

/// Padded URL-safe base64 decoding (base64's `URL_SAFE.decode`).
#[verifier::external_body]
pub(crate) fn base64_decode(text: &[u8]) -> (data: Option<Vec<u8>>)
    ensures
        match data {
            Some(d) => base64_url_decode(text@) == Some(d@),
            None => base64_url_decode(text@) is None,
        },
{
    URL_SAFE.decode(text).ok()
}

/// `String::from_utf8_lossy`: valid UTF-8 decodes to its characters; other
/// input is repaired with replacement characters.
#[verifier::external_body]
pub(crate) fn lossy_string(bytes: &[u8]) -> (s: String)
    ensures
        s@ == (if valid_utf8(bytes@) {
            decode_utf8(bytes@)
        } else {
            utf8_lossy_repair(bytes@)
        }),
{
    String::from_utf8_lossy(bytes).into_owned()
}

/// `String::from_utf8`: the bytes as text where they are valid UTF-8, and
/// `None` where they are not.
#[verifier::external_body]
pub(crate) fn utf8_string(bytes: Vec<u8>) -> (s: Option<String>)
    ensures
        s is Some <==> valid_utf8(bytes@),
        s matches Some(t) ==> t@ == decode_utf8(bytes@),
{
    String::from_utf8(bytes).ok()
}

} // verus!

verus! {

/// Why a received line could not be opened.
#[derive(Debug, Clone, Copy, PartialEq, Eq)]
pub enum DecryptError {
    /// The text after the last `": "` is not URL-safe base64.
    Undecodable,
    /// The decoded bytes are too few to hold the 12-byte nonce.
    TooShort,
    /// The ciphertext does not open under the key: the passphrase differs.
    WrongPassphrase,
}

/// Whether `": "` starts at index `i` of `s`.
pub open spec fn separator_at(s: Seq<char>, i: int) -> bool {
    0 <= i && i + 1 < s.len() && s[i] == ':' && s[i + 1] == ' '
}

/// The first index at or after `i` where `": "` starts, or the length of
/// `s` where there is none.
pub open spec fn first_separator_from(s: Seq<char>, i: nat) -> nat
    decreases s.len() - i,
{
    if i + 1 >= s.len() {
        s.len()
    } else if separator_at(s, i as int) {
        i
    } else {
        first_separator_from(s, i + 1)
    }
}

/// The last index below `j` where `": "` starts, or -1 where there is none.
pub open spec fn last_separator_below(s: Seq<char>, j: int) -> int
    decreases j,
{
    if j <= 0 {
        -1
    } else if separator_at(s, j - 1) {
        j - 1
    } else {
        last_separator_below(s, j - 1)
    }
}

/// The text before the first `": "` (all of `s` where there is none): the
/// first piece of `s.split(": ")`.
pub open spec fn first_field(s: Seq<char>) -> Seq<char> {
    s.take(first_separator_from(s, 0) as int)
}

/// The text after the last `": "` (all of `s` where there is none): the
/// last piece of `s.split(": ")`.
pub open spec fn last_field(s: Seq<char>) -> Seq<char> {
    let i = last_separator_below(s, s.len() as int);
    if i < 0 {
        s
    } else {
        s.skip(i + 2)
    }
}

/// A line as the server relays it: a prefix naming the sender, `": "`,
/// and the payload.
pub open spec fn relayed_line(prefix: Seq<char>, payload: Seq<char>) -> Seq<char> {
    prefix + seq![':', ' '] + payload
}

/// The base64 text that carries `text` sealed under `key` with `nonce`: the
/// nonce followed by the AES-256-GCM ciphertext of the text's UTF-8 bytes.
pub open spec fn sealed_text(key: Seq<u8>, nonce: Seq<u8>, text: Seq<char>) -> Seq<char> {
    base64_url_encode(nonce + aes256gcm_seal(key, nonce, encode_utf8(text)))
}

/// What a received line opens to under `key`. The line is read as lossy
/// UTF-8; its last `": "`-field is base64 of a 12-byte nonce followed by the
/// ciphertext. A handshake gives the plaintext alone; a chat line gives its
/// first field, a space, and the plaintext.
pub open spec fn opened_line(key: Seq<u8>, received: Seq<u8>, handshake: bool) -> Result<
    Seq<char>,
    DecryptError,
> {
    let line = utf8_lossy(received);
    match base64_url_decode(encode_utf8(last_field(line))) {
        None => Err(DecryptError::Undecodable),
        Some(raw) => if raw.len() < 12 {
            Err(DecryptError::TooShort)
        } else {
            match aes256gcm_open(key, raw.take(12), raw.skip(12)) {
                None => Err(DecryptError::WrongPassphrase),
                Some(plain) => if handshake {
                    Ok(utf8_lossy(plain))
                } else {
                    Ok(first_field(line) + seq![' '] + utf8_lossy(plain))
                },
            }
        },
    }
}

/// A copy of `cs[from..to]`.
pub(crate) fn copy_chars(cs: &[char], from: usize, to: usize) -> (r: Vec<char>)
    requires
        from <= to <= cs@.len(),
    ensures
        r@ == cs@.subrange(from as int, to as int),
{
    let mut r: Vec<char> = Vec::new();
    let mut k: usize = from;
    while k < to
        invariant
            from <= k <= to <= cs@.len(),
            r@ == cs@.subrange(from as int, k as int),
        decreases to - k,
    {
        r.push(cs[k]);
        k = k + 1;
        assert(r@ =~= cs@.subrange(from as int, k as int));
    }
    r
}

/// The text before the first `": "` of `cs`.
pub fn first_field_chars(cs: &[char]) -> (r: Vec<char>)
    ensures
        r@ == first_field(cs@),
{
    let n = cs.len();
    let mut i: usize = 0;
    while i < n && i + 1 < n && !(cs[i] == ':' && cs[i + 1] == ' ')
        invariant
            n == cs@.len(),
            i <= n,
            first_separator_from(cs@, 0) == first_separator_from(cs@, i as nat),
        decreases n - i,
    {
        i = i + 1;
    }
    let end = if i < n && i + 1 < n {
        i
    } else {
        n
    };
    copy_chars(cs, 0, end)
}

/// The text after the last `": "` of `cs`.
pub fn last_field_chars(cs: &[char]) -> (r: Vec<char>)
    ensures
        r@ == last_field(cs@),
{
    let n = cs.len();
    let mut j: usize = n;
    while j > 0 && !(j < n && cs[j - 1] == ':' && cs[j] == ' ')
        invariant
            n == cs@.len(),
            j <= n,
            last_separator_below(cs@, n as int) == last_separator_below(cs@, j as int),
        decreases j,
    {
        j = j - 1;
    }
    if j == 0 {
        copy_chars(cs, 0, n)
    } else {
        copy_chars(cs, j + 1, n)
    }
}

/// `a` followed by `b`.
pub(crate) fn concat_bytes(a: &[u8], b: &[u8]) -> (r: Vec<u8>)
    ensures
        r@ == a@ + b@,
{
    let mut r: Vec<u8> = Vec::new();
    let mut i: usize = 0;
    while i < a.len()
        invariant
            i <= a@.len(),
            r@ == a@.take(i as int),
        decreases a@.len() - i,
    {
        r.push(a[i]);
        i = i + 1;
        assert(r@ =~= a@.take(i as int));
    }
    let mut k: usize = 0;
    while k < b.len()
        invariant
            i == a@.len(),
            k <= b@.len(),
            r@ == a@.take(i as int) + b@.take(k as int),
        decreases b@.len() - k,
    {
        r.push(b[k]);
        k = k + 1;
        assert(r@ =~= a@.take(i as int) + b@.take(k as int));
    }
    assert(a@.take(i as int) =~= a@);
    assert(b@.take(k as int) =~= b@);
    r
}

} // verus!

verus! {

proof fn lemma_last_separator_skip(s: Seq<char>, k: int, j: int)
    requires
        0 <= k <= j <= s.len(),
        forall|i: int| k <= i < j ==> s[i] != ':',
    ensures
        last_separator_below(s, j) == last_separator_below(s, k),
    decreases j - k,
{
    if j > k {
        lemma_last_separator_skip(s, k, j - 1);
    }
}

/// Text made only of base64 characters is a single `": "`-field.
pub(crate) proof fn lemma_fields_of_base64(e: Seq<char>)
    requires
        forall|i: int| 0 <= i < e.len() ==> is_base64_url_char(#[trigger] e[i]),
    ensures
        last_field(e) == e,
{
    assert forall|i: int| 0 <= i < e.len() implies e[i] != ':' by {
        assert(is_base64_url_char(e[i]));
    }
    lemma_last_separator_skip(e, 0, e.len() as int);
}

/// Behind `": "`, text made only of base64 characters is the last field.
pub(crate) proof fn lemma_last_field_after_separator(prefix: Seq<char>, e: Seq<char>)
    requires
        forall|i: int| 0 <= i < e.len() ==> is_base64_url_char(#[trigger] e[i]),
    ensures
        last_field(relayed_line(prefix, e)) == e,
{
    let line = relayed_line(prefix, e);
    let p = prefix.len() as int;
    assert forall|i: int| p + 1 <= i < line.len() implies line[i] != ':' by {
        if i > p + 1 {
            assert(line[i] == e[i - p - 2]);
            assert(is_base64_url_char(e[i - p - 2]));
        }
    }
    lemma_last_separator_skip(line, p + 1, line.len() as int);
    assert(separator_at(line, p));
    assert(line.skip(p + 2) =~= e);
}

/// The AES-256-GCM key for a passphrase: the SHA-256 digest of its UTF-8
/// bytes.
pub fn generate_key(passphrase: &str) -> (key: [u8; 32])
    ensures
        key@ == sha256_digest(encode_utf8(passphrase@)),
{
    sha256(passphrase.as_bytes())
}

/// `plaintext` sealed under `key` with the given nonce, as base64 text.
/// The text opens again under the same key, both alone and as the last
/// field of a chat line.
pub fn encrypt_with_nonce(key: &[u8], nonce: &[u8; 12], plaintext: &str) -> (sealed: String)
    requires
        key@.len() == 32,
        encode_utf8(plaintext@).len() <= max_plaintext_len(),
    ensures
        sealed@ == sealed_text(key@, nonce@, plaintext@),
        base64_url_decode(encode_utf8(sealed@)) == Some(
            nonce@ + aes256gcm_seal(key@, nonce@, encode_utf8(plaintext@)),
        ),
        aes256gcm_seal(key@, nonce@, encode_utf8(plaintext@)).len() == encode_utf8(plaintext@).len()
            + 16,
        aes256gcm_open(key@, nonce@, aes256gcm_seal(key@, nonce@, encode_utf8(plaintext@))) == Some(
            encode_utf8(plaintext@),
        ),
        is_padded_base64_of_len(sealed@, encode_utf8(plaintext@).len() + 28),
        forall|i: int| 0 <= i < sealed@.len() ==> is_base64_url_char(#[trigger] sealed@[i]),
        opened_line(key@, encode_utf8(sealed@), true) == Ok::<Seq<char>, DecryptError>(
            plaintext@,
        ),
        forall|prefix: Seq<char>|
            #![trigger relayed_line(prefix, sealed@)]
            opened_line(key@, encode_utf8(relayed_line(prefix, sealed@)), false) == Ok::<
                Seq<char>,
                DecryptError,
            >(first_field(relayed_line(prefix, sealed@)) + seq![' '] + plaintext@),
{
    let bytes = plaintext.as_bytes();
    let body = match aes256gcm_encrypt(key, nonce.as_slice(), bytes) {
        Some(c) => c,
        None => {
            proof {
                assert(false);
            }
            Vec::new()
        },
    };
    let raw = concat_bytes(nonce.as_slice(), &body);
    let sealed = base64_encode(&raw);
    assert(raw@ =~= nonce@ + body@);
    proof {
        broadcast use vstd::utf8::encode_utf8_valid_utf8, vstd::utf8::encode_utf8_decode_utf8;

        assert(raw@.take(12) =~= nonce@);
        assert(raw@.skip(12) =~= body@);
        lemma_fields_of_base64(sealed@);
        assert(utf8_lossy(encode_utf8(sealed@)) == sealed@);
        assert(utf8_lossy(encode_utf8(plaintext@)) == plaintext@);
        assert forall|prefix: Seq<char>|
            #![trigger relayed_line(prefix, sealed@)]
            opened_line(key@, encode_utf8(relayed_line(prefix, sealed@)), false) == Ok::<
                Seq<char>,
                DecryptError,
            >(first_field(relayed_line(prefix, sealed@)) + seq![' '] + plaintext@) by {
            let line = relayed_line(prefix, sealed@);
            lemma_last_field_after_separator(prefix, sealed@);
            assert(utf8_lossy(encode_utf8(line)) == line);
        }
    }
    sealed
}

/// `plaintext` sealed under `key` with a fresh random nonce, as base64
/// text. Whatever nonce was drawn, the text opens again under the same key,
/// both alone and as the last field of a chat line.
pub fn encrypt_message(key: &[u8], plaintext: &str) -> (sealed: String)
    requires
        key@.len() == 32,
        encode_utf8(plaintext@).len() <= max_plaintext_len(),
    ensures
        exists|nonce: Seq<u8>|
            {
                &&& nonce.len() == 12
                &&& sealed@ == sealed_text(key@, nonce, plaintext@)
                &&& base64_url_decode(encode_utf8(sealed@)) == Some(
                    nonce + aes256gcm_seal(key@, nonce, encode_utf8(plaintext@)),
                )
                &&& aes256gcm_seal(key@, nonce, encode_utf8(plaintext@)).len() == encode_utf8(
                    plaintext@,
                ).len() + 16
                &&& aes256gcm_open(key@, nonce, aes256gcm_seal(key@, nonce, encode_utf8(plaintext@)))
                    == Some(encode_utf8(plaintext@))
            },
        is_padded_base64_of_len(sealed@, encode_utf8(plaintext@).len() + 28),
        forall|i: int| 0 <= i < sealed@.len() ==> is_base64_url_char(#[trigger] sealed@[i]),
        opened_line(key@, encode_utf8(sealed@), true) == Ok::<Seq<char>, DecryptError>(
            plaintext@,
        ),
        forall|prefix: Seq<char>|
            #![trigger relayed_line(prefix, sealed@)]
            opened_line(key@, encode_utf8(relayed_line(prefix, sealed@)), false) == Ok::<
                Seq<char>,
                DecryptError,
            >(first_field(relayed_line(prefix, sealed@)) + seq![' '] + plaintext@),
{
    let nonce = random_nonce();
    let sealed = encrypt_with_nonce(key, &nonce, plaintext);
    assert(nonce@.len() == 12);
    sealed
}

/// Opens a received line under `key`: see `opened_line`.
pub fn decrypt_message(key: &[u8], received: &[u8], handshake: bool) -> (r: Result<
    String,
    DecryptError,
>)
    requires
        key@.len() == 32,
    ensures
        match r {
            Ok(s) => opened_line(key@, received@, handshake) == Ok::<Seq<char>, DecryptError>(s@),
            Err(e) => opened_line(key@, received@, handshake) == Err::<Seq<char>, DecryptError>(e),
        },
{
    let line = lossy_string(received);
    let cs = chars_of(line.as_str());
    let last = string_of(&last_field_chars(&cs));
    let raw = match base64_decode(last.as_str().as_bytes()) {
        Some(raw) => raw,
        None => {
            return Err(DecryptError::Undecodable);
        },
    };
    if raw.len() < 12 {
        return Err(DecryptError::TooShort);
    }
    let ghost raw_bytes = raw@;
    let mut nonce = raw;
    let body = nonce.split_off(12);
    assert(nonce@ =~= raw_bytes.take(12));
    assert(body@ =~= raw_bytes.skip(12));
    let plain = match aes256gcm_decrypt(key, &nonce, &body) {
        Some(p) => p,
        None => {
            return Err(DecryptError::WrongPassphrase);
        },
    };
    let text = lossy_string(&plain);
    if handshake {
        Ok(text)
    } else {
        let mut out = first_field_chars(&cs);
        out.push(' ');
        let text_chars = chars_of(text.as_str());
        crate::text::extend_chars(&mut out, &text_chars);
        assert(out@ =~= first_field(cs@) + seq![' '] + text@);
        Ok(string_of(&out))
    }
}

} // verus!
