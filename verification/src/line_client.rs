//! The rules of the line-mode client and of the list-view client: a fixed
//! handshake phrase, strict UTF-8 when opening lines, the `\exit` and `\p`
//! commands, and the list-view client's chat state.

use vstd::prelude::*;
use vstd::utf8::{decode_utf8, encode_utf8, valid_utf8};
use crate::crypto::{
    aes256gcm_decrypt, aes256gcm_open, base64_decode, base64_url_decode, encrypt_message,
    first_field, first_field_chars, last_field, last_field_chars, lossy_string, max_plaintext_len,
    sealed_text, utf8_lossy, utf8_string,
};
use crate::emoji::{emoji_preprocessor, with_emojis};
use crate::text::{chars_eq, chars_of, extend_chars, string_of, trim, trim_chars};

verus! {

/// The phrase that these clients expect the server's handshake to carry.
pub open spec fn handshake_phrase() -> Seq<char> {
    "this is a cat >:) meow"@
}

/// Whether an opened handshake carries the expected phrase.
pub fn handshake_accepted(opened: &str) -> (ok: bool)
    ensures
        ok == (opened@ == handshake_phrase()),
{
    chars_eq(&chars_of(opened), &chars_of("this is a cat >:) meow"))
}

/// Why these clients could not open a received line.
#[derive(Debug, Clone, Copy, PartialEq, Eq)]
pub enum StrictOpenError {
    /// The text after the last `": "` is not URL-safe base64.
    Undecodable,
    /// The decoded bytes are too few to hold the 12-byte nonce.
    TooShort,
    /// The ciphertext does not open under the key.
    WrongPassphrase,
    /// The opened bytes are not valid UTF-8.
    NotUtf8,
}

/// What these clients open a received line to: as `opened_line`,
/// but the plaintext must be valid UTF-8, and a chat line joins its first
/// field and the plaintext with `joiner`.
pub open spec fn opened_line_strict(
    key: Seq<u8>,
    received: Seq<u8>,
    handshake: bool,
    joiner: Seq<char>,
) -> Result<Seq<char>, StrictOpenError> {
    let line = utf8_lossy(received);
    match base64_url_decode(encode_utf8(last_field(line))) {
        None => Err(StrictOpenError::Undecodable),
        Some(raw) => if raw.len() < 12 {
            Err(StrictOpenError::TooShort)
        } else {
            match aes256gcm_open(key, raw.take(12), raw.skip(12)) {
                None => Err(StrictOpenError::WrongPassphrase),
                Some(plain) => if !valid_utf8(plain) {
                    Err(StrictOpenError::NotUtf8)
                } else if handshake {
                    Ok(decode_utf8(plain))
                } else {
                    Ok(first_field(line) + joiner + decode_utf8(plain))
                },
            }
        },
    }
}

/// Opens a received line as these clients do: see
/// `opened_line_strict`.
pub fn decrypt_strict(key: &[u8], received: &[u8], handshake: bool, joiner: &str) -> (r: Result<
    String,
    StrictOpenError,
>)
    requires
        key@.len() == 32,
    ensures
        match r {
            Ok(s) => opened_line_strict(key@, received@, handshake, joiner@) == Ok::<
                Seq<char>,
                StrictOpenError,
            >(s@),
            Err(e) => opened_line_strict(key@, received@, handshake, joiner@) == Err::<
                Seq<char>,
                StrictOpenError,
            >(e),
        },
{
    let line = lossy_string(received);
    let cs = chars_of(line.as_str());
    let last = string_of(&last_field_chars(&cs));
    let raw = match base64_decode(last.as_str().as_bytes()) {
        Some(raw) => raw,
        None => {
            return Err(StrictOpenError::Undecodable);
        },
    };
    if raw.len() < 12 {
        return Err(StrictOpenError::TooShort);
    }
    let ghost raw_bytes = raw@;
    let mut nonce = raw;
    let body = nonce.split_off(12);
    assert(nonce@ =~= raw_bytes.take(12));
    assert(body@ =~= raw_bytes.skip(12));
    let plain = match aes256gcm_decrypt(key, &nonce, &body) {
        Some(p) => p,
        None => {
            return Err(StrictOpenError::WrongPassphrase);
        },
    };
    let text = match utf8_string(plain) {
        Some(t) => t,
        None => {
            return Err(StrictOpenError::NotUtf8);
        },
    };
    if handshake {
        Ok(text)
    } else {
        let mut out = first_field_chars(&cs);
        extend_chars(&mut out, &chars_of(joiner));
        extend_chars(&mut out, &chars_of(text.as_str()));
        Ok(string_of(&out))
    }
}

/// Why these clients could not show a received line.
#[derive(Debug, Clone, Copy, PartialEq, Eq)]
pub enum IncomingError {
    /// The line read as empty text.
    Empty,
    /// The line could not be opened.
    Open(StrictOpenError),
}

/// What these clients show of a received line: a line that starts
/// with `+` without it, any other line opened strictly with `joiner`.
pub open spec fn shown_line_strict(key: Seq<u8>, received: Seq<u8>, joiner: Seq<char>) -> Result<
    Seq<char>,
    IncomingError,
> {
    let text = utf8_lossy(received);
    if text.len() == 0 {
        Err(IncomingError::Empty)
    } else if text[0] == '+' {
        Ok(text.drop_first())
    } else {
        match opened_line_strict(key, received, false, joiner) {
            Ok(s) => Ok(s),
            Err(e) => Err(IncomingError::Open(e)),
        }
    }
}

/// What these clients show of one received line: see
/// `shown_line_strict`.
pub fn incoming_line_strict(key: &[u8], received: &[u8], joiner: &str) -> (r: Result<
    String,
    IncomingError,
>)
    requires
        key@.len() == 32,
    ensures
        match r {
            Ok(s) => shown_line_strict(key@, received@, joiner@) == Ok::<Seq<char>, IncomingError>(
                s@,
            ),
            Err(e) => shown_line_strict(key@, received@, joiner@) == Err::<
                Seq<char>,
                IncomingError,
            >(e),
        },
{
    let text = lossy_string(received);
    let cs = chars_of(text.as_str());
    if cs.len() == 0 {
        return Err(IncomingError::Empty);
    }
    if cs[0] == '+' {
        let rest = crate::crypto::copy_chars(&cs, 1, cs.len());
        assert(rest@ =~= cs@.drop_first());
        Ok(string_of(&rest))
    } else {
        match decrypt_strict(key, received, false, joiner) {
            Ok(s) => Ok(s),
            Err(e) => Err(IncomingError::Open(e)),
        }
    }
}

/// What the list-view client shows in place of a line that does not open
/// under its key.
pub open spec fn wrong_passphrase_notice() -> Seq<char> {
    "Wrong passphrase! This action will be reported!"@
}

/// What the list-view client opens a received line to: as
/// `opened_line_strict` with a space after the sender, but a line that
/// does not open under the key gives the wrong-passphrase notice.
pub open spec fn opened_line_listed(key: Seq<u8>, received: Seq<u8>, handshake: bool) -> Result<
    Seq<char>,
    StrictOpenError,
> {
    match opened_line_strict(key, received, handshake, " "@) {
        Err(StrictOpenError::WrongPassphrase) => Ok(wrong_passphrase_notice()),
        other => other,
    }
}

/// Opens a received line as the list-view client does: see
/// `opened_line_listed`.
pub fn decrypt_or_notice(key: &[u8], received: &[u8], handshake: bool) -> (r: Result<
    String,
    StrictOpenError,
>)
    requires
        key@.len() == 32,
    ensures
        match r {
            Ok(s) => opened_line_listed(key@, received@, handshake) == Ok::<
                Seq<char>,
                StrictOpenError,
            >(s@),
            Err(e) => opened_line_listed(key@, received@, handshake) == Err::<
                Seq<char>,
                StrictOpenError,
            >(e),
        },
{
    match decrypt_strict(key, received, handshake, " ") {
        Err(StrictOpenError::WrongPassphrase) => Ok(
            string_of(&chars_of("Wrong passphrase! This action will be reported!")),
        ),
        other => other,
    }
}

/// What the list-view client shows of a received line: as
/// `shown_line_strict` with a space after the sender, but a line that does
/// not open under the key gives the wrong-passphrase notice.
pub open spec fn shown_line_listed(key: Seq<u8>, received: Seq<u8>) -> Result<
    Seq<char>,
    IncomingError,
> {
    match shown_line_strict(key, received, " "@) {
        Err(IncomingError::Open(StrictOpenError::WrongPassphrase)) => Ok(wrong_passphrase_notice()),
        other => other,
    }
}

/// What the list-view client shows of one received line: see
/// `shown_line_listed`.
pub fn incoming_line_listed(key: &[u8], received: &[u8]) -> (r: Result<String, IncomingError>)
    requires
        key@.len() == 32,
    ensures
        match r {
            Ok(s) => shown_line_listed(key@, received@) == Ok::<Seq<char>, IncomingError>(s@),
            Err(e) => shown_line_listed(key@, received@) == Err::<Seq<char>, IncomingError>(e),
        },
{
    match incoming_line_strict(key, received, " ") {
        Err(IncomingError::Open(StrictOpenError::WrongPassphrase)) => Ok(
            string_of(&chars_of("Wrong passphrase! This action will be reported!")),
        ),
        other => other,
    }
}

/// The commands of the line-mode client.
#[derive(Debug, Clone, Copy, PartialEq, Eq)]
pub enum ShellCommand {
    /// `\exit`: leave.
    Exit,
    /// `\p`: cut the shell history, clear the screen, and leave.
    PanicMode,
    /// Anything else: ignored.
    Unknown,
}

/// The command that a line names: `\exit`, `\p`, or none known.
pub open spec fn command_of(line: Seq<char>) -> ShellCommand {
    if line == "\\exit"@ {
        ShellCommand::Exit
    } else if line == "\\p"@ {
        ShellCommand::PanicMode
    } else {
        ShellCommand::Unknown
    }
}

/// Which command a line is.
pub fn classify_command(command: &str) -> (c: ShellCommand)
    ensures
        c == command_of(command@),
{
    let cs = chars_of(command);
    if chars_eq(&cs, &chars_of("\\exit")) {
        ShellCommand::Exit
    } else if chars_eq(&cs, &chars_of("\\p")) {
        ShellCommand::PanicMode
    } else {
        ShellCommand::Unknown
    }
}

/// The history file of a shell: zsh's for a shell path ending in `zsh`,
/// bash's otherwise.
pub fn history_file_name(shell: &str) -> (name: &'static str)
    ensures
        name@ == (if shell@.len() >= 3 && shell@.skip(shell@.len() - 3) == "zsh"@ {
            ".zsh_history"@
        } else {
            ".bash_history"@
        }),
{
    let cs = chars_of(shell);
    let n = cs.len();
    if n >= 3 {
        let tail = crate::crypto::copy_chars(&cs, n - 3, n);
        assert(tail@ =~= cs@.skip(n - 3));
        if chars_eq(&tail, &chars_of("zsh")) {
            return ".zsh_history";
        }
    }
    ".bash_history"
}

/// The history without its last ten lines (all of it gone where it has
/// fewer).
pub fn truncate_history(lines: Vec<String>) -> (kept: Vec<String>)
    ensures
        kept@ == lines@.take(if lines@.len() >= 10 {
            lines@.len() - 10
        } else {
            0
        }),
{
    let keep: usize = if lines.len() >= 10 {
        lines.len() - 10
    } else {
        0
    };
    let mut lines = lines;
    lines.truncate(keep);
    lines
}

/// What the line-mode client does with a typed line.
#[derive(Debug)]
pub enum Outgoing {
    /// The line is empty once trimmed: nothing.
    Nothing,
    /// The trimmed line starts with `\`: run it as a command.
    Command(ShellCommand),
    /// Write this sealed text, the trimmed line sealed under the key.
    Send(String),
}

/// What the line-mode client does with a typed line: trims it, runs it as
/// a command where it starts with `\`, and otherwise seals it.
pub fn outgoing_line(key: &[u8], line: &str) -> (o: Outgoing)
    requires
        key@.len() == 32,
        encode_utf8(trim(line@)).len() <= max_plaintext_len(),
    ensures
        ({
            let t = trim(line@);
            if t.len() == 0 {
                o is Nothing
            } else if t[0] == '\\' {
                o matches Outgoing::Command(c) && c == (if t == "\\exit"@ {
                    ShellCommand::Exit
                } else if t == "\\p"@ {
                    ShellCommand::PanicMode
                } else {
                    ShellCommand::Unknown
                })
            } else {
                o matches Outgoing::Send(sealed) && (exists|nonce: Seq<u8>|
                    nonce.len() == 12 && sealed@ == sealed_text(key@, nonce, t))
            }
        }),
{
    let trimmed = string_of(&trim_chars(&chars_of(line)));
    let cs = chars_of(trimmed.as_str());
    if cs.len() == 0 {
        Outgoing::Nothing
    } else if cs[0] == '\\' {
        Outgoing::Command(classify_command(trimmed.as_str()))
    } else {
        Outgoing::Send(encrypt_message(key, trimmed.as_str()))
    }
}

/// What the list-view client does when Enter is pressed.
#[derive(Debug, PartialEq, Eq)]
pub enum Submitted {
    /// Nothing to send.
    Nothing,
    /// `\exit` was typed: leave.
    Exit,
    /// `\p` was typed: panic mode (cut the shell history, clear the screen,
    /// and leave).
    PanicMode,
    /// Write this sealed text to the server.
    Send(String),
}

/// The list-view client's state.
pub struct ChatState {
    messages: Vec<String>,
    input_buffer: String,
    connected: bool,
    name: String,
    encryption_key: [u8; 32],
}

impl ChatState {
    /// The messages shown, oldest first.
    pub closed spec fn shown(&self) -> Seq<Seq<char>> {
        self.messages@.map_values(|m: String| m@)
    }

    /// The line being typed.
    pub closed spec fn typed(&self) -> Seq<char> {
        self.input_buffer@
    }

    /// Whether the client is connected.
    pub closed spec fn is_connected(&self) -> bool {
        self.connected
    }

    /// The user's name.
    pub closed spec fn user(&self) -> Seq<char> {
        self.name@
    }

    /// The key that typed lines are sealed under.
    pub closed spec fn key(&self) -> Seq<u8> {
        self.encryption_key@
    }

    /// A fresh state: no messages, nothing typed, not connected, no name.
    pub fn new(key: [u8; 32]) -> (s: Self)
        ensures
            s.shown().len() == 0,
            s.typed().len() == 0,
            !s.is_connected(),
            s.user().len() == 0,
            s.key() == key@,
    {
        let s = ChatState {
            messages: Vec::new(),
            input_buffer: String::new(),
            connected: false,
            name: String::new(),
            encryption_key: key,
        };
        assert(s.shown() =~= Seq::<Seq<char>>::empty());
        s
    }

    /// Records that the client is connected as `name`.
    pub fn connect(&mut self, name: &str)
        ensures
            final(self).is_connected(),
            final(self).user() == name@,
            final(self).shown() == old(self).shown(),
            final(self).typed() == old(self).typed(),
            final(self).key() == old(self).key(),
    {
        self.connected = true;
        self.name = string_of(&chars_of(name));
    }

    /// Shows a received line, with its emojis.
    pub fn add_message(&mut self, message: String)
        ensures
            final(self).shown() == old(self).shown().push(with_emojis(message@)),
            final(self).typed() == old(self).typed(),
            final(self).is_connected() == old(self).is_connected(),
            final(self).user() == old(self).user(),
            final(self).key() == old(self).key(),
    {
        let line = process(message);
        self.messages.push(line);
        assert(self.shown() =~= old(self).shown().push(with_emojis(message@)));
    }

    /// Types one character.
    pub fn type_char(&mut self, c: char)
        ensures
            final(self).typed() == old(self).typed().push(c),
            final(self).shown() == old(self).shown(),
            final(self).key() == old(self).key(),
            final(self).is_connected() == old(self).is_connected(),
            final(self).user() == old(self).user(),
    {
        self.input_buffer.push(c);
    }

    /// Deletes the last typed character, if any.
    pub fn backspace(&mut self)
        ensures
            final(self).typed() == (if old(self).typed().len() > 0 {
                old(self).typed().drop_last()
            } else {
                old(self).typed()
            }),
            final(self).shown() == old(self).shown(),
            final(self).key() == old(self).key(),
            final(self).is_connected() == old(self).is_connected(),
            final(self).user() == old(self).user(),
    {
        self.input_buffer.pop();
    }

    /// The messages, oldest first.
    pub fn messages(&self) -> (m: &Vec<String>)
        ensures
            m@.len() == self.shown().len(),
            forall|i: int| 0 <= i < m@.len() ==> #[trigger] m@[i]@ == self.shown()[i],
    {
        &self.messages
    }

    /// The line being typed.
    pub fn input_buffer(&self) -> (s: &String)
        ensures
            s@ == self.typed(),
    {
        &self.input_buffer
    }

    /// Enter was pressed. With something typed and a connection open, a
    /// line starting with `\` is a command (`\exit` leaves and `\p` enters
    /// panic mode, both with the line still typed; other commands do
    /// nothing) and any other line is sealed for sending; the typed line is
    /// then cleared. Without a connection the
    /// typed line is just cleared.
    pub fn submit(&mut self, has_stream: bool) -> (s: Submitted)
        requires
            encode_utf8(old(self).typed()).len() <= max_plaintext_len(),
        ensures
            final(self).shown() == old(self).shown(),
            final(self).key() == old(self).key(),
            final(self).is_connected() == old(self).is_connected(),
            final(self).user() == old(self).user(),
            old(self).typed().len() == 0 ==> s == Submitted::Nothing && final(self).typed()
                == old(self).typed(),
            old(self).typed().len() > 0 ==> {
                let t = old(self).typed();
                if has_stream && t[0] == '\\' && t == "\\exit"@ {
                    s == Submitted::Exit && final(self).typed() == t
                } else if has_stream && t[0] == '\\' && t == "\\p"@ {
                    s == Submitted::PanicMode && final(self).typed() == t
                } else if has_stream && t[0] != '\\' {
                    &&& s matches Submitted::Send(sealed) && (exists|nonce: Seq<u8>|
                        nonce.len() == 12 && sealed@ == sealed_text(old(self).key(), nonce, t))
                    &&& final(self).typed().len() == 0
                } else {
                    s == Submitted::Nothing && final(self).typed().len() == 0
                }
            },
    {
        let cs = chars_of(self.input_buffer.as_str());
        if cs.len() == 0 {
            return Submitted::Nothing;
        }
        let mut out = Submitted::Nothing;
        if has_stream {
            if cs[0] == '\\' {
                if chars_eq(&cs, &chars_of("\\exit")) {
                    return Submitted::Exit;
                }
                if chars_eq(&cs, &chars_of("\\p")) {
                    return Submitted::PanicMode;
                }
            } else {
                out = Submitted::Send(encrypt_message(&self.encryption_key, self.input_buffer.as_str()));
            }
        }
        self.input_buffer = String::new();
        out
    }
}

/// A chat line with its `:name:` words turned into emojis, as the
/// list-view client shows it.
pub fn process(input: String) -> (r: String)
    ensures
        r@ == with_emojis(input@),
{
    emoji_preprocessor(input)
}

} // verus!

verus! {

/// Sealed text opens strictly: take text that is all URL-safe base64 and
/// decodes to a 12-byte nonce followed by a ciphertext that opens under
/// `key` to the UTF-8 bytes of `text` (as `encrypt_message` gives it).
/// Alone it opens to `text`; relayed behind a sender prefix that holds no
/// `": "`, it opens to the prefix, the joiner, and the whole of `text`.
pub proof fn lemma_strict_round_trip(
    key: Seq<u8>,
    sealed: Seq<char>,
    nonce: Seq<u8>,
    ciphertext: Seq<u8>,
    text: Seq<char>,
    prefix: Seq<char>,
    joiner: Seq<char>,
)
    requires
        forall|i: int| 0 <= i < sealed.len() ==> crate::crypto::is_base64_url_char(#[trigger] sealed[i]),
        nonce.len() == 12,
        base64_url_decode(encode_utf8(sealed)) == Some(nonce + ciphertext),
        aes256gcm_open(key, nonce, ciphertext) == Some(encode_utf8(text)),
        crate::client::has_no_separator(prefix),
    ensures
        opened_line_strict(key, encode_utf8(sealed), true, joiner) == Ok::<
            Seq<char>,
            StrictOpenError,
        >(text),
        opened_line_strict(
            key,
            encode_utf8(crate::crypto::relayed_line(prefix, sealed)),
            false,
            joiner,
        ) == Ok::<Seq<char>, StrictOpenError>(prefix + joiner + text),
{
    broadcast use vstd::utf8::encode_utf8_valid_utf8, vstd::utf8::encode_utf8_decode_utf8;

    let raw = nonce + ciphertext;
    assert(raw.take(12) =~= nonce);
    assert(raw.skip(12) =~= ciphertext);
    crate::crypto::lemma_fields_of_base64(sealed);
    assert(utf8_lossy(encode_utf8(sealed)) == sealed);
    let line = crate::crypto::relayed_line(prefix, sealed);
    crate::crypto::lemma_last_field_after_separator(prefix, sealed);
    crate::client::lemma_first_field_of_relayed(prefix, sealed);
    assert(utf8_lossy(encode_utf8(line)) == line);
}

/// The list-view client shows a relayed chat line with its sender: for
/// sealed text as in `lemma_strict_round_trip`, relayed behind a prefix
/// that holds no `": "` and does not start with `+`, the shown line is the
/// prefix, a space, and the whole of `text`; the sealed handshake opens to
/// `text`.
pub proof fn lemma_listed_line_keeps_sender(
    key: Seq<u8>,
    sealed: Seq<char>,
    nonce: Seq<u8>,
    ciphertext: Seq<u8>,
    text: Seq<char>,
    prefix: Seq<char>,
)
    requires
        forall|i: int| 0 <= i < sealed.len() ==> crate::crypto::is_base64_url_char(#[trigger] sealed[i]),
        nonce.len() == 12,
        base64_url_decode(encode_utf8(sealed)) == Some(nonce + ciphertext),
        aes256gcm_open(key, nonce, ciphertext) == Some(encode_utf8(text)),
        crate::client::has_no_separator(prefix),
        prefix.len() == 0 || prefix[0] != '+',
    ensures
        shown_line_listed(key, encode_utf8(crate::crypto::relayed_line(prefix, sealed))) == Ok::<
            Seq<char>,
            IncomingError,
        >(prefix + seq![' '] + text),
        shown_line_strict(key, encode_utf8(crate::crypto::relayed_line(prefix, sealed)), ": "@)
            == Ok::<Seq<char>, IncomingError>(prefix + ": "@ + text),
        opened_line_listed(key, encode_utf8(sealed), true) == Ok::<Seq<char>, StrictOpenError>(
            text,
        ),
{
    broadcast use vstd::utf8::encode_utf8_valid_utf8, vstd::utf8::encode_utf8_decode_utf8;

    lemma_strict_round_trip(key, sealed, nonce, ciphertext, text, prefix, " "@);
    lemma_strict_round_trip(key, sealed, nonce, ciphertext, text, prefix, ": "@);
    reveal_strlit(" ");
    assert(" "@ =~= seq![' ']);
    let line = crate::crypto::relayed_line(prefix, sealed);
    assert(utf8_lossy(encode_utf8(line)) == line);
    if prefix.len() == 0 {
        assert(line[0] == ':');
    } else {
        assert(line[0] == prefix[0]);
    }
}

} // verus!
