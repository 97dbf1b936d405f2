//! The server's side of one client connection: the passphrase handshake,
//! the client's name, and the chat that follows, as a state machine. The
//! caller does the reading and writing; each step says what to do next.

use vstd::prelude::*;
use vstd::utf8::encode_utf8;
use crate::crypto::{
    encrypt_message, generate_key, lossy_string, opened_line, sealed_text, sha256_digest,
    utf8_lossy, DecryptError,
};
use crate::lines::{farewell_line, farewell_message, failed_login_text, failed_login_warning,
    welcome_line, welcome_message,
};
use crate::text::{chars_eq, chars_of, string_of, trim, trim_chars};

verus! {

/// The characters of a hyphenated lowercase UUID.
pub open spec fn is_uuid_char(c: char) -> bool {
    ||| '0' <= c <= '9'
    ||| 'a' <= c <= 'f'
    ||| c == '-'
}

/// A fresh random version-4 UUID in hyphenated lowercase form (uuid's
/// `Uuid::new_v4().to_string()`): 36 characters, hexadecimal digits and
/// hyphens. Which UUID, nothing promises.
#[verifier::external_body]
fn fresh_challenge() -> (c: String)
    ensures
        c@.len() == 36,
        forall|i: int| 0 <= i < c@.len() ==> is_uuid_char(#[trigger] c@[i]),
{
    uuid::Uuid::new_v4().to_string()
}

/// Where a connection stands.
#[derive(Debug, Clone, Copy, PartialEq, Eq)]
pub enum SessionPhase {
    /// The sealed challenge was sent; the client's answer is awaited.
    AwaitingHandshake,
    /// The handshake passed; the client's name is awaited.
    AwaitingName,
    /// The client is a member and chats.
    Chatting,
    /// The connection is over.
    Finished,
}

/// What one read from the client gave.
pub enum SessionInput {
    /// The bytes read; none at all means the client closed the connection.
    Received(Vec<u8>),
    /// The read failed.
    ReadFailed,
}

/// What the server does after a read.
#[derive(Debug)]
pub enum SessionAction {
    /// The handshake passed; read the name next.
    Proceed,
    /// The handshake failed: relay `warning` from the server to every
    /// member, then end the connection with an error.
    Reject { warning: String },
    /// The name could not be read: end the connection with an error.
    NameUnreadable,
    /// The client called itself `server`: end the connection quietly.
    Decline,
    /// Register the member `name`, then relay `welcome` from the server.
    Join { name: String, welcome: String },
    /// Relay `message` from the member.
    Relay { message: String },
    /// Unregister the member `name`, relay `farewell` from the server, and
    /// end the connection.
    Leave { name: String, farewell: String },
}

/// One client connection as the server sees it.
pub struct ServerSession {
    phase: SessionPhase,
    challenge: String,
    user: String,
}

/// The text of the bytes a client sent, trimmed, as the server reads it.
pub open spec fn answer_text(bytes: Seq<u8>) -> Seq<char> {
    trim(utf8_lossy(bytes))
}

impl ServerSession {
    /// Where the connection stands.
    pub closed spec fn phase(&self) -> SessionPhase {
        self.phase
    }

    /// The challenge that the client must send back.
    pub closed spec fn challenge(&self) -> Seq<char> {
        self.challenge@
    }

    /// The member's name, once it is known.
    pub closed spec fn user(&self) -> Seq<char> {
        self.user@
    }

    /// Opens a connection: draws a fresh challenge and seals it under the
    /// key of `passphrase`. The sealed text is what to send the client; it
    /// opens under that key to the challenge.
    pub fn start(passphrase: &str) -> (r: (ServerSession, String))
        ensures
            r.0.phase() == SessionPhase::AwaitingHandshake,
            r.0.challenge().len() == 36,
            forall|i: int|
                0 <= i < r.0.challenge().len() ==> is_uuid_char(#[trigger] r.0.challenge()[i]),
            exists|nonce: Seq<u8>|
                nonce.len() == 12 && r.1@ == sealed_text(
                    sha256_digest(encode_utf8(passphrase@)),
                    nonce,
                    r.0.challenge(),
                ),
            opened_line(sha256_digest(encode_utf8(passphrase@)), encode_utf8(r.1@), true) == Ok::<
                Seq<char>,
                DecryptError,
            >(r.0.challenge()),
    {
        let key = generate_key(passphrase);
        let challenge = fresh_challenge();
        proof {
            assert(vstd::utf8::is_ascii_chars(challenge@)) by {
                assert forall|i: int| 0 <= i < challenge@.len() implies '\0' <= #[trigger] challenge@[i]
                    <= '\u{7f}' by {
                    assert(is_uuid_char(challenge@[i]));
                }
            }
            vstd::utf8::is_ascii_chars_encode_utf8(challenge@);
        }
        let sealed = encrypt_message(key.as_slice(), challenge.as_str());
        let session = ServerSession {
            phase: SessionPhase::AwaitingHandshake,
            challenge,
            user: String::new(),
        };
        (session, sealed)
    }

    /// The challenge that the client must send back.
    pub fn challenge_text(&self) -> (c: &String)
        ensures
            c@ == self.challenge(),
    {
        &self.challenge
    }

    /// Where the connection stands.
    pub fn current_phase(&self) -> (p: SessionPhase)
        ensures
            p == self.phase(),
    {
        self.phase
    }

    /// Takes in what one read from the client gave, and says what to do.
    pub fn step(&mut self, input: SessionInput) -> (action: SessionAction)
        requires
            old(self).phase() != SessionPhase::Finished,
            old(self).phase() == SessionPhase::AwaitingHandshake ==> input is Received,
        ensures
            final(self).challenge() == old(self).challenge(),
            old(self).phase() == SessionPhase::AwaitingHandshake ==> {
                let answer = answer_text(input->Received_0@);
                if answer == old(self).challenge() {
                    &&& action is Proceed
                    &&& final(self).phase() == SessionPhase::AwaitingName
                } else {
                    &&& action matches SessionAction::Reject { warning } && warning@
                        == failed_login_warning()
                    &&& final(self).phase() == SessionPhase::Finished
                }
            },
            old(self).phase() == SessionPhase::AwaitingName ==> {
                if input is Received && input->Received_0@.len() > 0 {
                    let name = answer_text(input->Received_0@);
                    if name == "server"@ {
                        &&& action is Decline
                        &&& final(self).phase() == SessionPhase::Finished
                    } else {
                        &&& action matches SessionAction::Join { name: n, welcome } && n@ == name
                            && welcome@ == welcome_line(name)
                        &&& final(self).phase() == SessionPhase::Chatting
                        &&& final(self).user() == name
                    }
                } else {
                    &&& action is NameUnreadable
                    &&& final(self).phase() == SessionPhase::Finished
                }
            },
            old(self).phase() == SessionPhase::Chatting ==> {
                if input is Received && input->Received_0@.len() > 0 {
                    &&& action matches SessionAction::Relay { message } && message@ == answer_text(
                        input->Received_0@,
                    )
                    &&& final(self).phase() == SessionPhase::Chatting
                    &&& final(self).user() == old(self).user()
                } else {
                    &&& action matches SessionAction::Leave { name, farewell } && name@ == old(
                        self,
                    ).user() && farewell@ == farewell_line(old(self).user())
                    &&& final(self).phase() == SessionPhase::Finished
                }
            },
    {
        match self.phase {
            SessionPhase::AwaitingHandshake => {
                let bytes = match input {
                    SessionInput::Received(b) => b,
                    SessionInput::ReadFailed => {
                        proof {
                            assert(false);
                        }
                        Vec::new()
                    },
                };
                let answer = trim_chars(&chars_of(lossy_string(&bytes).as_str()));
                let expected = chars_of(self.challenge.as_str());
                if chars_eq(&answer, &expected) {
                    self.phase = SessionPhase::AwaitingName;
                    SessionAction::Proceed
                } else {
                    self.phase = SessionPhase::Finished;
                    SessionAction::Reject { warning: failed_login_text() }
                }
            },
            SessionPhase::AwaitingName => {
                match input {
                    SessionInput::Received(bytes) if bytes.len() > 0 => {
                        let name = string_of(&trim_chars(&chars_of(lossy_string(&bytes).as_str())));
                        if chars_eq(&chars_of(name.as_str()), &chars_of("server")) {
                            self.phase = SessionPhase::Finished;
                            SessionAction::Decline
                        } else {
                            let welcome = welcome_message(name.as_str());
                            self.phase = SessionPhase::Chatting;
                            self.user = name.clone();
                            SessionAction::Join { name, welcome }
                        }
                    },
                    _ => {
                        self.phase = SessionPhase::Finished;
                        SessionAction::NameUnreadable
                    },
                }
            },
            SessionPhase::Chatting => {
                match input {
                    SessionInput::Received(bytes) if bytes.len() > 0 => {
                        let message = string_of(
                            &trim_chars(&chars_of(lossy_string(&bytes).as_str())),
                        );
                        SessionAction::Relay { message }
                    },
                    _ => {
                        let farewell = farewell_message(self.user.as_str());
                        self.phase = SessionPhase::Finished;
                        SessionAction::Leave { name: self.user.clone(), farewell }
                    },
                }
            },
            SessionPhase::Finished => {
                proof {
                    assert(false);
                }
                SessionAction::NameUnreadable
            },
        }
    }
}

} // verus!

verus! {

/// A client that sends back the UTF-8 bytes of the challenge it opened
/// gives exactly the answer the server expects.
pub proof fn lemma_honest_answer_passes(challenge: Seq<char>)
    requires
        forall|i: int| 0 <= i < challenge.len() ==> is_uuid_char(#[trigger] challenge[i]),
    ensures
        answer_text(encode_utf8(challenge)) == challenge,
{
    broadcast use vstd::utf8::encode_utf8_valid_utf8, vstd::utf8::encode_utf8_decode_utf8;

    assert(utf8_lossy(encode_utf8(challenge)) == challenge);
    if challenge.len() > 0 {
        assert(is_uuid_char(challenge[0]));
        assert(is_uuid_char(challenge.last()));
        assert(!crate::text::is_white_space(challenge[0]));
        assert(!crate::text::is_white_space(challenge.last()));
    }
    assert(crate::text::trim_start(challenge) == challenge);
    assert(crate::text::trim_end(challenge) == challenge);
}

} // verus!

verus! {

/// Sealed text that a member sends reaches the other members unchanged:
/// base64 text has no white space for the server's trim to take.
pub proof fn lemma_sealed_text_relayed_unchanged(sealed: Seq<char>)
    requires
        forall|i: int| 0 <= i < sealed.len() ==> crate::crypto::is_base64_url_char(#[trigger] sealed[i]),
    ensures
        answer_text(encode_utf8(sealed)) == sealed,
{
    broadcast use vstd::utf8::encode_utf8_valid_utf8, vstd::utf8::encode_utf8_decode_utf8;

    assert(utf8_lossy(encode_utf8(sealed)) == sealed);
    if sealed.len() > 0 {
        assert(crate::crypto::is_base64_url_char(sealed[0]));
        assert(crate::crypto::is_base64_url_char(sealed.last()));
    }
    assert(crate::text::trim_start(sealed) == sealed);
    assert(crate::text::trim_end(sealed) == sealed);
}

} // verus!

verus! {

/// The server reads what a client sent as that text, trimmed, and nothing
/// more: for every text, the answer read from its UTF-8 bytes is the text
/// without its surrounding white space, every other character kept as it
/// is.
pub proof fn lemma_answer_text_of_text(s: Seq<char>)
    ensures
        answer_text(encode_utf8(s)) == trim(s),
        crate::text::trim_start(s) == s && crate::text::trim_end(s) == s ==> answer_text(
            encode_utf8(s),
        ) == s,
{
    broadcast use vstd::utf8::encode_utf8_valid_utf8, vstd::utf8::encode_utf8_decode_utf8;

    assert(utf8_lossy(encode_utf8(s)) == s);
}

} // verus!
