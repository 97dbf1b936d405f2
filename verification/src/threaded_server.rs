//! The rules of the thread-per-client server: no handshake, a colour fixed per user
//! when they join, and relayed lines without a time stamp.

use vstd::prelude::*;
use vstd::utf8::encode_utf8;
use crate::color::{color_index, palette, palette_color, wrapping_byte_sum};
use crate::crypto::lossy_string;
use crate::session::{answer_text, SessionInput};
use crate::text::{chars_of, extend_chars, string_of, trim_chars};

verus! {

/// The colour that the thread-per-client server gives a user: the palette entry that
/// the name's bytes select, with no exception for `server`.
pub fn threaded_color(username: &str) -> (color: &'static str)
    ensures
        color@ == palette(color_index(encode_utf8(username@))),
{
    palette_color(wrapping_byte_sum(username.as_bytes()))
}

/// A message as the thread-per-client server relays it: the sender's stored colour
/// (or the server marker where the sender is not a member), the name, the
/// colour reset, `": "`, and the message.
pub open spec fn threaded_line(sender_color: Option<Seq<char>>, sender: Seq<char>, message: Seq<
    char,
>) -> Seq<char> {
    let color = match sender_color {
        Some(c) => c,
        None => "+\x1B[31m"@,
    };
    color + sender + "\x1B[0m: "@ + message
}

/// A message as the thread-per-client server relays it: see `threaded_line`.
pub fn threaded_broadcast_line(sender_color: Option<&str>, sender: &str, message: &str) -> (line:
    String)
    ensures
        line@ == threaded_line(
            match sender_color {
                Some(c) => Some(c@),
                None => None,
            },
            sender@,
            message@,
        ),
{
    let mut out = match sender_color {
        Some(c) => chars_of(c),
        None => chars_of("+\x1B[31m"),
    };
    extend_chars(&mut out, &chars_of(sender));
    extend_chars(&mut out, &chars_of("\x1B[0m: "));
    extend_chars(&mut out, &chars_of(message));
    string_of(&out)
}

/// What the thread-per-client server does after a read.
#[derive(Debug)]
pub enum ThreadedAction {
    /// No name came: drop the connection.
    Close,
    /// Register `name` with `color`, then relay `welcome` from `server`.
    Join { name: String, color: &'static str, welcome: String },
    /// Relay `message` from the member.
    Relay { message: String },
    /// Unregister `name`, relay `farewell` from `server`, and end.
    Leave { name: String, farewell: String },
}

/// Where a connection to the thread-per-client server stands.
#[derive(Debug, Clone, Copy, PartialEq, Eq)]
pub enum ThreadedPhase {
    AwaitingName,
    Chatting,
    Finished,
}

/// One client connection as the thread-per-client server sees it.
pub struct ThreadedSession {
    phase: ThreadedPhase,
    user: String,
}

impl ThreadedSession {
    /// Where the connection stands.
    pub closed spec fn phase(&self) -> ThreadedPhase {
        self.phase
    }

    /// The member's name, once known.
    pub closed spec fn user(&self) -> Seq<char> {
        self.user@
    }

    /// A new connection, awaiting the client's name.
    pub fn new() -> (s: Self)
        ensures
            s.phase() == ThreadedPhase::AwaitingName,
    {
        ThreadedSession { phase: ThreadedPhase::AwaitingName, user: String::new() }
    }

    /// Takes in what one read from the client gave, and says what to do.
    pub fn step(&mut self, input: SessionInput) -> (action: ThreadedAction)
        requires
            old(self).phase() != ThreadedPhase::Finished,
        ensures
            old(self).phase() == ThreadedPhase::AwaitingName ==> {
                if input is Received && input->Received_0@.len() > 0 {
                    let name = answer_text(input->Received_0@);
                    let color = palette(color_index(encode_utf8(name)));
                    &&& action matches ThreadedAction::Join { name: n, color: c, welcome } && n@
                        == name && c@ == color && welcome@ == color + name
                        + "\x1B[0m just joined the chat :)"@
                    &&& final(self).phase() == ThreadedPhase::Chatting
                    &&& final(self).user() == name
                } else {
                    &&& action is Close
                    &&& final(self).phase() == ThreadedPhase::Finished
                }
            },
            old(self).phase() == ThreadedPhase::Chatting ==> {
                if input is Received && input->Received_0@.len() > 0 {
                    &&& action matches ThreadedAction::Relay { message } && message@ == answer_text(
                        input->Received_0@,
                    )
                    &&& final(self).phase() == ThreadedPhase::Chatting
                    &&& final(self).user() == old(self).user()
                } else {
                    &&& action matches ThreadedAction::Leave { name, farewell } && name@ == old(
                        self,
                    ).user() && farewell@ == palette(color_index(encode_utf8(old(self).user())))
                        + old(self).user() + "\x1B[0m left :("@
                    &&& final(self).phase() == ThreadedPhase::Finished
                }
            },
    {
        match self.phase {
            ThreadedPhase::AwaitingName => match input {
                SessionInput::Received(bytes) if bytes.len() > 0 => {
                    let name = string_of(&trim_chars(&chars_of(lossy_string(&bytes).as_str())));
                    let color = threaded_color(name.as_str());
                    let mut welcome = chars_of(color);
                    extend_chars(&mut welcome, &chars_of(name.as_str()));
                    extend_chars(&mut welcome, &chars_of("\x1B[0m just joined the chat :)"));
                    self.phase = ThreadedPhase::Chatting;
                    self.user = name.clone();
                    ThreadedAction::Join { name, color, welcome: string_of(&welcome) }
                },
                _ => {
                    self.phase = ThreadedPhase::Finished;
                    ThreadedAction::Close
                },
            },
            ThreadedPhase::Chatting => match input {
                SessionInput::Received(bytes) if bytes.len() > 0 => {
                    let message = string_of(
                        &trim_chars(&chars_of(lossy_string(&bytes).as_str())),
                    );
                    ThreadedAction::Relay { message }
                },
                _ => {
                    let color = threaded_color(self.user.as_str());
                    let mut farewell = chars_of(color);
                    extend_chars(&mut farewell, &chars_of(self.user.as_str()));
                    extend_chars(&mut farewell, &chars_of("\x1B[0m left :("));
                    self.phase = ThreadedPhase::Finished;
                    ThreadedAction::Leave { name: self.user.clone(), farewell: string_of(&farewell) }
                },
            },
            ThreadedPhase::Finished => {
                proof {
                    assert(false);
                }
                ThreadedAction::Close
            },
        }
    }
}

} // verus!

verus! {

/// A relayed line carries the message whole and unchanged: the line for a
/// longer message is the line for its beginning followed by the rest, the
/// line ends with the whole message, the sender's name stands in full
/// right after the colour, and a line from a non-member starts with the
/// `+` that marks server lines.
pub proof fn lemma_threaded_line_carries_message(
    sender_color: Option<Seq<char>>,
    sender: Seq<char>,
    message: Seq<char>,
    more: Seq<char>,
)
    ensures
        threaded_line(sender_color, sender, message + more) == threaded_line(
            sender_color,
            sender,
            message,
        ) + more,
        threaded_line(sender_color, sender, message).len() >= message.len(),
        threaded_line(sender_color, sender, message).skip(
            threaded_line(sender_color, sender, message).len() - message.len(),
        ) == message,
        ({
            let c = match sender_color {
                Some(c) => c,
                None => "+\x1B[31m"@,
            };
            let line = threaded_line(sender_color, sender, message);
            &&& line.take(c.len() as int) == c
            &&& line.subrange(c.len() as int, (c.len() + sender.len()) as int) == sender
        }),
        sender_color is None ==> threaded_line(sender_color, sender, message)[0] == '+',
{
    reveal_strlit("+\x1B[31m");
    reveal_strlit("\x1B[0m: ");
    let c = match sender_color {
        Some(c) => c,
        None => "+\x1B[31m"@,
    };
    let line = threaded_line(sender_color, sender, message);
    assert(threaded_line(sender_color, sender, message + more) =~= line + more);
    assert(line.skip(line.len() - message.len()) =~= message);
    assert(line.take(c.len() as int) =~= c);
    assert(line.subrange(c.len() as int, (c.len() + sender.len()) as int) =~= sender);
}

} // verus!
