//! The lines that the server sends to every member: announcements and
//! relayed messages, each stamped with the sender's colour.

use vstd::prelude::*;
use crate::color::{get_color, user_color};
use crate::text::{chars_of, extend_chars, string_of};

verus! {

/// The warning that the server relays when a client fails the handshake.
pub open spec fn failed_login_warning() -> Seq<char> {
    "WARNING: Attempted login with invalid passphrase!"@
}

/// The announcement that `name` joined.
pub open spec fn welcome_line(name: Seq<char>) -> Seq<char> {
    user_color(name) + name + "\x1B[0m just joined the chat :)"@
}

/// The announcement that `name` left.
pub open spec fn farewell_line(name: Seq<char>) -> Seq<char> {
    user_color(name) + name + "\x1B[0m left :("@
}

/// What stands before `": "` in a relayed line: the sender's colour, the
/// time in brackets, the sender's name, and the colour reset.
pub open spec fn broadcast_prefix(sender: Seq<char>, time: Seq<char>) -> Seq<char> {
    user_color(sender) + "\u{276E}"@ + time + "\u{276F} "@ + sender + "\u{276F}\x1B[0m"@
}

/// A message as the server relays it from `sender` at `time`.
pub open spec fn broadcast_line(sender: Seq<char>, time: Seq<char>, message: Seq<char>) -> Seq<
    char,
> {
    broadcast_prefix(sender, time) + ": "@ + message
}

/// Whether `t` reads as `HH:MM:SS`: two-digit fields split by colons.
pub open spec fn is_clock_time(t: Seq<char>) -> bool {
    &&& t.len() == 8
    &&& t[2] == ':'
    &&& t[5] == ':'
    &&& forall|i: int|
        0 <= i < 8 && i != 2 && i != 5 ==> '0' <= #[trigger] t[i] <= '9'
}

/// The local wall-clock time as `HH:MM:SS` (chrono's `Local::now()`
/// formatted with `%H:%M:%S`). Which time it is, nothing promises.
#[verifier::external_body]
pub fn get_time() -> (t: String)
    ensures
        is_clock_time(t@),
{
    chrono::Local::now().format("%H:%M:%S").to_string()
}

/// The warning relayed when a client fails the handshake.
pub fn failed_login_text() -> (w: String)
    ensures
        w@ == failed_login_warning(),
{
    string_of(&chars_of("WARNING: Attempted login with invalid passphrase!"))
}

/// The announcement that `name` joined the chat.
pub fn welcome_message(name: &str) -> (line: String)
    ensures
        line@ == welcome_line(name@),
{
    let mut out = chars_of(get_color(name));
    extend_chars(&mut out, &chars_of(name));
    extend_chars(&mut out, &chars_of("\x1B[0m just joined the chat :)"));
    string_of(&out)
}

/// The announcement that `name` left the chat.
pub fn farewell_message(name: &str) -> (line: String)
    ensures
        line@ == farewell_line(name@),
{
    let mut out = chars_of(get_color(name));
    extend_chars(&mut out, &chars_of(name));
    extend_chars(&mut out, &chars_of("\x1B[0m left :("));
    string_of(&out)
}

/// `message` as relayed from `sender` at `time`.
pub fn format_broadcast(sender: &str, time: &str, message: &str) -> (line: String)
    ensures
        line@ == broadcast_line(sender@, time@, message@),
{
    let mut out = chars_of(get_color(sender));
    extend_chars(&mut out, &chars_of("\u{276E}"));
    extend_chars(&mut out, &chars_of(time));
    extend_chars(&mut out, &chars_of("\u{276F} "));
    extend_chars(&mut out, &chars_of(sender));
    extend_chars(&mut out, &chars_of("\u{276F}\x1B[0m"));
    extend_chars(&mut out, &chars_of(": "));
    extend_chars(&mut out, &chars_of(message));
    string_of(&out)
}

/// `message` as relayed from `sender`, stamped with the current time.
pub fn stamped_line(sender: &str, message: &str) -> (line: String)
    ensures
        exists|t: Seq<char>| is_clock_time(t) && line@ == broadcast_line(sender@, t, message@),
{
    let time = get_time();
    format_broadcast(sender, time.as_str(), message)
}

} // verus!

verus! {

/// The join and leave announcements name the member in full: each is the
/// member's colour, the whole name, and the fixed ending, so the name can
/// be read back from between the two.
pub proof fn lemma_announcements_name_member(name: Seq<char>)
    ensures
        ({
            let c = user_color(name);
            let w = welcome_line(name);
            let f = farewell_line(name);
            &&& w.take(c.len() as int) == c
            &&& w.subrange(c.len() as int, (c.len() + name.len()) as int) == name
            &&& w.skip((c.len() + name.len()) as int) == "\x1B[0m just joined the chat :)"@
            &&& f.take(c.len() as int) == c
            &&& f.subrange(c.len() as int, (c.len() + name.len()) as int) == name
            &&& f.skip((c.len() + name.len()) as int) == "\x1B[0m left :("@
        }),
{
    let c = user_color(name);
    let w = welcome_line(name);
    let f = farewell_line(name);
    assert(w.take(c.len() as int) =~= c);
    assert(w.subrange(c.len() as int, (c.len() + name.len()) as int) =~= name);
    assert(w.skip((c.len() + name.len()) as int) =~= "\x1B[0m just joined the chat :)"@);
    assert(f.take(c.len() as int) =~= c);
    assert(f.subrange(c.len() as int, (c.len() + name.len()) as int) =~= name);
    assert(f.skip((c.len() + name.len()) as int) =~= "\x1B[0m left :("@);
}

} // verus!
