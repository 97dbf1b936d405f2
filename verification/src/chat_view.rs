//! The state of the chat window: the line being typed, the messages
//! received, and how far the view is scrolled back from the newest one.

use vstd::prelude::*;
use vstd::utf8::encode_utf8;
use crate::crypto::{encrypt_message, max_plaintext_len, opened_line, sealed_text, DecryptError};
use crate::emoji::{emoji_preprocessor, with_emojis};
use crate::line_client::{classify_command, command_of, ShellCommand};

verus! {

/// What reaches the window's loop from elsewhere.
pub enum AppEvent {
    /// The user pressed Enter: send the typed line.
    Submit,
    /// A line arrived from the server, ready to show.
    NetMessage(String),
    /// The connection to the server is gone.
    Quit,
}

/// A key press, as far as the window tells keys apart.
#[derive(Debug, Clone, Copy, PartialEq, Eq)]
pub enum KeyInput {
    Char(char),
    Backspace,
    Enter,
    Up,
    Down,
    PageUp,
    PageDown,
    Home,
    End,
    Esc,
    Other,
}

/// A terminal event, as far as the window tells them apart.
#[derive(Debug, Clone, Copy, PartialEq, Eq)]
pub enum InputEvent {
    Key(KeyInput),
    ScrollUp,
    ScrollDown,
    Other,
}

/// What the loop does after a terminal event.
#[derive(Debug, Clone, Copy, PartialEq, Eq)]
pub enum InputOutcome {
    /// Go on.
    Continue,
    /// Put an `AppEvent::Submit` on the window's channel, and go on.
    Submit,
    /// Leave the loop without error.
    Exit,
}

/// What the loop does after an `AppEvent`.
#[derive(Debug, PartialEq, Eq)]
pub enum AppOutcome {
    /// Go on.
    Continue,
    /// Write this sealed line to the server, and go on.
    Send(String),
    /// The typed line was a command (it starts with `\`): leave for
    /// `\exit`, enter panic mode for `\p`, and go on for any other.
    Command(ShellCommand),
    /// Stop taking events from the channel until the next round.
    Stop,
}

/// The most messages the window holds: its scroll arithmetic is in `i16`.
pub open spec fn max_messages() -> int {
    0x7FFF
}

/// How a terminal event moves the scroll position before it is clamped.
pub open spec fn scrolled(scroll: int, event: InputEvent) -> int {
    match event {
        InputEvent::Key(KeyInput::Up) => scroll - 1,
        InputEvent::Key(KeyInput::Down) => scroll + 1,
        InputEvent::Key(KeyInput::PageUp) => scroll - 5,
        InputEvent::Key(KeyInput::PageDown) => scroll + 5,
        InputEvent::Key(KeyInput::Home) => -0x8000,
        InputEvent::Key(KeyInput::End) => 0,
        InputEvent::ScrollUp => scroll - 1,
        InputEvent::ScrollDown => scroll + 1,
        _ => scroll,
    }
}

/// `x` clamped into `[lo, hi]`.
pub open spec fn clamp(x: int, lo: int, hi: int) -> int {
    if x < lo {
        lo
    } else if x > hi {
        hi
    } else {
        x
    }
}

/// The rows inside the bordered message box of a window part `height`
/// rows tall (`u16::saturating_sub` of the two border rows).
pub open spec fn inner_rows(height: u16) -> int {
    if height >= 2 {
        height - 2
    } else {
        0
    }
}

/// The chat window's state.
pub struct ChatView {
    input: String,
    messages: Vec<String>,
    scroll: i16,
}

impl ChatView {
    /// The line being typed.
    pub closed spec fn typed(&self) -> Seq<char> {
        self.input@
    }

    /// The messages shown, oldest first.
    pub closed spec fn shown(&self) -> Seq<Seq<char>> {
        self.messages@.map_values(|m: String| m@)
    }

    /// How many lines the view is scrolled back from the newest message;
    /// 0 shows the newest, and the value is never positive.
    pub closed spec fn scroll(&self) -> int {
        self.scroll as int
    }

    /// The window holds no more than `max_messages` messages and is scrolled
    /// back by at most that many lines.
    #[verifier::type_invariant]
    pub open spec fn wf(&self) -> bool {
        &&& self.shown().len() <= max_messages()
        &&& -max_messages() <= self.scroll() <= 0
    }

    /// An empty window: no input, no messages, scrolled to the bottom.
    pub fn new() -> (v: Self)
        ensures
            v.typed().len() == 0,
            v.shown().len() == 0,
            v.scroll() == 0,
    {
        let v = ChatView { input: String::new(), messages: Vec::new(), scroll: 0 };
        assert(v.shown() =~= Seq::<Seq<char>>::empty());
        v
    }

    /// The line being typed.
    pub fn input(&self) -> (s: &String)
        ensures
            s@ == self.typed(),
    {
        &self.input
    }

    /// The messages, oldest first.
    pub fn messages(&self) -> (m: &Vec<String>)
        ensures
            m@.len() == self.shown().len(),
            forall|i: int| 0 <= i < m@.len() ==> #[trigger] m@[i]@ == self.shown()[i],
    {
        &self.messages
    }

    /// The scroll position.
    pub fn scroll_position(&self) -> (s: i16)
        ensures
            s == self.scroll(),
    {
        self.scroll
    }

    /// Takes in one terminal event. Characters are typed, Backspace deletes
    /// the last one, Enter asks to submit, Esc leaves; the arrows, page keys,
    /// Home, End and the mouse wheel scroll. After every event but Esc the
    /// scroll position is clamped so that the oldest message can be at the
    /// bottom of the view but no further.
    pub fn handle_input(&mut self, event: InputEvent) -> (outcome: InputOutcome)
        requires
            event != InputEvent::Key(KeyInput::Esc) ==> old(self).shown().len() >= 1,
            event == InputEvent::Key(KeyInput::PageUp) ==> old(self).scroll() >= -0x7FFB,
        ensures
            final(self).shown() == old(self).shown(),
            event == InputEvent::Key(KeyInput::Esc) ==> outcome == InputOutcome::Exit
                && *final(self) == *old(self),
            event != InputEvent::Key(KeyInput::Esc) ==> {
                &&& final(self).scroll() == clamp(
                    scrolled(old(self).scroll(), event),
                    -(old(self).shown().len() - 1),
                    0,
                )
                &&& outcome == (if event == InputEvent::Key(KeyInput::Enter) {
                    InputOutcome::Submit
                } else {
                    InputOutcome::Continue
                })
                &&& final(self).typed() == match event {
                    InputEvent::Key(KeyInput::Char(c)) => old(self).typed().push(c),
                    InputEvent::Key(KeyInput::Backspace) => if old(self).typed().len() > 0 {
                        old(self).typed().drop_last()
                    } else {
                        old(self).typed()
                    },
                    _ => old(self).typed(),
                }
            },
    {
        proof {
            use_type_invariant(&*self);
        }
        let mut outcome = InputOutcome::Continue;
        let mut next: i16 = self.scroll;
        match event {
            InputEvent::Key(key) => match key {
                KeyInput::Char(c) => {
                    let mut typed = String::new();
                    std::mem::swap(&mut typed, &mut self.input);
                    typed.push(c);
                    self.input = typed;
                },
                KeyInput::Backspace => {
                    let mut typed = String::new();
                    std::mem::swap(&mut typed, &mut self.input);
                    typed.pop();
                    self.input = typed;
                },
                KeyInput::Enter => {
                    outcome = InputOutcome::Submit;
                },
                KeyInput::Up => next = self.scroll - 1,
                KeyInput::Down => next = self.scroll + 1,
                KeyInput::PageUp => next = self.scroll - 5,
                KeyInput::PageDown => next = self.scroll + 5,
                KeyInput::Home => next = i16::MIN,
                KeyInput::End => next = 0,
                KeyInput::Esc => {
                    return InputOutcome::Exit;
                },
                KeyInput::Other => {},
            },
            InputEvent::ScrollUp => next = self.scroll - 1,
            InputEvent::ScrollDown => next = self.scroll + 1,
            InputEvent::Other => {},
        }
        let max_offset = self.messages.len() as i16 - 1;
        self.scroll = if next < -max_offset {
            -max_offset
        } else if next > 0 {
            0
        } else {
            next
        };
        outcome
    }

    /// The range of messages that fit in a message box `height` rows tall
    /// (borders included), given the scroll position, which is first
    /// clamped so that the view does not scroll back past the oldest
    /// message.
    pub fn visible_window(&mut self, height: u16) -> (range: (usize, usize))
        requires
            height <= 0x8001,
        ensures
            final(self).shown() == old(self).shown(),
            final(self).typed() == old(self).typed(),
            ({
                let n = old(self).shown().len() as int;
                let rows = inner_rows(height);
                let max_scroll = if n - rows > 0 {
                    n - rows
                } else {
                    0
                };
                let s = clamp(old(self).scroll(), -max_scroll, 0);
                let back = -s;
                &&& final(self).scroll() == s
                &&& range.0 == (if n - rows - back > 0 {
                    n - rows - back
                } else {
                    0
                })
                &&& range.1 == (if n - back > 0 {
                    n - back
                } else {
                    0
                })
            }),
            range.0 <= range.1 <= old(self).shown().len(),
            range.1 - range.0 <= inner_rows(height),
            old(self).shown().len() >= inner_rows(height) ==> range.1 - range.0 == inner_rows(height),
            final(self).scroll() == 0 ==> range.1 == old(self).shown().len(),
    {
        proof {
            use_type_invariant(&*self);
        }
        let rows_u: u16 = if height >= 2 {
            height - 2
        } else {
            0
        };
        let rows: i16 = rows_u as i16;
        let n: i16 = self.messages.len() as i16;
        let over: i16 = n - rows;
        let max_scroll: i16 = if over > 0 {
            over
        } else {
            0
        };
        self.scroll = if self.scroll < -max_scroll {
            -max_scroll
        } else if self.scroll > 0 {
            0
        } else {
            self.scroll
        };
        let back: i16 = -self.scroll;
        let first: i16 = n - rows - back;
        let start: usize = if first > 0 {
            first as usize
        } else {
            0
        };
        let last: i16 = n - back;
        let end: usize = if last > 0 {
            last as usize
        } else {
            0
        };
        (start, end)
    }

    /// Takes in one `AppEvent`. A submit of a line starting with `\` reports
    /// the command it names and clears it; a submit of any other non-empty
    /// line seals it under `key`, clears it, and scrolls to the newest message; a message from the
    /// server is shown with its emojis and scrolls to it; a quit stops the
    /// taking of events for this round.
    pub fn handle_app_event(&mut self, key: &[u8], event: AppEvent) -> (outcome: AppOutcome)
        requires
            key@.len() == 32,
            event is Submit ==> encode_utf8(old(self).typed()).len() <= max_plaintext_len(),
            event is NetMessage ==> old(self).shown().len() < max_messages(),
        ensures
            match event {
                AppEvent::Submit => if old(self).typed().len() > 0 && old(self).typed()[0]
                    == '\\' {
                    &&& outcome == AppOutcome::Command(command_of(old(self).typed()))
                    &&& final(self).typed().len() == 0
                    &&& final(self).scroll() == 0
                    &&& final(self).shown() == old(self).shown()
                } else if old(self).typed().len() > 0 {
                    &&& outcome matches AppOutcome::Send(sealed) && (exists|nonce: Seq<u8>|
                        nonce.len() == 12 && sealed@ == sealed_text(key@, nonce, old(self).typed()))
                        && opened_line(key@, encode_utf8(sealed@), true) == Ok::<
                        Seq<char>,
                        DecryptError,
                    >(old(self).typed())
                    &&& final(self).typed().len() == 0
                    &&& final(self).scroll() == 0
                    &&& final(self).shown() == old(self).shown()
                } else {
                    outcome == AppOutcome::Continue && *final(self) == *old(self)
                },
                AppEvent::NetMessage(m) => {
                    &&& outcome == AppOutcome::Continue
                    &&& final(self).shown() == old(self).shown().push(with_emojis(m@))
                    &&& final(self).scroll() == 0
                    &&& final(self).typed() == old(self).typed()
                },
                AppEvent::Quit => outcome == AppOutcome::Stop && *final(self) == *old(self),
            },
    {
        proof {
            use_type_invariant(&*self);
        }
        match event {
            AppEvent::Submit => {
                let typed = crate::text::chars_of(self.input.as_str());
                if typed.len() == 0 {
                    AppOutcome::Continue
                } else if typed[0] == '\\' {
                    let command = classify_command(self.input.as_str());
                    self.input = String::new();
                    self.scroll = 0;
                    AppOutcome::Command(command)
                } else {
                    let sealed = encrypt_message(key, self.input.as_str());
                    self.input = String::new();
                    self.scroll = 0;
                    AppOutcome::Send(sealed)
                }
            },
            AppEvent::NetMessage(m) => {
                let line = emoji_preprocessor(m);
                let mut messages = Vec::new();
                std::mem::swap(&mut messages, &mut self.messages);
                messages.push(line);
                self.messages = messages;
                self.scroll = 0;
                assert(self.shown() =~= old(self).shown().push(with_emojis(m@)));
                AppOutcome::Continue
            },
            AppEvent::Quit => AppOutcome::Stop,
        }
    }
}

} // verus!
