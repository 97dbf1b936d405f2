use tchux::chat_view::{AppEvent, AppOutcome, ChatView, InputEvent, InputOutcome, KeyInput};
use tchux::line_client::ShellCommand;
use tchux::crypto::{decrypt_message, generate_key};

fn key(c: char) -> InputEvent {
    InputEvent::Key(KeyInput::Char(c))
}

fn view_with(n: usize) -> ChatView {
    let k = generate_key("k");
    let mut v = ChatView::new();
    for i in 0..n {
        assert_eq!(v.handle_app_event(&k, AppEvent::NetMessage(format!("m{i}"))), AppOutcome::Continue);
    }
    v
}

#[test]
fn new_view_is_empty() {
    let v = ChatView::new();
    assert_eq!(v.input(), "");
    assert!(v.messages().is_empty());
    assert_eq!(v.scroll_position(), 0);
}

#[test]
fn typing_and_backspace() {
    let mut v = view_with(1);
    assert_eq!(v.handle_input(key('h')), InputOutcome::Continue);
    assert_eq!(v.handle_input(key('é')), InputOutcome::Continue);
    assert_eq!(v.input(), "hé");
    v.handle_input(InputEvent::Key(KeyInput::Backspace));
    assert_eq!(v.input(), "h");
    v.handle_input(InputEvent::Key(KeyInput::Backspace));
    v.handle_input(InputEvent::Key(KeyInput::Backspace));
    assert_eq!(v.input(), "");
}

#[test]
fn enter_asks_to_submit_and_esc_exits() {
    let mut v = view_with(1);
    assert_eq!(v.handle_input(InputEvent::Key(KeyInput::Enter)), InputOutcome::Submit);
    assert_eq!(v.handle_input(InputEvent::Key(KeyInput::Esc)), InputOutcome::Exit);
    let mut empty = ChatView::new();
    assert_eq!(empty.handle_input(InputEvent::Key(KeyInput::Esc)), InputOutcome::Exit);
}

#[test]
fn scrolling_is_clamped() {
    let mut v = view_with(10);
    v.handle_input(InputEvent::Key(KeyInput::Up));
    assert_eq!(v.scroll_position(), -1);
    v.handle_input(InputEvent::Key(KeyInput::PageUp));
    assert_eq!(v.scroll_position(), -6);
    v.handle_input(InputEvent::ScrollUp);
    assert_eq!(v.scroll_position(), -7);
    v.handle_input(InputEvent::Key(KeyInput::PageUp));
    assert_eq!(v.scroll_position(), -9);
    v.handle_input(InputEvent::Key(KeyInput::PageDown));
    assert_eq!(v.scroll_position(), -4);
    v.handle_input(InputEvent::ScrollDown);
    assert_eq!(v.scroll_position(), -3);
    v.handle_input(InputEvent::Key(KeyInput::Down));
    v.handle_input(InputEvent::Key(KeyInput::Down));
    v.handle_input(InputEvent::Key(KeyInput::Down));
    v.handle_input(InputEvent::Key(KeyInput::Down));
    assert_eq!(v.scroll_position(), 0);
    v.handle_input(InputEvent::Key(KeyInput::Home));
    assert_eq!(v.scroll_position(), -9);
    v.handle_input(InputEvent::Key(KeyInput::End));
    assert_eq!(v.scroll_position(), 0);
    v.handle_input(InputEvent::Other);
    assert_eq!(v.scroll_position(), 0);
}

#[test]
fn one_message_cannot_scroll() {
    let mut v = view_with(1);
    v.handle_input(InputEvent::Key(KeyInput::Home));
    assert_eq!(v.scroll_position(), 0);
}

#[test]
fn visible_window_follows_scroll() {
    let mut v = view_with(10);
    // height 5 leaves 3 rows inside the borders
    assert_eq!(v.visible_window(5), (7, 10));
    v.handle_input(InputEvent::Key(KeyInput::Up));
    assert_eq!(v.visible_window(5), (6, 9));
    v.handle_input(InputEvent::Key(KeyInput::Home));
    assert_eq!(v.scroll_position(), -9);
    assert_eq!(v.visible_window(5), (0, 3));
    assert_eq!(v.scroll_position(), -7);
}

#[test]
fn visible_window_with_room_to_spare() {
    let mut v = view_with(2);
    v.handle_input(InputEvent::Key(KeyInput::Up));
    assert_eq!(v.visible_window(20), (0, 2));
    assert_eq!(v.scroll_position(), 0);
    let mut empty = ChatView::new();
    assert_eq!(empty.visible_window(0), (0, 0));
    assert_eq!(empty.visible_window(1), (0, 0));
    let mut w = view_with(4);
    assert_eq!(w.visible_window(2), (4, 4));
}

#[test]
fn submit_seals_and_clears() {
    let k = generate_key("pw");
    let mut v = view_with(1);
    for c in "hi :happy:".chars() {
        v.handle_input(key(c));
    }
    v.handle_input(InputEvent::Key(KeyInput::Up));
    match v.handle_app_event(&k, AppEvent::Submit) {
        AppOutcome::Send(sealed) => {
            assert_eq!(decrypt_message(&k, sealed.as_bytes(), true), Ok("hi :happy:".to_string()))
        }
        other => panic!("{other:?}"),
    }
    assert_eq!(v.input(), "");
    assert_eq!(v.scroll_position(), 0);
}

#[test]
fn empty_submit_does_nothing() {
    let k = generate_key("pw");
    let mut v = ChatView::new();
    assert_eq!(v.handle_app_event(&k, AppEvent::Submit), AppOutcome::Continue);
}

#[test]
fn net_messages_are_shown_with_emojis() {
    let k = generate_key("pw");
    let mut v = view_with(3);
    v.handle_input(InputEvent::Key(KeyInput::Up));
    assert_eq!(v.handle_app_event(&k, AppEvent::NetMessage("  bob :heart: ".to_string())), AppOutcome::Continue);
    assert_eq!(v.messages().last().unwrap(), "bob ❤️");
    assert_eq!(v.messages().len(), 4);
    assert_eq!(v.scroll_position(), 0);
}

#[test]
fn quit_stops() {
    let k = generate_key("pw");
    let mut v = ChatView::new();
    assert_eq!(v.handle_app_event(&k, AppEvent::Quit), AppOutcome::Stop);
}

fn submit_typed(line: &str) -> (AppOutcome, ChatView) {
    let k = generate_key("pw");
    let mut v = view_with(2);
    for c in line.chars() {
        v.handle_input(key(c));
    }
    v.handle_input(InputEvent::Key(KeyInput::Up));
    let outcome = v.handle_app_event(&k, AppEvent::Submit);
    (outcome, v)
}

#[test]
fn exit_command_is_reported_not_sent() {
    let (outcome, v) = submit_typed("\\exit");
    assert_eq!(outcome, AppOutcome::Command(ShellCommand::Exit));
    assert_eq!(v.input(), "");
    assert_eq!(v.scroll_position(), 0);
    assert_eq!(v.messages().len(), 2);
}

#[test]
fn panic_command_is_reported_not_sent() {
    let (outcome, v) = submit_typed("\\p");
    assert_eq!(outcome, AppOutcome::Command(ShellCommand::PanicMode));
    assert_eq!(v.input(), "");
}

#[test]
fn unknown_command_is_dropped() {
    let (outcome, v) = submit_typed("\\q");
    assert_eq!(outcome, AppOutcome::Command(ShellCommand::Unknown));
    assert_eq!(v.input(), "");
    let (outcome, _) = submit_typed("\\exit now");
    assert_eq!(outcome, AppOutcome::Command(ShellCommand::Unknown));
}
