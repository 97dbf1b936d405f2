use aes_gcm::aead::{Aead, KeyInit};
use aes_gcm::{Aes256Gcm, Nonce};
use base64::engine::general_purpose::URL_SAFE;
use base64::Engine;
use tchux::crypto::{decrypt_message, encrypt_message, generate_key};
use tchux::line_client::{
    classify_command, decrypt_or_notice, decrypt_strict, handshake_accepted, incoming_line_listed, history_file_name, incoming_line_strict,
    outgoing_line, truncate_history, ChatState, IncomingError, Outgoing, ShellCommand,
    StrictOpenError, Submitted,
};
use tchux::threaded_server::{threaded_broadcast_line, threaded_color, ThreadedAction, ThreadedPhase, ThreadedSession};
use tchux::session::SessionInput;

#[test]
fn handshake_phrase() {
    assert!(handshake_accepted("this is a cat >:) meow"));
    assert!(!handshake_accepted("this is a cat >:) meow "));
    assert!(!handshake_accepted(""));
}

#[test]
fn strict_opening() {
    let key = generate_key("pw");
    let sealed = encrypt_message(&key, "hey");
    assert_eq!(decrypt_strict(&key, sealed.as_bytes(), true, ": "), Ok("hey".to_string()));
    let line = format!("bob: {sealed}");
    assert_eq!(decrypt_strict(&key, line.as_bytes(), false, ": "), Ok("bob: hey".to_string()));
    assert_eq!(decrypt_strict(&key, line.as_bytes(), false, " "), Ok("bob hey".to_string()));
}

#[test]
fn strict_opening_errors() {
    let key = generate_key("pw");
    assert_eq!(decrypt_strict(&key, b"!!", true, " "), Err(StrictOpenError::Undecodable));
    let short = URL_SAFE.encode([0u8; 5]);
    assert_eq!(decrypt_strict(&key, short.as_bytes(), true, " "), Err(StrictOpenError::TooShort));
    let other = encrypt_message(&generate_key("other"), "x");
    assert_eq!(
        decrypt_strict(&key, other.as_bytes(), true, " "),
        Err(StrictOpenError::WrongPassphrase)
    );
    let nonce = [5u8; 12];
    let ct = Aes256Gcm::new(key[..].into()).encrypt(Nonce::from_slice(&nonce), &[0xffu8, 0xfe][..]).unwrap();
    let bad = URL_SAFE.encode([nonce.to_vec(), ct].concat());
    assert_eq!(decrypt_strict(&key, bad.as_bytes(), true, " "), Err(StrictOpenError::NotUtf8));
    assert_eq!(decrypt_message(&key, bad.as_bytes(), true), Ok("\u{FFFD}\u{FFFD}".to_string()));
}

#[test]
fn strict_incoming_lines() {
    let key = generate_key("pw");
    assert_eq!(incoming_line_strict(&key, b"+hello", " "), Ok("hello".to_string()));
    assert_eq!(incoming_line_strict(&key, b"", " "), Err(IncomingError::Empty));
    let sealed = encrypt_message(&key, "yo");
    let line = format!("\x1B[33mann\x1B[0m: {sealed}");
    assert_eq!(incoming_line_strict(&key, line.as_bytes(), ": "), Ok("\x1B[33mann\x1B[0m: yo".to_string()));
    assert_eq!(
        incoming_line_strict(&key, b"x: ???", " "),
        Err(IncomingError::Open(StrictOpenError::Undecodable))
    );
}

#[test]
fn commands() {
    assert_eq!(classify_command("\\exit"), ShellCommand::Exit);
    assert_eq!(classify_command("\\p"), ShellCommand::PanicMode);
    assert_eq!(classify_command("\\q"), ShellCommand::Unknown);
    assert_eq!(classify_command("\\exit now"), ShellCommand::Unknown);
}

#[test]
fn history_files() {
    assert_eq!(history_file_name("/usr/bin/zsh"), ".zsh_history");
    assert_eq!(history_file_name("zsh"), ".zsh_history");
    assert_eq!(history_file_name("/bin/bash"), ".bash_history");
    assert_eq!(history_file_name("sh"), ".bash_history");
    assert_eq!(history_file_name(""), ".bash_history");
}

#[test]
fn history_loses_its_last_ten_lines() {
    let lines: Vec<String> = (0..15).map(|i| format!("cmd {i}")).collect();
    let kept = truncate_history(lines);
    assert_eq!(kept, (0..5).map(|i| format!("cmd {i}")).collect::<Vec<_>>());
    let few: Vec<String> = (0..7).map(|i| i.to_string()).collect();
    assert!(truncate_history(few).is_empty());
    let ten: Vec<String> = (0..10).map(|i| i.to_string()).collect();
    assert!(truncate_history(ten).is_empty());
}

#[test]
fn outgoing_lines() {
    let key = generate_key("pw");
    assert!(matches!(outgoing_line(&key, "   \n"), Outgoing::Nothing));
    assert!(matches!(outgoing_line(&key, "  \\exit\n"), Outgoing::Command(ShellCommand::Exit)));
    assert!(matches!(outgoing_line(&key, "\\p"), Outgoing::Command(ShellCommand::PanicMode)));
    match outgoing_line(&key, "  hello world \n") {
        Outgoing::Send(sealed) => {
            assert_eq!(decrypt_message(&key, sealed.as_bytes(), true), Ok("hello world".to_string()))
        }
        other => panic!("{other:?}"),
    }
}

#[test]
fn list_view_chat_state() {
    let key = generate_key("pw");
    let mut s = ChatState::new(key);
    assert!(s.messages().is_empty());
    s.connect("zed");
    s.add_message("hi :wave: :sad:".to_string());
    assert_eq!(s.messages()[0], "hi :wave: 😢");
    assert_eq!(s.submit(true), Submitted::Nothing);
    for c in "yo".chars() {
        s.type_char(c);
    }
    match s.submit(true) {
        Submitted::Send(sealed) => {
            assert_eq!(decrypt_message(&key, sealed.as_bytes(), true), Ok("yo".to_string()))
        }
        other => panic!("{other:?}"),
    }
    assert_eq!(s.input_buffer(), "");
    for c in "\\exit".chars() {
        s.type_char(c);
    }
    assert_eq!(s.submit(true), Submitted::Exit);
    assert_eq!(s.input_buffer(), "\\exit");
    s.backspace();
    assert_eq!(s.input_buffer(), "\\exi");
    assert_eq!(s.submit(true), Submitted::Nothing);
    assert_eq!(s.input_buffer(), "");
    s.type_char('a');
    assert_eq!(s.submit(false), Submitted::Nothing);
    assert_eq!(s.input_buffer(), "");
}

#[test]
fn threaded_colors_and_lines() {
    // 115+101+114+118+101+114 = 663, 663 % 5 = 3
    assert_eq!(threaded_color("server"), "\x1B[35m");
    assert_eq!(threaded_color("alice"), "\x1B[32m");
    assert_eq!(threaded_broadcast_line(None, "server", "hi"), "+\x1B[31mserver\x1B[0m: hi");
    assert_eq!(
        threaded_broadcast_line(Some("\x1B[34m"), "bob", "yo"),
        "\x1B[34mbob\x1B[0m: yo"
    );
}

#[test]
fn threaded_session() {
    let mut s = ThreadedSession::new();
    match s.step(SessionInput::Received(b" bob\n".to_vec())) {
        ThreadedAction::Join { name, color, welcome } => {
            assert_eq!(name, "bob");
            assert_eq!(color, "\x1B[34m");
            assert_eq!(welcome, "\x1B[34mbob\x1B[0m just joined the chat :)");
        }
        other => panic!("{other:?}"),
    }
    match s.step(SessionInput::Received(b"hello ".to_vec())) {
        ThreadedAction::Relay { message } => assert_eq!(message, "hello"),
        other => panic!("{other:?}"),
    }
    match s.step(SessionInput::ReadFailed) {
        ThreadedAction::Leave { name, farewell } => {
            assert_eq!(name, "bob");
            assert_eq!(farewell, "\x1B[34mbob\x1B[0m left :(");
        }
        other => panic!("{other:?}"),
    }
    let mut t = ThreadedSession::new();
    assert!(matches!(t.step(SessionInput::Received(Vec::new())), ThreadedAction::Close));
    let mut u = ThreadedSession::new();
    assert!(matches!(u.step(SessionInput::Received(b"server".to_vec())), ThreadedAction::Join { .. }));
    let _ = ThreadedPhase::Finished;
}

#[test]
fn list_view_panic_mode_keeps_line() {
    let key = generate_key("pw");
    let mut s = ChatState::new(key);
    for c in "\\p".chars() {
        s.type_char(c);
    }
    assert_eq!(s.submit(true), Submitted::PanicMode);
    assert_eq!(s.input_buffer(), "\\p");
}

#[test]
fn list_view_wrong_passphrase_gives_notice() {
    let sealed = encrypt_message(&generate_key("right"), "hello");
    let wrong = generate_key("wrong");
    assert_eq!(
        decrypt_or_notice(&wrong, sealed.as_bytes(), true),
        Ok("Wrong passphrase! This action will be reported!".to_string())
    );
    let line = format!("bob: {}", encrypt_message(&generate_key("right"), "hello"));
    assert_eq!(
        incoming_line_listed(&wrong, line.as_bytes()),
        Ok("Wrong passphrase! This action will be reported!".to_string())
    );
    let right = generate_key("right");
    assert_eq!(decrypt_or_notice(&right, sealed.as_bytes(), true), Ok("hello".to_string()));
    assert!(decrypt_or_notice(&right, b"!!!", true).is_err());
}
