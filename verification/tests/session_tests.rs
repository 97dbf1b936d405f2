use tchux::client::{answer_handshake, incoming_line};
use tchux::crypto::{encrypt_message, generate_key, DecryptError};
use tchux::lines::format_broadcast;
use tchux::session::{ServerSession, SessionAction, SessionInput, SessionPhase};

fn passed_handshake(pass: &str) -> ServerSession {
    let (mut session, sealed) = ServerSession::start(pass);
    let challenge = answer_handshake(&generate_key(pass), sealed.as_bytes()).unwrap();
    let action = session.step(SessionInput::Received(challenge.into_bytes()));
    assert!(matches!(action, SessionAction::Proceed));
    session
}

#[test]
fn start_seals_a_uuid_challenge() {
    let (session, sealed) = ServerSession::start("pw");
    assert_eq!(session.current_phase(), SessionPhase::AwaitingHandshake);
    let challenge = answer_handshake(&generate_key("pw"), sealed.as_bytes()).unwrap();
    assert_eq!(challenge.len(), 36);
    assert!(challenge.chars().all(|c| c.is_ascii_hexdigit() || c == '-'));
    assert!(!challenge.chars().any(|c| c.is_ascii_uppercase()));
}

#[test]
fn challenges_are_fresh() {
    let (_, a) = ServerSession::start("pw");
    let (_, b) = ServerSession::start("pw");
    let key = generate_key("pw");
    assert_ne!(answer_handshake(&key, a.as_bytes()), answer_handshake(&key, b.as_bytes()));
}

#[test]
fn whole_session() {
    let mut session = passed_handshake("pw");
    assert_eq!(session.current_phase(), SessionPhase::AwaitingName);
    match session.step(SessionInput::Received(b"alice\n".to_vec())) {
        SessionAction::Join { name, welcome } => {
            assert_eq!(name, "alice");
            assert_eq!(welcome, "\x1B[32malice\x1B[0m just joined the chat :)");
        }
        other => panic!("{other:?}"),
    }
    assert_eq!(session.current_phase(), SessionPhase::Chatting);
    match session.step(SessionInput::Received(b"  hi there \r\n".to_vec())) {
        SessionAction::Relay { message } => assert_eq!(message, "hi there"),
        other => panic!("{other:?}"),
    }
    match session.step(SessionInput::Received(Vec::new())) {
        SessionAction::Leave { name, farewell } => {
            assert_eq!(name, "alice");
            assert_eq!(farewell, "\x1B[32malice\x1B[0m left :(");
        }
        other => panic!("{other:?}"),
    }
    assert_eq!(session.current_phase(), SessionPhase::Finished);
}

#[test]
fn handshake_answer_is_trimmed() {
    let (mut session, sealed) = ServerSession::start("pw");
    let challenge = answer_handshake(&generate_key("pw"), sealed.as_bytes()).unwrap();
    let answer = format!("  {challenge}\n");
    assert!(matches!(session.step(SessionInput::Received(answer.into_bytes())), SessionAction::Proceed));
}

#[test]
fn wrong_handshake_answer_is_rejected() {
    let (mut session, _) = ServerSession::start("pw");
    match session.step(SessionInput::Received(b"guess".to_vec())) {
        SessionAction::Reject { warning } => {
            assert_eq!(warning, "WARNING: Attempted login with invalid passphrase!")
        }
        other => panic!("{other:?}"),
    }
    assert_eq!(session.current_phase(), SessionPhase::Finished);
}

#[test]
fn empty_handshake_answer_is_rejected() {
    let (mut session, _) = ServerSession::start("pw");
    assert!(matches!(
        session.step(SessionInput::Received(Vec::new())),
        SessionAction::Reject { .. }
    ));
}

#[test]
fn wrong_passphrase_cannot_open_the_challenge() {
    let (_, sealed) = ServerSession::start("right");
    assert_eq!(
        answer_handshake(&generate_key("wrong"), sealed.as_bytes()),
        Err(DecryptError::WrongPassphrase)
    );
}

#[test]
fn name_server_is_declined() {
    let mut session = passed_handshake("pw");
    assert!(matches!(
        session.step(SessionInput::Received(b" server \n".to_vec())),
        SessionAction::Decline
    ));
    assert_eq!(session.current_phase(), SessionPhase::Finished);
}

#[test]
fn missing_name_ends_the_session() {
    let mut session = passed_handshake("pw");
    assert!(matches!(session.step(SessionInput::ReadFailed), SessionAction::NameUnreadable));
    let mut session = passed_handshake("pw");
    assert!(matches!(
        session.step(SessionInput::Received(Vec::new())),
        SessionAction::NameUnreadable
    ));
}

#[test]
fn read_failure_while_chatting_leaves() {
    let mut session = passed_handshake("pw");
    session.step(SessionInput::Received(b"bob".to_vec()));
    match session.step(SessionInput::ReadFailed) {
        SessionAction::Leave { name, farewell } => {
            assert_eq!(name, "bob");
            assert_eq!(farewell, "\x1B[34mbob\x1B[0m left :(");
        }
        other => panic!("{other:?}"),
    }
}

#[test]
fn server_lines_are_shown_without_plus() {
    let key = generate_key("pw");
    let line = format_broadcast("server", "10:00:00", "alice joined");
    assert_eq!(
        incoming_line(&key, line.as_bytes()),
        Ok("\x1B[31m\u{276E}10:00:00\u{276F} server\u{276F}\x1B[0m: alice joined".to_string())
    );
}

#[test]
fn member_lines_are_opened() {
    let key = generate_key("pw");
    let sealed = encrypt_message(&key, "secret words");
    let line = format_broadcast("bob", "10:00:00", &sealed);
    assert_eq!(
        incoming_line(&key, line.as_bytes()),
        Ok("\x1B[34m\u{276E}10:00:00\u{276F} bob\u{276F}\x1B[0m secret words".to_string())
    );
    assert_eq!(
        incoming_line(&generate_key("other"), line.as_bytes()),
        Err(DecryptError::WrongPassphrase)
    );
}

#[test]
fn relayed_message_round_trip_through_session() {
    let key = generate_key("pw");
    let mut session = passed_handshake("pw");
    session.step(SessionInput::Received(b"carol".to_vec()));
    let sealed = encrypt_message(&key, "hello :happy:");
    let relayed = match session.step(SessionInput::Received(sealed.into_bytes())) {
        SessionAction::Relay { message } => message,
        other => panic!("{other:?}"),
    };
    let line = format_broadcast("carol", "09:09:09", &relayed);
    let shown = incoming_line(&key, line.as_bytes()).unwrap();
    // "carol" = 529, 529 % 5 = 4
    assert_eq!(shown, "\x1B[36m\u{276E}09:09:09\u{276F} carol\u{276F}\x1B[0m hello :happy:");
}
