use aes_gcm::aead::{Aead, KeyInit};
use aes_gcm::{Aes256Gcm, Nonce};
use base64::engine::general_purpose::URL_SAFE;
use base64::Engine;
use tchux::crypto::{decrypt_message, encrypt_message, encrypt_with_nonce, generate_key, DecryptError};

fn hex(bytes: &[u8]) -> String {
    bytes.iter().map(|b| format!("{:02x}", b)).collect()
}

fn seal_by_hand(key: &[u8; 32], nonce: &[u8; 12], plain: &[u8]) -> String {
    let cipher = Aes256Gcm::new(key[..].into());
    let ct = cipher.encrypt(Nonce::from_slice(nonce), plain).unwrap();
    URL_SAFE.encode([nonce.to_vec(), ct].concat())
}

#[test]
fn key_is_sha256_of_passphrase() {
    let key = generate_key("abc");
    assert_eq!(hex(&key), "ba7816bf8f01cfea414140de5dae2223b00361a396177a9cb410ff61f20015ad");
}

#[test]
fn key_of_empty_passphrase() {
    let key = generate_key("");
    assert_eq!(hex(&key), "e3b0c44298fc1c149afbf4c8996fb92427ae41e4649b934ca495991b7852b855");
}

#[test]
fn sealing_with_a_nonce_matches_the_format() {
    let key = generate_key("secret");
    let nonce = [7u8; 12];
    let sealed = encrypt_with_nonce(&key, &nonce, "hello there");
    assert_eq!(sealed, seal_by_hand(&key, &nonce, b"hello there"));
    let raw = URL_SAFE.decode(&sealed).unwrap();
    assert_eq!(raw.len(), 12 + "hello there".len() + 16);
    assert_eq!(&raw[..12], &nonce);
    assert!(sealed.chars().all(|c| c.is_ascii_alphanumeric() || c == '-' || c == '_' || c == '='));
}

#[test]
fn sealed_text_differs_from_plaintext() {
    let key = generate_key("secret");
    let sealed = encrypt_with_nonce(&key, &[0u8; 12], "plain words");
    assert_ne!(sealed, "plain words");
    assert!(!sealed.contains("plain"));
}

#[test]
fn handshake_round_trip() {
    let key = generate_key("pass phrase");
    let sealed = encrypt_message(&key, "67e55044-10b1-426f-9247-bb680e5fe0c8");
    let opened = decrypt_message(&key, sealed.as_bytes(), true);
    assert_eq!(opened, Ok("67e55044-10b1-426f-9247-bb680e5fe0c8".to_string()));
}

#[test]
fn round_trip_of_unicode_text() {
    let key = generate_key("k");
    let text = "héllo wörld ❤️ 😊";
    let sealed = encrypt_message(&key, text);
    assert_eq!(decrypt_message(&key, sealed.as_bytes(), true), Ok(text.to_string()));
}

#[test]
fn round_trip_of_empty_text() {
    let key = generate_key("k");
    let sealed = encrypt_message(&key, "");
    assert_eq!(decrypt_message(&key, sealed.as_bytes(), true), Ok(String::new()));
}

#[test]
fn relayed_line_opens_with_sender_prefix() {
    let key = generate_key("pw");
    let sealed = encrypt_message(&key, "hi all");
    let line = format!("\x1B[32m\u{276E}12:00:00\u{276F} bob\u{276F}\x1B[0m: {}", sealed);
    let opened = decrypt_message(&key, line.as_bytes(), false);
    assert_eq!(
        opened,
        Ok("\x1B[32m\u{276E}12:00:00\u{276F} bob\u{276F}\x1B[0m hi all".to_string())
    );
}

#[test]
fn sender_is_text_before_first_separator() {
    let key = generate_key("pw");
    let sealed = encrypt_message(&key, "x");
    let line = format!("a: b: {}", sealed);
    assert_eq!(decrypt_message(&key, line.as_bytes(), false), Ok("a x".to_string()));
}

#[test]
fn fresh_nonces_give_different_texts() {
    let key = generate_key("pw");
    let a = encrypt_message(&key, "same");
    let b = encrypt_message(&key, "same");
    assert_ne!(a, b);
    assert_eq!(decrypt_message(&key, a.as_bytes(), true), Ok("same".to_string()));
    assert_eq!(decrypt_message(&key, b.as_bytes(), true), Ok("same".to_string()));
}

#[test]
fn wrong_passphrase_is_refused() {
    let sealed = encrypt_message(&generate_key("right"), "secret");
    assert_eq!(
        decrypt_message(&generate_key("wrong"), sealed.as_bytes(), true),
        Err(DecryptError::WrongPassphrase)
    );
}

#[test]
fn tampered_text_is_refused() {
    let key = generate_key("k");
    let sealed = encrypt_with_nonce(&key, &[1u8; 12], "message");
    let mut raw = URL_SAFE.decode(&sealed).unwrap();
    let last = raw.len() - 1;
    raw[last] ^= 1;
    let tampered = URL_SAFE.encode(raw);
    assert_eq!(decrypt_message(&key, tampered.as_bytes(), true), Err(DecryptError::WrongPassphrase));
}

#[test]
fn non_base64_is_undecodable() {
    let key = generate_key("k");
    assert_eq!(decrypt_message(&key, b"not base64!", true), Err(DecryptError::Undecodable));
    assert_eq!(decrypt_message(&key, b"sender: @@@@", false), Err(DecryptError::Undecodable));
}

#[test]
fn short_payload_is_too_short() {
    let key = generate_key("k");
    let short = URL_SAFE.encode([1u8, 2, 3]);
    assert_eq!(decrypt_message(&key, short.as_bytes(), true), Err(DecryptError::TooShort));
    assert_eq!(decrypt_message(&key, b"", true), Err(DecryptError::TooShort));
}

#[test]
fn nonce_without_tag_is_refused() {
    let key = generate_key("k");
    let only_nonce = URL_SAFE.encode([9u8; 12]);
    assert_eq!(
        decrypt_message(&key, only_nonce.as_bytes(), true),
        Err(DecryptError::WrongPassphrase)
    );
}

#[test]
fn invalid_utf8_plaintext_is_shown_lossily() {
    let key = generate_key("k");
    let nonce = [3u8; 12];
    let sealed = seal_by_hand(&key, &nonce, &[b'a', 0xff, b'b']);
    assert_eq!(decrypt_message(&key, sealed.as_bytes(), true), Ok("a\u{FFFD}b".to_string()));
}

#[test]
fn invalid_utf8_line_is_read_lossily() {
    let key = generate_key("k");
    let sealed = encrypt_message(&key, "ok");
    let mut line = vec![0xffu8, b':', b' '];
    line.extend_from_slice(sealed.as_bytes());
    assert_eq!(decrypt_message(&key, &line, false), Ok("\u{FFFD} ok".to_string()));
}

#[test]
fn sealed_text_length_and_padding() {
    let key = [0u8; 32];
    let empty = encrypt_message(&key, "");
    assert_eq!(empty.len(), 40);
    assert!(empty.ends_with("=="));
    let hi = encrypt_message(&key, "hi");
    assert_eq!(hi.len(), 40);
    assert!(!hi.contains('='));
    for (sealed, plain_len) in [(&empty, 0usize), (&hi, 2usize)] {
        assert!(sealed
            .chars()
            .all(|c| c.is_ascii_alphanumeric() || c == '-' || c == '_' || c == '='));
        let raw = URL_SAFE.decode(sealed.as_bytes()).unwrap();
        assert_eq!(raw.len(), 12 + plain_len + 16);
    }
}
