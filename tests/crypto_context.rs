use sshx::crypto::{generate_secret, nonce, CryptoError, Key, INBOUND, OUTBOUND, TAG_LEN};

#[test]
fn round_trip_restores_payload() {
    let key = Key::derive("correct horse");
    for payload in [&b""[..], b"a", b"hello terminal", &[0u8; 300][..]] {
        let sealed = key.encrypt(OUTBOUND, 1, 42, payload).unwrap();
        assert_eq!(sealed.len(), payload.len() + TAG_LEN);
        assert_eq!(key.decrypt(OUTBOUND, 1, 42, &sealed).unwrap(), payload.to_vec());
    }
}

#[test]
fn sealing_hides_the_payload() {
    let key = Key::derive("k");
    let sealed = key.encrypt(OUTBOUND, 1, 0, b"plain text here").unwrap();
    assert_ne!(&sealed[..15], b"plain text here");
}

#[test]
fn other_key_fails_authentication() {
    let a = Key::derive("alpha");
    let b = Key::derive("beta");
    let sealed = a.encrypt(OUTBOUND, 1, 0, b"secret output").unwrap();
    assert_eq!(b.decrypt(OUTBOUND, 1, 0, &sealed), Err(CryptoError::Authentication));
}

#[test]
fn tampering_or_wrong_nonce_fails() {
    let key = Key::derive("alpha");
    let mut sealed = key.encrypt(OUTBOUND, 1, 0, b"data").unwrap();
    assert_eq!(key.decrypt(INBOUND, 1, 0, &sealed), Err(CryptoError::Authentication));
    assert_eq!(key.decrypt(OUTBOUND, 2, 0, &sealed), Err(CryptoError::Authentication));
    assert_eq!(key.decrypt(OUTBOUND, 1, 4, &sealed), Err(CryptoError::Authentication));
    sealed[0] ^= 1;
    assert_eq!(key.decrypt(OUTBOUND, 1, 0, &sealed), Err(CryptoError::Authentication));
    assert_eq!(key.decrypt(OUTBOUND, 1, 0, b"short"), Err(CryptoError::Authentication));
}

#[test]
fn derive_is_deterministic() {
    let a = Key::derive("same");
    let b = Key::derive("same");
    let sealed = a.encrypt(OUTBOUND, 3, 9, b"x").unwrap();
    assert_eq!(b.decrypt(OUTBOUND, 3, 9, &sealed).unwrap(), b"x".to_vec());
    assert_eq!(a.encrypt(OUTBOUND, 3, 9, b"x").unwrap(), sealed);
}

#[test]
fn nonce_layout() {
    assert_eq!(
        nonce(OUTBOUND, 0x01020304, 0x0a0b),
        vec![0, 4, 3, 2, 1, 0x0b, 0x0a, 0, 0, 0, 0, 0]
    );
    assert_eq!(nonce(INBOUND, 1, 2)[0], 1);
}

#[test]
fn generated_secret_shape() {
    let a = generate_secret();
    let b = generate_secret();
    assert_eq!(a.chars().count(), 14);
    assert!(a.chars().all(|c| c.is_ascii_alphanumeric()));
    assert_ne!(a, b);
}
