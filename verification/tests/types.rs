use aethel::types::{
    digest, id_key, is_hex_id, is_verifying_key, valid_time, valid_window, verify_key_signature,
    SignatureError, MAX_UNIX_TIME,
};
use ed25519_dalek::{Signer, SigningKey};
use sha2::Digest;

#[test]
fn digest_is_domain_separated_and_length_prefixed() {
    let a = digest(b"A", b"[1,2,3]");
    let b = digest(b"B", b"[1,2,3]");
    let c = digest(b"A", b"[1,2]");
    assert_ne!(a, b);
    assert_ne!(a, c);
    assert_eq!(a, digest(b"A", b"[1,2,3]"));
}

#[test]
fn hex_ids_round_trip_and_reject_upper_case() {
    let key = id_key(&[0xab; 32]);
    assert!(is_hex_id(&key));
    assert!(!is_hex_id(&key.to_ascii_uppercase()));
    assert!(!is_hex_id(&key[..63]));
}

#[test]
fn windows_and_times_are_bounded() {
    assert!(valid_window(1, 1));
    assert!(!valid_window(0, 1));
    assert!(!valid_window(2, 1));
    assert!(!valid_window(1, MAX_UNIX_TIME + 1));
    assert!(valid_time(MAX_UNIX_TIME));
    assert!(!valid_time(0));
}

#[test]
fn signatures_verify_only_against_their_statement() {
    let key = SigningKey::from_bytes(&[7; 32]);
    let statement = digest(b"T", b"\"statement\"");
    let signature = key.sign(&statement).to_bytes();
    let public = key.verifying_key().to_bytes();
    assert_eq!(
        verify_key_signature(&public, &statement, &signature),
        Ok(())
    );
    assert_eq!(
        verify_key_signature(&public, &[0u8; 32], &signature),
        Err(SignatureError::InvalidSignature)
    );
    assert_eq!(
        verify_key_signature(&public, &statement, &signature[..63]),
        Err(SignatureError::InvalidSignature)
    );
    assert!(is_verifying_key(&public));
}

#[test]
fn the_digest_frames_the_domain_and_the_encoding_length() {
    let mut framed = b"AB".to_vec();
    framed.extend_from_slice(&3u64.to_be_bytes());
    framed.extend_from_slice(b"xyz");
    let expected: [u8; 32] = sha2::Sha256::digest(&framed).into();
    assert_eq!(digest(b"AB", b"xyz"), expected);
}

#[test]
fn ids_key_as_lower_case_hex() {
    let mut id = [0u8; 32];
    id[0] = 0x0f;
    id[31] = 0xa0;
    let key = id_key(&id);
    assert_eq!(key.len(), 64);
    assert!(key.starts_with("0f00"));
    assert!(key.ends_with("00a0"));
}
