use dogel::crypto::decrypt_private_key;
use dogel::crypto::decrypt_room_message;
use dogel::crypto::derive_bound_room_key;
use dogel::crypto::derive_room_key;
use dogel::crypto::encrypt_private_key;
use dogel::crypto::encrypt_room_message;
use dogel::crypto::fingerprint_from_public_key;
use dogel::crypto::generate_random_room_key;
use dogel::crypto::room_key_fingerprint;
use dogel::crypto::sign_bytes;
use dogel::crypto::validate_argon2id_params;
use dogel::crypto::verify_signature;
use dogel::crypto::Argon2idParams;
use dogel::crypto::CryptoError;
use dogel::crypto::SigningKey;
use dogel::primitives::SecretBytes;

#[test]
fn private_key_roundtrip() {
    let password = "correct horse battery staple";
    let plaintext = b"secret private key bytes";

    let encrypted = encrypt_private_key(plaintext, password).unwrap();
    let decrypted = decrypt_private_key(&encrypted, password).unwrap();

    assert_eq!(decrypted.expose(), plaintext);
}

#[test]
fn room_message_roundtrip() {
    let key = derive_room_key("123", "red wheelbarrow").unwrap();
    let plaintext = b"hello world";

    let (nonce, ciphertext) = encrypt_room_message(&key, plaintext).unwrap();
    let decrypted = decrypt_room_message(&key, &nonce, &ciphertext).unwrap();

    assert_eq!(decrypted, plaintext);
}

#[test]
fn another_key_does_not_open_a_message() {
    let (nonce, sealed) = encrypt_room_message(&[1u8; 32], b"hello").unwrap();
    assert_ne!(sealed, b"hello".to_vec());
    assert!(matches!(
        decrypt_room_message(&[2u8; 32], &nonce, &sealed),
        Err(CryptoError::Decrypt)
    ));
}

#[test]
fn sealing_twice_gives_other_bytes() {
    let (first_nonce, first) = encrypt_room_message(&[1u8; 32], b"hello").unwrap();
    let (second_nonce, second) = encrypt_room_message(&[1u8; 32], b"hello").unwrap();
    assert_ne!(first_nonce, second_nonce);
    assert_ne!(first, second);
    assert_eq!(first.len(), 5 + 16);
}

#[test]
fn fingerprints_are_eight_bytes_in_colon_hex() {
    let expected: Vec<String> = blake3::hash(b"key").as_bytes()[..8]
        .iter()
        .map(|byte| format!("{byte:02X}"))
        .collect();
    assert_eq!(fingerprint_from_public_key(b"key"), expected.join(":"));
    let key = [9u8; 32];
    assert_eq!(room_key_fingerprint(&key), fingerprint_from_public_key(&key));
}

#[test]
fn signatures_are_accepted_and_tampering_is_not() {
    let key = SigningKey::from_seed(SecretBytes::holding(vec![7u8; 32]));
    let signature = sign_bytes(&key, b"payload");
    let public = key.public_key();
    assert!(verify_signature(&public, b"payload", &signature).is_ok());
    assert!(verify_signature(&public, b"other", &signature).is_err());
    assert!(verify_signature(&public[..31], b"payload", &signature).is_err());
    assert!(verify_signature(&public, b"payload", &signature[..63]).is_err());
}

#[test]
fn public_keys_agree_with_the_signature_scheme() {
    let key = SigningKey::from_seed(SecretBytes::holding(vec![7u8; 32]));
    let expected = ed25519_dalek::SigningKey::from_bytes(&[7u8; 32])
        .verifying_key()
        .to_bytes();
    assert_eq!(key.public_key().to_vec(), expected.to_vec());
}

#[test]
fn bound_keys_depend_on_every_part() {
    let peers = vec!["a".to_string(), "b".to_string()];
    let others = vec!["ab".to_string()];
    let key = derive_bound_room_key("room", &peers, &[1u8; 32], 1);
    assert_eq!(key, derive_bound_room_key("room", &peers, &[1u8; 32], 1));
    assert_ne!(key, derive_bound_room_key("moor", &peers, &[1u8; 32], 1));
    assert_ne!(key, derive_bound_room_key("room", &others, &[1u8; 32], 1));
    assert_ne!(key, derive_bound_room_key("room", &peers, &[2u8; 32], 1));
    assert_ne!(key, derive_bound_room_key("room", &peers, &[1u8; 32], 2));
}

#[test]
fn random_room_keys_differ() {
    assert_ne!(generate_random_room_key(), generate_random_room_key());
}

#[test]
fn costly_key_derivations_are_refused() {
    let with = |memory_cost_kib, time_cost, parallelism, output_len| Argon2idParams {
        memory_cost_kib,
        time_cost,
        parallelism,
        output_len,
    };
    let message = |params: &Argon2idParams| validate_argon2id_params(params).unwrap_err().message();
    assert!(validate_argon2id_params(&with(262144, 10, 8, 32)).is_ok());
    assert!(message(&with(262145, 1, 1, 32))
        .contains("memory_cost_kib must be between 1 and 262144, got 262145"));
    assert!(message(&with(1, 11, 1, 32)).contains("time_cost must be between 1 and 10, got 11"));
    assert!(message(&with(1, 1, 0, 32)).contains("parallelism must be between 1 and 8, got 0"));
    assert!(message(&with(1, 1, 1, 31)).contains("output_len must be 32, got 31"));
}

#[test]
fn a_wrong_password_does_not_open_a_key_file() {
    let file = encrypt_private_key(b"secret", "right password").unwrap();
    assert!(matches!(
        decrypt_private_key(&file, "wrong password"),
        Err(CryptoError::Decrypt)
    ));
}
