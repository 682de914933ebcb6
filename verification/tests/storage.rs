use base64::engine::general_purpose::STANDARD;
use base64::Engine;
use chacha20poly1305::aead::Aead;
use chacha20poly1305::KeyInit;
use chacha20poly1305::XChaCha20Poly1305;
use chacha20poly1305::XNonce;
use dogel::crypto::decrypt_private_key;
use dogel::crypto::derive_key;
use dogel::crypto::fingerprint_from_public_key;
use dogel::crypto::Argon2idParams;
use dogel::crypto::EncryptedPrivateKeyFile;
use dogel::crypto::SigningKey;
use dogel::storage::history_line_error;
use dogel::storage::history_lines;
use dogel::storage::lock_file_content;
use dogel::storage::open_history_line;
use dogel::storage::settle_lock;
use dogel::storage::settle_unlock;
use dogel::storage::FileAttempt;
use dogel::storage::IdentityFiles;
use dogel::storage::IdentityProfile;
use dogel::storage::IdentityStore;
use dogel::storage::NetworkProfile;
use dogel::storage::ReadLine;
use dogel::storage::RoomHistoryDirection;
use dogel::storage::RoomHistoryEntry;
use dogel::storage::SigningProfile;
use dogel::storage::StorageError;
use dogel::storage::TrustedPeerRecord;
use dogel::storage::TrustedPeersFile;
use libp2p_identity::Keypair;
use serde_json::Value;
use std::path::PathBuf;

fn store(name: &str) -> IdentityStore {
    IdentityStore::at(PathBuf::from("/tmp").join(name))
}

fn serialised(entry: &RoomHistoryEntry) -> Vec<u8> {
    let mut fields = serde_json::Map::new();
    fields.insert("version".to_string(), Value::from(entry.version));
    fields.insert("room_id".to_string(), Value::from(entry.room_id.clone()));
    fields.insert(
        "message_id".to_string(),
        Value::from(entry.message_id.clone()),
    );
    fields.insert(
        "inbound".to_string(),
        Value::from(entry.direction == RoomHistoryDirection::Inbound),
    );
    fields.insert("peer_id".to_string(), Value::from(entry.peer_id.clone()));
    fields.insert("alias".to_string(), Value::from(entry.alias.clone()));
    fields.insert("timestamp_ms".to_string(), Value::from(entry.timestamp_ms));
    fields.insert("body".to_string(), Value::from(entry.body.clone()));
    serde_json::to_vec(&Value::Object(fields)).unwrap()
}

fn deserialised(bytes: &[u8]) -> RoomHistoryEntry {
    let value: Value = serde_json::from_slice(bytes).unwrap();
    let text = |name: &str| value[name].as_str().unwrap().to_string();
    RoomHistoryEntry {
        version: value["version"].as_u64().unwrap() as u32,
        room_id: text("room_id"),
        message_id: text("message_id"),
        direction: if value["inbound"].as_bool().unwrap() {
            RoomHistoryDirection::Inbound
        } else {
            RoomHistoryDirection::Outbound
        },
        peer_id: text("peer_id"),
        alias: text("alias"),
        timestamp_ms: value["timestamp_ms"].as_u64().unwrap(),
        body: text("body"),
    }
}

fn entry(room_id: &str, body: &str) -> RoomHistoryEntry {
    RoomHistoryEntry {
        version: 1,
        room_id: room_id.to_string(),
        message_id: "0123456789ABCDEF0123456789ABCDEF".to_string(),
        direction: RoomHistoryDirection::Outbound,
        peer_id: "peer-a".to_string(),
        alias: "alice".to_string(),
        timestamp_ms: 1,
        body: body.to_string(),
    }
}

fn sealed_cheaply(plaintext: &[u8], password: &str) -> EncryptedPrivateKeyFile {
    let kdf_params = Argon2idParams {
        memory_cost_kib: 8,
        time_cost: 1,
        parallelism: 1,
        output_len: 32,
    };
    let salt = [3u8; 16];
    let nonce = [4u8; 24];
    let key = derive_key(password, &salt, &kdf_params).unwrap();
    let cipher = XChaCha20Poly1305::new_from_slice(key.expose()).unwrap();
    let sealed = cipher
        .encrypt(XNonce::from_slice(&nonce), plaintext)
        .unwrap();
    EncryptedPrivateKeyFile {
        version: 1,
        kdf: "argon2id".to_string(),
        kdf_params,
        salt_b64: STANDARD.encode(salt),
        nonce_b64: STANDARD.encode(nonce),
        ciphertext_b64: STANDARD.encode(sealed),
    }
}

fn identity_files(alias: &str, password: &str) -> IdentityFiles {
    let network = Keypair::generate_ed25519();
    let seed = [5u8; 32];
    let public_key = ed25519_dalek::SigningKey::from_bytes(&seed)
        .verifying_key()
        .to_bytes();
    IdentityFiles {
        profile: IdentityProfile {
            alias: alias.to_string(),
            created_at_ms: 1,
            network: NetworkProfile {
                peer_id: network.public().to_peer_id().to_string(),
            },
            signing: SigningProfile {
                fingerprint: fingerprint_from_public_key(&public_key),
                public_key: STANDARD.encode(public_key),
            },
        },
        network_key: sealed_cheaply(&network.to_protobuf_encoding().unwrap(), password),
        signing_key: sealed_cheaply(&seed, password),
    }
}

#[test]
fn a_created_identity_is_described_by_its_files() {
    let store = store("dogel-test-created");

    let (created, files) = store
        .create_identity("Alice", "correct horse battery staple", false, 7)
        .unwrap();

    assert_eq!(created.alias, "Alice");
    assert_eq!(created.identity_dir.parts, vec!["identities", "Alice"]);
    assert_eq!(files.profile.alias, "Alice");
    assert_eq!(files.profile.created_at_ms, 7);
    assert_eq!(files.profile.network.peer_id, created.peer_id);
    assert_eq!(files.profile.signing.fingerprint, created.fingerprint);
    let public_key = STANDARD.decode(&files.profile.signing.public_key).unwrap();
    assert_eq!(fingerprint_from_public_key(&public_key), created.fingerprint);
    assert_eq!(files.network_key.kdf, "argon2id");
    assert_ne!(
        files.network_key.ciphertext_b64,
        files.signing_key.ciphertext_b64
    );
}

#[test]
fn a_created_network_key_opens_with_the_password() {
    let store = store("dogel-test-network-key");

    let (created, files) = store
        .create_identity("Alice", "correct horse battery staple", false, 7)
        .unwrap();

    let key = match decrypt_private_key(&files.network_key, "correct horse battery staple") {
        Ok(key) => key,
        Err(err) => panic!("{}", err.message()),
    };
    assert_eq!(key.expose().len(), 68);
    let pair = Keypair::from_protobuf_encoding(key.expose()).unwrap();
    assert_eq!(pair.public().to_peer_id().to_string(), created.peer_id);
}

#[test]
fn a_created_signing_key_opens_with_the_password() {
    let store = store("dogel-test-signing-key");

    let (created, files) = store
        .create_identity("Alice", "correct horse battery staple", false, 7)
        .unwrap();

    let seed = match decrypt_private_key(&files.signing_key, "correct horse battery staple") {
        Ok(seed) => seed,
        Err(err) => panic!("{}", err.message()),
    };
    assert_eq!(seed.expose().len(), 32);
    let key = SigningKey::from_seed(seed);
    assert_eq!(
        fingerprint_from_public_key(&key.public_key()),
        created.fingerprint
    );
}

#[test]
fn an_identity_is_unlocked_with_its_password() {
    let store = store("dogel-test-unlock");
    let files = identity_files("alice", "right");
    let peer_id = files.profile.network.peer_id.clone();
    let unlocked = store
        .unlock_identity("alice", "right", Some(files))
        .unwrap();
    assert_eq!(unlocked.alias, "alice");
    assert_eq!(unlocked.peer_id, peer_id);
    assert_eq!(
        unlocked.fingerprint,
        fingerprint_from_public_key(&unlocked.signing_key.public_key())
    );
}

#[test]
fn wrong_password_fails_to_unlock() {
    let store = store("dogel-test-password");

    let (_, files) = store.create_identity("alice", "right", false, 7).unwrap();

    let err = match store.unlock_identity("alice", "wrong", Some(files)) {
        Ok(_) => panic!("unlocked"),
        Err(err) => err,
    };
    assert!(matches!(err, StorageError::Crypto(_)));
}

#[test]
fn a_changed_profile_is_noticed() {
    let store = store("dogel-test-profile");
    let mut files = identity_files("alice", "right");
    files.profile.signing.fingerprint = "00".to_string();
    assert!(matches!(
        store.unlock_identity("alice", "right", Some(files)),
        Err(StorageError::FingerprintMismatch)
    ));
    let mut files = identity_files("alice", "right");
    files.signing_key = sealed_cheaply(b"short", "right");
    assert!(matches!(
        store.unlock_identity("alice", "right", Some(files)),
        Err(StorageError::InvalidSigningKeyLength(5))
    ));
    let mut files = identity_files("alice", "right");
    files.network_key = sealed_cheaply(b"noise", "right");
    assert!(matches!(
        store.unlock_identity("alice", "right", Some(files)),
        Err(StorageError::NetworkKeyDecoding(_))
    ));
}

#[test]
fn rejects_bad_alias() {
    let store = store("dogel-alias-test");
    assert!(matches!(
        store.create_identity("../evil", "pw", false, 1),
        Err(StorageError::InvalidAlias(_))
    ));
}

#[test]
fn room_history_roundtrip() {
    let store = store("dogel-history-test");
    let key = [42u8; 32];
    let first = RoomHistoryEntry {
        version: 1,
        room_id: "room-1".to_string(),
        message_id: "0123456789ABCDEF0123456789ABCDEF".to_string(),
        direction: RoomHistoryDirection::Outbound,
        peer_id: "peer-a".to_string(),
        alias: "alice".to_string(),
        timestamp_ms: 1,
        body: "hello".to_string(),
    };
    let second = RoomHistoryEntry {
        version: 1,
        room_id: "room-1".to_string(),
        message_id: "FEDCBA9876543210FEDCBA9876543210".to_string(),
        direction: RoomHistoryDirection::Inbound,
        peer_id: "peer-b".to_string(),
        alias: "bob".to_string(),
        timestamp_ms: 2,
        body: "world".to_string(),
    };

    let written = vec![
        store
            .append_room_history("alice", "room-1", &key, &first, &serialised(&first), true)
            .unwrap(),
        store
            .append_room_history("alice", "room-1", &key, &second, &serialised(&second), true)
            .unwrap(),
    ];
    assert!(!written[0].ciphertext_b64.contains("hello"));

    let read: Vec<ReadLine> = written
        .iter()
        .enumerate()
        .map(|(index, line)| {
            ReadLine::Entry(deserialised(
                &open_history_line(&key, index + 1, line).unwrap(),
            ))
        })
        .collect();
    let loaded = store
        .load_room_history("alice", "room-1", true, read)
        .unwrap();
    assert_eq!(loaded, vec![first, second]);
}

#[test]
fn another_key_does_not_open_the_history() {
    let store = store("dogel-history-test");
    let first = entry("room-1", "hello");
    let line = store
        .append_room_history("alice", "room-1", &[1; 32], &first, b"hello", true)
        .unwrap();
    assert!(matches!(
        open_history_line(&[2; 32], 1, &line),
        Err(StorageError::Crypto(_))
    ));
}

#[test]
fn the_first_bad_line_fails_the_history() {
    let store = store("dogel-history-test");
    let lines = vec![
        ReadLine::Entry(entry("room-1", "one")),
        ReadLine::Failed(history_line_error(2, "eof")),
        ReadLine::Entry(entry("room-2", "three")),
    ];
    match store.load_room_history("alice", "room-1", true, lines) {
        Err(err) => assert_eq!(err, StorageError::JsonDeserialize("line 2: eof".to_string())),
        Ok(_) => panic!("loaded"),
    }
    match store.load_room_history(
        "alice",
        "room-1",
        true,
        vec![ReadLine::Entry(entry("room-2", "one"))],
    ) {
        Err(err) => assert_eq!(err, StorageError::InvalidRoomId("room-2".to_string())),
        Ok(_) => panic!("loaded"),
    }
    assert!(matches!(
        store.load_room_history("alice", "room-1", false, Vec::new()),
        Err(StorageError::IdentityNotFound(_))
    ));
    assert!(matches!(
        store.load_room_history("alice", "../room", true, Vec::new()),
        Err(StorageError::InvalidRoomId(_))
    ));
}

#[test]
fn blank_lines_are_not_history() {
    let lines = history_lines("one\n\n  \r\nfour\r\n");
    let seen: Vec<(usize, &str)> = lines
        .iter()
        .map(|line| (line.number, line.text.as_str()))
        .collect();
    assert_eq!(seen, vec![(1, "one"), (4, "four")]);
}

#[test]
fn identities_are_kept_apart() {
    let store = store("dogel-test-paths");
    assert_eq!(store.root(), &PathBuf::from("/tmp/dogel-test-paths"));
    assert_eq!(
        store.trusted_peers_path("a").parts,
        vec!["identities", "a", "trusted_peers.toml"]
    );
    assert_eq!(
        store.room_history_path("a", "r").parts,
        vec!["identities", "a", "history", "r.jsonl"]
    );
    assert_eq!(
        store.identity_lock_path("a").parts,
        vec!["identities", "a", "session.lock"]
    );
}

#[test]
fn an_identity_is_created_once() {
    let store = store("dogel-test-once");
    assert!(matches!(
        store.create_identity("alice", "password", true, 1),
        Err(StorageError::IdentityAlreadyExists(_))
    ));
    assert!(matches!(
        store.unlock_identity("alice", "password", None),
        Err(StorageError::IdentityNotFound(_))
    ));
}

fn record(peer_id: &str, key: &str) -> TrustedPeerRecord {
    TrustedPeerRecord {
        peer_id: peer_id.to_string(),
        alias: "bob".to_string(),
        signing_public_key_b64: key.to_string(),
        fingerprint: "AA".to_string(),
        trusted_at_ms: 1,
        last_seen_at_ms: 2,
    }
}

#[test]
fn pins_are_replaced_sorted_and_forgotten() {
    let store = store("dogel-test-pins");
    let file = store
        .trust_peer("alice", record("b", "1"), true, None)
        .unwrap();
    let file = store
        .trust_peer("alice", record("a", "2"), true, Some(file))
        .unwrap();
    let file = store
        .trust_peer("alice", record("b", "3"), true, Some(file))
        .unwrap();
    let peers = store
        .load_trusted_peers("alice", true, Some(file.duplicate()))
        .unwrap();
    let seen: Vec<(&str, &str)> = peers
        .iter()
        .map(|peer| (peer.peer_id.as_str(), peer.signing_public_key_b64.as_str()))
        .collect();
    assert_eq!(seen, vec![("a", "2"), ("b", "3")]);

    let (removed, file) = store
        .remove_trusted_peer("alice", "a", true, Some(file))
        .unwrap();
    assert!(removed);
    assert_eq!(file.peers.len(), 1);
    let (removed, _) = store
        .remove_trusted_peer("alice", "a", true, Some(file))
        .unwrap();
    assert!(!removed);
    assert!(matches!(
        store.load_trusted_peers("alice", false, Some(TrustedPeersFile { peers: Vec::new() })),
        Err(StorageError::IdentityNotFound(_))
    ));
}

#[test]
fn a_session_lock_is_taken_once() {
    assert_eq!(lock_file_content(7, 9), "pid=7\ncreated_at_ms=9\n");
    assert!(settle_lock("alice", "/lock", FileAttempt::Done).is_ok());
    assert!(matches!(
        settle_lock("alice", "/lock", FileAttempt::Unexpected),
        Err(StorageError::IdentityAlreadyActive { .. })
    ));
    assert!(matches!(
        settle_lock("alice", "/lock", FileAttempt::Failed("full".to_string())),
        Err(StorageError::Io { .. })
    ));
    assert!(settle_unlock("/lock", FileAttempt::Unexpected).is_ok());
    assert!(settle_unlock("/lock", FileAttempt::Failed("busy".to_string())).is_err());
}

#[test]
fn a_lock_is_held_until_it_is_released() {
    let store = store("dogel-test-lock");
    let mut file: Option<String> = None;
    let mut acquire = |file: &mut Option<String>, content: String| {
        let place = store.acquire_identity_lock("alice", true).unwrap();
        let attempt = if file.is_some() {
            FileAttempt::Unexpected
        } else {
            *file = Some(content);
            FileAttempt::Done
        };
        settle_lock("alice", &place.parts.join("/"), attempt)
    };
    assert!(acquire(&mut file, lock_file_content(1, 2)).is_ok());
    for _ in 0..2 {
        assert!(matches!(
            acquire(&mut file, lock_file_content(3, 4)),
            Err(StorageError::IdentityAlreadyActive { alias, path })
                if alias == "alice" && path == "identities/alice/session.lock"
        ));
        assert_eq!(file, Some(lock_file_content(1, 2)));
    }
    file = None;
    assert!(settle_unlock("lock", FileAttempt::Done).is_ok());
    assert!(settle_unlock("lock", FileAttempt::Unexpected).is_ok());
    assert!(acquire(&mut file, lock_file_content(5, 6)).is_ok());
}
