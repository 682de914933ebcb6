use dogel::ids::deterministic_dm_room_id;
use dogel::ids::generate_invite_room_id;
use dogel::ids::generate_message_id;
use dogel::ids::is_valid_message_id;
use dogel::ids::validate_room_id;
use dogel::peer::PeerId;
use dogel::policy::contains_link_like_token;
use dogel::policy::contains_rejected_control_char;
use dogel::policy::enforce_message_policy;
use dogel::policy::is_domain_like;
use dogel::policy::is_link_like_token;
use dogel::policy::MessagePolicy;
use dogel::protocol::canonical_peer_list;
use libp2p_identity::Keypair;

#[test]
fn links_are_recognised() {
    for text in [
        "see https://a",
        "HTTP://x",
        "www.x",
        "(example.org)",
        "github.com/user/repo",
        "t.me/name",
        "me@example.org",
        "a.co.",
        "\"x.dev\"",
    ] {
        assert!(contains_link_like_token(text), "{text}");
    }
    for text in [
        "hello world",
        "3.14",
        "e.g.",
        "a..b",
        ".com",
        "x.y",
        "me@home",
        "wait...",
        "v1.2.3",
    ] {
        assert!(!contains_link_like_token(text), "{text}");
    }
}

#[test]
fn domains_have_labels_and_an_ending() {
    assert!(is_domain_like("example.org"));
    assert!(is_domain_like("a-b.example.org"));
    assert!(!is_domain_like("localhost"));
    assert!(!is_domain_like("example.o"));
    assert!(!is_domain_like("example.123"));
    assert!(is_link_like_token("<example.org>"));
}

#[test]
fn control_characters_are_found() {
    assert!(contains_rejected_control_char("a\tb"));
    assert!(contains_rejected_control_char("a\u{85}b"));
    assert!(!contains_rejected_control_char("a b"));
}

#[test]
fn every_rule_of_the_policy_rejects() {
    let mut policy = MessagePolicy::strict();
    let mut reason = |text: &str| {
        enforce_message_policy(text, &mut policy, 1)
            .unwrap_err()
            .lines()
            .last()
            .unwrap()
            .to_string()
    };
    assert_eq!(reason(""), "  empty messages are not allowed");
    assert_eq!(
        reason(&"x".repeat(513)),
        "  message is too long: 513 chars, max 512 chars"
    );
    assert_eq!(reason("a\nb"), "  multiline input is not allowed");
    assert_eq!(reason("a\u{7}b"), "  control characters are not allowed");
    assert_eq!(reason("a.example.org"), "  links are not allowed in strict mode");
    assert!(policy.sent_timestamps_ms.is_empty());
}

#[test]
fn the_rate_window_slides() {
    let mut policy = MessagePolicy::relaxed();
    for i in 0..16 {
        assert!(enforce_message_policy("x", &mut policy, i).is_ok());
    }
    assert!(enforce_message_policy("x", &mut policy, 10_000).is_err());
    assert!(enforce_message_policy("x", &mut policy, 10_001).is_ok());
    assert!(enforce_message_policy("x", &mut policy, 10_001).is_err());
}

#[test]
fn generated_ids_are_valid() {
    assert!(is_valid_message_id(&generate_message_id()));
    let room = generate_invite_room_id();
    assert!(room.starts_with("room-"));
    assert_eq!(room.len(), 21);
    assert!(validate_room_id(&room).is_ok());
}

#[test]
fn both_sides_of_a_direct_room_agree_on_its_id() {
    let a = Keypair::generate_ed25519().public().to_peer_id().to_string();
    let b = Keypair::generate_ed25519().public().to_peer_id().to_string();
    let (pa, pb) = (PeerId::parse(&a).unwrap(), PeerId::parse(&b).unwrap());
    let id = deterministic_dm_room_id(&pa, &pb);
    assert_eq!(id, deterministic_dm_room_id(&pb, &pa));
    let mut sorted = [a, b];
    sorted.sort();
    let hash = blake3::hash(
        format!("DOGEL_DM_ROOM_V1\0{}\0{}", sorted[0], sorted[1]).as_bytes(),
    );
    let hex: String = hash.as_bytes()[..8]
        .iter()
        .map(|byte| format!("{byte:02X}"))
        .collect();
    assert_eq!(id, format!("dm-{hex}"));
}

#[test]
fn room_ids_are_checked() {
    assert_eq!(validate_room_id("").unwrap_err(), "room id cannot be empty");
    assert_eq!(
        validate_room_id(&"x".repeat(65)).unwrap_err(),
        "room id is too long; max 64 characters"
    );
    assert!(validate_room_id("a_B-9.").is_ok());
    assert!(validate_room_id("a b").is_err());
}

#[test]
fn peer_lists_have_one_form() {
    let list = vec!["b".to_string(), "a".to_string(), "b".to_string()];
    assert_eq!(canonical_peer_list(&list), vec!["a", "b"]);
}
