use dogel::discovery::DiscoveryDirectory;
use dogel::protocol::PeerAdvertisement;

fn advert(peer_id: &str, alias: Option<&str>, expires_at_ms: u64) -> PeerAdvertisement {
    PeerAdvertisement {
        peer_id: peer_id.to_string(),
        alias: alias.map(|value| value.to_string()),
        direct_addrs: vec!["/ip4/127.0.0.1/tcp/7777/p2p/12D3KooWTest".to_string()],
        relayed_addrs: Vec::new(),
        nat_status: "Public".to_string(),
        observed_at_ms: 1,
        expires_at_ms,
    }
}

#[test]
fn registers_and_resolves_by_peer_and_alias() {
    let mut directory = DiscoveryDirectory::new();
    let advert = advert("12D3KooWPeer", Some("alice"), 1_000);
    directory.register(advert.clone()).unwrap();

    let by_peer = directory.resolve("12D3KooWPeer", 10);
    assert!(by_peer.found);
    assert_eq!(
        by_peer.advertisement.as_ref().unwrap().peer_id,
        advert.peer_id
    );

    let by_alias = directory.resolve("alice", 10);
    assert!(by_alias.found);
    assert_eq!(
        by_alias.advertisement.as_ref().unwrap().peer_id,
        advert.peer_id
    );
}

#[test]
fn expired_advertisement_is_ignored() {
    let mut directory = DiscoveryDirectory::new();
    directory
        .register(advert("12D3KooWExpired", Some("expired"), 10))
        .unwrap();

    let resolution = directory.resolve("expired", 11);
    assert!(!resolution.found);
    assert!(resolution.advertisement.is_none());
    assert!(resolution.reason.unwrap().contains("expired"));
}

#[test]
fn alias_conflict_is_rejected() {
    let mut directory = DiscoveryDirectory::new();
    directory
        .register(advert("12D3KooWOne", Some("alias"), 1_000))
        .unwrap();

    let err = directory
        .register(advert("12D3KooWTwo", Some("alias"), 1_000))
        .unwrap_err();
    assert!(err.contains("alias conflict"));
}

#[test]
fn the_listing_is_ordered_by_peer_id() {
    let mut directory = DiscoveryDirectory::new();
    directory.register(advert("b", Some("one"), 100)).unwrap();
    directory.register(advert("a", Some("two"), 100)).unwrap();
    directory.register(advert("c", None, 5)).unwrap();
    let names: Vec<String> = directory
        .list(50)
        .into_iter()
        .map(|advert| advert.peer_id)
        .collect();
    assert_eq!(names, vec!["a", "b"]);
}

#[test]
fn a_new_alias_replaces_the_old_one() {
    let mut directory = DiscoveryDirectory::new();
    directory.register(advert("a", Some("one"), 100)).unwrap();
    directory.register(advert("a", Some("two"), 100)).unwrap();
    assert!(!directory.resolve("one", 1).found);
    assert!(directory.resolve("two", 1).found);
    directory.register(advert("b", Some("one"), 100)).unwrap();
    assert!(directory.resolve("one", 1).found);
}

#[test]
fn empty_names_are_not_registered() {
    let mut directory = DiscoveryDirectory::new();
    assert_eq!(
        directory.register(advert("  ", None, 1)).unwrap_err(),
        "peer id cannot be empty"
    );
    assert_eq!(
        directory.register(advert("a", Some(" "), 1)).unwrap_err(),
        "alias cannot be empty"
    );
}
