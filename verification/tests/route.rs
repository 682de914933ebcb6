use dogel::command::parse_command;
use dogel::command::CommandParseError;
use dogel::command::UserCommand;
use dogel::discovery::DiscoveryResolution;
use dogel::network::P2pError;
use dogel::protocol::PeerAdvertisement;
use dogel::reply::Reply;
use dogel::route::finish_route;
use dogel::route::finish_search;
use dogel::route::plan_routes;
use dogel::route::Route;
use dogel::route::RouteNext;
use dogel::route::SearchNext;
use dogel::route::SearchUse;
use libp2p_identity::Keypair;

fn random_peer() -> String {
    Keypair::generate_ed25519().public().to_peer_id().to_string()
}

fn advert(peer_id: &str, direct: &[String], relayed: &[String]) -> PeerAdvertisement {
    PeerAdvertisement {
        peer_id: peer_id.to_string(),
        alias: Some("bob".to_string()),
        direct_addrs: direct.to_vec(),
        relayed_addrs: relayed.to_vec(),
        nat_status: "Private".to_string(),
        observed_at_ms: 1,
        expires_at_ms: 2,
    }
}

fn found(advert: PeerAdvertisement) -> Result<DiscoveryResolution, P2pError> {
    Ok(DiscoveryResolution {
        query: "bob".to_string(),
        found: true,
        advertisement: Some(advert),
        reason: None,
    })
}

fn answered(next: SearchNext) -> (Vec<String>, Option<String>) {
    match next {
        SearchNext::Done(reply) => parts(reply),
        SearchNext::Dial { .. } => panic!("dialed"),
    }
}

fn dialed(next: SearchNext) -> Vec<Route> {
    match next {
        SearchNext::Dial { ways } => ways,
        SearchNext::Done(reply) => panic!("{:?}", parts(reply)),
    }
}

fn parts(reply: Reply) -> (Vec<String>, Option<String>) {
    (reply.lines.into_strings(), reply.error)
}

fn written(ways: &[Route]) -> Vec<(bool, String)> {
    ways.iter()
        .map(|way| (way.relayed, way.addr.to_text()))
        .collect()
}

#[test]
fn searches_are_commands() {
    assert_eq!(
        parse_command("/connect-peer alice").unwrap(),
        UserCommand::ConnectPeer {
            query: "alice".to_string()
        }
    );
    assert_eq!(
        parse_command("/resolve-peer alice").unwrap(),
        UserCommand::ResolvePeer {
            query: "alice".to_string()
        }
    );
    assert_eq!(
        parse_command("/connect-peer").unwrap_err(),
        CommandParseError::MissingArgument("peer_id|alias")
    );
    assert_eq!(
        parse_command("/resolve-peer a b").unwrap_err(),
        CommandParseError::UnexpectedArgument("b".to_string())
    );
}

#[test]
fn direct_addresses_are_dialed_before_relayed_ones() {
    let peer = random_peer();
    let relay = random_peer();
    let far = format!("/ip4/9.9.9.9/tcp/7/p2p/{relay}/p2p-circuit/p2p/{peer}");
    let near = format!("/ip4/10.0.0.1/tcp/7/p2p/{peer}");
    let nameless = "/ip4/10.0.0.1/tcp/7".to_string();
    let broken = "nowhere".to_string();

    let both = advert(&peer, &[broken.clone(), nameless.clone(), near.clone()], &[far.clone()]);
    assert_eq!(
        written(&plan_routes(&both)),
        vec![(false, near.clone()), (true, far.clone())]
    );
    let ways = dialed(finish_search(SearchUse::Connect, &found(both)));
    assert_eq!(
        written(&ways),
        vec![(false, near.clone()), (true, far.clone())]
    );

    let relayed = advert(&peer, &[nameless, broken], &[far.clone()]);
    let ways = dialed(finish_search(SearchUse::Connect, &found(relayed)));
    assert_eq!(written(&ways), vec![(true, far)]);
}

#[test]
fn a_relay_is_the_fallback() {
    let peer = random_peer();
    let relay = random_peer();
    let far = format!("/ip4/9.9.9.9/tcp/7/p2p/{relay}/p2p-circuit/p2p/{peer}");
    let near = format!("/ip4/10.0.0.1/tcp/7/p2p/{peer}");
    let ways = plan_routes(&advert(&peer, &[near.clone()], &[far.clone()]));

    match finish_route(&ways, 0, &None) {
        RouteNext::Done(reply) => assert_eq!(
            parts(reply).0,
            vec![
                "route: direct".to_string(),
                "dial started:".to_string(),
                format!("  {near}"),
                "connection result will appear as [p2p] event".to_string(),
            ]
        ),
        RouteNext::Dial(_) => panic!("tried again"),
    }
    let error = Some(P2pError::InvalidMultiaddr("x".to_string()));
    match finish_route(&ways, 0, &error) {
        RouteNext::Dial(next) => assert_eq!(next, 1),
        RouteNext::Done(_) => panic!("given up"),
    }
    match finish_route(&ways, 1, &None) {
        RouteNext::Done(reply) => {
            let (lines, _) = parts(reply);
            assert_eq!(lines[0], "route: relay");
            assert_eq!(lines[2], format!("  {far}"));
        }
        RouteNext::Dial(_) => panic!("tried again"),
    }
    match finish_route(&ways, 1, &error) {
        RouteNext::Done(reply) => {
            assert_eq!(parts(reply).1.unwrap(), "invalid multiaddr: x")
        }
        RouteNext::Dial(_) => panic!("tried again"),
    }
}

#[test]
fn a_peer_is_shown() {
    let peer = random_peer();
    let near = format!("/ip4/10.0.0.1/tcp/7/p2p/{peer}");
    let (lines, error) = answered(finish_search(
        SearchUse::Resolve,
        &found(advert(&peer, &[near.clone()], &[])),
    ));
    assert_eq!(
        lines,
        vec![
            format!("peer: {peer}"),
            "alias: bob".to_string(),
            "nat: Private".to_string(),
            "route: direct".to_string(),
            "direct addresses:".to_string(),
            format!("  {near}"),
            "relayed addresses:".to_string(),
        ]
    );
    assert!(error.is_none());
}

#[test]
fn searches_that_fail_are_told() {
    let peer = random_peer();
    let lost = DiscoveryResolution {
        query: "bob".to_string(),
        found: false,
        advertisement: None,
        reason: Some("no bootstrap/discovery peer configured".to_string()),
    };
    for wanted in [SearchUse::Connect, SearchUse::Resolve] {
        assert_eq!(
            answered(finish_search(wanted, &Ok(lost.clone()))).1.unwrap(),
            "no bootstrap/discovery peer configured"
        );
        let silent = DiscoveryResolution {
            reason: None,
            ..lost.clone()
        };
        assert_eq!(
            answered(finish_search(wanted, &Ok(silent))).1.unwrap(),
            "peer not found: bob"
        );
        assert_eq!(
            answered(finish_search(wanted, &Err(P2pError::RuntimeClosed))).1.unwrap(),
            P2pError::RuntimeClosed.message()
        );
    }
    assert_eq!(
        answered(finish_search(
            SearchUse::Connect,
            &found(advert(&peer, &["nowhere".to_string()], &[]))
        ))
        .1
        .unwrap(),
        format!("no usable route to {peer}")
    );
}
