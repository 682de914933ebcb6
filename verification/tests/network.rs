use dogel::network::dedup_and_sort_addrs;
use dogel::network::nat_status_label;
use dogel::network::NatStatus;
use dogel::network::NetEffect;
use dogel::network::NetState;
use dogel::network::P2pConfig;
use dogel::network::P2pError;
use dogel::network::P2pEvent;
use dogel::network::PendingDiscovery;
use dogel::network::SwarmFacts;
use dogel::peer::Multiaddr;
use dogel::peer::PeerId;
use dogel::protocol::DiscoveryRequest;
use dogel::protocol::DiscoveryResponse;
use dogel::protocol::DogelRequest;
use dogel::protocol::DogelResponse;
use dogel::protocol::PeerAdvertisement;
use dogel::protocol::SignedEncryptedEnvelope;
use dogel::swarm::dialed_peer;
use dogel::swarm::usable_route_for_diagnostics;
use dogel::swarm::NetInput;
use libp2p_identity::Keypair;

fn random_peer() -> String {
    Keypair::generate_ed25519().public().to_peer_id().to_string()
}

fn addr(text: &str) -> Multiaddr {
    Multiaddr::parse(text).unwrap()
}

fn facts(now_ms: u64) -> SwarmFacts {
    SwarmFacts {
        listeners: vec![addr("/ip4/10.0.0.1/tcp/7"), addr("/ip4/10.0.0.1/tcp/7")],
        external_addrs: vec![addr("/ip4/1.2.3.4/tcp/7")],
        nat_status: "Unknown".to_string(),
        now_ms,
    }
}

fn node(local: &str, bootstrap: &[String], relay_server: bool) -> NetState {
    let mut config = P2pConfig::lan_only(addr("/ip4/0.0.0.0/tcp/7"));
    config.bootstrap_peers = bootstrap.iter().map(|text| addr(text)).collect();
    config.relay_server = relay_server;
    config.identity_alias = Some("alice".to_string());
    NetState::new(config, &PeerId::parse(local).unwrap())
}

fn step(net: &mut NetState, input: NetInput) -> Vec<NetEffect> {
    let facts = facts(1000);
    assert!(net.can_step(&input, &facts));
    net.step(input, &facts).into_list()
}

fn logs(effects: &[NetEffect]) -> Vec<String> {
    effects
        .iter()
        .filter_map(|effect| match effect {
            NetEffect::Emit(P2pEvent::Log { line }) => Some(line.clone()),
            _ => None,
        })
        .collect()
}

fn advert(peer_id: &str, alias: &str) -> PeerAdvertisement {
    PeerAdvertisement {
        peer_id: peer_id.to_string(),
        alias: Some(alias.to_string()),
        direct_addrs: Vec::new(),
        relayed_addrs: Vec::new(),
        nat_status: "Unknown".to_string(),
        observed_at_ms: 1,
        expires_at_ms: 5000,
    }
}

#[test]
fn bootstrap_peers_are_dialed_and_asked_for_relay() {
    let local = random_peer();
    let relay = random_peer();
    let full = format!("/ip4/9.9.9.9/tcp/7/p2p/{relay}");
    let mut net = node(&local, &[full.clone(), "/ip4/8.8.8.8/tcp/7".to_string()], false);
    let effects = step(&mut net, NetInput::Started);
    assert!(matches!(&effects[0], NetEffect::DialBootstrap { addr } if addr.to_text() == full));
    assert_eq!(
        logs(&effects),
        vec!["[p2p] bootstrap skipped; missing /p2p/<peer_id>: /ip4/8.8.8.8/tcp/7"]
    );

    let effects = step(
        &mut net,
        NetInput::BootstrapDialed {
            addr: addr(&full),
            error: None,
        },
    );
    assert_eq!(logs(&effects), vec![format!("[p2p] bootstrap dial started: {full}")]);
    match &effects[1] {
        NetEffect::ListenOnRelay { peer_id, addr } => {
            assert_eq!(peer_id, &relay);
            assert_eq!(addr.to_text(), format!("{full}/p2p-circuit"));
        }
        _ => panic!("no relay"),
    }

    let _ = step(
        &mut net,
        NetInput::BootstrapDialed {
            addr: addr(&full),
            error: Some("refused".to_string()),
        },
    );
    let known = net.diagnostics(&facts(1), 0, None);
    assert_eq!(
        known.bootstrap_last_error.unwrap(),
        format!("bootstrap dial failed: {full}: refused")
    );

    let effects = step(
        &mut net,
        NetInput::RelayListened {
            peer_id: relay.clone(),
            addr: addr(&full),
            error: Some("busy".to_string()),
        },
    );
    let message = format!("relay reservation listen failed for {relay} via {full}: busy");
    assert_eq!(logs(&effects), vec![format!("[p2p] {message}")]);
    let known = net.diagnostics(&facts(1), 0, None);
    assert_eq!(known.relay_last_error.as_ref(), Some(&message));
    assert_eq!(known.relay_reservation_errors, vec![message]);
}

#[test]
fn a_bootstrap_peer_gets_the_advertisement() {
    let local = random_peer();
    let relay = random_peer();
    let full = format!("/ip4/9.9.9.9/tcp/7/p2p/{relay}");
    let mut net = node(&local, &[full.clone()], false);
    let effects = step(
        &mut net,
        NetInput::RelayReservationAccepted {
            relay_peer_id: relay.clone(),
        },
    );
    assert_eq!(
        logs(&effects),
        vec![format!("[p2p] relay reservation accepted: {relay}")]
    );
    assert_eq!(
        net.discovery_last_error.as_deref(),
        Some("no bootstrap peers connected")
    );

    let effects = step(
        &mut net,
        NetInput::ConnectionEstablished {
            peer_id: relay.clone(),
            endpoint: "Dialer".to_string(),
        },
    );
    match &effects[0] {
        NetEffect::AskDirectory {
            peer_id,
            request: DiscoveryRequest::RegisterPeer(advert),
            pending,
        } => {
            assert_eq!(peer_id, &relay);
            assert_eq!(advert.peer_id, local);
            assert_eq!(advert.alias.as_deref(), Some("alice"));
            assert_eq!(
                advert.direct_addrs,
                vec![
                    format!("/ip4/1.2.3.4/tcp/7/p2p/{local}"),
                    format!("/ip4/10.0.0.1/tcp/7/p2p/{local}"),
                ]
            );
            assert_eq!(
                advert.relayed_addrs,
                vec![format!("{full}/p2p-circuit/p2p/{local}")]
            );
            assert_eq!(advert.observed_at_ms, 1000);
            assert_eq!(advert.expires_at_ms, 121000);
            assert_eq!(
                pending,
                &PendingDiscovery::Register {
                    alias: Some("alice".to_string()),
                    expires_at_ms: 121000,
                }
            );
        }
        _ => panic!("not registered"),
    }
    assert_eq!(
        logs(&effects),
        vec![
            format!("[p2p] discovery registration sent to {relay} at 1000"),
            format!("[p2p] connected: {relay}"),
            "[p2p] endpoint: Dialer".to_string(),
        ]
    );

    let effects = step(
        &mut net,
        NetInput::DirectoryResponse {
            peer_id: relay.clone(),
            pending: Some(PendingDiscovery::Register {
                alias: Some("al\"ice".to_string()),
                expires_at_ms: 9,
            }),
            response: DiscoveryResponse::Ack {
                ok: true,
                error: None,
            },
            shown: String::new(),
        },
    );
    assert_eq!(
        logs(&effects),
        vec!["[p2p] discovery registration accepted: alias=Some(\"al\\\"ice\") expires_at_ms=9"]
    );
    assert!(net.discovery_registered);
    let _ = step(
        &mut net,
        NetInput::DirectoryResponse {
            peer_id: relay.clone(),
            pending: Some(PendingDiscovery::Register {
                alias: None,
                expires_at_ms: 9,
            }),
            response: DiscoveryResponse::Ack {
                ok: false,
                error: None,
            },
            shown: String::new(),
        },
    );
    assert!(!net.discovery_registered);
    assert_eq!(net.discovery_last_error.as_deref(), Some("registration rejected"));
}

#[test]
fn a_peer_is_connected_while_it_has_connections() {
    let local = random_peer();
    let other = random_peer();
    let mut net = node(&local, &[], false);
    let open = |net: &mut NetState| {
        step(
            net,
            NetInput::ConnectionEstablished {
                peer_id: other.clone(),
                endpoint: "x".to_string(),
            },
        )
    };
    let close = |net: &mut NetState| {
        step(
            net,
            NetInput::ConnectionClosed {
                peer_id: other.clone(),
            },
        )
    };
    let effects = open(&mut net);
    assert!(matches!(
        &effects[1],
        NetEffect::Emit(P2pEvent::PeerConnected { .. })
    ));
    let effects = open(&mut net);
    assert_eq!(
        logs(&effects)[0],
        format!("[p2p] additional connection established: {other}")
    );
    assert!(close(&mut net).is_empty());
    assert_eq!(net.connected_peers(), vec![other.clone()]);
    let effects = close(&mut net);
    assert!(matches!(
        &effects[1],
        NetEffect::Emit(P2pEvent::PeerDisconnected { .. })
    ));
    assert!(net.connected_peers().is_empty());
    assert_eq!(close(&mut net).len(), 2);
}

#[test]
fn the_loss_of_a_bootstrap_peer_is_noted() {
    let local = random_peer();
    let relay = random_peer();
    let mut net = node(&local, &[format!("/ip4/9.9.9.9/tcp/7/p2p/{relay}")], false);
    let _ = step(
        &mut net,
        NetInput::ConnectionClosed {
            peer_id: relay.clone(),
        },
    );
    assert_eq!(
        net.bootstrap_last_error.as_ref(),
        Some(&format!("bootstrap peer disconnected: {relay}"))
    );
    let effects = step(
        &mut net,
        NetInput::OutgoingConnectionError {
            peer_id: Some(relay.clone()),
            error: "refused".to_string(),
        },
    );
    let libp2p_peer: libp2p_identity::PeerId = relay.parse().unwrap();
    assert_eq!(
        logs(&effects),
        vec![format!(
            "[p2p] outgoing connection error: peer={:?} error=refused",
            Some(libp2p_peer)
        )]
    );
    assert_eq!(
        net.bootstrap_last_error.as_ref(),
        Some(&format!("bootstrap dial failed for {relay}: refused"))
    );
    let effects = step(
        &mut net,
        NetInput::OutgoingConnectionError {
            peer_id: None,
            error: "refused".to_string(),
        },
    );
    assert_eq!(
        logs(&effects),
        vec!["[p2p] outgoing connection error: peer=None error=refused"]
    );
}

#[test]
fn a_bootstrap_node_keeps_a_directory() {
    let local = random_peer();
    let mut net = node(&local, &[], true);
    let effects = step(&mut net, NetInput::BootstrapTried);
    assert_eq!(
        logs(&effects),
        vec![format!("[p2p] discovery directory updated locally: {local}")]
    );
    let effects = step(
        &mut net,
        NetInput::DirectoryRequest {
            peer_id: "bob".to_string(),
            request: DiscoveryRequest::RegisterPeer(advert("bob", "bobby")),
        },
    );
    assert!(matches!(
        &effects[1],
        NetEffect::AnswerDirectory(DiscoveryResponse::Ack { ok: true, error: None })
    ));
    let effects = step(
        &mut net,
        NetInput::DirectoryRequest {
            peer_id: "eve".to_string(),
            request: DiscoveryRequest::RegisterPeer(advert("eve", "bobby")),
        },
    );
    assert_eq!(
        logs(&effects),
        vec!["[p2p] discovery register rejected from eve: alias conflict for 'bobby'"]
    );
    let effects = step(
        &mut net,
        NetInput::ResolveWanted {
            query: "bobby".to_string(),
        },
    );
    assert!(
        matches!(&effects[0], NetEffect::Resolved(found) if found.found && found.query == "bobby")
    );
    let effects = step(&mut net, NetInput::ListWanted);
    assert!(matches!(&effects[0], NetEffect::Listed(peers) if peers.len() == 2));
    let effects = step(
        &mut net,
        NetInput::DirectoryRequest {
            peer_id: "x".to_string(),
            request: DiscoveryRequest::ListPeers,
        },
    );
    assert!(matches!(
        &effects[0],
        NetEffect::AnswerDirectory(DiscoveryResponse::ListPeersResponse { peers }) if peers.len() == 2
    ));
}

#[test]
fn other_nodes_keep_no_directory() {
    let local = random_peer();
    let mut net = node(&local, &[], false);
    let effects = step(
        &mut net,
        NetInput::DirectoryRequest {
            peer_id: "bob".to_string(),
            request: DiscoveryRequest::RegisterPeer(advert("bob", "bobby")),
        },
    );
    match &effects[0] {
        NetEffect::AnswerDirectory(DiscoveryResponse::Ack { ok, error }) => {
            assert!(!ok);
            assert_eq!(error.as_deref(), Some("peer is not a bootstrap directory"));
        }
        _ => panic!("no answer"),
    }
    let effects = step(
        &mut net,
        NetInput::ResolveWanted {
            query: "bob".to_string(),
        },
    );
    match &effects[0] {
        NetEffect::Resolved(found) => assert_eq!(
            found.reason.as_deref(),
            Some("no bootstrap/discovery peer configured")
        ),
        _ => panic!("not resolved"),
    }
}

#[test]
fn searches_go_to_a_connected_bootstrap_peer_and_are_answered() {
    let local = random_peer();
    let relay = random_peer();
    let mut net = node(&local, &[format!("/ip4/9.9.9.9/tcp/7/p2p/{relay}")], false);
    let _ = step(
        &mut net,
        NetInput::ConnectionEstablished {
            peer_id: relay.clone(),
            endpoint: String::new(),
        },
    );
    let effects = step(
        &mut net,
        NetInput::ResolveWanted {
            query: "bob".to_string(),
        },
    );
    let pending = PendingDiscovery::Resolve {
        query: "bob".to_string(),
    };
    match &effects[0] {
        NetEffect::AskDirectory {
            peer_id,
            pending: waiting,
            ..
        } => {
            assert_eq!(peer_id, &relay);
            assert_eq!(waiting, &pending);
        }
        _ => panic!("not asked"),
    }
    let effects = step(
        &mut net,
        NetInput::DirectoryResponse {
            peer_id: relay.clone(),
            pending: Some(pending.clone()),
            response: DiscoveryResponse::ResolvePeerResponse {
                found: true,
                advertisement: Some(advert("b", "bob")),
                reason: None,
            },
            shown: String::new(),
        },
    );
    assert!(matches!(&effects[0], NetEffect::Resolved(found) if found.found));
    let effects = step(
        &mut net,
        NetInput::DirectoryResponse {
            peer_id: relay.clone(),
            pending: Some(pending.clone()),
            response: DiscoveryResponse::Ack {
                ok: true,
                error: None,
            },
            shown: "Ack".to_string(),
        },
    );
    match &effects[0] {
        NetEffect::Resolved(found) => assert_eq!(
            found.reason.as_deref(),
            Some("unexpected discovery response: Ack")
        ),
        _ => panic!("not resolved"),
    }
    let effects = step(
        &mut net,
        NetInput::DirectoryOutboundFailure {
            peer_id: relay.clone(),
            pending: Some(pending),
            error: "timeout".to_string(),
        },
    );
    let reason = format!("discovery request to {relay} failed: timeout");
    match &effects[0] {
        NetEffect::Resolved(found) => assert_eq!(found.reason.as_ref(), Some(&reason)),
        _ => panic!("not resolved"),
    }
    let effects = step(
        &mut net,
        NetInput::DirectoryOutboundFailure {
            peer_id: relay.clone(),
            pending: Some(PendingDiscovery::List),
            error: "timeout".to_string(),
        },
    );
    assert!(matches!(&effects[0], NetEffect::Listed(peers) if peers.is_empty()));
    let effects = step(
        &mut net,
        NetInput::DirectoryResponse {
            peer_id: "x".to_string(),
            pending: None,
            response: DiscoveryResponse::Ack {
                ok: true,
                error: None,
            },
            shown: "Ack".to_string(),
        },
    );
    assert_eq!(
        logs(&effects),
        vec!["[p2p] unexpected discovery response from x: Ack"]
    );
}

#[test]
fn messages_are_acknowledged_and_handed_on() {
    let local = random_peer();
    let mut net = node(&local, &[], false);
    let envelope = SignedEncryptedEnvelope {
        version: 1,
        room_id: "den".to_string(),
        sender_alias: "bob".to_string(),
        sender_peer_id: "b".to_string(),
        sender_signing_public_key_b64: String::new(),
        nonce_b64: String::new(),
        ciphertext_b64: String::new(),
        timestamp_ms: 1,
        signature_b64: String::new(),
    };
    let effects = step(
        &mut net,
        NetInput::MessageRequest {
            peer_id: "b".to_string(),
            request: DogelRequest::Envelope(envelope.clone()),
        },
    );
    assert!(matches!(&effects[0], NetEffect::AnswerMessage(answer) if answer.ok));
    assert!(matches!(
        &effects[1],
        NetEffect::Emit(P2pEvent::InboundEnvelope { envelope: seen, .. }) if *seen == envelope
    ));
    assert!(step(
        &mut net,
        NetInput::MessageResponse {
            response: DogelResponse::ok()
        }
    )
    .is_empty());
    let effects = step(
        &mut net,
        NetInput::MessageResponse {
            response: DogelResponse {
                ok: false,
                error: None,
            },
        },
    );
    assert_eq!(
        logs(&effects),
        vec!["[p2p] remote rejected message: unknown error"]
    );
}

#[test]
fn few_hole_punching_events_are_kept() {
    let local = random_peer();
    let mut net = node(&local, &[], false);
    for i in 0..20 {
        let _ = step(
            &mut net,
            NetInput::Dcutr {
                remote_peer_id: format!("{i}"),
                result: "Ok".to_string(),
            },
        );
    }
    assert_eq!(net.dcutr_events.len(), 16);
    assert_eq!(
        net.dcutr_events[0],
        "[p2p] dcutr event: remote_peer_id=4 result=Ok"
    );
}

#[test]
fn identified_peers_may_probe() {
    let local = random_peer();
    let mut net = node(&local, &[], true);
    let effects = step(
        &mut net,
        NetInput::Identified {
            peer_id: "b".to_string(),
            observed_addr: addr("/ip4/5.5.5.5/tcp/5"),
            listen_addrs: vec![addr("/ip4/6.6.6.6/tcp/6")],
        },
    );
    assert!(matches!(
        &effects[0],
        NetEffect::AddExternalAddress { addr } if addr.to_text() == "/ip4/5.5.5.5/tcp/5"
    ));
    assert!(matches!(
        &effects[1],
        NetEffect::AddNatServer { addr, .. } if addr.to_text() == "/ip4/6.6.6.6/tcp/6"
    ));
}

#[test]
fn swarm_news_are_logged() {
    let local = random_peer();
    let mut net = node(&local, &[], false);
    let line = |net: &mut NetState, input: NetInput| logs(&step(net, input)).join("|");
    assert_eq!(
        line(
            &mut net,
            NetInput::NewListenAddr {
                addr: addr("/ip4/10.0.0.1/tcp/7")
            }
        ),
        format!("[p2p] listening on /ip4/10.0.0.1/tcp/7/p2p/{local}")
    );
    assert_eq!(
        line(
            &mut net,
            NetInput::ListenerClosed {
                addresses: "[]".to_string(),
                error: Some("gone".to_string())
            }
        ),
        "[p2p] listener closed with error: addresses=[] error=gone"
    );
    assert_eq!(
        line(
            &mut net,
            NetInput::NatStatusChanged {
                before: "Unknown".to_string(),
                after: "Private".to_string()
            }
        ),
        "[p2p] autonat status changed: Unknown -> Private"
    );
    assert_eq!(
        line(
            &mut net,
            NetInput::NatInboundProbeError {
                error: "e".to_string()
            }
        ),
        "[p2p] autonat inbound probe error: e"
    );
    assert_eq!(net.nat_last_error.as_deref(), Some("e"));
    assert_eq!(
        line(
            &mut net,
            NetInput::RelayServerOther {
                event: "x".to_string()
            }
        ),
        ""
    );
    assert_eq!(
        line(
            &mut net,
            NetInput::IncomingConnectionError {
                error: "e".to_string()
            }
        ),
        "[p2p] incoming connection error: e"
    );
}

#[test]
fn diagnostics_show_the_route() {
    let local = random_peer();
    let net = node(&local, &[], false);
    let known = net.diagnostics(&facts(1), 3, Some(addr("/ip4/1.2.3.4/tcp/7")));
    assert_eq!(known.usable_route, "direct");
    assert_eq!(known.nat_confidence, 3);
    assert_eq!(known.listen_addrs.len(), 2);
    assert!(!known.bootstrap_connected);
    assert_eq!(usable_route_for_diagnostics("Unknown", true, false), "relay");
    assert_eq!(
        usable_route_for_diagnostics("Public(/ip4/1.2.3.4)", false, false),
        "direct"
    );
    assert_eq!(usable_route_for_diagnostics("Private", false, false), "none");
    assert_eq!(
        nat_status_label(&NatStatus::Public(addr("/ip4/1.2.3.4/tcp/7"))),
        "Public(/ip4/1.2.3.4/tcp/7)"
    );
    assert_eq!(nat_status_label(&NatStatus::Private), "Private");
}

#[test]
fn an_address_without_a_peer_is_not_dialed() {
    let err = dialed_peer(&addr("/ip4/10.0.0.1/tcp/7")).unwrap_err();
    assert_eq!(
        err.message(),
        "multiaddr must include /p2p/<peer_id>: /ip4/10.0.0.1/tcp/7"
    );
    let local = random_peer();
    assert_eq!(
        dialed_peer(&addr(&format!("/ip4/10.0.0.1/tcp/7/p2p/{local}"))).unwrap(),
        local
    );
}

#[test]
fn network_errors_are_told() {
    assert_eq!(
        P2pError::Listen {
            addr: "a".to_string(),
            source: "b".to_string()
        }
        .message(),
        "failed to listen on a: b"
    );
    assert_eq!(
        P2pError::Noise("x".to_string()).message(),
        "failed to configure noise transport: x"
    );
    assert_eq!(
        P2pError::InvalidMultiaddr("x".to_string()).message(),
        "invalid multiaddr: x"
    );
    assert_eq!(
        P2pError::InvalidPeerId("x".to_string()).message(),
        "invalid peer id: x"
    );
}

#[test]
fn a_clock_at_its_end_stops_the_node() {
    let net = node(&random_peer(), &[], false);
    assert!(!net.can_step(&NetInput::RefreshDue, &facts(u64::MAX)));
}

#[test]
fn addresses_are_sorted_once_each() {
    let list = vec!["b".to_string(), "a".to_string(), "b".to_string()];
    assert_eq!(dedup_and_sort_addrs(&list), vec!["a", "b"]);
}
