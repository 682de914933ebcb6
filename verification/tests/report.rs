use dogel::command::parse_command;
use dogel::crypto::SigningKey;
use dogel::network::NetState;
use dogel::network::P2pError;
use dogel::network::SwarmFacts;
use dogel::peer::Multiaddr;
use dogel::peer::PeerId;
use dogel::primitives::SecretBytes;
use dogel::report::build_doctor_report;
use dogel::report::count_history;
use dogel::report::count_trusted;
use dogel::report::print_status;
use dogel::report::whoami;
use dogel::report::Counted;
use dogel::screen::build_tui_snapshot;
use dogel::screen::sidebar;
use dogel::session::AppState;
use dogel::startup::parse_startup_config_from;
use dogel::startup::Startup;
use dogel::storage::StorageError;
use dogel::storage::UnlockedIdentity;
use dogel::swarm::P2pDiagnostics;
use libp2p_identity::Keypair;

fn fresh() -> AppState {
    match parse_startup_config_from(&Vec::new()) {
        Ok(Startup::Run(config)) => AppState::new(&config),
        _ => panic!("no configuration"),
    }
}

fn logged_in(local: &str) -> AppState {
    let mut state = fresh();
    let identity = UnlockedIdentity {
        alias: "alice".to_string(),
        peer_id: local.to_string(),
        fingerprint: "AA:BB".to_string(),
        network_key: SecretBytes::holding(Vec::new()),
        signing_key: SigningKey::from_seed(SecretBytes::holding(vec![1; 32])),
    };
    let _ = state.finish_login(identity, PeerId::parse(local));
    state
}

fn random_peer() -> String {
    Keypair::generate_ed25519().public().to_peer_id().to_string()
}

fn known(state: &AppState, local: &str) -> P2pDiagnostics {
    let net = NetState::new(state.network_config("alice"), &PeerId::parse(local).unwrap());
    let facts = SwarmFacts {
        listeners: vec![Multiaddr::parse("/ip4/10.0.0.1/tcp/7").unwrap()],
        external_addrs: Vec::new(),
        nat_status: "Private".to_string(),
        now_ms: 1,
    };
    net.diagnostics(&facts, 0, None)
}

#[test]
fn whoami_shows_the_identity_and_its_addresses() {
    let local = random_peer();
    let state = logged_in(&local);
    let reply = whoami(&state, &Ok(known(&state, &local)));
    assert_eq!(
        reply.lines.into_strings(),
        vec![
            "alias: alice".to_string(),
            format!("peer_id: {local}"),
            "fingerprint: AA:BB".to_string(),
            "listen:".to_string(),
            "nat: Private".to_string(),
            "public address: none".to_string(),
            "dcutr events: 0".to_string(),
            format!("  /ip4/10.0.0.1/tcp/7/p2p/{local}"),
            "relayed listen:".to_string(),
            "  none".to_string(),
        ]
    );
    let reply = whoami(&state, &Err(P2pError::RuntimeClosed));
    assert_eq!(reply.error.unwrap(), "p2p runtime is not running");
    assert_eq!(reply.lines.into_strings().len(), 4);
    let reply = whoami(&fresh(), &Err(P2pError::RuntimeClosed));
    assert_eq!(reply.lines.into_strings()[0], "error: no active identity");
}

#[test]
fn status_of_a_program_that_just_started() {
    let reply = print_status(
        &fresh(),
        &Counted::Count(0),
        &Err(P2pError::RuntimeClosed),
        &Counted::Count(0),
    );
    assert!(reply.error.is_none());
    let lines = reply.lines.into_strings();
    assert_eq!(
        &lines[..13],
        &[
            "identity:",
            "  none",
            "",
            "network:",
            "  p2p runtime: not started",
            "  hint: /login <alias>",
            "",
            "active room:",
            "  none",
            "",
            "invites:",
            "  pending: 0",
            "",
        ]
    );
    assert_eq!(lines[13], "message policy:");
    assert_eq!(lines[14], "  mode: strict");
}

#[test]
fn status_of_a_running_node() {
    let local = random_peer();
    let mut state = logged_in(&local);
    let _ = state.handle_command(parse_command("/create-room den").unwrap());
    let _ = state.handle_command(parse_command("/history on").unwrap());
    let reply = print_status(
        &state,
        &Counted::Unavailable("io".to_string()),
        &Ok(known(&state, &local)),
        &Counted::Count(3),
    );
    let lines = reply.lines.into_strings();
    assert_eq!(lines[4], "  trusted peers: unavailable (io)");
    assert!(lines.contains(&format!("  local_peer_id: {local}")));
    assert!(lines.contains(&"  peers: none".to_string()));
    assert!(lines.contains(&format!("    /ip4/10.0.0.1/tcp/7/p2p/{local}")));
    assert!(lines.contains(&"  room_id: den".to_string()));
    assert!(lines.contains(&"  stored history entries: 3".to_string()));
    let reply = print_status(
        &state,
        &Counted::Count(1),
        &Err(P2pError::ResponseDropped),
        &Counted::Count(3),
    );
    assert_eq!(reply.error.unwrap(), "p2p runtime dropped a response");
    assert_eq!(reply.lines.into_strings().last().unwrap(), "network:");
}

#[test]
fn the_doctor_reports_everything() {
    let local = random_peer();
    let state = logged_in(&local);
    let mut diagnosis = known(&state, &local);
    diagnosis.relay_reservation_errors = vec!["late".to_string()];
    let reply = build_doctor_report(&state, &Counted::Count(2), &Ok(diagnosis), &Counted::Count(0));
    let lines = reply.lines.into_strings();
    assert_eq!(lines[0], "doctor:");
    assert_eq!(lines[2], "  active: yes");
    assert_eq!(lines[6], "  session lock: held");
    assert_eq!(lines[7], "  trusted peers on disk: 2");
    assert_eq!(lines[21], "  relay reservation errors:");
    assert_eq!(lines[22], "    late");
    assert_eq!(lines.last().unwrap(), "  debug: off");
    assert!(lines.contains(&"  rate limit: 8 messages / 10s".to_string()));
    let reply = build_doctor_report(
        &state,
        &Counted::Count(2),
        &Err(P2pError::RuntimeClosed),
        &Counted::Count(0),
    );
    assert!(reply.lines.into_strings().is_empty());
    assert_eq!(reply.error.unwrap(), "p2p runtime is not running");
    let reply = build_doctor_report(
        &fresh(),
        &Counted::Count(0),
        &Err(P2pError::RuntimeClosed),
        &Counted::Count(0),
    );
    let lines = reply.lines.into_strings();
    assert_eq!(lines[2], "  active: no");
    assert_eq!(lines[5], "  p2p: not-started");
    assert_eq!(lines[14], "  active: none");
}

#[test]
fn counts_that_cannot_be_read_are_told() {
    assert_eq!(
        count_trusted(&Err(StorageError::NoConfigDirectory)).text(),
        format!("unavailable ({})", StorageError::NoConfigDirectory.message())
    );
    assert_eq!(count_trusted(&Ok(Vec::new())), Counted::Count(0));
    assert_eq!(
        count_history(&None).text(),
        "unavailable (failed to load encrypted room history)"
    );
}

#[test]
fn the_sidebar_follows_the_state() {
    let local = random_peer();
    let mut state = logged_in(&local);
    let _ = state.handle_command(parse_command("/create-room den --ephemeral").unwrap());
    let shown = build_tui_snapshot(&state, &Ok(known(&state, &local)));
    assert_eq!(shown.alias, "alice");
    assert_eq!(shown.room, "den*");
    assert_eq!(shown.room_count, 1);
    assert_eq!(shown.policy, "strict");
    let rows = sidebar(&shown);
    assert_eq!(rows.len(), 23);
    assert!(rows[0].heading);
    assert_eq!(rows[6].text, "nat: Private");
    assert_eq!(rows[11].text, "rooms: 1");
    let offline = build_tui_snapshot(&fresh(), &Err(P2pError::RuntimeClosed));
    assert_eq!(offline.alias, "no-identity");
    assert_eq!(offline.room, "no-room");
    assert_eq!(offline.nat_status, "unknown");
}
