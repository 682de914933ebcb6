use dogel::startup::parse_startup_config_from;
use dogel::startup::usage_report;
use dogel::startup::Startup;
use dogel::startup::StartupConfig;
use dogel::startup::StartupError;
use libp2p_identity::Keypair;

fn args(items: &[&str]) -> Vec<String> {
    items.iter().map(|item| item.to_string()).collect()
}

fn config_of(items: &[&str]) -> StartupConfig {
    match parse_startup_config_from(&args(items)) {
        Ok(Startup::Run(config)) => config,
        Ok(Startup::Usage) => panic!("usage"),
        Err(err) => panic!("{}", err.message()),
    }
}

fn error_of(items: &[&str]) -> StartupError {
    match parse_startup_config_from(&args(items)) {
        Ok(_) => panic!("accepted"),
        Err(err) => err,
    }
}

#[test]
fn parses_phase13_startup_network_flags() {
    let relay_peer = Keypair::generate_ed25519().public().to_peer_id();
    let bootstrap = format!("/ip4/127.0.0.1/tcp/7777/p2p/{relay_peer}");

    let config = config_of(&[
        "--listen",
        "/ip4/0.0.0.0/tcp/7778",
        "--bootstrap",
        bootstrap.as_str(),
        "--relay-server",
        "--external-addr",
        "/ip4/203.0.113.10/tcp/7777",
        "--tui",
    ]);

    assert_eq!(config.listen_addr.to_text(), "/ip4/0.0.0.0/tcp/7778");
    assert_eq!(config.bootstrap_peers.len(), 1);
    assert_eq!(config.bootstrap_peers[0].to_text(), bootstrap);
    assert!(config.relay_server);
    assert_eq!(config.external_addrs.len(), 1);
    assert!(config.tui);
}

#[test]
fn rejects_bootstrap_without_peer_id() {
    let err = error_of(&["--bootstrap", "/ip4/127.0.0.1/tcp/7777"]);
    assert!(err.message().contains("must include /p2p/<peer_id>"));
}

#[test]
fn the_default_address_is_used_without_arguments() {
    let config = config_of(&[]);
    assert_eq!(config.listen_addr.to_text(), "/ip4/0.0.0.0/tcp/7777");
    assert!(!config.relay_server);
    assert!(!config.tui);
    assert!(config.bootstrap_peers.is_empty());
}

#[test]
fn every_startup_error_is_told() {
    assert_eq!(
        error_of(&["--listen"]).message(),
        "--listen requires a multiaddr value"
    );
    assert_eq!(
        error_of(&["--bootstrap"]).message(),
        "--bootstrap requires a full multiaddr value"
    );
    assert_eq!(
        error_of(&["--external-addr"]).message(),
        "--external-addr requires a multiaddr value"
    );
    assert_eq!(
        error_of(&["--listen", "nowhere"]),
        StartupError::InvalidListen("nowhere".to_string())
    );
    assert_eq!(
        error_of(&["--bootstrap", "nowhere"]).message(),
        "invalid bootstrap multiaddr: nowhere"
    );
    assert_eq!(
        error_of(&["--external-addr", "nowhere"]).message(),
        "invalid external multiaddr: nowhere"
    );
    assert_eq!(
        error_of(&["--loud"]).message(),
        "unknown startup argument: --loud"
    );
}

#[test]
fn the_last_listen_address_counts() {
    let config = config_of(&[
        "--listen",
        "nowhere",
        "--listen",
        "/ip4/127.0.0.1/tcp/1",
    ]);
    assert_eq!(config.listen_addr.to_text(), "/ip4/127.0.0.1/tcp/1");
}

#[test]
fn help_wins_over_what_follows() {
    assert!(matches!(
        parse_startup_config_from(&args(&["--tui", "-h", "--loud"])),
        Ok(Startup::Usage)
    ));
    let lines = usage_report().into_strings();
    assert_eq!(lines[0], "usage:");
    assert_eq!(lines.len(), 8);
}
