use dogel::command::parse_command;
use dogel::dispatch::DiagnosisUse;
use dogel::dispatch::Dispatch;
use dogel::dispatch::MessageDraft;
use dogel::dispatch::PeersNext;
use dogel::dispatch::PeersUse;
use dogel::inbound::show_inbound_message;
use dogel::inbound::warn_of_history;
use dogel::login::confirm_new_password;
use dogel::login::create_identity_with_password;
use dogel::login::created_report;
use dogel::login::lock_failed_reply;
use dogel::login::IdentityRead;
use dogel::message::build_signed_envelope;
use dogel::message::open_envelope;
use dogel::message::record_room_history;
use dogel::message::report_sent;
use dogel::network::P2pError;
use dogel::peer::Multiaddr;
use dogel::peer::PeerId;
use dogel::pins::finish_pin;
use dogel::pins::finish_unpin;
use dogel::pins::list_pins;
use dogel::pins::pin_peer;
use dogel::pins::unpin_peer;
use dogel::pins::PinStep;
use dogel::pins::PinsRead;
use dogel::pins::UnpinStep;
use dogel::primitives::SecretBytes;
use dogel::protocol::PlainMessage;
use dogel::protocol::RoomInvite;
use dogel::protocol::SignedEncryptedEnvelope;
use dogel::reply::Reply;
use dogel::session::build_prompt;
use dogel::route::SearchUse;
use dogel::session::AppState;
use dogel::shell::banner;
use dogel::shell::finish_dial;
use dogel::shell::finish_history;
use dogel::shell::read_line;
use dogel::shell::ShellStep;
use dogel::startup::parse_startup_config_from;
use dogel::startup::Startup;
use dogel::storage::IdentityStore;
use dogel::storage::RoomHistoryDirection;
use dogel::storage::TrustedPeersFile;
use dogel::storage::UnlockedIdentity;
use dogel::crypto::SigningKey;
use dogel::crypto::fingerprint_from_public_key;
use libp2p_identity::Keypair;
use std::path::PathBuf;

fn store() -> IdentityStore {
    IdentityStore::at(PathBuf::from("/tmp/dogel-session-test"))
}

fn fresh() -> AppState {
    match parse_startup_config_from(&Vec::new()) {
        Ok(Startup::Run(config)) => AppState::new(&config),
        _ => panic!("no configuration"),
    }
}

fn random_peer() -> String {
    Keypair::generate_ed25519().public().to_peer_id().to_string()
}

fn peer(text: &str) -> PeerId {
    PeerId::parse(text).unwrap()
}

fn identity(alias: &str, peer_id: &str, seed: u8) -> UnlockedIdentity {
    let signing_key = SigningKey::from_seed(SecretBytes::holding(vec![seed; 32]));
    UnlockedIdentity {
        alias: alias.to_string(),
        peer_id: peer_id.to_string(),
        fingerprint: fingerprint_from_public_key(&signing_key.public_key()),
        network_key: SecretBytes::holding(Vec::new()),
        signing_key,
    }
}

fn logged_in(alias: &str, peer_id: &str, seed: u8) -> AppState {
    let mut state = fresh();
    let reply = state.finish_login(identity(alias, peer_id, seed), Some(peer(peer_id)));
    assert!(reply.error.is_none());
    state
}

fn run(state: &mut AppState, line: &str) -> Dispatch {
    state.handle_command(parse_command(line).unwrap())
}

fn reply_of(dispatch: Dispatch) -> (Vec<String>, Option<String>) {
    match dispatch {
        Dispatch::Done(reply) => parts(reply),
        _ => panic!("not answered"),
    }
}

fn parts(reply: Reply) -> (Vec<String>, Option<String>) {
    (reply.lines.into_strings(), reply.error)
}

fn peers_use(dispatch: Dispatch) -> PeersUse {
    match dispatch {
        Dispatch::AskPeers(wanted) => wanted,
        _ => panic!("no peers wanted"),
    }
}

fn with_peers(state: &mut AppState, line: &str, connected: &[&str], now_ms: u64) -> PeersNext {
    let wanted = peers_use(run(state, line));
    let list: Vec<String> = connected.iter().map(|peer| peer.to_string()).collect();
    state.with_peers(wanted, &Ok(list), now_ms)
}

fn done(next: PeersNext) -> (Vec<String>, Option<String>) {
    match next {
        PeersNext::Done(reply) => parts(reply),
        _ => panic!("not answered"),
    }
}

fn draft(next: PeersNext) -> MessageDraft {
    match next {
        PeersNext::Deliver(draft) => draft,
        PeersNext::Done(reply) => panic!("{:?}", parts(reply)),
        PeersNext::SendInvite { .. } => panic!("an invite"),
    }
}

fn invite_of(next: PeersNext) -> RoomInvite {
    match next {
        PeersNext::SendInvite { invite, .. } => invite,
        PeersNext::Done(reply) => panic!("{:?}", parts(reply)),
        PeersNext::Deliver(_) => panic!("a message"),
    }
}

fn unpinned() -> PinsRead {
    PinsRead::Read {
        found: true,
        file: None,
    }
}

fn sealed(state: &AppState, draft: &MessageDraft) -> SignedEncryptedEnvelope {
    build_signed_envelope(
        state.active_identity.as_ref().unwrap(),
        &draft.room,
        draft.plain.body.as_bytes(),
        draft.plain.timestamp_ms,
    )
    .unwrap()
}

#[test]
fn commands_ask_for_a_login_first() {
    let mut state = fresh();
    for line in [
        "/connect /ip4/127.0.0.1/tcp/1",
        "/connect-peer bob",
        "/resolve-peer bob",
        "/peers",
        "/join 1 --secret x",
        "/room peers",
        "/accept-invite 1",
    ] {
        let (lines, error) = reply_of(run(&mut state, line));
        assert_eq!(lines[0], "error: p2p runtime is not started");
        assert_eq!(lines[3], "  /login <alias>");
        assert!(error.is_none());
    }
    for line in ["/create-room", "/invite x", "/history on", "/trust list", "/msg hello"] {
        let (lines, _) = reply_of(run(&mut state, line));
        assert_eq!(lines[0], "error: no active identity");
    }
}

#[test]
fn peers_are_searched_by_id_or_alias() {
    let mut state = logged_in("alice", &random_peer(), 1);
    assert!(matches!(
        run(&mut state, "/connect-peer bob"),
        Dispatch::FindPeer { query, wanted: SearchUse::Connect } if query == "bob"
    ));
    assert!(matches!(
        run(&mut state, "/resolve-peer bob"),
        Dispatch::FindPeer { query, wanted: SearchUse::Resolve } if query == "bob"
    ));
}

#[test]
fn a_room_without_a_name_gets_one() {
    let mut state = logged_in("alice", &random_peer(), 1);
    let (lines, _) = reply_of(run(&mut state, "/create-room"));
    let id = lines[0].strip_prefix("created room: room-").unwrap();
    assert_eq!(id.len(), 16);
    assert!(id.chars().all(|c| c.is_ascii_hexdigit() && !c.is_ascii_lowercase()));
}

#[test]
fn addresses_are_checked_before_dialing() {
    let local = random_peer();
    let remote = random_peer();
    let mut state = logged_in("alice", &local, 1);
    assert_eq!(
        reply_of(run(&mut state, "/connect nowhere")).1.unwrap(),
        "invalid multiaddr: nowhere"
    );
    assert_eq!(
        reply_of(run(&mut state, "/connect /ip4/127.0.0.1/tcp/1")).1.unwrap(),
        "multiaddr must include /p2p/<peer_id>: /ip4/127.0.0.1/tcp/1"
    );
    let full = format!("/ip4/127.0.0.1/tcp/1/p2p/{remote}");
    match run(&mut state, &format!("/connect {full}")) {
        Dispatch::Dial { addr } => {
            assert_eq!(addr.to_text(), full);
            assert_eq!(
                parts(finish_dial(&addr, &None)).0,
                vec![
                    "dial started:".to_string(),
                    format!("  {full}"),
                    "connection result will appear as [p2p] event".to_string(),
                ]
            );
            assert_eq!(
                parts(finish_dial(&addr, &Some(P2pError::RuntimeClosed))).1.unwrap(),
                "p2p runtime is not running"
            );
        }
        _ => panic!("not dialed"),
    }
}

#[test]
fn nobody_talks_to_themselves() {
    let local = random_peer();
    let mut state = logged_in("alice", &local, 1);
    assert_eq!(
        reply_of(run(&mut state, &format!("/dm {local} --secret x"))).1.unwrap(),
        "cannot create a direct room with self"
    );
    assert_eq!(
        reply_of(run(&mut state, &format!("/invite {local}"))).1.unwrap(),
        "cannot invite self"
    );
    assert_eq!(
        reply_of(run(&mut state, "/invite nobody")).1.unwrap(),
        "invalid peer id: nobody"
    );
}

#[test]
fn connected_peers_are_listed() {
    let local = random_peer();
    let mut state = logged_in("alice", &local, 1);
    assert_eq!(
        done(with_peers(&mut state, "/peers", &[], 1)).0,
        vec!["connected peers:", "  none"]
    );
    assert_eq!(
        done(with_peers(&mut state, "/peers", &["x"], 1)).0,
        vec!["connected peers:", "  x"]
    );
    let wanted = peers_use(run(&mut state, "/peers"));
    assert_eq!(
        done(state.with_peers(wanted, &Err(P2pError::ResponseDropped), 1)).1.unwrap(),
        "p2p runtime dropped a response"
    );
}

#[test]
fn a_message_reaches_the_other_side_of_a_direct_room() {
    let a = random_peer();
    let b = random_peer();
    let mut alice = logged_in("alice", &a, 1);
    let mut bob = logged_in("bob", &b, 2);

    let lines = done(with_peers(&mut alice, &format!("/dm {b} --secret pw"), &[&b], 1)).0;
    let _ = done(with_peers(&mut bob, &format!("/dm {a} --secret pw"), &[&a], 1));
    assert_eq!(alice.rooms.active_room, bob.rooms.active_room);
    assert_eq!(lines[5], "members: 2");

    let draft = draft(with_peers(&mut alice, "/msg hello there", &[&b, "else"], 5));
    assert_eq!(draft.targets, vec![b.clone()]);
    assert_eq!(draft.plain.body, "hello there");
    assert_eq!(draft.plain.timestamp_ms, 5);
    let envelope = sealed(&alice, &draft);
    assert!(!envelope.ciphertext_b64.contains("hello"));

    let plaintext = open_envelope(&bob.rooms, &peer(&a), &envelope).unwrap();
    assert_eq!(plaintext, b"hello there");
    let plain = PlainMessage {
        message_id: draft.plain.message_id.clone(),
        room_id: draft.plain.room_id.clone(),
        body: "hello there".to_string(),
        timestamp_ms: 5,
    };
    let accepted = bob.take_inbound_message(&peer(&a), &envelope, &plain, 9).unwrap();
    assert!(accepted.entry.is_none());
    let shown = show_inbound_message(&store(), &peer(&a), &envelope, &plain.body, &accepted, unpinned())
        .into_strings();
    assert_eq!(shown[0], "");
    assert_eq!(
        shown[1],
        format!(
            "[{}] [untrusted] alice [{}]: hello there",
            plain.room_id, accepted.fingerprint
        )
    );

    let again = match bob.take_inbound_message(&peer(&a), &envelope, &plain, 10) {
        Ok(_) => panic!("replayed"),
        Err(err) => err,
    };
    assert!(again.starts_with("replayed message rejected from peer"));
    let _ = run(&mut bob, "/create-room elsewhere");
    let _ = done(with_peers(&mut bob, &format!("/dm {a} --secret pw"), &[&a], 11));
    let _ = run(&mut bob, "/history on");
    let later = match bob.take_inbound_message(&peer(&a), &envelope, &plain, 12) {
        Ok(_) => panic!("replayed"),
        Err(err) => err,
    };
    assert_eq!(later, again);
    assert_eq!(
        open_envelope(&bob.rooms, &peer(&b), &envelope).unwrap_err(),
        format!(
            "sender peer mismatch: connection peer is {b}, envelope claims {a}"
        )
    );
}

#[test]
fn tampered_messages_are_rejected() {
    let a = random_peer();
    let b = random_peer();
    let mut alice = logged_in("alice", &a, 1);
    let mut bob = logged_in("bob", &b, 2);
    let _ = done(with_peers(&mut alice, &format!("/dm {b} --secret pw"), &[&b], 1));
    let _ = done(with_peers(&mut bob, &format!("/dm {a} --secret other"), &[&a], 1));
    let draft = draft(with_peers(&mut alice, "/msg hello", &[&b], 5));
    let envelope = sealed(&alice, &draft);
    assert_eq!(
        open_envelope(&bob.rooms, &peer(&a), &envelope).unwrap_err(),
        "message decryption failed"
    );
    let mut changed = envelope.clone();
    changed.sender_alias = "mallory".to_string();
    assert_eq!(
        open_envelope(&bob.rooms, &peer(&a), &changed).unwrap_err(),
        "invalid message signature"
    );
    let mut newer = envelope.clone();
    newer.version = 9;
    assert_eq!(
        open_envelope(&bob.rooms, &peer(&a), &newer).unwrap_err(),
        "unsupported protocol version 9; expected 1"
    );
    let mut elsewhere = envelope.clone();
    elsewhere.room_id = "elsewhere".to_string();
    assert_eq!(
        open_envelope(&bob.rooms, &peer(&a), &elsewhere).unwrap_err(),
        format!("unknown room 'elsewhere' from peer {a}; join the room first")
    );
    let stranger = random_peer();
    assert!(open_envelope(&bob.rooms, &peer(&stranger), &envelope)
        .unwrap_err()
        .contains("is not a local member of room"));
    let mut garbled = envelope.clone();
    garbled.signature_b64 = "?".to_string();
    assert_eq!(
        open_envelope(&bob.rooms, &peer(&a), &garbled).unwrap_err(),
        "invalid signature base64"
    );
}

#[test]
fn an_invited_peer_gets_the_room_and_its_key() {
    let a = random_peer();
    let b = random_peer();
    let mut alice = logged_in("alice", &a, 1);
    let mut bob = logged_in("bob", &b, 2);

    let (lines, error) = reply_of(run(&mut alice, "/create-room den --ephemeral"));
    assert!(error.is_none());
    assert_eq!(lines[0], "created room: den");
    assert_eq!(
        done(with_peers(&mut alice, &format!("/invite {b}"), &[], 7)).0[0],
        "error: peer is not connected"
    );
    let invite = invite_of(with_peers(&mut alice, &format!("/invite {b}"), &[&b], 7));
    assert_eq!(invite.room_id, "den");

    let pending = bob.take_inbound_invite(&peer(&a), &invite, 8).unwrap();
    let key_b64 = invite.sender_signing_public_key_b64.clone();
    let lines = bob
        .file_inbound_invite(&store(), pending, &key_b64, unpinned())
        .into_strings();
    assert!(lines[1].starts_with("[invite] [untrusted] alice ["));
    let (listed, _) = reply_of(run(&mut bob, "/invites"));
    assert_eq!(listed[0], "pending invites:");
    assert_eq!(listed[2], "    room_id: den");

    let (accepted, error) = reply_of(run(&mut bob, &format!("/accept-invite {}", invite.invite_id)));
    assert!(error.is_none());
    assert_eq!(accepted[0], format!("accepted invite: {}", invite.invite_id));
    assert_eq!(build_prompt(&bob), "dogel:bob[den*]> ");
    assert_eq!(
        alice.rooms.rooms.get("den").unwrap().room_key,
        bob.rooms.rooms.get("den").unwrap().room_key
    );

    let draft = draft(with_peers(&mut bob, "/msg hi", &[&a], 9));
    let envelope = sealed(&bob, &draft);
    assert_eq!(open_envelope(&alice.rooms, &peer(&b), &envelope).unwrap(), b"hi");

    assert_eq!(
        reply_of(run(&mut bob, &format!("/accept-invite {}", invite.invite_id))).0[0],
        format!("error: invite not found: {}", invite.invite_id)
    );
    assert_eq!(
        reply_of(run(&mut bob, "/reject-invite x")).0,
        vec!["invite not found: x"]
    );
}

#[test]
fn forged_invites_are_refused() {
    let a = random_peer();
    let b = random_peer();
    let mut alice = logged_in("alice", &a, 1);
    let mut bob = logged_in("bob", &b, 2);
    let _ = run(&mut alice, "/create-room den");
    let invite = invite_of(with_peers(&mut alice, &format!("/invite {b}"), &[&b], 7));

    let mut forged = invite.clone();
    forged.ephemeral = true;
    let refusal = |state: &mut AppState, sender: &str, invite: &RoomInvite| match state
        .take_inbound_invite(&peer(sender), invite, 8)
    {
        Ok(_) => panic!("accepted"),
        Err(err) => err,
    };
    assert_eq!(refusal(&mut bob, &a, &forged), "invalid invite signature");
    assert!(refusal(&mut bob, &b, &invite).starts_with("sender peer mismatch"));
    let mut widened = invite.clone();
    widened.membership.peers.push("zz".to_string());
    assert_eq!(refusal(&mut bob, &a, &widened), "invalid membership signature");
    assert!(bob.trust.observed.get(&a).is_none());
    assert_eq!(
        bob.file_inbound_invite(
            &store(),
            bob_pending(&a, &b),
            "key",
            PinsRead::Unreadable
        )
        .into_strings()[1],
        "[invite] rejected inbound invite: failed to load trusted peers"
    );
}

fn bob_pending(a: &str, b: &str) -> dogel::invite::PendingInvite {
    let mut alice = logged_in("alice", a, 1);
    let mut bob = logged_in("bob", b, 2);
    let _ = run(&mut alice, "/create-room den");
    let invite = invite_of(with_peers(&mut alice, &format!("/invite {b}"), &[b], 7));
    bob.take_inbound_invite(&peer(a), &invite, 8).unwrap()
}

#[test]
fn only_the_creator_invites() {
    let a = random_peer();
    let b = random_peer();
    let c = random_peer();
    let mut alice = logged_in("alice", &a, 1);
    let mut bob = logged_in("bob", &b, 2);
    let _ = run(&mut alice, "/create-room den");
    let invite = invite_of(with_peers(&mut alice, &format!("/invite {b}"), &[&b], 7));
    let pending = bob.take_inbound_invite(&peer(&a), &invite, 8).unwrap();
    let _ = bob.file_inbound_invite(&store(), pending, "", unpinned());
    let _ = run(&mut bob, &format!("/accept-invite {}", invite.invite_id));
    assert_eq!(
        done(with_peers(&mut bob, &format!("/invite {c}"), &[&c], 9)).1.unwrap(),
        "only the room creator can update signed membership in Phase 12"
    );
}

#[test]
fn a_room_is_joined_again_with_its_secret() {
    let local = random_peer();
    let mut state = logged_in("alice", &local, 1);
    let (lines, _) = reply_of(run(&mut state, "/join den --secret one"));
    assert_eq!(lines[0], "joined room: den");
    assert_eq!(build_prompt(&state), "dogel:alice[den]> ");
    let (again, _) = reply_of(run(&mut state, "/join den --secret one --ephemeral"));
    assert_eq!(again[0], "active room: den");
    assert_eq!(again[1], "ephemeral: false");
    assert_eq!(again[3], lines[4]);
}

#[test]
fn a_room_keeps_its_secret() {
    let local = random_peer();
    let mut state = logged_in("alice", &local, 1);
    let _ = run(&mut state, "/join den --secret one");
    let (lines, error) = reply_of(run(&mut state, "/join den --secret two"));
    assert_eq!(
        lines,
        vec![
            "error: room den already exists with a different key",
            "",
            "hint:",
            "  leave/recreate is not supported in v0.1",
        ]
    );
    assert!(error.is_none());
    assert_eq!(
        reply_of(run(&mut state, "/join d! --secret one")).1.unwrap(),
        "room id may contain only ASCII letters, numbers, '-', '_' and '.'"
    );
    assert_eq!(
        reply_of(run(&mut state, "/create-room den")).1.unwrap(),
        "room den already exists"
    );
}

#[test]
fn room_members_are_added_and_listed() {
    let local = random_peer();
    let other = random_peer();
    let mut state = logged_in("alice", &local, 1);
    assert_eq!(
        done(with_peers(&mut state, "/room peers", &[], 1)).0[0],
        "error: no active room"
    );
    let _ = run(&mut state, "/create-room den");
    assert_eq!(
        done(with_peers(&mut state, "/msg alone", &[], 1)).0[0],
        "error: room has no connected peers"
    );
    let add = format!("/room add-peer {other}");
    assert_eq!(
        done(with_peers(&mut state, &add, &[&other], 1)).0[0],
        "added peer to room den:"
    );
    assert_eq!(
        done(with_peers(&mut state, &add, &[&other], 1)).0[0],
        "peer is already in room den:"
    );
    let lines = done(with_peers(&mut state, "/room peers", &[], 1)).0;
    assert!(lines.contains(&format!("  {local}   self=true")));
    assert!(lines.contains(&format!("  {other}   connected=false")));
    let (rooms, _) = reply_of(run(&mut state, "/rooms"));
    assert!(rooms[1].starts_with("  * den          ephemeral=false history=false members=2 key="));
}

#[test]
fn the_policy_guards_what_is_sent() {
    let local = random_peer();
    let other = random_peer();
    let mut state = logged_in("alice", &local, 1);
    let _ = run(&mut state, "/create-room den");
    let _ = with_peers(&mut state, &format!("/room add-peer {other}"), &[&other], 1);
    assert_eq!(
        done(with_peers(&mut state, "/msg see www.example.org", &[&other], 1)).1.unwrap(),
        "message rejected by local policy\n\nreason:\n  links are not allowed in strict mode"
    );
    for _ in 0..8 {
        let _ = draft(with_peers(&mut state, "/msg again", &[&other], 1000));
    }
    assert_eq!(
        done(with_peers(&mut state, "/msg again", &[&other], 1000)).1.unwrap(),
        "message rejected by local policy\n\nreason:\n  paste/rate burst detected: max 8 messages per 10 seconds"
    );
    let _ = draft(with_peers(&mut state, "/msg again", &[&other], 20000));
    let (lines, _) = reply_of(run(&mut state, "/policy relaxed"));
    assert!(lines.iter().any(|line| line.contains("relaxed")));
    let long = format!("/msg {}", "x".repeat(1024));
    let _ = draft(with_peers(&mut state, &long, &[&other], 20000));
}

#[test]
fn keys_are_pinned_after_they_were_seen() {
    let a = random_peer();
    let b = random_peer();
    let mut alice = logged_in("alice", &a, 1);
    let mut bob = logged_in("bob", &b, 2);
    assert_eq!(
        reply_of(run(&mut bob, &format!("/trust {a}"))).0[0],
        format!("error: no observed signing key for peer {a}")
    );
    let _ = run(&mut alice, "/create-room den");
    let invite = invite_of(with_peers(&mut alice, &format!("/invite {b}"), &[&b], 7));
    let _ = bob.take_inbound_invite(&peer(&a), &invite, 8).unwrap();

    let (warning, record, file) = match run(&mut bob, &format!("/trust {a}")) {
        Dispatch::Pin {
            alias,
            peer_id,
            seen,
        } => match pin_peer(&store(), &alias, &peer_id, &seen, unpinned(), 11) {
            PinStep::Write {
                warning,
                record,
                file,
            } => (warning, record, file),
            PinStep::Done(reply) => panic!("{:?}", parts(reply)),
        },
        _ => panic!("not pinned"),
    };
    assert!(warning.is_empty());
    assert_eq!(record.trusted_at_ms, 11);
    assert_eq!(record.last_seen_at_ms, 8);
    let (lines, error) = parts(finish_pin(warning, &record, "/pins", true));
    assert!(error.is_none());
    assert_eq!(lines[4], "  path: /pins");

    let pins = |file: &TrustedPeersFile| PinsRead::Read {
        found: true,
        file: Some(file.duplicate()),
    };
    let pending = bob.take_inbound_invite(&peer(&a), &invite, 12).unwrap();
    let key = invite.sender_signing_public_key_b64.clone();
    let shown = bob
        .file_inbound_invite(&store(), pending, &key, pins(&file))
        .into_strings();
    assert!(shown[1].starts_with("[invite] alice ["));

    let mut impostor = logged_in("alice", &a, 3);
    let _ = run(&mut impostor, "/create-room den");
    let other = invite_of(with_peers(&mut impostor, &format!("/invite {b}"), &[&b], 13));
    let pending = bob.take_inbound_invite(&peer(&a), &other, 14).unwrap();
    let key = other.sender_signing_public_key_b64.clone();
    let shown = bob
        .file_inbound_invite(&store(), pending, &key, pins(&file))
        .into_strings();
    assert_eq!(
        shown[1],
        format!("SECURITY WARNING: signing key changed for peer {a}")
    );
    match run(&mut bob, &format!("/trust {a}")) {
        Dispatch::Pin {
            alias,
            peer_id,
            seen,
        } => match pin_peer(&store(), &alias, &peer_id, &seen, pins(&file), 15) {
            PinStep::Write { warning, .. } => assert_eq!(warning.len(), 4),
            PinStep::Done(_) => panic!("answered"),
        },
        _ => panic!("not pinned"),
    }

    assert_eq!(
        parts(list_pins(&store(), "bob", pins(&file))).0[0],
        "trusted peers:"
    );
    match unpin_peer(&store(), "bob", &a, pins(&file)) {
        UnpinStep::Write { removed, file } => {
            assert!(removed);
            assert!(file.peers.is_empty());
            assert_eq!(
                parts(finish_unpin(removed, &a, true)).0[0],
                "removed trusted peer:"
            );
        }
        UnpinStep::Done(_) => panic!("answered"),
    }
    assert_eq!(
        parts(list_pins(&store(), "bob", PinsRead::Unreadable)).1.unwrap(),
        "failed to load trusted peers"
    );
}

#[test]
fn histories_belong_to_lasting_rooms() {
    let a = random_peer();
    let b = random_peer();
    let mut alice = logged_in("alice", &a, 1);
    let mut bob = logged_in("bob", &b, 2);
    let _ = done(with_peers(&mut alice, &format!("/dm {b} --secret pw"), &[&b], 1));
    let _ = done(with_peers(&mut bob, &format!("/dm {a} --secret pw"), &[&a], 1));
    match run(&mut bob, "/history on") {
        Dispatch::ShowHistory { alias, first, .. } => {
            assert_eq!(alias, "bob");
            let (lines, error) = parts(finish_history(first, &Some(Vec::new())));
            assert!(error.is_none());
            assert_eq!(lines[1], "stored history entries: 0");
            assert_eq!(lines[2], "history: none");
        }
        _ => panic!("not shown"),
    }
    let outgoing = draft(with_peers(&mut alice, "/msg hello", &[&b], 5));
    let envelope = sealed(&alice, &outgoing);
    let accepted = bob
        .take_inbound_message(&peer(&a), &envelope, &outgoing.plain, 9)
        .unwrap();
    let entry = accepted.entry.unwrap();
    assert_eq!(entry.body, "hello");
    assert_eq!(entry.direction, RoomHistoryDirection::Inbound);
    assert!(record_room_history(
        &outgoing.room,
        RoomHistoryDirection::Outbound,
        "id",
        "peer",
        "alias",
        "body",
        1
    )
    .is_none());

    let mut carol = logged_in("carol", &random_peer(), 3);
    let _ = run(&mut carol, "/create-room den --ephemeral");
    assert_eq!(
        reply_of(run(&mut carol, "/history on")).0,
        vec!["error: cannot enable history for an ephemeral room"]
    );
    assert_eq!(
        reply_of(run(&mut carol, "/history off")).0,
        vec!["room den history_enabled=false"]
    );
    assert_eq!(
        parts(finish_history("x".to_string(), &None)).1.unwrap(),
        "failed to load encrypted room history"
    );
    assert_eq!(
        warn_of_history(RoomHistoryDirection::Outbound),
        "[history] warning: failed to persist outbound message: failed to append encrypted room history"
    );
}

#[test]
fn unreadable_pins_reject_a_message() {
    let a = random_peer();
    let b = random_peer();
    let mut alice = logged_in("alice", &a, 1);
    let mut bob = logged_in("bob", &b, 2);
    let _ = done(with_peers(&mut alice, &format!("/dm {b} --secret pw"), &[&b], 1));
    let _ = done(with_peers(&mut bob, &format!("/dm {a} --secret pw"), &[&a], 1));
    let outgoing = draft(with_peers(&mut alice, "/msg hello", &[&b], 5));
    let envelope = sealed(&alice, &outgoing);
    let accepted = bob
        .take_inbound_message(&peer(&a), &envelope, &outgoing.plain, 9)
        .unwrap();
    assert_eq!(
        show_inbound_message(
            &store(),
            &peer(&a),
            &envelope,
            "hello",
            &accepted,
            PinsRead::Unreadable
        )
        .into_strings(),
        vec![
            "",
            "[msg] rejected inbound envelope: failed to load trusted peers"
        ]
    );
}

#[test]
fn one_identity_is_unlocked_per_process() {
    let local = random_peer();
    let state = logged_in("alice", &local, 1);
    match state.login_with_password(&store(), "bob", "pw", IdentityRead::Absent) {
        Ok(_) => panic!("unlocked"),
        Err(reply) => assert_eq!(
            parts(reply).1.unwrap(),
            "an identity is already unlocked in this process"
        ),
    }
    match fresh().login_with_password(&store(), "bob", "pw", IdentityRead::Absent) {
        Ok(_) => panic!("unlocked"),
        Err(reply) => assert_eq!(parts(reply).1.unwrap(), "failed to unlock identity 'bob'"),
    }
    assert_eq!(
        parts(lock_failed_reply("bob")).1.unwrap(),
        "failed to acquire session lock for identity 'bob'"
    );
}

#[test]
fn a_login_that_cannot_start_the_network_changes_nothing() {
    let local = random_peer();
    let mut state = fresh();
    let (lines, error) = parts(state.finish_login(identity("alice", &local, 1), None));
    assert_eq!(lines.len(), 4);
    assert_eq!(error.unwrap(), "failed to start libp2p runtime");
    assert!(state.active_identity.is_none());
    assert_eq!(state.take_session_lock(), None);
    assert_eq!(build_prompt(&state), "dogel> ");
}

#[test]
fn a_login_is_reported() {
    let local = random_peer();
    let mut state = fresh();
    let (lines, _) = parts(state.finish_login(identity("alice", &local, 1), Some(peer(&local))));
    assert_eq!(lines[0], "unlocked identity:");
    assert_eq!(lines[1], "  alias: alice");
    assert_eq!(lines[4], "p2p runtime started:");
    assert_eq!(lines[6], "  listen: /ip4/0.0.0.0/tcp/7777");
    assert_eq!(
        lines[9],
        "  use /whoami after [p2p] listening appears to copy full multiaddr"
    );
    let config = state.network_config("alice");
    assert_eq!(config.identity_alias.as_deref(), Some("alice"));
    assert_eq!(state.take_session_lock().as_deref(), Some("alice"));
}

#[test]
fn identities_are_created_with_good_passwords() {
    assert_eq!(
        confirm_new_password("one", "two").unwrap_err(),
        "passwords do not match"
    );
    assert_eq!(
        confirm_new_password("short", "short").unwrap_err(),
        "password must be at least 8 characters long"
    );
    assert!(confirm_new_password("longenough", "longenough").is_ok());
    match create_identity_with_password(&store(), "a b", "longenough", false, 1) {
        Ok(_) => panic!("created"),
        Err(reply) => assert_eq!(parts(reply).1.unwrap(), "failed to create identity 'a b'"),
    }
    let (created, files) =
        match create_identity_with_password(&store(), "alice", "longenough", false, 1) {
            Ok(made) => made,
            Err(reply) => panic!("{:?}", parts(reply)),
        };
    assert_eq!(
        created_report(&created, "/there").into_strings()[4],
        "  path: /there"
    );
    assert_eq!(files.profile.network.peer_id, created.peer_id);
    assert!(PeerId::parse(&created.peer_id).is_some());
}

#[test]
fn lines_are_sent_run_or_refused() {
    assert!(matches!(read_line("   "), ShellStep::Nothing));
    assert!(matches!(read_line("/quit"), ShellStep::Quit));
    match read_line(" hello ") {
        ShellStep::Send { text } => assert_eq!(text, "hello"),
        _ => panic!("not sent"),
    }
    match read_line("/msg hi") {
        ShellStep::Run { record, .. } => assert!(!record),
        _ => panic!("not run"),
    }
    match read_line(" /peers ") {
        ShellStep::Run { record, line, .. } => {
            assert!(record);
            assert_eq!(line, "/peers");
        }
        _ => panic!("not run"),
    }
    match read_line("/join 1") {
        ShellStep::Refuse { lines, .. } => {
            assert_eq!(lines[0], "error: missing required flag --secret");
            assert_eq!(lines[2], "usage:");
        }
        _ => panic!("not refused"),
    }
}

#[test]
fn what_the_terminal_has_to_do_is_told() {
    let mut state = fresh();
    assert!(matches!(run(&mut state, "/clear"), Dispatch::ClearScreen));
    assert!(matches!(
        run(&mut state, "/login a"),
        Dispatch::AskPassword { .. }
    ));
    assert!(matches!(
        run(&mut state, "/identity create a"),
        Dispatch::AskNewPassword { .. }
    ));
    assert!(matches!(
        run(&mut state, "/doctor"),
        Dispatch::Diagnose(DiagnosisUse::Doctor)
    ));
    assert_eq!(reply_of(run(&mut state, "/debug on")).0, vec!["debug=true"]);
    assert!(state.debug_enabled);
    let (help, _) = reply_of(run(&mut state, "/help"));
    assert_eq!(help[0], "commands:");
    assert_eq!(help.len(), 53);
    assert_eq!(help[5], "  /connect-peer <peer_id|alias>");
    assert_eq!(help[6], "  /resolve-peer <peer_id|alias>");
}

#[test]
fn the_shell_greets() {
    let lines = banner("/root/dogel", &fresh()).into_strings();
    assert_eq!(lines[0], "dogel.bin v0.1 phase 16");
    assert_eq!(lines[2], "config root: /root/dogel");
    assert_eq!(lines[7], "");
}

#[test]
fn sent_messages_are_reported() {
    assert_eq!(report_sent("den", 2, "hi"), "[den] you -> 2 peer(s): hi");
}

#[test]
fn addresses_grow_at_their_end() {
    let local = random_peer();
    let addr = Multiaddr::parse("/ip4/127.0.0.1/tcp/1").unwrap();
    assert!(addr.peer().is_none());
    let full = addr.with_peer(&local);
    assert_eq!(full.to_text(), format!("/ip4/127.0.0.1/tcp/1/p2p/{local}"));
    assert_eq!(full.peer(), Some(&local));
    assert_eq!(
        full.with_circuit().to_text(),
        format!("/ip4/127.0.0.1/tcp/1/p2p/{local}/p2p-circuit")
    );
}
