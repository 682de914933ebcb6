//! What the informative commands print.

use crate::network;
use crate::network::P2pError;
use crate::network::P2pErrorView;
use crate::network::write_addrs;
use crate::network::write_own_addrs;
use crate::peer;
use crate::peer::Multiaddr;
use crate::peer::MultiaddrView;
use crate::policy;
use crate::policy::message_policy_report;
use crate::reply;
use crate::reply::no_identity_reply;
use crate::reply::Reply;
use crate::reply::ReplyView;
use crate::room;
use crate::session::AppState;
use crate::session::AppStateView;
use crate::storage;
use crate::storage::RoomHistoryEntry;
use crate::storage::StorageError;
use crate::storage::TrustedPeerRecord;
use crate::storage::UnlockedIdentity;
use crate::storage::UnlockedIdentityView;
use crate::swarm::P2pDiagnostics;
use crate::swarm::P2pDiagnosticsView;
use crate::text;
use crate::text::bool_text;
use crate::text::cat2;
use crate::text::cat3;
use crate::text::cat5;
use crate::text::count_text;
use crate::text::decimal_text;
use crate::text::Lines;
use crate::text::same_text;
use vstd::prelude::*;

verus! {

/// A number that could be read, or why not.
#[derive(Debug, Clone, PartialEq, Eq)]
pub enum Counted {
    Count(usize),
    Unavailable(String),
}

/// The plain values held by a [`Counted`].
#[verifier::ext_equal]
pub enum CountedView {
    Count(usize),
    Unavailable(Seq<char>),
}

impl View for Counted {
    type V = CountedView;

    open spec fn view(&self) -> CountedView {
        match *self {
            Counted::Count(x0) => CountedView::Count(x0),
            Counted::Unavailable(x0) => CountedView::Unavailable(x0@),
        }
    }
}

/// How a number is shown.
pub open spec fn counted_word(counted: CountedView) -> Seq<char> {
    match counted {
        CountedView::Count(n) => text::decimal(n as nat),
        CountedView::Unavailable(reason) => "unavailable ("@ + reason + ")"@,
    }
}

impl Counted {
    /// Show a number.
    pub fn text(&self) -> (res: String)
        ensures
            res@ == counted_word(self@),
    {
        match self {
            Counted::Count(n) => count_text(*n),
            Counted::Unavailable(reason) => cat3("unavailable (", reason.as_str(), ")"),
        }
    }
}

/// Count the pinned peers.
pub fn count_trusted(trusted: &Result<Vec<TrustedPeerRecord>, StorageError>) -> (res: Counted)
    ensures
        res@ == (match *trusted {
            Ok(peers) => CountedView::Count(peers@.len() as usize),
            Err(e) => CountedView::Unavailable(storage::storage_error_text(e@)),
        }),
{
    match trusted {
        Ok(peers) => Counted::Count(peers.len()),
        Err(e) => Counted::Unavailable(e.message()),
    }
}

/// What is said where the history of a room cannot be read.
pub open spec fn history_unreadable() -> Seq<char> {
    "failed to load encrypted room history"@
}

/// Count the history entries of a room. There is no list where they could not be read.
pub fn count_history(history: &Option<Vec<RoomHistoryEntry>>) -> (res: Counted)
    ensures
        res@ == (match *history {
            Some(entries) => CountedView::Count(entries@.len() as usize),
            None => CountedView::Unavailable(history_unreadable()),
        }),
{
    match history {
        Some(entries) => Counted::Count(entries.len()),
        None => Counted::Unavailable("failed to load encrypted room history".to_owned()),
    }
}

/// What the network node answered when it was asked what it knows.
pub type Diagnosis = Result<P2pDiagnosticsView, P2pErrorView>;

/// The view of an answer of the network node.
pub open spec fn diagnosis(net: Result<P2pDiagnostics, P2pError>) -> Diagnosis {
    match net {
        Ok(d) => Ok(d@),
        Err(e) => Err(e@),
    }
}

/// An optional address as it is shown.
pub open spec fn public_word(addr: Option<MultiaddrView>) -> Seq<char> {
    match addr {
        Some(a) => peer::addr_text(a),
        None => "none"@,
    }
}

/// Show an optional address.
pub fn public_text(addr: &Option<Multiaddr>) -> (res: String)
    ensures
        res@ == public_word(
            match *addr {
                Some(a) => Some(a@),
                None => None,
            },
        ),
{
    match addr {
        Some(a) => a.to_text(),
        None => "none".to_owned(),
    }
}

/// Lines behind a margin.
pub open spec fn indented(margin: Seq<char>, items: Seq<Seq<char>>) -> Seq<Seq<char>> {
    items.map_values(|item: Seq<char>| margin + item)
}

/// Put lines behind a margin.
pub fn indent(margin: &str, items: &Vec<String>) -> (res: Lines)
    ensures
        res@ == indented(margin@, text::texts(items@)),
{
    let ghost want = indented(margin@, text::texts(items@));
    let mut lines = Lines::new();
    let mut i: usize = 0;
    assert(want.take(0) =~= Seq::empty());
    while i < items.len()
        invariant
            i <= items@.len(),
            want == indented(margin@, text::texts(items@)),
            lines@ == want.take(i as int),
        decreases items.len() - i,
    {
        lines.add(cat2(margin, items[i].as_str()));
        i = i + 1;
        assert(want.take(i as int) =~= want.take(i - 1).push(want[i - 1]));
    }
    assert(want.take(i as int) =~= want);
    lines
}

/// Addresses as they are written.
pub open spec fn addr_words(addrs: Seq<MultiaddrView>) -> Seq<Seq<char>> {
    addrs.map_values(|addr: MultiaddrView| peer::addr_text(addr))
}

/// The addresses at which this node listens, behind a margin.
pub open spec fn listen_lines(margin: Seq<char>, addrs: Seq<MultiaddrView>, local: Seq<char>) -> Seq<
    Seq<char>,
> {
    if addrs.len() == 0 {
        seq![margin + "swarm started, but no listen address is confirmed yet"@]
    } else {
        indented(margin, network::own_addrs(addrs, local))
    }
}

/// Show the addresses at which this node listens.
fn listen_report(margin: &str, addrs: &Vec<Multiaddr>, local: &str) -> (res: Lines)
    ensures
        res@ == listen_lines(margin@, peer::addr_views(addrs@), local@),
{
    if addrs.len() == 0 {
        let mut lines = Lines::new();
        lines.add(cat2(margin, "swarm started, but no listen address is confirmed yet"));
        assert(lines@ =~= listen_lines(margin@, peer::addr_views(addrs@), local@));
        lines
    } else {
        indent(margin, &write_own_addrs(addrs, local))
    }
}

/// Who the user is.
pub open spec fn identity_lines(identity: UnlockedIdentityView) -> Seq<Seq<char>> {
    seq![
        "alias: "@ + identity.alias,
        "peer_id: "@ + identity.peer_id,
        "fingerprint: "@ + identity.fingerprint,
    ]
}

/// Show who the user is.
pub fn identity_report(margin: &str, identity: &UnlockedIdentity) -> (res: Lines)
    ensures
        res@ == indented(margin@, identity_lines(identity@)),
{
    let mut lines = Lines::new();
    lines.add(cat3(margin, "alias: ", identity.alias.as_str()));
    lines.add(cat3(margin, "peer_id: ", identity.peer_id.as_str()));
    lines.add(cat3(margin, "fingerprint: ", identity.fingerprint.as_str()));
    proof {
        let want = indented(margin@, identity_lines(identity@));
        assert(lines@[0] =~= want[0]);
        assert(lines@[1] =~= want[1]);
        assert(lines@[2] =~= want[2]);
        assert(lines@ =~= want);
    }
    lines
}

/// What `/whoami` says of the network.
pub open spec fn whoami_network_lines(d: P2pDiagnosticsView, local: Seq<char>) -> Seq<Seq<char>> {
    seq![
        "nat: "@ + d.nat_status,
        "public address: "@ + public_word(d.public_address),
        "dcutr events: "@ + text::decimal(d.dcutr_events.len()),
    ] + listen_lines("  "@, d.listen_addrs, local) + seq!["relayed listen:"@] + (
    if d.relayed_addrs.len() == 0 {
        seq!["  none"@]
    } else {
        indented("  "@, addr_words(d.relayed_addrs))
    })
}

/// Say what `/whoami` says of the network.
fn whoami_network(d: &P2pDiagnostics, local: &str) -> (res: Lines)
    ensures
        res@ == whoami_network_lines(d@, local@),
{
    let mut lines = Lines::new();
    lines.add(cat2("nat: ", d.nat_status.as_str()));
    lines.add(cat2("public address: ", public_text(&d.public_address).as_str()));
    lines.add(cat2("dcutr events: ", count_text(d.dcutr_events.len()).as_str()));
    let ghost first = lines@;
    let listen = listen_report("  ", &d.listen_addrs, local);
    lines.extend(&listen);
    lines.say("relayed listen:");
    let ghost middle = lines@;
    if d.relayed_addrs.len() == 0 {
        lines.say("  none");
    } else {
        lines.extend(&indent("  ", &write_addrs(&d.relayed_addrs)));
    }
    proof {
        assert(first =~= seq![
            "nat: "@ + d@.nat_status,
            "public address: "@ + public_word(d@.public_address),
            "dcutr events: "@ + text::decimal(d@.dcutr_events.len()),
        ]);
        assert(middle =~= first + listen@ + seq!["relayed listen:"@]);
        assert(lines@ =~= whoami_network_lines(d@, local@));
    }
    lines
}

/// The answer to `/whoami`.
pub open spec fn whoami_reply(state: AppStateView, net: Diagnosis) -> ReplyView {
    match state.active_identity {
        None => reply::no_identity(),
        Some(identity) => {
            let first = identity_lines(identity).push("listen:"@);
            match state.p2p {
                None => reply::printed(first.push("  p2p runtime is not started"@)),
                Some(local) => match net {
                    Ok(d) => reply::printed(first + whoami_network_lines(d, local)),
                    Err(e) => ReplyView { lines: first, error: Some(network::p2p_error_text(e)) },
                },
            }
        },
    }
}

/// Answer `/whoami`.
pub fn whoami(state: &AppState, net: &Result<P2pDiagnostics, P2pError>) -> (res: Reply)
    ensures
        res@ == whoami_reply(state@, diagnosis(*net)),
{
    match &state.active_identity {
        None => no_identity_reply(),
        Some(identity) => {
            let mut lines = identity_report("", identity);
            proof {
                let bare = identity_lines(identity@);
                assert(indented(""@, bare) =~= bare) by {
                    reveal_strlit("");
                    assert forall|i: int| 0 <= i < bare.len() implies indented(
                        ""@,
                        bare,
                    )[i] == bare[i] by {
                        assert(""@ + bare[i] =~= bare[i]);
                    }
                }
            }
            lines.say("listen:");
            match &state.p2p {
                None => {
                    lines.say("  p2p runtime is not started");
                    Reply::print(lines)
                },
                Some(local) => match net {
                    Ok(d) => {
                        lines.extend(&whoami_network(d, local.as_text()));
                        Reply::print(lines)
                    },
                    Err(e) => Reply { lines, error: Some(e.message()) },
                },
            }
        },
    }
}

/// What `/status` says of the identity.
pub open spec fn status_identity_lines(state: AppStateView, trusted: CountedView) -> Seq<
    Seq<char>,
> {
    seq!["identity:"@] + match state.active_identity {
        Some(identity) => indented("  "@, identity_lines(identity)).push(
            "  trusted peers: "@ + counted_word(trusted),
        ),
        None => seq!["  none"@],
    }
}

/// Say what `/status` says of the identity.
fn status_identity(state: &AppState, trusted: &Counted) -> (res: Lines)
    ensures
        res@ == status_identity_lines(state@, trusted@),
{
    let mut lines = Lines::new();
    lines.say("identity:");
    match &state.active_identity {
        Some(identity) => {
            lines.extend(&identity_report("  ", identity));
            lines.add(cat2("  trusted peers: ", trusted.text().as_str()));
        },
        None => {
            lines.say("  none");
        },
    }
    assert(lines@ =~= status_identity_lines(state@, trusted@));
    lines
}

/// What `/status` says of a running network node.
pub open spec fn status_network_lines(d: P2pDiagnosticsView, local: Seq<char>) -> Seq<Seq<char>> {
    seq![
        "  local_peer_id: "@ + local,
        "  nat: "@ + d.nat_status,
        "  public address: "@ + public_word(d.public_address),
        "  dcutr events: "@ + text::decimal(d.dcutr_events.len()),
        "  connected peers: "@ + text::decimal(d.connected_peers.len()),
    ] + (if d.connected_peers.len() == 0 {
        seq!["  peers: none"@]
    } else {
        seq!["  peers:"@] + indented("    "@, d.connected_peers)
    }) + seq!["  listen:"@] + listen_lines("    "@, d.listen_addrs, local)
}

/// Say what `/status` says of a running network node.
fn status_network(d: &P2pDiagnostics, local: &str) -> (res: Lines)
    ensures
        res@ == status_network_lines(d@, local@),
{
    let mut lines = Lines::new();
    lines.add(cat2("  local_peer_id: ", local));
    lines.add(cat2("  nat: ", d.nat_status.as_str()));
    lines.add(cat2("  public address: ", public_text(&d.public_address).as_str()));
    lines.add(cat2("  dcutr events: ", count_text(d.dcutr_events.len()).as_str()));
    lines.add(cat2("  connected peers: ", count_text(d.connected_peers.len()).as_str()));
    let ghost first = lines@;
    let mut peers = Lines::new();
    if d.connected_peers.len() == 0 {
        peers.say("  peers: none");
    } else {
        peers.say("  peers:");
        peers.extend(&indent("    ", &d.connected_peers));
    }
    lines.extend(&peers);
    lines.say("  listen:");
    let ghost middle = lines@;
    lines.extend(&listen_report("    ", &d.listen_addrs, local));
    proof {
        assert(first =~= seq![
            "  local_peer_id: "@ + local@,
            "  nat: "@ + d@.nat_status,
            "  public address: "@ + public_word(d@.public_address),
            "  dcutr events: "@ + text::decimal(d@.dcutr_events.len()),
            "  connected peers: "@ + text::decimal(d@.connected_peers.len()),
        ]);
        assert(peers@ =~= if d@.connected_peers.len() == 0 {
            seq!["  peers: none"@]
        } else {
            seq!["  peers:"@] + indented("    "@, d@.connected_peers)
        });
        assert(middle =~= first + peers@ + seq!["  listen:"@]);
        assert(lines@ =~= status_network_lines(d@, local@));
    }
    lines
}

/// What `/status` says of the active room.
pub open spec fn status_room_lines(state: AppStateView, history: CountedView) -> Seq<Seq<char>> {
    match room::active_session(state.rooms) {
        None => seq!["  none"@],
        Some(room) => {
            let lines = seq![
                "  room_id: "@ + room.room_id,
                "  ephemeral: "@ + text::bool_word(room.ephemeral),
                "  history: "@ + text::bool_word(room.history_enabled),
                "  members: "@ + text::decimal(room.members.len()),
                "  key fingerprint: "@ + room.key_fingerprint,
            ];
            if room.history_enabled && state.active_identity is Some {
                lines.push("  stored history entries: "@ + counted_word(history))
            } else {
                lines
            }
        },
    }
}

/// Say what `/status` says of the active room.
fn status_room(state: &AppState, history: &Counted) -> (res: Lines)
    ensures
        res@ == status_room_lines(state@, history@),
{
    let mut lines = Lines::new();
    match state.rooms.active() {
        None => {
            lines.say("  none");
        },
        Some(room) => {
            lines.add(cat2("  room_id: ", room.room_id.as_str()));
            lines.add(cat2("  ephemeral: ", bool_text(room.ephemeral)));
            lines.add(cat2("  history: ", bool_text(room.history_enabled)));
            lines.add(cat2("  members: ", count_text(room.members.len()).as_str()));
            lines.add(cat2("  key fingerprint: ", room.key_fingerprint.as_str()));
            if room.history_enabled && state.active_identity.is_some() {
                lines.add(cat2("  stored history entries: ", history.text().as_str()));
            }
        },
    }
    assert(lines@ =~= status_room_lines(state@, history@));
    lines
}

/// What `/status` says behind the network.
pub open spec fn status_tail_lines(state: AppStateView, history: CountedView) -> Seq<Seq<char>> {
    seq![""@, "active room:"@] + status_room_lines(state, history) + seq![
        ""@,
        "invites:"@,
        "  pending: "@ + text::decimal(state.invites.pending.len()),
        ""@,
    ] + policy::policy_lines(state.message_policy)
}

/// The answer to `/status`.
pub open spec fn status_reply(
    state: AppStateView,
    trusted: CountedView,
    net: Diagnosis,
    history: CountedView,
) -> ReplyView {
    let first = status_identity_lines(state, trusted) + seq![""@, "network:"@];
    match state.p2p {
        None => reply::printed(
            first + seq!["  p2p runtime: not started"@, "  hint: /login <alias>"@]
                + status_tail_lines(state, history),
        ),
        Some(local) => match net {
            Ok(d) => reply::printed(
                first + status_network_lines(d, local) + status_tail_lines(state, history),
            ),
            Err(e) => ReplyView { lines: first, error: Some(network::p2p_error_text(e)) },
        },
    }
}

/// Answer `/status`.
pub fn print_status(
    state: &AppState,
    trusted: &Counted,
    net: &Result<P2pDiagnostics, P2pError>,
    history: &Counted,
) -> (res: Reply)
    ensures
        res@ == status_reply(state@, trusted@, diagnosis(*net), history@),
{
    let mut lines = status_identity(state, trusted);
    let ghost identity = lines@;
    lines.say("");
    lines.say("network:");
    let ghost first = lines@;
    assert(first =~= identity + seq![""@, "network:"@]);
    match &state.p2p {
        None => {
            lines.say("  p2p runtime: not started");
            lines.say("  hint: /login <alias>");
            assert(lines@ =~= first + seq![
                "  p2p runtime: not started"@,
                "  hint: /login <alias>"@,
            ]);
        },
        Some(local) => match net {
            Ok(d) => {
                lines.extend(&status_network(d, local.as_text()));
            },
            Err(e) => {
                return Reply { lines, error: Some(e.message()) };
            },
        },
    }
    let mut tail = Lines::new();
    tail.say("");
    tail.say("active room:");
    let room = status_room(state, history);
    tail.extend(&room);
    tail.say("");
    tail.say("invites:");
    tail.add(cat2("  pending: ", count_text(state.invites.pending.len()).as_str()));
    tail.say("");
    tail.extend(&message_policy_report(&state.message_policy));
    assert(tail@ =~= status_tail_lines(state@, history@));
    lines.extend(&tail);
    Reply::print(lines)
}

/// What `/doctor` says of the identity.
pub open spec fn doctor_identity_lines(state: AppStateView, trusted: CountedView) -> Seq<
    Seq<char>,
> {
    seq!["identity:"@] + match state.active_identity {
        Some(identity) => seq!["  active: yes"@] + indented("  "@, identity_lines(identity)) + seq![
            "  session lock: "@ + (if state.session_lock_alias == Some(identity.alias) {
                "held"@
            } else {
                "not-held"@
            }),
            "  trusted peers on disk: "@ + counted_word(trusted),
        ],
        None => seq!["  active: no"@, "  hint: /login <alias>"@],
    }
}

/// Say what `/doctor` says of the identity.
fn doctor_identity(state: &AppState, trusted: &Counted) -> (res: Lines)
    ensures
        res@ == doctor_identity_lines(state@, trusted@),
{
    let mut lines = Lines::new();
    lines.say("identity:");
    match &state.active_identity {
        Some(identity) => {
            lines.say("  active: yes");
            lines.extend(&identity_report("  ", identity));
            let held = match &state.session_lock_alias {
                Some(alias) => same_text(alias.as_str(), identity.alias.as_str()),
                None => false,
            };
            let word = if held {
                "held"
            } else {
                "not-held"
            };
            lines.add(cat2("  session lock: ", word));
            lines.add(cat2("  trusted peers on disk: ", trusted.text().as_str()));
        },
        None => {
            lines.say("  active: no");
            lines.say("  hint: /login <alias>");
        },
    }
    assert(lines@ =~= doctor_identity_lines(state@, trusted@));
    lines
}

/// What `/doctor` says of a running network node.
pub open spec fn doctor_network_lines(d: P2pDiagnosticsView, local: Seq<char>) -> Seq<Seq<char>> {
    seq![
        "  p2p: running"@,
        "  local_peer_id: "@ + local,
        "  connected peers: "@ + text::decimal(d.connected_peers.len()),
        "  nat status: "@ + d.nat_status,
        "  public address: "@ + public_word(d.public_address),
        "  dcutr events: "@ + text::decimal(d.dcutr_events.len()),
        "  confirmed listen addresses: "@ + text::decimal(d.listen_addrs.len()),
        "  relay server: "@ + text::bool_word(d.relay_server),
        "  bootstrap peers: "@ + text::decimal(d.bootstrap_peers.len()),
        "  relay reservations: "@ + text::decimal(d.relay_reservations.len()),
        "  relayed listen addresses: "@ + text::decimal(d.relayed_addrs.len()),
        "  external addresses: "@ + text::decimal(d.external_addrs.len()),
    ] + (if d.relay_reservation_errors.len() == 0 {
        Seq::empty()
    } else {
        seq!["  relay reservation errors:"@] + indented("    "@, d.relay_reservation_errors)
    })
}

/// Say what `/doctor` says of a running network node.
fn doctor_network(d: &P2pDiagnostics, local: &str) -> (res: Lines)
    ensures
        res@ == doctor_network_lines(d@, local@),
{
    let mut lines = Lines::new();
    lines.say("  p2p: running");
    lines.add(cat2("  local_peer_id: ", local));
    lines.add(cat2("  connected peers: ", count_text(d.connected_peers.len()).as_str()));
    lines.add(cat2("  nat status: ", d.nat_status.as_str()));
    lines.add(cat2("  public address: ", public_text(&d.public_address).as_str()));
    lines.add(cat2("  dcutr events: ", count_text(d.dcutr_events.len()).as_str()));
    lines.add(
        cat2("  confirmed listen addresses: ", count_text(d.listen_addrs.len()).as_str()),
    );
    lines.add(cat2("  relay server: ", bool_text(d.relay_server)));
    lines.add(cat2("  bootstrap peers: ", count_text(d.bootstrap_peers.len()).as_str()));
    lines.add(cat2("  relay reservations: ", count_text(d.relay_reservations.len()).as_str()));
    lines.add(cat2("  relayed listen addresses: ", count_text(d.relayed_addrs.len()).as_str()));
    lines.add(cat2("  external addresses: ", count_text(d.external_addrs.len()).as_str()));
    let ghost first = lines@;
    let mut errors = Lines::new();
    if d.relay_reservation_errors.len() > 0 {
        errors.say("  relay reservation errors:");
        errors.extend(&indent("    ", &d.relay_reservation_errors));
    }
    lines.extend(&errors);
    proof {
        assert(errors@ =~= if d@.relay_reservation_errors.len() == 0 {
            Seq::empty()
        } else {
            seq!["  relay reservation errors:"@] + indented("    "@, d@.relay_reservation_errors)
        });
        assert(lines@ =~= doctor_network_lines(d@, local@));
    }
    lines
}

/// What `/doctor` says where no network node runs.
pub open spec fn doctor_offline_lines(state: AppStateView) -> Seq<Seq<char>> {
    seq![
        "  p2p: not-started"@,
        "  relay server: "@ + text::bool_word(state.relay_server),
        "  bootstrap peers: "@ + text::decimal(state.bootstrap_peers.len()),
        "  external addresses: "@ + text::decimal(state.external_addrs.len()),
        "  nat status: unknown"@,
        "  public address: none"@,
        "  dcutr events: 0"@,
    ]
}

/// Say what `/doctor` says where no network node runs.
fn doctor_offline(state: &AppState) -> (res: Lines)
    ensures
        res@ == doctor_offline_lines(state@),
{
    let mut lines = Lines::new();
    lines.say("  p2p: not-started");
    lines.add(cat2("  relay server: ", bool_text(state.relay_server)));
    lines.add(cat2("  bootstrap peers: ", count_text(state.bootstrap_peers.len()).as_str()));
    lines.add(cat2("  external addresses: ", count_text(state.external_addrs.len()).as_str()));
    lines.say("  nat status: unknown");
    lines.say("  public address: none");
    lines.say("  dcutr events: 0");
    assert(lines@ =~= doctor_offline_lines(state@));
    lines
}

/// What `/doctor` says of the rooms.
pub open spec fn doctor_room_lines(state: AppStateView, history: CountedView) -> Seq<Seq<char>> {
    let first = seq!["rooms:"@, "  total: "@ + text::decimal(state.rooms.rooms.len())];
    match room::active_session(state.rooms) {
        None => first.push("  active: none"@),
        Some(room) => {
            let lines = first + seq![
                "  active: "@ + room.room_id,
                "  ephemeral: "@ + text::bool_word(room.ephemeral),
                "  history: "@ + text::bool_word(room.history_enabled),
                "  members: "@ + text::decimal(room.members.len()),
                "  replay cache: "@ + text::decimal(room.replay_cache.seen.len()),
            ];
            if room.history_enabled && state.active_identity is Some {
                lines.push("  stored history entries: "@ + counted_word(history))
            } else {
                lines
            }
        },
    }
}

/// Say what `/doctor` says of the rooms.
fn doctor_room(state: &AppState, history: &Counted) -> (res: Lines)
    ensures
        res@ == doctor_room_lines(state@, history@),
{
    let mut lines = Lines::new();
    lines.say("rooms:");
    lines.add(cat2("  total: ", count_text(state.rooms.rooms.len()).as_str()));
    match state.rooms.active() {
        None => {
            lines.say("  active: none");
        },
        Some(room) => {
            lines.add(cat2("  active: ", room.room_id.as_str()));
            lines.add(cat2("  ephemeral: ", bool_text(room.ephemeral)));
            lines.add(cat2("  history: ", bool_text(room.history_enabled)));
            lines.add(cat2("  members: ", count_text(room.members.len()).as_str()));
            lines.add(cat2("  replay cache: ", count_text(room.replay_cache.len()).as_str()));
            if room.history_enabled && state.active_identity.is_some() {
                lines.add(cat2("  stored history entries: ", history.text().as_str()));
            }
        },
    }
    assert(lines@ =~= doctor_room_lines(state@, history@));
    lines
}

/// What `/doctor` says of everything else.
pub open spec fn doctor_tail_lines(state: AppStateView) -> Seq<Seq<char>> {
    let p = state.message_policy;
    seq![
        "invites:"@,
        "  pending: "@ + text::decimal(state.invites.pending.len()),
        "trust:"@,
        "  observed peers: "@ + text::decimal(state.trust.observed.len()),
        "policy:"@,
        "  mode: "@ + policy::mode_word(p.mode),
        "  max chars: "@ + text::decimal(p.max_chars as nat),
        "  links rejected: "@ + text::bool_word(p.reject_links),
        "  multiline rejected: "@ + text::bool_word(p.reject_multiline),
        "  rate limit: "@ + text::decimal(p.max_messages_per_window as nat) + " messages / "@ + text::decimal(
            (p.window_ms / 1000) as nat,
        ) + "s"@,
        "runtime:"@,
        "  debug: "@ + (if state.debug_enabled {
            "on"@
        } else {
            "off"@
        }),
    ]
}

/// Say what `/doctor` says of everything else.
fn doctor_tail(state: &AppState) -> (res: Lines)
    ensures
        res@ == doctor_tail_lines(state@),
{
    let policy = &state.message_policy;
    let mut lines = Lines::new();
    lines.say("invites:");
    lines.add(cat2("  pending: ", count_text(state.invites.pending.len()).as_str()));
    lines.say("trust:");
    lines.add(cat2("  observed peers: ", count_text(state.trust.observed.len()).as_str()));
    lines.say("policy:");
    lines.add(cat2("  mode: ", policy.mode_name()));
    lines.add(cat2("  max chars: ", count_text(policy.max_chars).as_str()));
    lines.add(cat2("  links rejected: ", bool_text(policy.reject_links)));
    lines.add(cat2("  multiline rejected: ", bool_text(policy.reject_multiline)));
    let seconds: u64 = policy.window_ms / 1000;
    lines.add(
        cat5(
            "  rate limit: ",
            count_text(policy.max_messages_per_window).as_str(),
            " messages / ",
            decimal_text(seconds).as_str(),
            "s",
        ),
    );
    lines.say("runtime:");
    let debug = if state.debug_enabled {
        "on"
    } else {
        "off"
    };
    lines.add(cat2("  debug: ", debug));
    assert(lines@ =~= doctor_tail_lines(state@));
    lines
}

/// The answer to `/doctor`.
pub open spec fn doctor_reply(
    state: AppStateView,
    trusted: CountedView,
    net: Diagnosis,
    history: CountedView,
) -> ReplyView {
    let first = seq!["doctor:"@] + doctor_identity_lines(state, trusted) + seq!["network:"@];
    let rest = doctor_room_lines(state, history) + doctor_tail_lines(state);
    match state.p2p {
        None => reply::printed(first + doctor_offline_lines(state) + rest),
        Some(local) => match net {
            Ok(d) => reply::printed(first + doctor_network_lines(d, local) + rest),
            Err(e) => reply::failed(network::p2p_error_text(e)),
        },
    }
}

/// Answer `/doctor`.
pub fn build_doctor_report(
    state: &AppState,
    trusted: &Counted,
    net: &Result<P2pDiagnostics, P2pError>,
    history: &Counted,
) -> (res: Reply)
    ensures
        res@ == doctor_reply(state@, trusted@, diagnosis(*net), history@),
{
    let mut lines = Lines::new();
    lines.say("doctor:");
    let identity = doctor_identity(state, trusted);
    lines.extend(&identity);
    lines.say("network:");
    assert(lines@ =~= seq!["doctor:"@] + identity@ + seq!["network:"@]);
    match &state.p2p {
        None => {
            lines.extend(&doctor_offline(state));
        },
        Some(local) => match net {
            Ok(d) => {
                lines.extend(&doctor_network(d, local.as_text()));
            },
            Err(e) => {
                return Reply::fail(e.message());
            },
        },
    }
    let mut rest = doctor_room(state, history);
    rest.extend(&doctor_tail(state));
    lines.extend(&rest);
    Reply::print(lines)
}

/// The answer to `/peers`.
pub open spec fn peers_lines(peers: Seq<Seq<char>>) -> Seq<Seq<char>> {
    seq!["connected peers:"@] + (if peers.len() == 0 {
        seq!["  none"@]
    } else {
        indented("  "@, peers)
    })
}

/// Answer `/peers`.
pub fn peers_report(peers: &Vec<String>) -> (res: Lines)
    ensures
        res@ == peers_lines(text::texts(peers@)),
{
    let mut lines = Lines::new();
    lines.say("connected peers:");
    if peers.len() == 0 {
        lines.say("  none");
    } else {
        lines.extend(&indent("  ", peers));
    }
    assert(lines@ =~= peers_lines(text::texts(peers@)));
    lines
}

/// Every connected peer is listed, in the order given, and nobody else; that there is none is said.
pub proof fn law_connected_peers_are_listed(peers: Seq<Seq<char>>)
    ensures
        peers.len() > 0 ==> peers_lines(peers).len() == 1 + peers.len(),
        forall|i: int|
            0 <= i < peers.len() ==> peers_lines(peers)[1 + i] == "  "@ + #[trigger] peers[i],
        peers.len() == 0 ==> peers_lines(peers) == seq!["connected peers:"@, "  none"@],
{
    assert(peers.len() == 0 ==> peers_lines(peers) =~= seq!["connected peers:"@, "  none"@]);
}

/// Who the user is stands in the answer to `/whoami`; with a running network node so do all the
/// addresses at which it listens and all those over relays.
pub proof fn law_whoami_tells_who_and_where(
    state: AppStateView,
    identity: UnlockedIdentityView,
    d: P2pDiagnosticsView,
    local: Seq<char>,
)
    requires
        state.active_identity == Some(identity),
        state.p2p == Some(local),
    ensures
        ({
            let reply = whoami_reply(state, Diagnosis::Ok(d));
            &&& reply.error is None
            &&& reply.lines.contains("alias: "@ + identity.alias)
            &&& reply.lines.contains("peer_id: "@ + identity.peer_id)
            &&& reply.lines.contains("fingerprint: "@ + identity.fingerprint)
            &&& reply.lines.contains("nat: "@ + d.nat_status)
            &&& reply.lines.contains("public address: "@ + public_word(d.public_address))
            &&& reply.lines.contains("dcutr events: "@ + text::decimal(d.dcutr_events.len()))
            &&& forall|i: int|
                0 <= i < d.listen_addrs.len() ==> reply.lines.contains(
                    "  "@ + (peer::addr_text(#[trigger] d.listen_addrs[i]) + ("/p2p/"@ + local)),
                )
            &&& forall|j: int|
                0 <= j < d.relayed_addrs.len() ==> reply.lines.contains(
                    "  "@ + peer::addr_text(#[trigger] d.relayed_addrs[j]),
                )
        }),
{
    let first = identity_lines(identity).push("listen:"@);
    let net = whoami_network_lines(d, local);
    let lines = whoami_reply(state, Diagnosis::Ok(d)).lines;
    assert(lines == first + net);
    assert(lines[0] == "alias: "@ + identity.alias);
    assert(lines[1] == "peer_id: "@ + identity.peer_id);
    assert(lines[2] == "fingerprint: "@ + identity.fingerprint);
    assert(lines[4] == net[0]);
    assert(lines[4] == "nat: "@ + d.nat_status);
    assert(lines[5] == net[1]);
    assert(lines[5] == "public address: "@ + public_word(d.public_address));
    assert(lines[6] == net[2]);
    assert(lines[6] == "dcutr events: "@ + text::decimal(d.dcutr_events.len()));
    assert forall|i: int| 0 <= i < d.listen_addrs.len() implies lines.contains(
        "  "@ + (peer::addr_text(#[trigger] d.listen_addrs[i]) + ("/p2p/"@ + local)),
    ) by {
        peer::law_with_peer_text(d.listen_addrs[i], local);
        assert(net[3 + i] == "  "@ + network::own_addrs(d.listen_addrs, local)[i]);
        assert(lines[7 + i] == net[3 + i]);
    }
    assert forall|j: int| 0 <= j < d.relayed_addrs.len() implies lines.contains(
        "  "@ + peer::addr_text(#[trigger] d.relayed_addrs[j]),
    ) by {
        let at = 4 + listen_lines("  "@, d.listen_addrs, local).len() + j;
        assert(net[at] == "  "@ + peer::addr_text(d.relayed_addrs[j]));
        assert(lines[4 + at] == net[at]);
    }
}

/// Without an identity, without a network node, and where the node does not answer, `/whoami` says
/// so.
pub proof fn law_whoami_tells_what_is_missing(state: AppStateView, e: P2pErrorView, net: Diagnosis)
    ensures
        state.active_identity is None ==> whoami_reply(state, net).lines[0]
            == "error: no active identity"@,
        state.active_identity is Some && state.p2p is None ==> whoami_reply(
            state,
            net,
        ).lines.contains("  p2p runtime is not started"@) && whoami_reply(state, net).error is None,
        state.active_identity is Some && state.p2p is Some ==> whoami_reply(
            state,
            Diagnosis::Err(e),
        ).error == Some(network::p2p_error_text(e)),
{
    if state.active_identity is Some && state.p2p is None {
        let lines = whoami_reply(state, net).lines;
        assert(lines[lines.len() - 1] == "  p2p runtime is not started"@);
    }
}

/// The answer to `/status` names the identity, every connected peer, every address at which the node
/// listens, the active room, the number of invitations that wait and the policy.
#[verifier::spinoff_prover]
pub proof fn law_status_tells_the_state(
    state: AppStateView,
    trusted: CountedView,
    d: P2pDiagnosticsView,
    history: CountedView,
    local: Seq<char>,
)
    requires
        state.p2p == Some(local),
    ensures
        ({
            let reply = status_reply(state, trusted, Diagnosis::Ok(d), history);
            &&& reply.error is None
            &&& state.active_identity matches Some(identity) ==> {
                &&& reply.lines.contains("  "@ + ("alias: "@ + identity.alias))
                &&& reply.lines.contains("  "@ + ("peer_id: "@ + identity.peer_id))
                &&& reply.lines.contains("  "@ + ("fingerprint: "@ + identity.fingerprint))
                &&& reply.lines.contains("  trusted peers: "@ + counted_word(trusted))
            }
            &&& reply.lines.contains("  local_peer_id: "@ + local)
            &&& reply.lines.contains("  nat: "@ + d.nat_status)
            &&& reply.lines.contains("  public address: "@ + public_word(d.public_address))
            &&& reply.lines.contains("  connected peers: "@ + text::decimal(d.connected_peers.len()))
            &&& forall|i: int|
                0 <= i < d.connected_peers.len() ==> reply.lines.contains(
                    "    "@ + #[trigger] d.connected_peers[i],
                )
            &&& forall|i: int|
                0 <= i < d.listen_addrs.len() ==> reply.lines.contains(
                    "    "@ + (peer::addr_text(#[trigger] d.listen_addrs[i]) + ("/p2p/"@ + local)),
                )
        }),
{
    let who = status_identity_lines(state, trusted);
    let first = who + seq![""@, "network:"@];
    let net = status_network_lines(d, local);
    let tail = status_tail_lines(state, history);
    let lines = status_reply(state, trusted, Diagnosis::Ok(d), history).lines;
    assert(lines == first + net + tail);
    let n = first.len() as int;
    match state.active_identity {
        Some(identity) => {
            assert(lines[1] == who[1]);
            assert(lines[2] == who[2]);
            assert(lines[3] == who[3]);
            assert(lines[4] == who[4]);
            assert(who[1] == "  "@ + identity_lines(identity)[0]);
            assert(who[2] == "  "@ + identity_lines(identity)[1]);
            assert(who[3] == "  "@ + identity_lines(identity)[2]);
            assert(who[4] == "  trusted peers: "@ + counted_word(trusted));
        },
        None => {},
    }
    assert(lines[n] == net[0]);
    assert(lines[n + 1] == net[1]);
    assert(lines[n + 2] == net[2]);
    assert(lines[n + 4] == net[4]);
    assert(net[0] == "  local_peer_id: "@ + local);
    assert(net[1] == "  nat: "@ + d.nat_status);
    assert(net[2] == "  public address: "@ + public_word(d.public_address));
    assert(net[4] == "  connected peers: "@ + text::decimal(d.connected_peers.len()));
    assert forall|i: int| 0 <= i < d.connected_peers.len() implies lines.contains(
        "    "@ + #[trigger] d.connected_peers[i],
    ) by {
        assert(net[6 + i] == "    "@ + d.connected_peers[i]);
        assert(lines[n + 6 + i] == net[6 + i]);
    }
    assert forall|i: int| 0 <= i < d.listen_addrs.len() implies lines.contains(
        "    "@ + (peer::addr_text(#[trigger] d.listen_addrs[i]) + ("/p2p/"@ + local)),
    ) by {
        peer::law_with_peer_text(d.listen_addrs[i], local);
        let at = net.len() - d.listen_addrs.len() + i;
        assert(net[at] == "    "@ + network::own_addrs(d.listen_addrs, local)[i]);
        assert(lines[n + at] == net[at]);
    }
}

/// Whether or not a network node runs, `/status` ends with the active room, the number of
/// invitations that wait and the policy.
#[verifier::spinoff_prover]
pub proof fn law_status_tells_the_room(
    state: AppStateView,
    trusted: CountedView,
    net: Diagnosis,
    history: CountedView,
)
    requires
        state.p2p is None || net is Ok,
    ensures
        ({
            let reply = status_reply(state, trusted, net, history);
            &&& room::active_session(state.rooms) matches Some(room) ==> {
                &&& reply.lines.contains("  room_id: "@ + room.room_id)
                &&& reply.lines.contains("  ephemeral: "@ + text::bool_word(room.ephemeral))
                &&& reply.lines.contains("  history: "@ + text::bool_word(room.history_enabled))
                &&& reply.lines.contains("  members: "@ + text::decimal(room.members.len()))
                &&& reply.lines.contains("  key fingerprint: "@ + room.key_fingerprint)
                &&& room.history_enabled && state.active_identity is Some ==> reply.lines.contains(
                    "  stored history entries: "@ + counted_word(history),
                )
            }
            &&& reply.lines.contains("  pending: "@ + text::decimal(state.invites.pending.len()))
            &&& reply.lines.contains("  mode: "@ + policy::mode_word(state.message_policy.mode))
            &&& reply.lines.contains(
                "  max chars: "@ + text::decimal(state.message_policy.max_chars as nat),
            )
        }),
{
    let lines = status_reply(state, trusted, net, history).lines;
    let tail = status_tail_lines(state, history);
    let rooms = status_room_lines(state, history);
    let policy = policy::policy_lines(state.message_policy);
    let at = lines.len() - tail.len();
    let k = rooms.len() as int;
    assert forall|x: int| 0 <= x < tail.len() implies #[trigger] lines[at + x] == tail[x] by {}
    assert forall|x: int| 0 <= x < k implies #[trigger] tail[2int + x] == rooms[x] by {}
    assert forall|x: int| 0 <= x < policy.len() implies #[trigger] tail[6 + k + x]
        == policy[x] by {}
    match room::active_session(state.rooms) {
        Some(room) => {
            assert(lines[at + 2] == tail[2int + 0]);
            assert(lines[at + 3] == tail[2int + 1]);
            assert(lines[at + 4] == tail[2int + 2]);
            assert(lines[at + 5] == tail[2int + 3]);
            assert(lines[at + 6] == tail[2int + 4]);
            if room.history_enabled && state.active_identity is Some {
                assert(lines[at + 7] == tail[2int + 5]);
                assert(rooms[5] == "  stored history entries: "@ + counted_word(history));
            }
            assert(rooms[0] == "  room_id: "@ + room.room_id);
            assert(rooms[1] == "  ephemeral: "@ + text::bool_word(room.ephemeral));
            assert(rooms[2] == "  history: "@ + text::bool_word(room.history_enabled));
            assert(rooms[3] == "  members: "@ + text::decimal(room.members.len()));
            assert(rooms[4] == "  key fingerprint: "@ + room.key_fingerprint);
        },
        None => {},
    }
    assert(tail[4 + k] == "  pending: "@ + text::decimal(state.invites.pending.len()));
    assert(lines[at + (4 + k)] == tail[4 + k]);
    assert(lines[at + (6 + k + 1)] == tail[6 + k + 1]);
    assert(lines[at + (6 + k + 2)] == tail[6 + k + 2]);
}

/// The answer to `/doctor` names the identity and whether its lock is held, and counts what the
/// network node has.
#[verifier::spinoff_prover]
pub proof fn law_doctor_tells_the_state(
    state: AppStateView,
    trusted: CountedView,
    d: P2pDiagnosticsView,
    history: CountedView,
    local: Seq<char>,
)
    requires
        state.p2p == Some(local),
    ensures
        ({
            let reply = doctor_reply(state, trusted, Diagnosis::Ok(d), history);
            &&& reply.error is None
            &&& state.active_identity matches Some(identity) ==> {
                &&& reply.lines.contains("  active: yes"@)
                &&& reply.lines.contains("  "@ + ("alias: "@ + identity.alias))
                &&& reply.lines.contains("  "@ + ("peer_id: "@ + identity.peer_id))
                &&& reply.lines.contains("  "@ + ("fingerprint: "@ + identity.fingerprint))
                &&& state.session_lock_alias == Some(identity.alias) ==> reply.lines.contains(
                    "  session lock: "@ + "held"@,
                )
                &&& state.session_lock_alias != Some(identity.alias) ==> reply.lines.contains(
                    "  session lock: "@ + "not-held"@,
                )
                &&& reply.lines.contains("  trusted peers on disk: "@ + counted_word(trusted))
            }
            &&& state.active_identity is None ==> reply.lines.contains("  active: no"@)
            &&& reply.lines.contains("  local_peer_id: "@ + local)
            &&& reply.lines.contains("  connected peers: "@ + text::decimal(d.connected_peers.len()))
            &&& reply.lines.contains("  nat status: "@ + d.nat_status)
            &&& reply.lines.contains("  public address: "@ + public_word(d.public_address))
            &&& reply.lines.contains("  dcutr events: "@ + text::decimal(d.dcutr_events.len()))
            &&& reply.lines.contains(
                "  confirmed listen addresses: "@ + text::decimal(d.listen_addrs.len()),
            )
            &&& reply.lines.contains("  relay server: "@ + text::bool_word(d.relay_server))
            &&& reply.lines.contains("  bootstrap peers: "@ + text::decimal(d.bootstrap_peers.len()))
            &&& reply.lines.contains(
                "  relay reservations: "@ + text::decimal(d.relay_reservations.len()),
            )
            &&& reply.lines.contains(
                "  relayed listen addresses: "@ + text::decimal(d.relayed_addrs.len()),
            )
            &&& reply.lines.contains(
                "  external addresses: "@ + text::decimal(d.external_addrs.len()),
            )
            &&& forall|i: int|
                0 <= i < d.relay_reservation_errors.len() ==> reply.lines.contains(
                    "    "@ + #[trigger] d.relay_reservation_errors[i],
                )
        }),
{
    let who = doctor_identity_lines(state, trusted);
    let first = seq!["doctor:"@] + who + seq!["network:"@];
    let net = doctor_network_lines(d, local);
    let rest = doctor_room_lines(state, history) + doctor_tail_lines(state);
    let lines = doctor_reply(state, trusted, Diagnosis::Ok(d), history).lines;
    assert(lines == first + net + rest);
    let n = first.len() as int;
    assert forall|x: int| 0 <= x < who.len() implies #[trigger] lines[1int + x] == who[x] by {
        assert(first[1int + x] == who[x]);
    }
    assert forall|x: int| 0 <= x < net.len() implies #[trigger] lines[n + x] == net[x] by {}
    match state.active_identity {
        Some(identity) => {
            assert(who[2] == "  "@ + identity_lines(identity)[0]);
            assert(who[3] == "  "@ + identity_lines(identity)[1]);
            assert(who[4] == "  "@ + identity_lines(identity)[2]);
            assert(lines[1int + 1] == who[1]);
            assert(lines[1int + 2] == who[2]);
            assert(lines[1int + 3] == who[3]);
            assert(lines[1int + 4] == who[4]);
            assert(lines[1int + 5] == who[5]);
            assert(lines[1int + 6] == who[6]);
        },
        None => {
            assert(lines[1int + 1] == who[1]);
        },
    }
    assert(lines[n + 1] == net[1]);
    assert(lines[n + 2] == net[2]);
    assert(lines[n + 3] == net[3]);
    assert(lines[n + 4] == net[4]);
    assert(lines[n + 5] == net[5]);
    assert(lines[n + 6] == net[6]);
    assert(lines[n + 7] == net[7]);
    assert(lines[n + 8] == net[8]);
    assert(lines[n + 9] == net[9]);
    assert(lines[n + 10] == net[10]);
    assert(lines[n + 11] == net[11]);
    assert forall|i: int| 0 <= i < d.relay_reservation_errors.len() implies lines.contains(
        "    "@ + #[trigger] d.relay_reservation_errors[i],
    ) by {
        assert(net[13 + i] == "    "@ + d.relay_reservation_errors[i]);
        assert(lines[n + (13 + i)] == net[13 + i]);
    }
}

/// Whether or not a network node runs, `/doctor` counts the rooms, names the active one, and counts
/// invitations and keys.
#[verifier::spinoff_prover]
pub proof fn law_doctor_tells_the_rooms(
    state: AppStateView,
    trusted: CountedView,
    net: Diagnosis,
    history: CountedView,
)
    requires
        state.p2p is None || net is Ok,
    ensures
        ({
            let reply = doctor_reply(state, trusted, net, history);
            &&& reply.lines.contains("  total: "@ + text::decimal(state.rooms.rooms.len()))
            &&& room::active_session(state.rooms) matches Some(room) ==> {
                &&& reply.lines.contains("  active: "@ + room.room_id)
                &&& reply.lines.contains("  ephemeral: "@ + text::bool_word(room.ephemeral))
                &&& reply.lines.contains("  history: "@ + text::bool_word(room.history_enabled))
                &&& reply.lines.contains("  members: "@ + text::decimal(room.members.len()))
                &&& reply.lines.contains(
                    "  replay cache: "@ + text::decimal(room.replay_cache.seen.len()),
                )
                &&& room.history_enabled && state.active_identity is Some ==> reply.lines.contains(
                    "  stored history entries: "@ + counted_word(history),
                )
            }
            &&& room::active_session(state.rooms) is None ==> reply.lines.contains("  active: none"@)
            &&& reply.lines.contains("  pending: "@ + text::decimal(state.invites.pending.len()))
            &&& reply.lines.contains(
                "  observed peers: "@ + text::decimal(state.trust.observed.len()),
            )
            &&& reply.lines.contains("  mode: "@ + policy::mode_word(state.message_policy.mode))
            &&& reply.lines.contains(
                "  max chars: "@ + text::decimal(state.message_policy.max_chars as nat),
            )
            &&& state.debug_enabled ==> reply.lines.contains("  debug: "@ + "on"@)
            &&& !state.debug_enabled ==> reply.lines.contains("  debug: "@ + "off"@)
        }),
{
    let lines = doctor_reply(state, trusted, net, history).lines;
    let rooms = doctor_room_lines(state, history);
    let tail = doctor_tail_lines(state);
    let at = lines.len() - tail.len() - rooms.len();
    let k = rooms.len() as int;
    assert forall|x: int| 0 <= x < k implies #[trigger] lines[at + x] == rooms[x] by {}
    assert forall|x: int| 0 <= x < tail.len() implies #[trigger] lines[at + k + x]
        == tail[x] by {}
    assert(lines[at + 1] == rooms[1]);
    assert(lines[at + 2] == rooms[2]);
    match room::active_session(state.rooms) {
        Some(room) => {
            assert(lines[at + 3] == rooms[3]);
            assert(lines[at + 4] == rooms[4]);
            assert(lines[at + 5] == rooms[5]);
            assert(lines[at + 6] == rooms[6]);
            if room.history_enabled && state.active_identity is Some {
                assert(lines[at + 7] == rooms[7]);
            }
        },
        None => {},
    }
    assert(lines[at + k + 1] == tail[1]);
    assert(lines[at + k + 3] == tail[3]);
    assert(lines[at + k + 5] == tail[5]);
    assert(lines[at + k + 6] == tail[6]);
    assert(lines[at + k + 11] == tail[11]);
}

/// Where the network node does not answer, `/status` and `/doctor` say why; where none runs, they
/// say that.
pub proof fn law_reports_tell_what_is_missing(
    state: AppStateView,
    trusted: CountedView,
    net: Diagnosis,
    history: CountedView,
    e: P2pErrorView,
)
    ensures
        state.p2p is Some ==> status_reply(state, trusted, Diagnosis::Err(e), history).error
            == Some(network::p2p_error_text(e)) && doctor_reply(
            state,
            trusted,
            Diagnosis::Err(e),
            history,
        ).error == Some(network::p2p_error_text(e)),
        state.p2p is None ==> {
            let status = status_reply(state, trusted, net, history);
            let doctor = doctor_reply(state, trusted, net, history);
            &&& status.error is None && doctor.error is None
            &&& status.lines.contains("  p2p runtime: not started"@)
            &&& doctor.lines.contains("  p2p: not-started"@)
            &&& doctor.lines.contains("  relay server: "@ + text::bool_word(state.relay_server))
        },
{
    if state.p2p is None {
        let status = status_reply(state, trusted, net, history).lines;
        let first = status_identity_lines(state, trusted) + seq![""@, "network:"@];
        assert(status[first.len() as int] == "  p2p runtime: not started"@);
        let doctor = doctor_reply(state, trusted, net, history).lines;
        let head = seq!["doctor:"@] + doctor_identity_lines(state, trusted) + seq!["network:"@];
        assert(doctor[head.len() as int] == "  p2p: not-started"@);
        assert(doctor[head.len() as int + 1] == "  relay server: "@ + text::bool_word(
            state.relay_server,
        ));
    }
}

/// A number is shown in digits, or with the reason why it is not known.
pub proof fn law_counts_are_told(n: usize, reason: Seq<char>)
    ensures
        counted_word(CountedView::Count(n)) == text::decimal(n as nat),
        text::occurs_in(reason, counted_word(CountedView::Unavailable(reason))),
{
    let word = counted_word(CountedView::Unavailable(reason));
    let head = "unavailable ("@;
    assert(word.subrange(head.len() as int, head.len() as int + reason.len()) =~= reason);
}

} // verus!
