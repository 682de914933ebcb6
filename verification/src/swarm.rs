//! What a node does on each event of its swarm.

use crate::discovery;
use crate::discovery::DiscoveryResolution;
use crate::discovery::DiscoveryResolutionView;
use crate::network;
use crate::network::ADVERT_TTL_MS;
use crate::network::build_relayed_addrs;
use crate::network::connected_bootstrap_peers;
use crate::network::Effects;
use crate::network::NetEffect;
use crate::network::NetEffectView;
use crate::network::NetState;
use crate::network::NetStateView;
use crate::network::P2pConfigView;
use crate::network::P2pError;
use crate::network::P2pErrorView;
use crate::network::P2pEvent;
use crate::network::P2pEventView;
use crate::network::PendingDiscovery;
use crate::network::PendingDiscoveryView;
use crate::network::SwarmFacts;
use crate::network::SwarmFactsView;
use crate::peer;
use crate::peer::Multiaddr;
use crate::peer::MultiaddrView;
use crate::primitives;
use crate::primitives::debug_opt;
use crate::protocol::DiscoveryRequest;
use crate::protocol::DiscoveryRequestView;
use crate::protocol::DiscoveryResponse;
use crate::protocol::DiscoveryResponseView;
use crate::protocol::DogelRequest;
use crate::protocol::DogelRequestView;
use crate::protocol::DogelResponse;
use crate::protocol::DogelResponseView;
use crate::protocol::PeerAdvertisement;
use crate::protocol::PeerAdvertisementView;
use crate::protocol::RoomInviteView;
use crate::protocol::SignedEncryptedEnvelopeView;
use crate::table;
use crate::text;
use crate::text::cat2;
use crate::text::cat3;
use crate::text::cat4;
use crate::text::cat5;
use crate::text::copy_opt;
use crate::text::copy_strings;
use crate::text::decimal_text;
use crate::text::text_occurs;
use vstd::prelude::*;

verus! {

/// An event of the swarm, or a request of the application to the node.
///
/// What the swarm only shows in a log is handed over as text.
pub enum NetInput {
    /// The node has started.
    Started,
    /// The dialing of a bootstrap peer began, or could not begin.
    BootstrapDialed { addr: Multiaddr, error: Option<String> },
    /// The listening on a relay began, or could not begin.
    RelayListened { peer_id: String, addr: Multiaddr, error: Option<String> },
    /// All bootstrap peers have been tried.
    BootstrapTried,
    /// It is time to publish again.
    RefreshDue,
    /// The application looks for a peer.
    ResolveWanted { query: String },
    /// The application wants the list of peers.
    ListWanted,
    NewListenAddr { addr: Multiaddr },
    ListenerClosed { addresses: String, error: Option<String> },
    ConnectionEstablished { peer_id: String, endpoint: String },
    ConnectionClosed { peer_id: String },
    OutgoingConnectionError { peer_id: Option<String>, error: String },
    IncomingConnectionError { error: String },
    NatStatusChanged { before: String, after: String },
    NatOutboundProbeError { error: String },
    NatInboundProbeError { error: String },
    NatOther { event: String },
    Dcutr { remote_peer_id: String, result: String },
    Identified { peer_id: String, observed_addr: Multiaddr, listen_addrs: Vec<Multiaddr> },
    RelayReservationAccepted { relay_peer_id: String },
    RelayClientOther { event: String },
    RelayServerOther { event: String },
    MessageRequest { peer_id: String, request: DogelRequest },
    MessageResponse { response: DogelResponse },
    MessageOutboundFailure { peer_id: String, error: String },
    MessageInboundFailure { peer_id: String, error: String },
    DirectoryRequest { peer_id: String, request: DiscoveryRequest },
    /// An answer of a directory, and how it is shown in a log.
    DirectoryResponse {
        peer_id: String,
        pending: Option<PendingDiscovery>,
        response: DiscoveryResponse,
        shown: String,
    },
    DirectoryOutboundFailure { peer_id: String, pending: Option<PendingDiscovery>, error: String },
    DirectoryInboundFailure { peer_id: String, error: String },
}

/// The plain values held by a [`NetInput`].
#[verifier::ext_equal]
pub enum NetInputView {
    Started,
    BootstrapDialed { addr: MultiaddrView, error: Option<Seq<char>> },
    RelayListened { peer_id: Seq<char>, addr: MultiaddrView, error: Option<Seq<char>> },
    BootstrapTried,
    RefreshDue,
    ResolveWanted { query: Seq<char> },
    ListWanted,
    NewListenAddr { addr: MultiaddrView },
    ListenerClosed { addresses: Seq<char>, error: Option<Seq<char>> },
    ConnectionEstablished { peer_id: Seq<char>, endpoint: Seq<char> },
    ConnectionClosed { peer_id: Seq<char> },
    OutgoingConnectionError { peer_id: Option<Seq<char>>, error: Seq<char> },
    IncomingConnectionError { error: Seq<char> },
    NatStatusChanged { before: Seq<char>, after: Seq<char> },
    NatOutboundProbeError { error: Seq<char> },
    NatInboundProbeError { error: Seq<char> },
    NatOther { event: Seq<char> },
    Dcutr { remote_peer_id: Seq<char>, result: Seq<char> },
    Identified { peer_id: Seq<char>, observed_addr: MultiaddrView, listen_addrs: Seq<MultiaddrView> },
    RelayReservationAccepted { relay_peer_id: Seq<char> },
    RelayClientOther { event: Seq<char> },
    RelayServerOther { event: Seq<char> },
    MessageRequest { peer_id: Seq<char>, request: DogelRequestView },
    MessageResponse { response: DogelResponseView },
    MessageOutboundFailure { peer_id: Seq<char>, error: Seq<char> },
    MessageInboundFailure { peer_id: Seq<char>, error: Seq<char> },
    DirectoryRequest { peer_id: Seq<char>, request: DiscoveryRequestView },
    DirectoryResponse { peer_id: Seq<char>, pending: Option<PendingDiscoveryView>, response: DiscoveryResponseView, shown: Seq<char> },
    DirectoryOutboundFailure { peer_id: Seq<char>, pending: Option<PendingDiscoveryView>, error: Seq<char> },
    DirectoryInboundFailure { peer_id: Seq<char>, error: Seq<char> },
}

impl View for NetInput {
    type V = NetInputView;

    open spec fn view(&self) -> NetInputView {
        match *self {
            NetInput::Started => NetInputView::Started,
            NetInput::BootstrapDialed { addr, error } => NetInputView::BootstrapDialed { addr: addr@, error: text::opt_text(error) },
            NetInput::RelayListened { peer_id, addr, error } => NetInputView::RelayListened { peer_id: peer_id@, addr: addr@, error: text::opt_text(error) },
            NetInput::BootstrapTried => NetInputView::BootstrapTried,
            NetInput::RefreshDue => NetInputView::RefreshDue,
            NetInput::ResolveWanted { query } => NetInputView::ResolveWanted { query: query@ },
            NetInput::ListWanted => NetInputView::ListWanted,
            NetInput::NewListenAddr { addr } => NetInputView::NewListenAddr { addr: addr@ },
            NetInput::ListenerClosed { addresses, error } => NetInputView::ListenerClosed { addresses: addresses@, error: text::opt_text(error) },
            NetInput::ConnectionEstablished { peer_id, endpoint } => NetInputView::ConnectionEstablished { peer_id: peer_id@, endpoint: endpoint@ },
            NetInput::ConnectionClosed { peer_id } => NetInputView::ConnectionClosed { peer_id: peer_id@ },
            NetInput::OutgoingConnectionError { peer_id, error } => NetInputView::OutgoingConnectionError { peer_id: text::opt_text(peer_id), error: error@ },
            NetInput::IncomingConnectionError { error } => NetInputView::IncomingConnectionError { error: error@ },
            NetInput::NatStatusChanged { before, after } => NetInputView::NatStatusChanged { before: before@, after: after@ },
            NetInput::NatOutboundProbeError { error } => NetInputView::NatOutboundProbeError { error: error@ },
            NetInput::NatInboundProbeError { error } => NetInputView::NatInboundProbeError { error: error@ },
            NetInput::NatOther { event } => NetInputView::NatOther { event: event@ },
            NetInput::Dcutr { remote_peer_id, result } => NetInputView::Dcutr { remote_peer_id: remote_peer_id@, result: result@ },
            NetInput::Identified { peer_id, observed_addr, listen_addrs } => NetInputView::Identified { peer_id: peer_id@, observed_addr: observed_addr@, listen_addrs: listen_addrs@.map_values(|x: Multiaddr| x@) },
            NetInput::RelayReservationAccepted { relay_peer_id } => NetInputView::RelayReservationAccepted { relay_peer_id: relay_peer_id@ },
            NetInput::RelayClientOther { event } => NetInputView::RelayClientOther { event: event@ },
            NetInput::RelayServerOther { event } => NetInputView::RelayServerOther { event: event@ },
            NetInput::MessageRequest { peer_id, request } => NetInputView::MessageRequest { peer_id: peer_id@, request: request@ },
            NetInput::MessageResponse { response } => NetInputView::MessageResponse { response: response@ },
            NetInput::MessageOutboundFailure { peer_id, error } => NetInputView::MessageOutboundFailure { peer_id: peer_id@, error: error@ },
            NetInput::MessageInboundFailure { peer_id, error } => NetInputView::MessageInboundFailure { peer_id: peer_id@, error: error@ },
            NetInput::DirectoryRequest { peer_id, request } => NetInputView::DirectoryRequest { peer_id: peer_id@, request: request@ },
            NetInput::DirectoryResponse { peer_id, pending, response, shown } => NetInputView::DirectoryResponse { peer_id: peer_id@, pending: (match pending { Some(x) => Some(x@), None => None }), response: response@, shown: shown@ },
            NetInput::DirectoryOutboundFailure { peer_id, pending, error } => NetInputView::DirectoryOutboundFailure { peer_id: peer_id@, pending: (match pending { Some(x) => Some(x@), None => None }), error: error@ },
            NetInput::DirectoryInboundFailure { peer_id, error } => NetInputView::DirectoryInboundFailure { peer_id: peer_id@, error: error@ },
        }
    }
}

/// A state and what is to be done.
pub type NetStep = (NetStateView, Seq<NetEffectView>);

/// A step that only logs a line.
pub open spec fn only_logs(net: NetStateView, line: Seq<char>) -> NetStep {
    (net, seq![network::logged(line)])
}

/// What is done with one bootstrap address at the start.
pub open spec fn bootstrap_effect(addr: MultiaddrView) -> NetEffectView {
    match peer::addr_peer(addr) {
        Some(_) => NetEffectView::DialBootstrap { addr },
        None => network::logged("[p2p] bootstrap skipped; missing /p2p/<peer_id>: "@ + peer::addr_text(addr)),
    }
}

/// The start: every bootstrap peer is dialed.
pub open spec fn started(net: NetStateView) -> NetStep {
    (net, net.config.bootstrap_peers.map_values(|addr: MultiaddrView| bootstrap_effect(addr)))
}

/// The dialing of a bootstrap peer: a reservation is asked of it where this node is no relay.
pub open spec fn bootstrap_dialed(
    net: NetStateView,
    addr: MultiaddrView,
    error: Option<Seq<char>>,
) -> NetStep {
    match error {
        None => {
            let done = seq![network::logged("[p2p] bootstrap dial started: "@ + peer::addr_text(addr))];
            match peer::addr_peer(addr) {
                Some(peer) => if net.config.relay_server {
                    (net, done)
                } else {
                    (
                        net,
                        done.push(
                            NetEffectView::ListenOnRelay {
                                peer_id: peer,
                                addr: peer::addr_with_circuit(addr),
                            },
                        ),
                    )
                },
                None => (net, done),
            }
        },
        Some(e) => {
            let message = "bootstrap dial failed: "@ + peer::addr_text(addr) + ": "@ + e;
            (
                NetStateView { bootstrap_last_error: Some(message), ..net },
                seq![network::logged("[p2p] "@ + message)],
            )
        },
    }
}

/// A relay could not be used: the reason is kept.
pub open spec fn relay_failed(net: NetStateView, message: Seq<char>) -> NetStep {
    (
        NetStateView {
            relay_last_error: Some(message),
            relay_reservation_errors: net.relay_reservation_errors.push(message),
            ..net
        },
        seq![network::logged("[p2p] "@ + message)],
    )
}

/// The listening on a relay.
pub open spec fn relay_listened(
    net: NetStateView,
    peer_id: Seq<char>,
    addr: MultiaddrView,
    error: Option<Seq<char>>,
) -> NetStep {
    match error {
        None => only_logs(net, "[p2p] relay reservation requested: "@ + peer::addr_text(addr)),
        Some(e) => relay_failed(
            net,
            "relay reservation listen failed for "@ + peer_id + " via "@ + peer::addr_text(addr) + (": "@
                + e),
        ),
    }
}

/// A peer connected.
pub open spec fn peer_added(net: NetStateView, peer_id: Seq<char>) -> NetStateView {
    let count = if net.connection_counts.contains_key(peer_id) {
        net.connection_counts[peer_id]
    } else {
        0
    };
    NetStateView {
        connection_counts: net.connection_counts.insert(peer_id, (count + 1) as usize),
        connected: net.connected.insert(peer_id),
        bootstrap_last_error: if net.bootstrap_peer_ids.contains(peer_id) {
            None
        } else {
            net.bootstrap_last_error
        },
        ..net
    }
}

/// What is said of a new connection.
pub open spec fn connection_news(net: NetStateView, peer_id: Seq<char>, endpoint: Seq<char>) -> Seq<
    NetEffectView,
> {
    let shown = network::logged("[p2p] endpoint: "@ + endpoint);
    if net.connected.contains(peer_id) {
        seq![network::logged("[p2p] additional connection established: "@ + peer_id), shown]
    } else {
        seq![
            network::logged("[p2p] connected: "@ + peer_id),
            NetEffectView::Emit(P2pEventView::PeerConnected { peer_id }),
            shown,
        ]
    }
}

/// A connection: a bootstrap peer gets the advertisement of this node.
pub open spec fn connection_established(
    net: NetStateView,
    peer_id: Seq<char>,
    endpoint: Seq<char>,
    facts: SwarmFactsView,
) -> NetStep {
    let added = peer_added(net, peer_id);
    let news = connection_news(net, peer_id, endpoint);
    if net.bootstrap_peer_ids.contains(peer_id) {
        let (after, done) = network::published(added, facts);
        (after, done + news)
    } else {
        (added, news)
    }
}

/// The end of a connection: the peer is gone with its last connection.
pub open spec fn connection_closed(net: NetStateView, peer_id: Seq<char>) -> NetStep {
    let noted = NetStateView {
        bootstrap_last_error: if net.bootstrap_peer_ids.contains(peer_id) {
            Some("bootstrap peer disconnected: "@ + peer_id)
        } else {
            net.bootstrap_last_error
        },
        ..net
    };
    if net.connection_counts.contains_key(peer_id) && net.connection_counts[peer_id] > 1 {
        (
            NetStateView {
                connection_counts: net.connection_counts.insert(
                    peer_id,
                    (net.connection_counts[peer_id] - 1) as usize,
                ),
                ..noted
            },
            Seq::empty(),
        )
    } else {
        (
            NetStateView {
                connection_counts: net.connection_counts.remove(peer_id),
                connected: net.connected.remove(peer_id),
                ..noted
            },
            seq![
                network::logged("[p2p] disconnected: "@ + peer_id),
                NetEffectView::Emit(P2pEventView::PeerDisconnected { peer_id }),
            ],
        )
    }
}

/// How an optional peer id is shown in a log.
pub open spec fn shown_peer(peer_id: Option<Seq<char>>) -> Seq<char> {
    match peer_id {
        Some(peer) => "Some(PeerId(\""@ + peer + "\"))"@,
        None => "None"@,
    }
}

/// A connection that could not be made.
pub open spec fn outgoing_failed(
    net: NetStateView,
    peer_id: Option<Seq<char>>,
    error: Seq<char>,
) -> NetStep {
    (
        NetStateView {
            bootstrap_last_error: match peer_id {
                Some(peer) => if net.bootstrap_peer_ids.contains(peer) {
                    Some("bootstrap dial failed for "@ + peer + ": "@ + error)
                } else {
                    net.bootstrap_last_error
                },
                None => net.bootstrap_last_error,
            },
            ..net
        },
        seq![
            network::logged(
                "[p2p] outgoing connection error: peer="@ + shown_peer(peer_id) + " error="@
                    + error,
            ),
        ],
    )
}

/// How many hole punching events are kept.
pub const DCUTR_KEPT: usize = 16;

/// The last items of a list.
pub open spec fn last_items(items: Seq<Seq<char>>, n: nat) -> Seq<Seq<char>> {
    if items.len() > n {
        items.subrange(items.len() - n, items.len() as int)
    } else {
        items
    }
}

/// A hole punching event.
pub open spec fn dcutr_news(net: NetStateView, peer: Seq<char>, result: Seq<char>) -> NetStep {
    let message = "[p2p] dcutr event: remote_peer_id="@ + peer + " result="@ + result;
    (
        NetStateView {
            dcutr_events: last_items(net.dcutr_events.push(message), DCUTR_KEPT as nat),
            ..net
        },
        seq![network::logged(message)],
    )
}

/// A peer told what it knows: a relay learns its own address, and the peer may probe this node.
pub open spec fn identified(
    net: NetStateView,
    peer_id: Seq<char>,
    observed: MultiaddrView,
    listen: Seq<MultiaddrView>,
) -> NetStep {
    let own = if net.config.relay_server {
        seq![NetEffectView::AddExternalAddress { addr: observed }]
    } else {
        Seq::empty()
    };
    if listen.len() > 0 {
        (net, own.push(NetEffectView::AddNatServer { peer_id, addr: listen[0] }))
    } else {
        (net, own)
    }
}

/// A step that ends with publishing.
pub open spec fn then_published(step: NetStep, facts: SwarmFactsView) -> NetStep {
    let (after, done) = network::published(step.0, facts);
    (after, step.1 + done)
}

/// A message of a peer: it is acknowledged and handed on.
pub open spec fn message_request(
    net: NetStateView,
    peer_id: Seq<char>,
    request: DogelRequestView,
) -> NetStep {
    (
        net,
        seq![
            NetEffectView::AnswerMessage(DogelResponseView { ok: true, error: None }),
            NetEffectView::Emit(
                match request {
                    DogelRequestView::Envelope(envelope) => P2pEventView::InboundEnvelope {
                        peer_id,
                        envelope,
                    },
                    DogelRequestView::Invite(invite) => P2pEventView::InboundInvite {
                        peer_id,
                        invite,
                    },
                },
            ),
        ],
    )
}

/// A text or what stands for it.
pub open spec fn text_or(text: Option<Seq<char>>, instead: Seq<char>) -> Seq<char> {
    match text {
        Some(t) => t,
        None => instead,
    }
}

/// A text or what stands for it.
pub fn text_or_else(text: &Option<String>, instead: &str) -> (res: String)
    ensures
        res@ == text_or(text::opt_text(*text), instead@),
{
    match text {
        Some(t) => t.clone(),
        None => instead.to_owned(),
    }
}

/// The answer of a peer to a message.
pub open spec fn message_response(net: NetStateView, response: DogelResponseView) -> NetStep {
    if response.ok {
        (net, Seq::empty())
    } else {
        only_logs(
            net,
            "[p2p] remote rejected message: "@ + text_or(response.error, "unknown error"@),
        )
    }
}

/// What a node that keeps no directory says.
pub open spec fn not_a_directory() -> Seq<char> {
    "peer is not a bootstrap directory"@
}

/// A question to the directory of this node.
pub open spec fn directory_request(
    net: NetStateView,
    peer_id: Seq<char>,
    request: DiscoveryRequestView,
    facts: SwarmFactsView,
) -> NetStep {
    let looked = discovery::cleaned(net.directory, facts.now_ms);
    match request {
        DiscoveryRequestView::RegisterPeer(advert) => if net.config.relay_server {
            match discovery::register_error(net.directory, advert) {
                None => (
                    NetStateView {
                        directory: discovery::registered(net.directory, advert),
                        discovery_registered: true,
                        discovery_last_error: None,
                        ..net
                    },
                    seq![
                        network::logged(
                            "[p2p] discovery register accepted from "@ + peer_id + ": "@
                                + advert.peer_id,
                        ),
                        NetEffectView::AnswerDirectory(
                            DiscoveryResponseView::Ack { ok: true, error: None },
                        ),
                    ],
                ),
                Some(e) => (
                    NetStateView { discovery_last_error: Some(e), ..net },
                    seq![
                        network::logged(
                            "[p2p] discovery register rejected from "@ + peer_id + ": "@ + e,
                        ),
                        NetEffectView::AnswerDirectory(
                            DiscoveryResponseView::Ack { ok: false, error: Some(e) },
                        ),
                    ],
                ),
            }
        } else {
            (
                NetStateView { discovery_last_error: Some(not_a_directory()), ..net },
                seq![
                    NetEffectView::AnswerDirectory(
                        DiscoveryResponseView::Ack { ok: false, error: Some(not_a_directory()) },
                    ),
                ],
            )
        },
        DiscoveryRequestView::ResolvePeer { query } => if net.config.relay_server {
            let found = discovery::resolution(looked, query);
            (
                NetStateView { directory: looked, ..net },
                seq![
                    NetEffectView::AnswerDirectory(
                        DiscoveryResponseView::ResolvePeerResponse {
                            found: found.found,
                            advertisement: found.advertisement,
                            reason: found.reason,
                        },
                    ),
                ],
            )
        } else {
            (
                net,
                seq![
                    NetEffectView::AnswerDirectory(
                        DiscoveryResponseView::ResolvePeerResponse {
                            found: false,
                            advertisement: None,
                            reason: Some(not_a_directory()),
                        },
                    ),
                ],
            )
        },
        DiscoveryRequestView::ListPeers => if net.config.relay_server {
            (
                NetStateView { directory: looked, ..net },
                seq![
                    NetEffectView::AnswerDirectory(
                        DiscoveryResponseView::ListPeersResponse { peers: discovery::listing(looked) },
                    ),
                ],
            )
        } else {
            (
                net,
                seq![
                    NetEffectView::AnswerDirectory(
                        DiscoveryResponseView::ListPeersResponse { peers: Seq::empty() },
                    ),
                ],
            )
        },
    }
}

/// No peer was found, for a reason.
pub open spec fn unresolved(query: Seq<char>, reason: Seq<char>) -> DiscoveryResolutionView {
    DiscoveryResolutionView { query, found: false, advertisement: None, reason: Some(reason) }
}

/// An answer of the directory of a bootstrap peer.
pub open spec fn directory_response(
    net: NetStateView,
    peer_id: Seq<char>,
    pending: Option<PendingDiscoveryView>,
    response: DiscoveryResponseView,
    shown: Seq<char>,
) -> NetStep {
    match pending {
        Some(PendingDiscoveryView::Resolve { query }) => (
            net,
            seq![
                NetEffectView::Resolved(
                    match response {
                        DiscoveryResponseView::ResolvePeerResponse {
                            found,
                            advertisement,
                            reason,
                        } => DiscoveryResolutionView { query, found, advertisement, reason },
                        _ => unresolved(query, "unexpected discovery response: "@ + shown),
                    },
                ),
            ],
        ),
        Some(PendingDiscoveryView::List) => match response {
            DiscoveryResponseView::ListPeersResponse { peers } => (
                net,
                seq![NetEffectView::Listed(peers)],
            ),
            _ => (
                net,
                seq![
                    network::logged("[p2p] unexpected discovery list response: "@ + shown),
                    NetEffectView::Listed(Seq::empty()),
                ],
            ),
        },
        Some(PendingDiscoveryView::Register { alias, expires_at_ms }) => match response {
            DiscoveryResponseView::Ack { ok, error } => if ok {
                (
                    NetStateView { discovery_registered: true, discovery_last_error: None, ..net },
                    seq![
                        network::logged(
                            "[p2p] discovery registration accepted: alias="@ + primitives::debug_text(alias)
                                + " expires_at_ms="@ + text::decimal(expires_at_ms as nat),
                        ),
                    ],
                )
            } else {
                let e = text_or(error, "registration rejected"@);
                (
                    NetStateView {
                        discovery_registered: false,
                        discovery_last_error: Some(e),
                        ..net
                    },
                    seq![network::logged("[p2p] discovery registration rejected: "@ + e)],
                )
            },
            _ => (
                NetStateView {
                    discovery_last_error: Some(
                        "unexpected discovery register response: "@ + shown,
                    ),
                    ..net
                },
                Seq::empty(),
            ),
        },
        None => only_logs(
            net,
            "[p2p] unexpected discovery response from "@ + peer_id + ": "@ + shown,
        ),
    }
}

/// A question to the directory of a bootstrap peer that got no answer.
pub open spec fn directory_failed(
    net: NetStateView,
    peer_id: Seq<char>,
    pending: Option<PendingDiscoveryView>,
    error: Seq<char>,
) -> NetStep {
    let reason = "discovery request to "@ + peer_id + " failed: "@ + error;
    let noted = NetStateView { discovery_last_error: Some(reason), ..net };
    match pending {
        Some(PendingDiscoveryView::Resolve { query }) => (
            noted,
            seq![NetEffectView::Resolved(unresolved(query, reason))],
        ),
        Some(PendingDiscoveryView::List) => (noted, seq![NetEffectView::Listed(Seq::empty())]),
        Some(PendingDiscoveryView::Register { .. }) => (
            NetStateView { discovery_registered: false, ..noted },
            Seq::empty(),
        ),
        None => only_logs(
            net,
            "[p2p] discovery outbound failure: peer="@ + peer_id + " error="@ + error,
        ),
    }
}

/// The application looks for a peer: in the directory of this node, or in that of a bootstrap
/// peer.
pub open spec fn resolve_wanted(net: NetStateView, query: Seq<char>, facts: SwarmFactsView) ->
    NetStep {
    let targets = network::common(net.connected, net.bootstrap_peer_ids);
    if net.config.relay_server {
        let looked = discovery::cleaned(net.directory, facts.now_ms);
        (
            NetStateView { directory: looked, ..net },
            seq![NetEffectView::Resolved(discovery::resolution(looked, query))],
        )
    } else if targets.len() > 0 {
        (
            net,
            seq![
                NetEffectView::AskDirectory {
                    peer_id: targets[0],
                    request: DiscoveryRequestView::ResolvePeer { query },
                    pending: PendingDiscoveryView::Resolve { query },
                },
            ],
        )
    } else {
        (
            net,
            seq![
                NetEffectView::Resolved(
                    unresolved(query, "no bootstrap/discovery peer configured"@),
                ),
            ],
        )
    }
}

/// The application wants the list of peers.
pub open spec fn list_wanted(net: NetStateView, facts: SwarmFactsView) -> NetStep {
    let targets = network::common(net.connected, net.bootstrap_peer_ids);
    if net.config.relay_server {
        let looked = discovery::cleaned(net.directory, facts.now_ms);
        (
            NetStateView { directory: looked, ..net },
            seq![NetEffectView::Listed(discovery::listing(looked))],
        )
    } else if targets.len() > 0 {
        (
            net,
            seq![
                NetEffectView::AskDirectory {
                    peer_id: targets[0],
                    request: DiscoveryRequestView::ListPeers,
                    pending: PendingDiscoveryView::List,
                },
            ],
        )
    } else {
        (net, seq![NetEffectView::Listed(Seq::empty())])
    }
}

/// What a node does on an event.
pub open spec fn net_step(net: NetStateView, input: NetInputView, facts: SwarmFactsView) ->
    NetStep {
    match input {
        NetInputView::Started => started(net),
        NetInputView::BootstrapDialed { addr, error } => bootstrap_dialed(net, addr, error),
        NetInputView::RelayListened { peer_id, addr, error } => relay_listened(
            net,
            peer_id,
            addr,
            error,
        ),
        NetInputView::BootstrapTried => if net.config.relay_server {
            network::published(net, facts)
        } else {
            (net, Seq::empty())
        },
        NetInputView::RefreshDue => network::published(net, facts),
        NetInputView::ResolveWanted { query } => resolve_wanted(net, query, facts),
        NetInputView::ListWanted => list_wanted(net, facts),
        NetInputView::NewListenAddr { addr } => only_logs(
            net,
            "[p2p] listening on "@ + peer::addr_text(peer::addr_with_peer(addr, net.local_peer_id)),
        ),
        NetInputView::ListenerClosed { addresses, error } => match error {
            Some(e) => relay_failed(
                net,
                "listener closed with error: addresses="@ + addresses + " error="@ + e,
            ),
            None => (net, Seq::empty()),
        },
        NetInputView::ConnectionEstablished { peer_id, endpoint } => connection_established(
            net,
            peer_id,
            endpoint,
            facts,
        ),
        NetInputView::ConnectionClosed { peer_id } => connection_closed(net, peer_id),
        NetInputView::OutgoingConnectionError { peer_id, error } => outgoing_failed(
            net,
            peer_id,
            error,
        ),
        NetInputView::IncomingConnectionError { error } => only_logs(
            net,
            "[p2p] incoming connection error: "@ + error,
        ),
        NetInputView::NatStatusChanged { before, after } => only_logs(
            net,
            "[p2p] autonat status changed: "@ + before + " -> "@ + after,
        ),
        NetInputView::NatOutboundProbeError { error } => (
            NetStateView { nat_last_error: Some(error), ..net },
            seq![network::logged("[p2p] autonat outbound probe error: "@ + error)],
        ),
        NetInputView::NatInboundProbeError { error } => (
            NetStateView { nat_last_error: Some(error), ..net },
            seq![network::logged("[p2p] autonat inbound probe error: "@ + error)],
        ),
        NetInputView::NatOther { event } => only_logs(net, "[p2p] autonat event: "@ + event),
        NetInputView::Dcutr { remote_peer_id, result } => dcutr_news(net, remote_peer_id, result),
        NetInputView::Identified { peer_id, observed_addr, listen_addrs } => identified(
            net,
            peer_id,
            observed_addr,
            listen_addrs,
        ),
        NetInputView::RelayReservationAccepted { relay_peer_id } => then_published(
            (
                NetStateView {
                    relay_reservations: net.relay_reservations.insert(relay_peer_id),
                    ..net
                },
                seq![network::logged("[p2p] relay reservation accepted: "@ + relay_peer_id)],
            ),
            facts,
        ),
        NetInputView::RelayClientOther { event } => then_published(
            only_logs(net, "[p2p] relay client event: "@ + event),
            facts,
        ),
        NetInputView::RelayServerOther { event } => if net.config.relay_server {
            only_logs(net, "[p2p] relay server event: "@ + event)
        } else {
            (net, Seq::empty())
        },
        NetInputView::MessageRequest { peer_id, request } => message_request(
            net,
            peer_id,
            request,
        ),
        NetInputView::MessageResponse { response } => message_response(net, response),
        NetInputView::MessageOutboundFailure { peer_id, error } => only_logs(
            net,
            "[p2p] outbound message failure: peer="@ + peer_id + " error="@ + error,
        ),
        NetInputView::MessageInboundFailure { peer_id, error } => only_logs(
            net,
            "[p2p] inbound message failure: peer="@ + peer_id + " error="@ + error,
        ),
        NetInputView::DirectoryRequest { peer_id, request } => directory_request(
            net,
            peer_id,
            request,
            facts,
        ),
        NetInputView::DirectoryResponse { peer_id, pending, response, shown } =>
            directory_response(net, peer_id, pending, response, shown),
        NetInputView::DirectoryOutboundFailure { peer_id, pending, error } => directory_failed(
            net,
            peer_id,
            pending,
            error,
        ),
        NetInputView::DirectoryInboundFailure { peer_id, error } => only_logs(
            net,
            "[p2p] discovery inbound failure: peer="@ + peer_id + " error="@ + error,
        ),
    }
}

/// On this event the node publishes its advertisement.
pub open spec fn publishes(net: NetStateView, input: NetInputView) -> bool {
    match input {
        NetInputView::BootstrapTried => net.config.relay_server,
        NetInputView::RefreshDue => true,
        NetInputView::ConnectionEstablished { peer_id, .. } => net.bootstrap_peer_ids.contains(
            peer_id,
        ),
        NetInputView::RelayReservationAccepted { .. } => true,
        NetInputView::RelayClientOther { .. } => true,
        _ => false,
    }
}

/// The step can be counted: neither the end of an advertisement nor a number of connections
/// exceeds its type.
pub open spec fn step_fits(net: NetStateView, input: NetInputView, facts: SwarmFactsView) -> bool {
    &&& publishes(net, input) ==> network::clock_fits(facts)
    &&& match input {
        NetInputView::ConnectionEstablished { peer_id, .. } => net.connection_counts.contains_key(
            peer_id,
        ) ==> net.connection_counts[peer_id] < usize::MAX,
        _ => true,
    }
}

/// Effects that only log a line.
fn log_only(line: String) -> (res: Effects)
    ensures
        res@ == seq![network::logged(line@)],
{
    let mut effects = Effects::new();
    effects.log(line);
    assert(effects@ =~= seq![network::logged(line@)]);
    effects
}

/// Effects with a single item.
fn effect_only(effect: NetEffect) -> (res: Effects)
    ensures
        res@ == seq![effect@],
{
    let mut effects = Effects::new();
    effects.add(effect);
    assert(effects@ =~= seq![effect@]);
    effects
}

/// An empty list of advertisements.
fn no_adverts() -> (res: Vec<PeerAdvertisement>)
    ensures
        res@.map_values(|x: PeerAdvertisement| x@) == Seq::<PeerAdvertisementView>::empty(),
{
    let res: Vec<PeerAdvertisement> = Vec::new();
    assert(res@.map_values(|x: PeerAdvertisement| x@) =~= Seq::<PeerAdvertisementView>::empty());
    res
}

/// Show an optional peer id.
fn show_peer(peer_id: &Option<String>) -> (res: String)
    ensures
        res@ == shown_peer(text::opt_text(*peer_id)),
{
    match peer_id {
        Some(peer) => cat3("Some(PeerId(\"", peer.as_str(), "\"))"),
        None => "None".to_owned(),
    }
}

/// No peer was found, for a reason.
fn not_resolved(query: String, reason: String) -> (res: DiscoveryResolution)
    ensures
        res@ == unresolved(query@, reason@),
{
    DiscoveryResolution { query, found: false, advertisement: None, reason: Some(reason) }
}

impl NetState {
    /// Plan the dialing of the bootstrap peers.
    fn start(&self) -> (res: Effects)
        ensures
            res@ == started(self@).1,
    {
        let addrs = &self.config.bootstrap_peers;
        let ghost want = started(self@).1;
        let mut effects = Effects::new();
        let mut i: usize = 0;
        assert(want.take(0) =~= Seq::empty());
        while i < addrs.len()
            invariant
                i <= addrs@.len(),
                addrs@ == self.config.bootstrap_peers@,
                want == started(self@).1,
                effects@ == want.take(i as int),
            decreases addrs.len() - i,
        {
            assert(want[i as int] == bootstrap_effect(addrs@[i as int]@));
            match addrs[i].peer() {
                Some(_) => effects.add(NetEffect::DialBootstrap { addr: addrs[i].duplicate() }),
                None => effects.log(
                    cat2(
                        "[p2p] bootstrap skipped; missing /p2p/<peer_id>: ",
                        addrs[i].to_text().as_str(),
                    ),
                ),
            }
            i = i + 1;
            assert(want.take(i as int) =~= want.take(i - 1).push(want[i - 1]));
        }
        assert(want.take(i as int) =~= want);
        effects
    }

    /// Note that the dialing of a bootstrap peer began, or why it could not.
    fn note_dial(&mut self, addr: &Multiaddr, error: &Option<String>) -> (res: Effects)
        ensures
            final(self)@ == bootstrap_dialed(old(self)@, addr@, text::opt_text(*error)).0,
            res@ == bootstrap_dialed(old(self)@, addr@, text::opt_text(*error)).1,
    {
        match error {
            None => {
                let mut effects = log_only(
                    cat2("[p2p] bootstrap dial started: ", addr.to_text().as_str()),
                );
                if let Some(peer) = addr.peer() {
                    if !self.config.relay_server {
                        effects.add(
                            NetEffect::ListenOnRelay {
                                peer_id: peer.clone(),
                                addr: addr.with_circuit(),
                            },
                        );
                    }
                }
                effects
            },
            Some(e) => {
                let message = cat4(
                    "bootstrap dial failed: ",
                    addr.to_text().as_str(),
                    ": ",
                    e.as_str(),
                );
                let effects = log_only(cat2("[p2p] ", message.as_str()));
                self.bootstrap_last_error = Some(message);
                effects
            },
        }
    }

    /// Note that a relay could not be used.
    fn note_relay_failure(&mut self, message: String) -> (res: Effects)
        ensures
            final(self)@ == relay_failed(old(self)@, message@).0,
            res@ == relay_failed(old(self)@, message@).1,
    {
        let ghost net = self@;
        let effects = log_only(cat2("[p2p] ", message.as_str()));
        self.relay_last_error = Some(message.clone());
        self.relay_reservation_errors.push(message);
        assert(self@.relay_reservation_errors =~= net.relay_reservation_errors.push(message@));
        effects
    }

    /// Note that the listening on a relay began, or why it could not.
    fn note_relay_listen(&mut self, peer_id: &str, addr: &Multiaddr, error: &Option<String>) -> (res:
        Effects)
        ensures
            final(self)@ == relay_listened(old(self)@, peer_id@, addr@, text::opt_text(*error)).0,
            res@ == relay_listened(old(self)@, peer_id@, addr@, text::opt_text(*error)).1,
    {
        match error {
            None => log_only(
                cat2("[p2p] relay reservation requested: ", addr.to_text().as_str()),
            ),
            Some(e) => {
                let tail = cat2(": ", e.as_str());
                let message = cat5(
                    "relay reservation listen failed for ",
                    peer_id,
                    " via ",
                    addr.to_text().as_str(),
                    tail.as_str(),
                );
                self.note_relay_failure(message)
            },
        }
    }

    /// Publish the advertisement of this node.
    fn refresh(&mut self, facts: &SwarmFacts) -> (res: Effects)
        requires
            network::clock_fits(facts@),
        ensures
            final(self)@ == network::published(old(self)@, facts@).0,
            res@ == network::published(old(self)@, facts@).1,
    {
        let mut effects = Effects::new();
        let ghost done = network::published(self@, facts@).1;
        self.publish_discovery_advertisement(facts, &mut effects);
        assert(effects@ =~= done);
        effects
    }

    /// Count a new connection.
    fn open_connection(&mut self, peer_id: &str, endpoint: &str, facts: &SwarmFacts) -> (res:
        Effects)
        requires
            old(self)@.bootstrap_peer_ids.contains(peer_id@) ==> network::clock_fits(facts@),
            old(self)@.connection_counts.contains_key(peer_id@) ==> old(
                self,
            )@.connection_counts[peer_id@] < usize::MAX,
        ensures
            final(self)@ == connection_established(old(self)@, peer_id@, endpoint@, facts@).0,
            res@ == connection_established(old(self)@, peer_id@, endpoint@, facts@).1,
    {
        let ghost net = self@;
        let count: usize = match self.connection_counts.get(peer_id) {
            Some(n) => *n,
            None => 0,
        };
        self.connection_counts.insert(peer_id, count + 1);
        let was_new = self.connected.insert(peer_id);
        let mut effects = Effects::new();
        if self.bootstrap_peer_ids.contains(peer_id) {
            self.bootstrap_last_error = None;
            assert(self@ =~= peer_added(net, peer_id@));
            effects = self.refresh(facts);
        }
        let ghost done = effects@;
        if was_new {
            effects.log(cat2("[p2p] connected: ", peer_id));
            effects.add(NetEffect::Emit(P2pEvent::PeerConnected { peer_id: peer_id.to_owned() }));
        } else {
            effects.log(cat2("[p2p] additional connection established: ", peer_id));
        }
        effects.log(cat2("[p2p] endpoint: ", endpoint));
        proof {
            assert(self@ =~= connection_established(net, peer_id@, endpoint@, facts@).0);
            assert(effects@ =~= done + connection_news(net, peer_id@, endpoint@));
            assert(Seq::<NetEffectView>::empty() + connection_news(net, peer_id@, endpoint@)
                =~= connection_news(net, peer_id@, endpoint@));
        }
        effects
    }

    /// Count the end of a connection.
    fn close_connection(&mut self, peer_id: &str) -> (res: Effects)
        ensures
            final(self)@ == connection_closed(old(self)@, peer_id@).0,
            res@ == connection_closed(old(self)@, peer_id@).1,
    {
        let ghost net = self@;
        if self.bootstrap_peer_ids.contains(peer_id) {
            self.bootstrap_last_error = Some(cat2("bootstrap peer disconnected: ", peer_id));
        }
        let count: usize = match self.connection_counts.get(peer_id) {
            Some(n) => *n,
            None => 0,
        };
        let mut effects = Effects::new();
        if count > 1 {
            self.connection_counts.insert(peer_id, count - 1);
        } else {
            let _ = self.connection_counts.remove(peer_id);
            let _ = self.connected.remove(peer_id);
            effects.log(cat2("[p2p] disconnected: ", peer_id));
            effects.add(
                NetEffect::Emit(P2pEvent::PeerDisconnected { peer_id: peer_id.to_owned() }),
            );
        }
        proof {
            assert(self@.connection_counts =~= connection_closed(
                net,
                peer_id@,
            ).0.connection_counts);
            assert(self@ =~= connection_closed(net, peer_id@).0);
            assert(effects@ =~= connection_closed(net, peer_id@).1);
        }
        effects
    }

    /// Note that a connection could not be made.
    fn note_outgoing_failure(&mut self, peer_id: &Option<String>, error: &str) -> (res: Effects)
        ensures
            final(self)@ == outgoing_failed(old(self)@, text::opt_text(*peer_id), error@).0,
            res@ == outgoing_failed(old(self)@, text::opt_text(*peer_id), error@).1,
    {
        if let Some(peer) = peer_id {
            if self.bootstrap_peer_ids.contains(peer.as_str()) {
                self.bootstrap_last_error = Some(
                    cat4("bootstrap dial failed for ", peer.as_str(), ": ", error),
                );
            }
        }
        log_only(
            cat4(
                "[p2p] outgoing connection error: peer=",
                show_peer(peer_id).as_str(),
                " error=",
                error,
            ),
        )
    }

    /// Keep a hole punching event.
    fn note_dcutr(&mut self, peer: &str, result: &str) -> (res: Effects)
        ensures
            final(self)@ == dcutr_news(old(self)@, peer@, result@).0,
            res@ == dcutr_news(old(self)@, peer@, result@).1,
    {
        let ghost net = self@;
        let message = cat4("[p2p] dcutr event: remote_peer_id=", peer, " result=", result);
        let mut kept: Vec<String> = Vec::new();
        let total: usize = self.dcutr_events.len();
        let from: usize = if total >= DCUTR_KEPT {
            total - (DCUTR_KEPT - 1)
        } else {
            0
        };
        let mut i: usize = from;
        while i < total
            invariant
                from <= i <= total == self.dcutr_events@.len(),
                kept@.len() == i - from,
                forall|j: int|
                    0 <= j < i - from ==> (#[trigger] kept@[j])@ == self.dcutr_events@[from + j]@,
            decreases total - i,
        {
            kept.push(self.dcutr_events[i].clone());
            i = i + 1;
        }
        kept.push(message.clone());
        self.dcutr_events = kept;
        assert(self@.dcutr_events =~= dcutr_news(net, peer@, result@).0.dcutr_events);
        log_only(message)
    }

    /// Use what a peer told.
    fn identify(
        &self,
        peer_id: &str,
        observed_addr: &Multiaddr,
        listen_addrs: &Vec<Multiaddr>,
    ) -> (res: Effects)
        ensures
            res@ == identified(self@, peer_id@, observed_addr@, peer::addr_views(listen_addrs@)).1,
    {
        let mut effects = Effects::new();
        if self.config.relay_server {
            effects.add(NetEffect::AddExternalAddress { addr: observed_addr.duplicate() });
        }
        if listen_addrs.len() > 0 {
            effects.add(
                NetEffect::AddNatServer {
                    peer_id: peer_id.to_owned(),
                    addr: listen_addrs[0].duplicate(),
                },
            );
        }
        assert(effects@ =~= identified(
            self@,
            peer_id@,
            observed_addr@,
            peer::addr_views(listen_addrs@),
        ).1);
        effects
    }

    /// Acknowledge a message and hand it on.
    fn take_message(&self, peer_id: String, request: DogelRequest) -> (res: Effects)
        ensures
            res@ == message_request(self@, peer_id@, request@).1,
    {
        let ghost want = message_request(self@, peer_id@, request@).1;
        let mut effects = Effects::new();
        effects.add(NetEffect::AnswerMessage(DogelResponse::ok()));
        match request {
            DogelRequest::Envelope(envelope) => effects.add(
                NetEffect::Emit(P2pEvent::InboundEnvelope { peer_id, envelope }),
            ),
            DogelRequest::Invite(invite) => effects.add(
                NetEffect::Emit(P2pEvent::InboundInvite { peer_id, invite }),
            ),
        }
        assert(effects@ =~= want);
        effects
    }

    /// Take the answer to a message.
    fn take_message_answer(&self, response: &DogelResponse) -> (res: Effects)
        ensures
            res@ == message_response(self@, response@).1,
    {
        if response.ok {
            Effects::new()
        } else {
            log_only(
                cat2(
                    "[p2p] remote rejected message: ",
                    text_or_else(&response.error, "unknown error").as_str(),
                ),
            )
        }
    }

    /// Register a peer in the directory of this node.
    fn register_peer(&mut self, peer_id: &str, advert: PeerAdvertisement) -> (res: Effects)
        ensures
            forall|facts: SwarmFactsView|
                (final(self)@, res@) == #[trigger] directory_request(
                    old(self)@,
                    peer_id@,
                    DiscoveryRequestView::RegisterPeer(advert@),
                    facts,
                ),
    {
        let ghost net = self@;
        let mut effects = Effects::new();
        if !self.config.relay_server {
            let reason = "peer is not a bootstrap directory".to_owned();
            self.discovery_last_error = Some(reason.clone());
            effects.add(
                NetEffect::AnswerDirectory(
                    DiscoveryResponse::Ack { ok: false, error: Some(reason) },
                ),
            );
        } else {
            let of = advert.peer_id.clone();
            match self.directory.register(advert) {
                Ok(_) => {
                    self.discovery_registered = true;
                    self.discovery_last_error = None;
                    effects.log(
                        cat4(
                            "[p2p] discovery register accepted from ",
                            peer_id,
                            ": ",
                            of.as_str(),
                        ),
                    );
                    effects.add(
                        NetEffect::AnswerDirectory(
                            DiscoveryResponse::Ack { ok: true, error: None },
                        ),
                    );
                },
                Err(e) => {
                    self.discovery_last_error = Some(e.clone());
                    effects.log(
                        cat4(
                            "[p2p] discovery register rejected from ",
                            peer_id,
                            ": ",
                            e.as_str(),
                        ),
                    );
                    effects.add(
                        NetEffect::AnswerDirectory(
                            DiscoveryResponse::Ack { ok: false, error: Some(e) },
                        ),
                    );
                },
            }
        }
        assert forall|facts: SwarmFactsView|
            (self@, effects@) == #[trigger] directory_request(
                net,
                peer_id@,
                DiscoveryRequestView::RegisterPeer(advert@),
                facts,
            ) by {
            let want = directory_request(
                net,
                peer_id@,
                DiscoveryRequestView::RegisterPeer(advert@),
                facts,
            );
            assert(self@ =~= want.0);
            assert(effects@ =~= want.1);
        }
        effects
    }

    /// Answer a question to the directory of this node.
    fn answer_directory(
        &mut self,
        peer_id: &str,
        request: DiscoveryRequest,
        facts: &SwarmFacts,
    ) -> (res: Effects)
        ensures
            final(self)@ == directory_request(old(self)@, peer_id@, request@, facts@).0,
            res@ == directory_request(old(self)@, peer_id@, request@, facts@).1,
    {
        let ghost net = self@;
        match request {
            DiscoveryRequest::RegisterPeer(advert) => {
                self.register_peer(peer_id, advert)
            },
            DiscoveryRequest::ResolvePeer { query } => if self.config.relay_server {
                let found = self.directory.resolve(query.as_str(), facts.now_ms);
                effect_only(
                    NetEffect::AnswerDirectory(
                        DiscoveryResponse::ResolvePeerResponse {
                            found: found.found,
                            advertisement: found.advertisement,
                            reason: found.reason,
                        },
                    ),
                )
            } else {
                effect_only(
                    NetEffect::AnswerDirectory(
                        DiscoveryResponse::ResolvePeerResponse {
                            found: false,
                            advertisement: None,
                            reason: Some("peer is not a bootstrap directory".to_owned()),
                        },
                    ),
                )
            },
            DiscoveryRequest::ListPeers => {
                let peers = if self.config.relay_server {
                    self.directory.list(facts.now_ms)
                } else {
                    no_adverts()
                };
                effect_only(
                    NetEffect::AnswerDirectory(DiscoveryResponse::ListPeersResponse { peers }),
                )
            },
        }
    }

    /// Take an answer of the directory of a bootstrap peer.
    fn take_directory_answer(
        &mut self,
        peer_id: &str,
        pending: Option<PendingDiscovery>,
        response: DiscoveryResponse,
        shown: &str,
    ) -> (res: Effects)
        ensures
            final(self)@ == directory_response(
                old(self)@,
                peer_id@,
                match pending {
                    Some(x) => Some(x@),
                    None => None,
                },
                response@,
                shown@,
            ).0,
            res@ == directory_response(
                old(self)@,
                peer_id@,
                match pending {
                    Some(x) => Some(x@),
                    None => None,
                },
                response@,
                shown@,
            ).1,
    {
        match pending {
            Some(PendingDiscovery::Resolve { query }) => {
                let found = match response {
                    DiscoveryResponse::ResolvePeerResponse { found, advertisement, reason } =>
                        DiscoveryResolution { query, found, advertisement, reason },
                    _ => not_resolved(query, cat2("unexpected discovery response: ", shown)),
                };
                effect_only(NetEffect::Resolved(found))
            },
            Some(PendingDiscovery::List) => match response {
                DiscoveryResponse::ListPeersResponse { peers } => effect_only(
                    NetEffect::Listed(peers),
                ),
                _ => {
                    let ghost line = "[p2p] unexpected discovery list response: "@ + shown@;
                    let mut effects = log_only(
                        cat2("[p2p] unexpected discovery list response: ", shown),
                    );
                    effects.add(NetEffect::Listed(no_adverts()));
                    assert(effects@ =~= seq![network::logged(line), NetEffectView::Listed(Seq::empty())]);
                    effects
                },
            },
            Some(PendingDiscovery::Register { alias, expires_at_ms }) => match response {
                DiscoveryResponse::Ack { ok, error } => if ok {
                    self.discovery_registered = true;
                    self.discovery_last_error = None;
                    log_only(
                        cat4(
                            "[p2p] discovery registration accepted: alias=",
                            debug_opt(&alias).as_str(),
                            " expires_at_ms=",
                            decimal_text(expires_at_ms).as_str(),
                        ),
                    )
                } else {
                    let reason = text_or_else(&error, "registration rejected");
                    self.discovery_registered = false;
                    self.discovery_last_error = Some(reason.clone());
                    log_only(cat2("[p2p] discovery registration rejected: ", reason.as_str()))
                },
                _ => {
                    self.discovery_last_error = Some(
                        cat2("unexpected discovery register response: ", shown),
                    );
                    Effects::new()
                },
            },
            None => log_only(
                cat4("[p2p] unexpected discovery response from ", peer_id, ": ", shown),
            ),
        }
    }

    /// Give up a question to the directory of a bootstrap peer.
    fn drop_directory_question(
        &mut self,
        peer_id: &str,
        pending: Option<PendingDiscovery>,
        error: &str,
    ) -> (res: Effects)
        ensures
            final(self)@ == directory_failed(
                old(self)@,
                peer_id@,
                match pending {
                    Some(x) => Some(x@),
                    None => None,
                },
                error@,
            ).0,
            res@ == directory_failed(
                old(self)@,
                peer_id@,
                match pending {
                    Some(x) => Some(x@),
                    None => None,
                },
                error@,
            ).1,
    {
        let reason = cat4("discovery request to ", peer_id, " failed: ", error);
        match pending {
            Some(PendingDiscovery::Resolve { query }) => {
                self.discovery_last_error = Some(reason.clone());
                effect_only(NetEffect::Resolved(not_resolved(query, reason)))
            },
            Some(PendingDiscovery::List) => {
                self.discovery_last_error = Some(reason);
                effect_only(NetEffect::Listed(no_adverts()))
            },
            Some(PendingDiscovery::Register { alias: _, expires_at_ms: _ }) => {
                self.discovery_last_error = Some(reason);
                self.discovery_registered = false;
                Effects::new()
            },
            None => log_only(
                cat4("[p2p] discovery outbound failure: peer=", peer_id, " error=", error),
            ),
        }
    }

    /// Look for a peer.
    fn look_for(&mut self, query: String, facts: &SwarmFacts) -> (res: Effects)
        ensures
            final(self)@ == resolve_wanted(old(self)@, query@, facts@).0,
            res@ == resolve_wanted(old(self)@, query@, facts@).1,
    {
        if self.config.relay_server {
            let found = self.directory.resolve(query.as_str(), facts.now_ms);
            return effect_only(NetEffect::Resolved(found));
        }
        let targets = connected_bootstrap_peers(&self.connected, &self.bootstrap_peer_ids);
        if targets.len() > 0 {
            assert(text::texts(targets@)[0] == targets@[0]@);
            effect_only(
                NetEffect::AskDirectory {
                    peer_id: targets[0].clone(),
                    request: DiscoveryRequest::ResolvePeer { query: query.clone() },
                    pending: PendingDiscovery::Resolve { query },
                },
            )
        } else {
            effect_only(
                NetEffect::Resolved(
                    not_resolved(query, "no bootstrap/discovery peer configured".to_owned()),
                ),
            )
        }
    }

    /// List the peers.
    fn look_around(&mut self, facts: &SwarmFacts) -> (res: Effects)
        ensures
            final(self)@ == list_wanted(old(self)@, facts@).0,
            res@ == list_wanted(old(self)@, facts@).1,
    {
        if self.config.relay_server {
            let peers = self.directory.list(facts.now_ms);
            return effect_only(NetEffect::Listed(peers));
        }
        let targets = connected_bootstrap_peers(&self.connected, &self.bootstrap_peer_ids);
        if targets.len() > 0 {
            assert(text::texts(targets@)[0] == targets@[0]@);
            effect_only(
                NetEffect::AskDirectory {
                    peer_id: targets[0].clone(),
                    request: DiscoveryRequest::ListPeers,
                    pending: PendingDiscovery::List,
                },
            )
        } else {
            effect_only(NetEffect::Listed(no_adverts()))
        }
    }

    /// Do what an event asks for.
    pub fn step(&mut self, input: NetInput, facts: &SwarmFacts) -> (res: Effects)
        requires
            step_fits(old(self)@, input@, facts@),
        ensures
            final(self)@ == net_step(old(self)@, input@, facts@).0,
            res@ == net_step(old(self)@, input@, facts@).1,
    {
        match input {
            NetInput::Started => self.start(),
            NetInput::BootstrapDialed { addr, error } => self.note_dial(&addr, &error),
            NetInput::RelayListened { peer_id, addr, error } => self.note_relay_listen(
                peer_id.as_str(),
                &addr,
                &error,
            ),
            NetInput::BootstrapTried => if self.config.relay_server {
                self.refresh(facts)
            } else {
                Effects::new()
            },
            NetInput::RefreshDue => self.refresh(facts),
            NetInput::ResolveWanted { query } => self.look_for(query, facts),
            NetInput::ListWanted => self.look_around(facts),
            NetInput::NewListenAddr { addr } => {
                let full = addr.with_peer(self.local_peer_id.as_str());
                log_only(cat2("[p2p] listening on ", full.to_text().as_str()))
            },
            NetInput::ListenerClosed { addresses, error } => match error {
                Some(e) => {
                    let message = cat4(
                        "listener closed with error: addresses=",
                        addresses.as_str(),
                        " error=",
                        e.as_str(),
                    );
                    self.note_relay_failure(message)
                },
                None => Effects::new(),
            },
            NetInput::ConnectionEstablished { peer_id, endpoint } => self.open_connection(
                peer_id.as_str(),
                endpoint.as_str(),
                facts,
            ),
            NetInput::ConnectionClosed { peer_id } => self.close_connection(peer_id.as_str()),
            NetInput::OutgoingConnectionError { peer_id, error } => self.note_outgoing_failure(
                &peer_id,
                error.as_str(),
            ),
            NetInput::IncomingConnectionError { error } => log_only(
                cat2("[p2p] incoming connection error: ", error.as_str()),
            ),
            NetInput::NatStatusChanged { before, after } => log_only(
                cat4("[p2p] autonat status changed: ", before.as_str(), " -> ", after.as_str()),
            ),
            NetInput::NatOutboundProbeError { error } => {
                let effects = log_only(
                    cat2("[p2p] autonat outbound probe error: ", error.as_str()),
                );
                self.nat_last_error = Some(error);
                effects
            },
            NetInput::NatInboundProbeError { error } => {
                let effects = log_only(
                    cat2("[p2p] autonat inbound probe error: ", error.as_str()),
                );
                self.nat_last_error = Some(error);
                effects
            },
            NetInput::NatOther { event } => log_only(
                cat2("[p2p] autonat event: ", event.as_str()),
            ),
            NetInput::Dcutr { remote_peer_id, result } => self.note_dcutr(
                remote_peer_id.as_str(),
                result.as_str(),
            ),
            NetInput::Identified { peer_id, observed_addr, listen_addrs } => self.identify(
                peer_id.as_str(),
                &observed_addr,
                &listen_addrs,
            ),
            NetInput::RelayReservationAccepted { relay_peer_id } => {
                let _ = self.relay_reservations.insert(relay_peer_id.as_str());
                let mut effects = log_only(
                    cat2("[p2p] relay reservation accepted: ", relay_peer_id.as_str()),
                );
                self.publish_discovery_advertisement(facts, &mut effects);
                effects
            },
            NetInput::RelayClientOther { event } => {
                let mut effects = log_only(cat2("[p2p] relay client event: ", event.as_str()));
                self.publish_discovery_advertisement(facts, &mut effects);
                effects
            },
            NetInput::RelayServerOther { event } => if self.config.relay_server {
                log_only(cat2("[p2p] relay server event: ", event.as_str()))
            } else {
                Effects::new()
            },
            NetInput::MessageRequest { peer_id, request } => self.take_message(peer_id, request),
            NetInput::MessageResponse { response } => self.take_message_answer(&response),
            NetInput::MessageOutboundFailure { peer_id, error } => log_only(
                cat4(
                    "[p2p] outbound message failure: peer=",
                    peer_id.as_str(),
                    " error=",
                    error.as_str(),
                ),
            ),
            NetInput::MessageInboundFailure { peer_id, error } => log_only(
                cat4(
                    "[p2p] inbound message failure: peer=",
                    peer_id.as_str(),
                    " error=",
                    error.as_str(),
                ),
            ),
            NetInput::DirectoryRequest { peer_id, request } => self.answer_directory(
                peer_id.as_str(),
                request,
                facts,
            ),
            NetInput::DirectoryResponse { peer_id, pending, response, shown } =>
                self.take_directory_answer(peer_id.as_str(), pending, response, shown.as_str()),
            NetInput::DirectoryOutboundFailure { peer_id, pending, error } =>
                self.drop_directory_question(peer_id.as_str(), pending, error.as_str()),
            NetInput::DirectoryInboundFailure { peer_id, error } => log_only(
                cat4(
                    "[p2p] discovery inbound failure: peer=",
                    peer_id.as_str(),
                    " error=",
                    error.as_str(),
                ),
            ),
        }
    }

    /// Whether a step can be counted.
    pub fn can_step(&self, input: &NetInput, facts: &SwarmFacts) -> (res: bool)
        ensures
            res == step_fits(self@, input@, facts@),
    {
        let clock = facts.now_ms <= u64::MAX - ADVERT_TTL_MS;
        match input {
            NetInput::BootstrapTried => clock || !self.config.relay_server,
            NetInput::RefreshDue => clock,
            NetInput::RelayReservationAccepted { relay_peer_id: _ } => clock,
            NetInput::RelayClientOther { event: _ } => clock,
            NetInput::ConnectionEstablished { peer_id, endpoint: _ } => {
                let counted = match self.connection_counts.get(peer_id.as_str()) {
                    Some(n) => *n < usize::MAX,
                    None => true,
                };
                counted && (clock || !self.bootstrap_peer_ids.contains(peer_id.as_str()))
            },
            _ => true,
        }
    }
}

/// What a node knows of its network at one moment.
pub struct P2pDiagnostics {
    pub connected_peers: Vec<String>,
    pub listen_addrs: Vec<Multiaddr>,
    pub bootstrap_peers: Vec<Multiaddr>,
    pub bootstrap_connected: bool,
    pub bootstrap_last_error: Option<String>,
    pub relay_server: bool,
    pub relay_reservation_active: bool,
    pub relay_last_error: Option<String>,
    pub relay_reservations: Vec<String>,
    pub relay_reservation_errors: Vec<String>,
    pub external_addrs: Vec<Multiaddr>,
    pub relayed_addrs: Vec<Multiaddr>,
    pub nat_status: String,
    pub nat_confidence: usize,
    pub nat_last_error: Option<String>,
    pub public_address: Option<Multiaddr>,
    pub dcutr_events: Vec<String>,
    pub discovery_registered: bool,
    pub discovery_registered_alias: Option<String>,
    pub discovery_expires_at_ms: Option<u64>,
    pub discovery_last_error: Option<String>,
    pub usable_route: String,
}

/// The plain values held by a [`P2pDiagnostics`].
#[verifier::ext_equal]
pub struct P2pDiagnosticsView {
    pub connected_peers: Seq<Seq<char>>,
    pub listen_addrs: Seq<MultiaddrView>,
    pub bootstrap_peers: Seq<MultiaddrView>,
    pub bootstrap_connected: bool,
    pub bootstrap_last_error: Option<Seq<char>>,
    pub relay_server: bool,
    pub relay_reservation_active: bool,
    pub relay_last_error: Option<Seq<char>>,
    pub relay_reservations: Seq<Seq<char>>,
    pub relay_reservation_errors: Seq<Seq<char>>,
    pub external_addrs: Seq<MultiaddrView>,
    pub relayed_addrs: Seq<MultiaddrView>,
    pub nat_status: Seq<char>,
    pub nat_confidence: usize,
    pub nat_last_error: Option<Seq<char>>,
    pub public_address: Option<MultiaddrView>,
    pub dcutr_events: Seq<Seq<char>>,
    pub discovery_registered: bool,
    pub discovery_registered_alias: Option<Seq<char>>,
    pub discovery_expires_at_ms: Option<u64>,
    pub discovery_last_error: Option<Seq<char>>,
    pub usable_route: Seq<char>,
}

impl View for P2pDiagnostics {
    type V = P2pDiagnosticsView;

    open spec fn view(&self) -> P2pDiagnosticsView {
        P2pDiagnosticsView {
            connected_peers: text::texts(self.connected_peers@),
            listen_addrs: self.listen_addrs@.map_values(|x: Multiaddr| x@),
            bootstrap_peers: self.bootstrap_peers@.map_values(|x: Multiaddr| x@),
            bootstrap_connected: self.bootstrap_connected,
            bootstrap_last_error: text::opt_text(self.bootstrap_last_error),
            relay_server: self.relay_server,
            relay_reservation_active: self.relay_reservation_active,
            relay_last_error: text::opt_text(self.relay_last_error),
            relay_reservations: text::texts(self.relay_reservations@),
            relay_reservation_errors: text::texts(self.relay_reservation_errors@),
            external_addrs: self.external_addrs@.map_values(|x: Multiaddr| x@),
            relayed_addrs: self.relayed_addrs@.map_values(|x: Multiaddr| x@),
            nat_status: self.nat_status@,
            nat_confidence: self.nat_confidence,
            nat_last_error: text::opt_text(self.nat_last_error),
            public_address: (match self.public_address { Some(x) => Some(x@), None => None }),
            dcutr_events: text::texts(self.dcutr_events@),
            discovery_registered: self.discovery_registered,
            discovery_registered_alias: text::opt_text(self.discovery_registered_alias),
            discovery_expires_at_ms: self.discovery_expires_at_ms,
            discovery_last_error: text::opt_text(self.discovery_last_error),
            usable_route: self.usable_route@,
        }
    }
}

/// How this node can be reached.
pub open spec fn usable_route(nat_status: Seq<char>, relayed: bool, direct: bool) -> Seq<char> {
    if direct {
        "direct"@
    } else if relayed {
        "relay"@
    } else if text::occurs_in("Public"@, nat_status) {
        "direct"@
    } else {
        "none"@
    }
}

/// How this node can be reached.
pub fn usable_route_for_diagnostics(
    nat_status: &str,
    relay_reservation_active: bool,
    direct_available: bool,
) -> (res: String)
    ensures
        res@ == usable_route(nat_status@, relay_reservation_active, direct_available),
{
    if direct_available {
        "direct".to_owned()
    } else if relay_reservation_active {
        "relay".to_owned()
    } else if text_occurs("Public", nat_status) {
        "direct".to_owned()
    } else {
        "none".to_owned()
    }
}

/// What a node knows of its network.
pub open spec fn diagnosed(
    net: NetStateView,
    facts: SwarmFactsView,
    nat_confidence: usize,
    public_address: Option<MultiaddrView>,
) -> P2pDiagnosticsView {
    let reservations = table::sorted_texts(net.relay_reservations);
    P2pDiagnosticsView {
        connected_peers: table::sorted_texts(net.connected),
        listen_addrs: facts.listeners,
        bootstrap_peers: net.config.bootstrap_peers,
        bootstrap_connected: network::common(net.connected, net.bootstrap_peer_ids).len() > 0,
        bootstrap_last_error: net.bootstrap_last_error,
        relay_server: net.config.relay_server,
        relay_reservation_active: reservations.len() > 0,
        relay_last_error: net.relay_last_error,
        relay_reservations: reservations,
        relay_reservation_errors: net.relay_reservation_errors,
        external_addrs: facts.external_addrs,
        relayed_addrs: network::relayed(
            net.config.bootstrap_peers,
            net.relay_reservations,
            net.local_peer_id,
        ),
        nat_status: facts.nat_status,
        nat_confidence,
        nat_last_error: net.nat_last_error,
        public_address,
        dcutr_events: net.dcutr_events,
        discovery_registered: net.discovery_registered,
        discovery_registered_alias: net.discovery_registered_alias,
        discovery_expires_at_ms: net.discovery_expires_at_ms,
        discovery_last_error: net.discovery_last_error,
        usable_route: usable_route(
            facts.nat_status,
            reservations.len() > 0,
            facts.listeners.len() > 0 || facts.external_addrs.len() > 0,
        ),
    }
}

impl NetState {
    /// The connected peers in ascending order.
    pub fn connected_peers(&self) -> (res: Vec<String>)
        ensures
            text::texts(res@) == table::sorted_texts(self@.connected),
    {
        self.connected.to_list()
    }

    /// Tell what the node knows of its network.
    pub fn diagnostics(
        &self,
        facts: &SwarmFacts,
        nat_confidence: usize,
        public_address: Option<Multiaddr>,
    ) -> (res: P2pDiagnostics)
        ensures
            res@ == diagnosed(
                self@,
                facts@,
                nat_confidence,
                match public_address {
                    Some(x) => Some(x@),
                    None => None,
                },
            ),
    {
        let reservations = self.relay_reservations.to_list();
        let active = reservations.len() > 0;
        let direct = facts.listeners.len() > 0 || facts.external_addrs.len() > 0;
        let bootstrap = connected_bootstrap_peers(&self.connected, &self.bootstrap_peer_ids);
        P2pDiagnostics {
            connected_peers: self.connected.to_list(),
            listen_addrs: Multiaddr::duplicate_all(&facts.listeners),
            bootstrap_peers: Multiaddr::duplicate_all(&self.config.bootstrap_peers),
            bootstrap_connected: bootstrap.len() > 0,
            bootstrap_last_error: copy_opt(&self.bootstrap_last_error),
            relay_server: self.config.relay_server,
            relay_reservation_active: active,
            relay_last_error: copy_opt(&self.relay_last_error),
            relay_reservations: reservations,
            relay_reservation_errors: copy_strings(&self.relay_reservation_errors),
            external_addrs: Multiaddr::duplicate_all(&facts.external_addrs),
            relayed_addrs: build_relayed_addrs(
                &self.config.bootstrap_peers,
                &self.relay_reservations,
                self.local_peer_id.as_str(),
            ),
            nat_status: facts.nat_status.clone(),
            nat_confidence,
            nat_last_error: copy_opt(&self.nat_last_error),
            public_address,
            dcutr_events: copy_strings(&self.dcutr_events),
            discovery_registered: self.discovery_registered,
            discovery_registered_alias: copy_opt(&self.discovery_registered_alias),
            discovery_expires_at_ms: self.discovery_expires_at_ms,
            discovery_last_error: copy_opt(&self.discovery_last_error),
            usable_route: usable_route_for_diagnostics(facts.nat_status.as_str(), active, direct),
        }
    }
}

/// The peer that an address names. An address without one is not dialed.
pub fn dialed_peer(addr: &Multiaddr) -> (res: Result<String, P2pError>)
    ensures
        match res {
            Ok(peer) => peer::addr_peer(addr@) == Some(peer@),
            Err(e) => peer::addr_peer(addr@) is None && e@ == P2pErrorView::MissingPeerId(
                peer::addr_text(addr@),
            ),
        },
{
    match addr.peer() {
        Some(peer) => Ok(peer.clone()),
        None => Err(P2pError::MissingPeerId(addr.to_text())),
    }
}

/// What every reachable state of a node keeps: a peer counts as connected exactly while it has
/// connections, few hole punching events are kept, the directory is consistent, and the bootstrap
/// peers are those of the configuration.
pub open spec fn node_sound(net: NetStateView) -> bool {
    &&& net.connected == net.connection_counts.dom()
    &&& net.connected.finite()
    &&& forall|peer: Seq<char>| #[trigger]
        net.connection_counts.contains_key(peer) ==> net.connection_counts[peer] > 0
    &&& net.dcutr_events.len() <= DCUTR_KEPT
    &&& discovery::directory_sound(net.directory)
    &&& net.bootstrap_peer_ids == network::named_peers(net.config.bootstrap_peers)
}

/// A fresh node is sound.
pub proof fn law_fresh_node_is_sound(config: P2pConfigView, local_peer_id: Seq<char>)
    ensures
        node_sound(network::fresh_node(config, local_peer_id)),
{
    assert(network::fresh_node(config, local_peer_id).connected =~= network::fresh_node(
        config,
        local_peer_id,
    ).connection_counts.dom());
}

/// A node after a step is sound, and its configuration is what it was.
pub open spec fn stays_sound(net: NetStateView, after: NetStateView) -> bool {
    &&& node_sound(after)
    &&& after.config == net.config
    &&& after.local_peer_id == net.local_peer_id
}

/// Publishing keeps a node sound.
proof fn lemma_published_sound(net: NetStateView, facts: SwarmFactsView)
    requires
        node_sound(net),
    ensures
        stays_sound(net, network::published(net, facts).0),
{
    discovery::law_directory_stays_sound(net.directory, network::own_advert(net, facts), facts.now_ms);
}

/// A new connection keeps a node sound.
proof fn lemma_connection_sound(
    net: NetStateView,
    peer_id: Seq<char>,
    endpoint: Seq<char>,
    facts: SwarmFactsView,
)
    requires
        node_sound(net),
        net.connection_counts.contains_key(peer_id) ==> net.connection_counts[peer_id] < usize::MAX,
    ensures
        stays_sound(net, connection_established(net, peer_id, endpoint, facts).0),
{
    let added = peer_added(net, peer_id);
    assert(added.connected =~= added.connection_counts.dom());
    lemma_published_sound(added, facts);
}

/// The end of a connection keeps a node sound.
proof fn lemma_closed_sound(net: NetStateView, peer_id: Seq<char>)
    requires
        node_sound(net),
    ensures
        stays_sound(net, connection_closed(net, peer_id).0),
{
    let after = connection_closed(net, peer_id).0;
    assert(after.connected =~= after.connection_counts.dom());
}

/// Questions to the directory and searches keep a node sound.
proof fn lemma_directory_sound(
    net: NetStateView,
    peer_id: Seq<char>,
    request: DiscoveryRequestView,
    query: Seq<char>,
    facts: SwarmFactsView,
)
    requires
        node_sound(net),
    ensures
        stays_sound(net, directory_request(net, peer_id, request, facts).0),
        stays_sound(net, resolve_wanted(net, query, facts).0),
        stays_sound(net, list_wanted(net, facts).0),
{
    let advert = match request {
        DiscoveryRequestView::RegisterPeer(advert) => advert,
        _ => network::own_advert(net, facts),
    };
    discovery::law_directory_stays_sound(net.directory, advert, facts.now_ms);
}

/// Every event keeps a node sound, and none changes its configuration.
#[verifier::spinoff_prover]
pub proof fn law_node_stays_sound(net: NetStateView, input: NetInputView, facts: SwarmFactsView)
    requires
        node_sound(net),
        step_fits(net, input, facts),
    ensures
        node_sound(net_step(net, input, facts).0),
        net_step(net, input, facts).0.config == net.config,
        net_step(net, input, facts).0.local_peer_id == net.local_peer_id,
{
    match input {
        NetInputView::ConnectionEstablished { peer_id, endpoint } => {
            lemma_connection_sound(net, peer_id, endpoint, facts);
        },
        NetInputView::ConnectionClosed { peer_id } => {
            lemma_closed_sound(net, peer_id);
        },
        NetInputView::DirectoryRequest { peer_id, request } => {
            lemma_directory_sound(net, peer_id, request, peer_id, facts);
        },
        NetInputView::ResolveWanted { query } => {
            lemma_directory_sound(net, query, DiscoveryRequestView::ListPeers, query, facts);
        },
        NetInputView::ListWanted => {
            lemma_directory_sound(
                net,
                net.local_peer_id,
                DiscoveryRequestView::ListPeers,
                net.local_peer_id,
                facts,
            );
        },
        NetInputView::RelayReservationAccepted { relay_peer_id } => {
            lemma_published_sound(
                NetStateView {
                    relay_reservations: net.relay_reservations.insert(relay_peer_id),
                    ..net
                },
                facts,
            );
        },
        NetInputView::BootstrapTried => {
            lemma_published_sound(net, facts);
        },
        NetInputView::RefreshDue => {
            lemma_published_sound(net, facts);
        },
        NetInputView::RelayClientOther { .. } => {
            lemma_published_sound(net, facts);
        },
        _ => {},
    }
}

/// An event and what the swarm knows when it comes.
pub type NetEvent = (NetInputView, SwarmFactsView);

/// A node after some events.
pub open spec fn net_run(net: NetStateView, events: Seq<NetEvent>) -> NetStateView
    decreases events.len(),
{
    if events.len() == 0 {
        net
    } else {
        net_step(net_run(net, events.drop_last()), events.last().0, events.last().1).0
    }
}

/// Every step can be counted.
pub open spec fn run_fits(net: NetStateView, events: Seq<NetEvent>) -> bool
    decreases events.len(),
{
    events.len() > 0 ==> run_fits(net, events.drop_last()) && step_fits(
        net_run(net, events.drop_last()),
        events.last().0,
        events.last().1,
    )
}

/// How many connections to a peer are open after some events. A connection that was never opened
/// cannot be closed.
pub open spec fn open_connections(events: Seq<NetEvent>, peer: Seq<char>) -> nat
    decreases events.len(),
{
    if events.len() == 0 {
        0
    } else {
        let before = open_connections(events.drop_last(), peer);
        match events.last().0 {
            NetInputView::ConnectionEstablished { peer_id, .. } if peer_id == peer => before + 1,
            NetInputView::ConnectionClosed { peer_id } if peer_id == peer && before > 0 => (before
                - 1) as nat,
            _ => before,
        }
    }
}

/// After any events a node that started fresh is sound, and a peer counts as connected exactly
/// while a connection to it is open. The connected peers are listed once each, in ascending order.
pub proof fn law_connections_are_counted(
    config: P2pConfigView,
    local_peer_id: Seq<char>,
    events: Seq<NetEvent>,
    peer: Seq<char>,
)
    requires
        run_fits(network::fresh_node(config, local_peer_id), events),
    ensures
        ({
            let net = net_run(network::fresh_node(config, local_peer_id), events);
            &&& node_sound(net)
            &&& net.config == config
            &&& net.connected.contains(peer) <==> open_connections(events, peer) > 0
            &&& net.connected.contains(peer) ==> net.connection_counts[peer] == open_connections(
                events,
                peer,
            )
            &&& table::ascending(table::sorted_texts(net.connected))
            &&& table::sorted_texts(net.connected).contains(peer) <==> open_connections(events, peer) > 0
        }),
    decreases events.len(),
{
    let fresh = network::fresh_node(config, local_peer_id);
    if events.len() == 0 {
        law_fresh_node_is_sound(config, local_peer_id);
    } else {
        let init = events.drop_last();
        law_connections_are_counted(config, local_peer_id, init, peer);
        law_node_stays_sound(net_run(fresh, init), events.last().0, events.last().1);
    }
    let net = net_run(fresh, events);
    table::lemma_sorting_set(net.connected);
    assert(table::sorted_texts(net.connected).to_set().contains(peer) == table::sorted_texts(
        net.connected,
    ).contains(peer));
}

/// Only a bootstrap node keeps a directory: on any other node no event changes it.
pub proof fn law_only_bootstrap_nodes_keep_a_directory(
    net: NetStateView,
    input: NetInputView,
    facts: SwarmFactsView,
)
    requires
        !net.config.relay_server,
    ensures
        net_step(net, input, facts).0.directory == net.directory,
{
}

/// How often an event is handed to the application.
pub open spec fn emitted(effects: Seq<NetEffectView>, event: P2pEventView) -> nat
    decreases effects.len(),
{
    if effects.len() == 0 {
        0
    } else {
        emitted(effects.drop_last(), event) + if effects.last() == NetEffectView::Emit(event) {
            1nat
        } else {
            0nat
        }
    }
}

/// The application is told that a peer came or went.
pub open spec fn tells_of_peers(effect: NetEffectView) -> bool {
    effect matches NetEffectView::Emit(event) && (event is PeerConnected || event is PeerDisconnected)
}

/// Nothing is said of peers that come or go.
pub open spec fn silent_on_peers(effects: Seq<NetEffectView>) -> bool {
    forall|i: int| 0 <= i < effects.len() ==> !tells_of_peers(#[trigger] effects[i])
}

/// What is emitted by two lists of effects is emitted by both together.
proof fn lemma_emitted_adds(a: Seq<NetEffectView>, b: Seq<NetEffectView>, event: P2pEventView)
    ensures
        emitted(a + b, event) == emitted(a, event) + emitted(b, event),
    decreases b.len(),
{
    if b.len() == 0 {
        assert(a + b =~= a);
    } else {
        assert((a + b).drop_last() =~= a + b.drop_last());
        lemma_emitted_adds(a, b.drop_last(), event);
    }
}

/// Silent effects emit no news of peers.
proof fn lemma_silent_emits_nothing(effects: Seq<NetEffectView>, peer: Seq<char>)
    requires
        silent_on_peers(effects),
    ensures
        emitted(effects, P2pEventView::PeerConnected { peer_id: peer }) == 0,
        emitted(effects, P2pEventView::PeerDisconnected { peer_id: peer }) == 0,
    decreases effects.len(),
{
    if effects.len() > 0 {
        assert(!tells_of_peers(effects[effects.len() - 1]));
        let init = effects.drop_last();
        assert forall|i: int| 0 <= i < init.len() implies !tells_of_peers(#[trigger] init[i]) by {
            assert(init[i] == effects[i]);
        }
        lemma_silent_emits_nothing(init, peer);
    }
}

/// Announcements are silent on peers.
proof fn lemma_announcements_silent(
    targets: Seq<Seq<char>>,
    advert: PeerAdvertisementView,
    now_ms: u64,
)
    ensures
        silent_on_peers(network::announcements(targets, advert, now_ms)),
    decreases targets.len(),
{
    if targets.len() > 0 {
        lemma_announcements_silent(targets.drop_last(), advert, now_ms);
    }
}

/// Publishing is silent on peers.
proof fn lemma_published_silent(net: NetStateView, facts: SwarmFactsView)
    ensures
        silent_on_peers(network::published(net, facts).1),
{
    lemma_announcements_silent(
        network::common(net.connected, net.bootstrap_peer_ids),
        network::own_advert(net, facts),
        facts.now_ms,
    );
}

/// Every event but those of connections is silent on peers.
#[verifier::spinoff_prover]
proof fn lemma_other_events_silent(net: NetStateView, input: NetInputView, facts: SwarmFactsView)
    requires
        !(input is ConnectionEstablished),
        !(input is ConnectionClosed),
    ensures
        silent_on_peers(net_step(net, input, facts).1),
{
    lemma_published_silent(net, facts);
    if let NetInputView::RelayReservationAccepted { relay_peer_id } = input {
        lemma_published_silent(
            NetStateView {
                relay_reservations: net.relay_reservations.insert(relay_peer_id),
                ..net
            },
            facts,
        );
    }
}

/// What at most three effects emit.
proof fn lemma_news(news: Seq<NetEffectView>)
    requires
        news.len() <= 3,
    ensures
        forall|event: P2pEventView| #[trigger]
            emitted(news, event) == (if news.len() > 0 && news[0] == NetEffectView::Emit(event) {
                1nat
            } else {
                0
            }) + (if news.len() > 1 && news[1] == NetEffectView::Emit(event) {
                1nat
            } else {
                0
            }) + (if news.len() > 2 && news[2] == NetEffectView::Emit(event) {
                1nat
            } else {
                0
            }),
{
    reveal_with_fuel(emitted, 4);
}

/// After any events the next one tells the application once that a peer connected if its number of
/// open connections goes from none to one, once that it is gone if that number goes from one to
/// none, and neither otherwise. A connection that is closed was open.
pub proof fn law_connection_news(
    config: P2pConfigView,
    local_peer_id: Seq<char>,
    events: Seq<NetEvent>,
    next: NetEvent,
    peer: Seq<char>,
)
    requires
        run_fits(network::fresh_node(config, local_peer_id), events.push(next)),
        next.0 matches NetInputView::ConnectionClosed { peer_id } ==> open_connections(
            events,
            peer_id,
        ) > 0,
    ensures
        ({
            let done = net_step(
                net_run(network::fresh_node(config, local_peer_id), events),
                next.0,
                next.1,
            ).1;
            let before = open_connections(events, peer);
            let after = open_connections(events.push(next), peer);
            &&& emitted(done, P2pEventView::PeerConnected { peer_id: peer }) == if before == 0
                && after == 1 {
                1nat
            } else {
                0nat
            }
            &&& emitted(done, P2pEventView::PeerDisconnected { peer_id: peer }) == if before == 1
                && after == 0 {
                1nat
            } else {
                0nat
            }
        }),
{
    let all = events.push(next);
    assert(all.drop_last() =~= events);
    let fresh = network::fresh_node(config, local_peer_id);
    let net = net_run(fresh, events);
    let facts = next.1;
    law_connections_are_counted(config, local_peer_id, events, peer);
    let came = P2pEventView::PeerConnected { peer_id: peer };
    let left = P2pEventView::PeerDisconnected { peer_id: peer };
    match next.0 {
        NetInputView::ConnectionEstablished { peer_id, endpoint } => {
            let news = connection_news(net, peer_id, endpoint);
            let said = network::published(peer_added(net, peer_id), facts).1;
            lemma_published_silent(peer_added(net, peer_id), facts);
            lemma_silent_emits_nothing(said, peer);
            lemma_emitted_adds(said, news, came);
            lemma_emitted_adds(said, news, left);
            lemma_news(news);
        },
        NetInputView::ConnectionClosed { peer_id } => {
            law_connections_are_counted(config, local_peer_id, events, peer_id);
            lemma_news(connection_closed(net, peer_id).1);
        },
        _ => {
            lemma_other_events_silent(net, next.0, facts);
            lemma_silent_emits_nothing(net_step(net, next.0, facts).1, peer);
        },
    }
}

/// What is handed to whoever asked for a peer.
pub open spec fn answers_query(effect: NetEffectView, query: Seq<char>) -> bool {
    match effect {
        NetEffectView::Resolved(found) => found.query == query,
        _ => false,
    }
}

/// Every search for a peer is answered once: at once, or by the answer of a bootstrap peer, or
/// when that peer cannot be asked.
pub proof fn law_every_search_is_answered(
    net: NetStateView,
    query: Seq<char>,
    peer_id: Seq<char>,
    response: DiscoveryResponseView,
    text: Seq<char>,
    facts: SwarmFactsView,
)
    ensures
        ({
            let asked = resolve_wanted(net, query, facts).1;
            &&& asked.len() == 1
            &&& match asked[0] {
                NetEffectView::AskDirectory { pending, .. } => pending
                    == PendingDiscoveryView::Resolve { query },
                effect => answers_query(effect, query),
            }
        }),
        ({
            let pending = Some(PendingDiscoveryView::Resolve { query });
            let answered = directory_response(net, peer_id, pending, response, text).1;
            let failed = directory_failed(net, peer_id, pending, text).1;
            &&& answered.len() == 1 && answers_query(answered[0], query)
            &&& failed.len() == 1 && answers_query(failed[0], query)
        }),
{
}

/// A node publishes on the events that change where it can be found, and then asks exactly the
/// bootstrap peers that are connected to register its current advertisement.
#[verifier::spinoff_prover]
#[verifier::rlimit(40)]
pub proof fn law_bootstrap_peers_get_the_advertisement(
    net: NetStateView,
    input: NetInputView,
    facts: SwarmFactsView,
    peer: Seq<char>,
)
    requires
        net.connected.finite(),
        publishes(net, input),
    ensures
        ({
            let (after, done) = net_step(net, input, facts);
            done.contains(network::registration(peer, network::own_advert(after, facts))) <==> after.connected.contains(
                peer,
            ) && after.bootstrap_peer_ids.contains(peer)
        }),
{
    let (after, done) = net_step(net, input, facts);
    match input {
        NetInputView::ConnectionEstablished { peer_id, endpoint } => {
            let added = peer_added(net, peer_id);
            let news = connection_news(net, peer_id, endpoint);
            network::law_publishing_reaches_the_bootstrap_peers(added, facts, peer);
            let told = network::published(added, facts).1;
            assert(network::own_advert(after, facts) == network::own_advert(added, facts));
            lemma_said_in_front(told, news, network::registration(peer, network::own_advert(added, facts)));
        },
        NetInputView::RelayReservationAccepted { relay_peer_id } => {
            let first = NetStateView {
                relay_reservations: net.relay_reservations.insert(relay_peer_id),
                ..net
            };
            network::law_publishing_reaches_the_bootstrap_peers(first, facts, peer);
            let told = network::published(first, facts).1;
            assert(network::own_advert(after, facts) == network::own_advert(first, facts));
            let log = seq![network::logged("[p2p] relay reservation accepted: "@ + relay_peer_id)];
            lemma_said_behind(log, told, network::registration(peer, network::own_advert(first, facts)));
        },
        NetInputView::RelayClientOther { event } => {
            network::law_publishing_reaches_the_bootstrap_peers(net, facts, peer);
            let told = network::published(net, facts).1;
            assert(network::own_advert(after, facts) == network::own_advert(net, facts));
            let log = seq![network::logged("[p2p] relay client event: "@ + event)];
            lemma_said_behind(log, told, network::registration(peer, network::own_advert(net, facts)));
        },
        _ => {
            network::law_publishing_reaches_the_bootstrap_peers(net, facts, peer);
            assert(network::own_advert(after, facts) == network::own_advert(net, facts));
        },
    }
}

/// What is done in front of something else is done.
proof fn lemma_said_in_front(a: Seq<NetEffectView>, b: Seq<NetEffectView>, effect: NetEffectView)
    requires
        forall|i: int| 0 <= i < b.len() ==> #[trigger] b[i] != effect,
    ensures
        (a + b).contains(effect) <==> a.contains(effect),
{
    if a.contains(effect) {
        let i = choose|i: int| 0 <= i < a.len() && a[i] == effect;
        assert((a + b)[i] == effect);
    }
    if (a + b).contains(effect) {
        let i = choose|i: int| 0 <= i < (a + b).len() && (a + b)[i] == effect;
        if i >= a.len() {
            assert(b[i - a.len()] == effect);
        }
        assert(a[i] == effect);
    }
}

/// What is done behind something else is done.
proof fn lemma_said_behind(a: Seq<NetEffectView>, b: Seq<NetEffectView>, effect: NetEffectView)
    requires
        forall|i: int| 0 <= i < a.len() ==> #[trigger] a[i] != effect,
    ensures
        (a + b).contains(effect) <==> b.contains(effect),
{
    if b.contains(effect) {
        let i = choose|i: int| 0 <= i < b.len() && b[i] == effect;
        assert((a + b)[a.len() + i] == effect);
    }
    if (a + b).contains(effect) {
        let i = choose|i: int| 0 <= i < (a + b).len() && (a + b)[i] == effect;
        if i < a.len() {
            assert(a[i] == effect);
        }
        assert(b[i - a.len()] == effect);
    }
}

/// A message of a peer is acknowledged and handed to the application with the id of the peer, and
/// changes nothing else.
pub proof fn law_messages_are_handed_on(
    net: NetStateView,
    peer: Seq<char>,
    envelope: SignedEncryptedEnvelopeView,
    invite: RoomInviteView,
    facts: SwarmFactsView,
)
    ensures
        ({
            let input = NetInputView::MessageRequest {
                peer_id: peer,
                request: DogelRequestView::Envelope(envelope),
            };
            let (after, done) = net_step(net, input, facts);
            &&& after == net
            &&& done.len() == 2
            &&& done[0] matches NetEffectView::AnswerMessage(answer) && answer.ok
            &&& done[1] == NetEffectView::Emit(
                P2pEventView::InboundEnvelope { peer_id: peer, envelope },
            )
        }),
        ({
            let input = NetInputView::MessageRequest {
                peer_id: peer,
                request: DogelRequestView::Invite(invite),
            };
            let (after, done) = net_step(net, input, facts);
            &&& after == net
            &&& done.len() == 2
            &&& done[0] matches NetEffectView::AnswerMessage(answer) && answer.ok
            &&& done[1] == NetEffectView::Emit(
                P2pEventView::InboundInvite { peer_id: peer, invite },
            )
        }),
{
}

/// The application is told a line that ends with a text.
pub open spec fn logs_ending(effects: Seq<NetEffectView>, text: Seq<char>) -> bool {
    exists|i: int|
        0 <= i < effects.len() && (#[trigger] effects[i] matches NetEffectView::Emit(
            P2pEventView::Log { line },
        ) && text.is_suffix_of(line))
}

/// One line that ends with a text is told.
proof fn lemma_logged(effects: Seq<NetEffectView>, head: Seq<char>, text: Seq<char>)
    requires
        effects.len() > 0,
        effects[0] == network::logged(head + text),
    ensures
        logs_ending(effects, text),
{
    let line = head + text;
    assert(line.subrange(line.len() - text.len(), line.len() as int) =~= text);
    assert(effects[0] matches NetEffectView::Emit(P2pEventView::Log { line: l }) && l == line);
}

/// Every error of the network is told to the user, and what concerns a bootstrap peer, a relay or
/// the reachability is kept for the diagnosis.
pub proof fn law_network_errors_are_told(
    net: NetStateView,
    peer: Seq<char>,
    addr: MultiaddrView,
    error: Seq<char>,
    facts: SwarmFactsView,
)
    ensures
        ({
            let (after, done) = net_step(
                net,
                NetInputView::BootstrapDialed { addr, error: Some(error) },
                facts,
            );
            &&& logs_ending(done, error)
            &&& after.bootstrap_last_error matches Some(e) && error.is_suffix_of(e)
        }),
        ({
            let (after, done) = net_step(
                net,
                NetInputView::RelayListened { peer_id: peer, addr, error: Some(error) },
                facts,
            );
            &&& logs_ending(done, error)
            &&& after.relay_last_error matches Some(e) && error.is_suffix_of(e)
            &&& after.relay_reservation_errors.len() == net.relay_reservation_errors.len() + 1
            &&& after.relay_last_error == Some(after.relay_reservation_errors.last())
        }),
        ({
            let (after, done) = net_step(
                net,
                NetInputView::OutgoingConnectionError { peer_id: Some(peer), error },
                facts,
            );
            &&& logs_ending(done, error)
            &&& net.bootstrap_peer_ids.contains(peer) ==> (after.bootstrap_last_error matches Some(
                e,
            ) && error.is_suffix_of(e))
            &&& !net.bootstrap_peer_ids.contains(peer) ==> after == net
        }),
        ({
            let (after, done) = net_step(
                net,
                NetInputView::NatOutboundProbeError { error },
                facts,
            );
            logs_ending(done, error) && after.nat_last_error == Some(error)
        }),
        ({
            let (after, done) = net_step(net, NetInputView::NatInboundProbeError { error }, facts);
            logs_ending(done, error) && after.nat_last_error == Some(error)
        }),
        logs_ending(
            net_step(net, NetInputView::IncomingConnectionError { error }, facts).1,
            error,
        ),
        logs_ending(
            net_step(
                net,
                NetInputView::MessageOutboundFailure { peer_id: peer, error },
                facts,
            ).1,
            error,
        ),
        logs_ending(
            net_step(net, NetInputView::MessageInboundFailure { peer_id: peer, error }, facts).1,
            error,
        ),
        logs_ending(
            net_step(net, NetInputView::DirectoryInboundFailure { peer_id: peer, error }, facts).1,
            error,
        ),
        logs_ending(
            net_step(
                net,
                NetInputView::MessageResponse {
                    response: DogelResponseView { ok: false, error: Some(error) },
                },
                facts,
            ).1,
            error,
        ),
        net_step(
            net,
            NetInputView::MessageResponse {
                response: DogelResponseView { ok: true, error: None },
            },
            facts,
        ).1.len() == 0,
{
    let dial = "bootstrap dial failed: "@ + peer::addr_text(addr) + ": "@;
    assert("[p2p] "@ + (dial + error) =~= ("[p2p] "@ + dial) + error);
    lemma_logged(
        net_step(net, NetInputView::BootstrapDialed { addr, error: Some(error) }, facts).1,
        "[p2p] "@ + dial,
        error,
    );
    lemma_ends(dial, error);
    let relay = "relay reservation listen failed for "@ + peer + " via "@ + peer::addr_text(addr) + ": "@;
    let relay_line = "relay reservation listen failed for "@ + peer + " via "@ + peer::addr_text(addr)
        + (": "@ + error);
    assert(relay_line =~= relay + error);
    assert("[p2p] "@ + relay_line =~= ("[p2p] "@ + relay) + error);
    lemma_logged(
        net_step(
            net,
            NetInputView::RelayListened { peer_id: peer, addr, error: Some(error) },
            facts,
        ).1,
        "[p2p] "@ + relay,
        error,
    );
    lemma_ends(relay, error);
    lemma_logged(
        net_step(
            net,
            NetInputView::OutgoingConnectionError { peer_id: Some(peer), error },
            facts,
        ).1,
        "[p2p] outgoing connection error: peer="@ + shown_peer(Some(peer)) + " error="@,
        error,
    );
    lemma_ends("bootstrap dial failed for "@ + peer + ": "@, error);
    lemma_logged(
        net_step(net, NetInputView::NatOutboundProbeError { error }, facts).1,
        "[p2p] autonat outbound probe error: "@,
        error,
    );
    lemma_logged(
        net_step(net, NetInputView::NatInboundProbeError { error }, facts).1,
        "[p2p] autonat inbound probe error: "@,
        error,
    );
    lemma_logged(
        net_step(net, NetInputView::IncomingConnectionError { error }, facts).1,
        "[p2p] incoming connection error: "@,
        error,
    );
    lemma_logged(
        net_step(net, NetInputView::MessageOutboundFailure { peer_id: peer, error }, facts).1,
        "[p2p] outbound message failure: peer="@ + peer + " error="@,
        error,
    );
    lemma_logged(
        net_step(net, NetInputView::MessageInboundFailure { peer_id: peer, error }, facts).1,
        "[p2p] inbound message failure: peer="@ + peer + " error="@,
        error,
    );
    lemma_logged(
        net_step(net, NetInputView::DirectoryInboundFailure { peer_id: peer, error }, facts).1,
        "[p2p] discovery inbound failure: peer="@ + peer + " error="@,
        error,
    );
    lemma_logged(
        net_step(
            net,
            NetInputView::MessageResponse {
                response: DogelResponseView { ok: false, error: Some(error) },
            },
            facts,
        ).1,
        "[p2p] remote rejected message: "@,
        error,
    );
}

/// A text that stands at the end is the end.
proof fn lemma_ends(head: Seq<char>, text: Seq<char>)
    ensures
        text.is_suffix_of(head + text),
{
    let line = head + text;
    assert(line.subrange(line.len() - text.len(), line.len() as int) =~= text);
}

/// At the start every bootstrap address that names a peer is dialed, in the order of the
/// configuration. Once a dialing began, a node that is no relay asks that peer for a reservation.
pub proof fn law_bootstrap_peers_are_dialed(
    net: NetStateView,
    facts: SwarmFactsView,
    i: int,
    addr: MultiaddrView,
)
    requires
        0 <= i < net.config.bootstrap_peers.len(),
        net.config.bootstrap_peers[i] == addr,
        peer::addr_peer(addr) is Some,
    ensures
        ({
            let (after, done) = net_step(net, NetInputView::Started, facts);
            &&& after == net
            &&& done.len() == net.config.bootstrap_peers.len()
            &&& done[i] == (NetEffectView::DialBootstrap { addr })
        }),
        ({
            let (after, done) = net_step(
                net,
                NetInputView::BootstrapDialed { addr, error: None },
                facts,
            );
            let asked = NetEffectView::ListenOnRelay {
                peer_id: peer::addr_peer(addr)->0,
                addr: addr.push(("/p2p-circuit"@, None)),
            };
            &&& after == net
            &&& done.contains(asked) <==> !net.config.relay_server
        }),
{
    let done = net_step(net, NetInputView::BootstrapDialed { addr, error: None }, facts).1;
    let asked = NetEffectView::ListenOnRelay {
        peer_id: peer::addr_peer(addr)->0,
        addr: addr.push(("/p2p-circuit"@, None)),
    };
    if !net.config.relay_server {
        assert(done[1] == asked);
    }
}

/// A reservation is entered once it is granted, and the relays that granted one before stay.
pub proof fn law_reservations_are_kept(
    net: NetStateView,
    relay: Seq<char>,
    other: Seq<char>,
    facts: SwarmFactsView,
)
    ensures
        ({
            let after = net_step(
                net,
                NetInputView::RelayReservationAccepted { relay_peer_id: relay },
                facts,
            ).0;
            after.relay_reservations.contains(other) <==> other == relay
                || net.relay_reservations.contains(other)
        }),
{
}

/// The latest sixteen hole punching events are kept, the newest last.
pub proof fn law_latest_hole_punching_is_kept(
    net: NetStateView,
    peer: Seq<char>,
    result: Seq<char>,
    facts: SwarmFactsView,
    k: int,
)
    requires
        1 <= k < 16,
        k <= net.dcutr_events.len(),
        net.dcutr_events.len() <= 16,
    ensures
        ({
            let (after, done) = net_step(
                net,
                NetInputView::Dcutr { remote_peer_id: peer, result },
                facts,
            );
            let n = after.dcutr_events.len();
            &&& n == if net.dcutr_events.len() < 16 {
                net.dcutr_events.len() + 1
            } else {
                16
            }
            &&& result.is_suffix_of(after.dcutr_events.last())
            &&& after.dcutr_events[n - 1 - k] == net.dcutr_events[net.dcutr_events.len() - k]
            &&& logs_ending(done, result)
        }),
{
    let head = "[p2p] dcutr event: remote_peer_id="@ + peer + " result="@;
    lemma_ends(head, result);
    lemma_logged(
        net_step(net, NetInputView::Dcutr { remote_peer_id: peer, result }, facts).1,
        head,
        result,
    );
}

/// A bootstrap node registers whoever its directory accepts, and says so; it refuses the others
/// with the reason and leaves the directory alone. A node without a directory refuses everybody.
pub proof fn law_registrations_are_answered(
    net: NetStateView,
    peer: Seq<char>,
    advert: PeerAdvertisementView,
    facts: SwarmFactsView,
)
    ensures
        ({
            let (after, done) = net_step(
                net,
                NetInputView::DirectoryRequest {
                    peer_id: peer,
                    request: DiscoveryRequestView::RegisterPeer(advert),
                },
                facts,
            );
            let accepted = net.config.relay_server && discovery::register_error(net.directory, advert) is None;
            &&& done.len() > 0
            &&& done.last() matches NetEffectView::AnswerDirectory(
                DiscoveryResponseView::Ack { ok, error },
            )
            &&& ok <==> accepted
            &&& error is Some <==> !accepted
            &&& accepted ==> after.directory.by_peer_id.contains_key(advert.peer_id)
                && after.directory.by_peer_id[advert.peer_id] == advert
            &&& !accepted ==> after.directory == net.directory
        }),
{
}

/// A bootstrap node answers a search out of its directory, without what has expired, and a
/// question for the list with all that is left. A node without a directory finds nobody.
pub proof fn law_directory_questions_are_answered(
    net: NetStateView,
    peer: Seq<char>,
    query: Seq<char>,
    facts: SwarmFactsView,
)
    ensures
        ({
            let done = net_step(
                net,
                NetInputView::DirectoryRequest {
                    peer_id: peer,
                    request: DiscoveryRequestView::ResolvePeer { query },
                },
                facts,
            ).1;
            let known = discovery::resolution(discovery::cleaned(net.directory, facts.now_ms), query);
            &&& done.len() == 1
            &&& done[0] matches NetEffectView::AnswerDirectory(
                DiscoveryResponseView::ResolvePeerResponse { found, advertisement, reason },
            )
            &&& found <==> net.config.relay_server && known.found
            &&& net.config.relay_server ==> advertisement == known.advertisement
            &&& !net.config.relay_server ==> advertisement is None && reason is Some
        }),
        ({
            let done = net_step(
                net,
                NetInputView::DirectoryRequest {
                    peer_id: peer,
                    request: DiscoveryRequestView::ListPeers,
                },
                facts,
            ).1;
            &&& done.len() == 1
            &&& done[0] matches NetEffectView::AnswerDirectory(
                DiscoveryResponseView::ListPeersResponse { peers },
            )
            &&& net.config.relay_server ==> peers == discovery::listing(discovery::cleaned(net.directory, facts.now_ms))
            &&& !net.config.relay_server ==> peers.len() == 0
        }),
{
}

/// What a bootstrap peer answers is handed to whoever asked: the peer that was found, or the list.
/// An accepted registration is noted, and one that is refused is noted with the reason.
pub proof fn law_directory_answers_are_handed_on(
    net: NetStateView,
    peer: Seq<char>,
    query: Seq<char>,
    found: bool,
    advertisement: Option<PeerAdvertisementView>,
    reason: Option<Seq<char>>,
    peers: Seq<PeerAdvertisementView>,
    alias: Option<Seq<char>>,
    expires_at_ms: u64,
    shown: Seq<char>,
    facts: SwarmFactsView,
)
    ensures
        net_step(
            net,
            NetInputView::DirectoryResponse {
                peer_id: peer,
                pending: Some(PendingDiscoveryView::Resolve { query }),
                response: DiscoveryResponseView::ResolvePeerResponse {
                    found,
                    advertisement,
                    reason,
                },
                shown,
            },
            facts,
        ).1 == seq![
            NetEffectView::Resolved(
                DiscoveryResolutionView { query, found, advertisement, reason },
            ),
        ],
        net_step(
            net,
            NetInputView::DirectoryResponse {
                peer_id: peer,
                pending: Some(PendingDiscoveryView::List),
                response: DiscoveryResponseView::ListPeersResponse { peers },
                shown,
            },
            facts,
        ).1 == seq![NetEffectView::Listed(peers)],
        ({
            let pending = Some(PendingDiscoveryView::Register { alias, expires_at_ms });
            let after = net_step(
                net,
                NetInputView::DirectoryResponse {
                    peer_id: peer,
                    pending,
                    response: DiscoveryResponseView::Ack { ok: found, error: reason },
                    shown,
                },
                facts,
            ).0;
            let failed = net_step(
                net,
                NetInputView::DirectoryOutboundFailure { peer_id: peer, pending, error: shown },
                facts,
            ).0;
            &&& after.discovery_registered <==> found
            &&& after.discovery_last_error is Some <==> !found
            &&& !found && reason is Some ==> after.discovery_last_error == reason
            &&& !failed.discovery_registered
            &&& failed.discovery_last_error is Some
        }),
{
}

/// The application's search and its question for the list go to a bootstrap peer that is connected,
/// if there is one and this node keeps no directory; a bootstrap node answers out of its own.
pub proof fn law_searches_go_to_a_bootstrap_peer(
    net: NetStateView,
    query: Seq<char>,
    facts: SwarmFactsView,
    peer: Seq<char>,
)
    requires
        net.connected.finite(),
    ensures
        ({
            let search = net_step(net, NetInputView::ResolveWanted { query }, facts).1;
            let list = net_step(net, NetInputView::ListWanted, facts).1;
            let looked = discovery::cleaned(net.directory, facts.now_ms);
            let reachable = net.connected.contains(peer) && net.bootstrap_peer_ids.contains(peer);
            &&& search.len() == 1 && list.len() == 1
            &&& net.config.relay_server ==> search[0] == NetEffectView::Resolved(
                discovery::resolution(looked, query),
            ) && list[0] == NetEffectView::Listed(discovery::listing(looked))
            &&& !net.config.relay_server && reachable ==> search[0] is AskDirectory
                && list[0] is AskDirectory
            &&& search[0] matches NetEffectView::AskDirectory { peer_id, request, .. } ==> {
                &&& !net.config.relay_server
                &&& net.connected.contains(peer_id) && net.bootstrap_peer_ids.contains(peer_id)
                &&& request == (DiscoveryRequestView::ResolvePeer { query })
            }
            &&& list[0] matches NetEffectView::AskDirectory { peer_id, request, .. } ==> {
                &&& !net.config.relay_server
                &&& net.connected.contains(peer_id) && net.bootstrap_peer_ids.contains(peer_id)
                &&& request == DiscoveryRequestView::ListPeers
            }
        }),
{
    let targets = network::common(net.connected, net.bootstrap_peer_ids);
    network::lemma_common(net.connected, net.bootstrap_peer_ids, peer);
    if targets.len() > 0 {
        assert(targets.contains(targets[0]));
        network::lemma_common(net.connected, net.bootstrap_peer_ids, targets[0]);
    }
}

/// A peer that told what it knows may probe this node at its first address, and a relay learns its
/// own address from it.
pub proof fn law_identified_peers_help(
    net: NetStateView,
    peer: Seq<char>,
    observed: MultiaddrView,
    listen: Seq<MultiaddrView>,
    facts: SwarmFactsView,
)
    ensures
        ({
            let (after, done) = net_step(
                net,
                NetInputView::Identified {
                    peer_id: peer,
                    observed_addr: observed,
                    listen_addrs: listen,
                },
                facts,
            );
            &&& after == net
            &&& done.contains(NetEffectView::AddExternalAddress { addr: observed })
                <==> net.config.relay_server
            &&& listen.len() > 0 ==> done.contains(
                NetEffectView::AddNatServer { peer_id: peer, addr: listen[0] },
            )
        }),
{
    let done = net_step(
        net,
        NetInputView::Identified { peer_id: peer, observed_addr: observed, listen_addrs: listen },
        facts,
    ).1;
    if net.config.relay_server {
        assert(done[0] == (NetEffectView::AddExternalAddress { addr: observed }));
    }
    if listen.len() > 0 {
        assert(done[done.len() - 1] == (NetEffectView::AddNatServer {
            peer_id: peer,
            addr: listen[0],
        }));
    }
}

/// The diagnosis tells the state of the node: who is connected, whether a bootstrap peer is, which
/// relays granted a reservation, the addresses, and the last errors.
pub proof fn law_the_diagnosis_tells_the_state(
    net: NetStateView,
    facts: SwarmFactsView,
    nat_confidence: usize,
    public_address: Option<MultiaddrView>,
    peer: Seq<char>,
)
    requires
        net.connected.finite(),
        net.relay_reservations.finite(),
    ensures
        ({
            let d = diagnosed(net, facts, nat_confidence, public_address);
            &&& d.connected_peers.contains(peer) <==> net.connected.contains(peer)
            &&& table::ascending(d.connected_peers)
            &&& d.bootstrap_connected <==> exists|p: Seq<char>| #[trigger]
                net.connected.contains(p) && net.bootstrap_peer_ids.contains(p)
            &&& d.relay_reservations.contains(peer) <==> net.relay_reservations.contains(peer)
            &&& d.relay_reservation_active <==> !net.relay_reservations.is_empty()
            &&& d.listen_addrs == facts.listeners
            &&& d.external_addrs == facts.external_addrs
            &&& d.nat_status == facts.nat_status
            &&& d.nat_confidence == nat_confidence
            &&& d.public_address == public_address
            &&& d.bootstrap_peers == net.config.bootstrap_peers
            &&& d.relay_server == net.config.relay_server
            &&& d.bootstrap_last_error == net.bootstrap_last_error
            &&& d.relay_last_error == net.relay_last_error
            &&& d.relay_reservation_errors == net.relay_reservation_errors
            &&& d.nat_last_error == net.nat_last_error
            &&& d.dcutr_events == net.dcutr_events
            &&& d.discovery_registered == net.discovery_registered
            &&& d.discovery_registered_alias == net.discovery_registered_alias
            &&& d.discovery_expires_at_ms == net.discovery_expires_at_ms
            &&& d.discovery_last_error == net.discovery_last_error
        }),
{
    table::lemma_sorting_set(net.connected);
    table::lemma_sorting_set(net.relay_reservations);
    let connected = table::sorted_texts(net.connected);
    let granted = table::sorted_texts(net.relay_reservations);
    assert(connected.to_set().contains(peer) <==> connected.contains(peer));
    assert(granted.to_set().contains(peer) <==> granted.contains(peer));
    let targets = network::common(net.connected, net.bootstrap_peer_ids);
    if targets.len() > 0 {
        assert(targets.contains(targets[0]));
        network::lemma_common(net.connected, net.bootstrap_peer_ids, targets[0]);
        assert(net.connected.contains(targets[0]));
    }
    if exists|p: Seq<char>| #[trigger]
        net.connected.contains(p) && net.bootstrap_peer_ids.contains(p) {
        let p = choose|p: Seq<char>| #[trigger]
            net.connected.contains(p) && net.bootstrap_peer_ids.contains(p);
        network::lemma_common(net.connected, net.bootstrap_peer_ids, p);
    }
    if granted.len() > 0 {
        assert(granted.contains(granted[0]));
        assert(granted.to_set().contains(granted[0]));
        assert(net.relay_reservations.contains(granted[0]));
    }
    if !net.relay_reservations.is_empty() {
        let p = net.relay_reservations.choose();
        assert(net.relay_reservations.contains(p));
        assert(granted.to_set().contains(p));
    }
}

/// A node is reached directly where it has an address, over a relay where it only has a
/// reservation, and not at all where it has neither and is not public.
pub proof fn law_how_a_node_is_reached(nat_status: Seq<char>, relayed: bool, direct: bool)
    ensures
        usable_route(nat_status, relayed, direct) == "direct"@ <==> direct || !relayed && text::occurs_in(
            "Public"@,
            nat_status,
        ),
        usable_route(nat_status, relayed, direct) == "relay"@ <==> relayed && !direct,
        usable_route(nat_status, relayed, direct) == "none"@ <==> !relayed && !direct && !text::occurs_in(
            "Public"@,
            nat_status,
        ),
{
    reveal_strlit("direct");
    reveal_strlit("relay");
    reveal_strlit("none");
    assert("direct"@[0] == 'd');
    assert("relay"@[0] == 'r');
    assert("none"@[0] == 'n');
}

/// What happens in the network is told: an address at which the node listens with its own id, a
/// changed reachability, and what relays do. A listener that was closed by an error is noted as an
/// error of a relay.
pub proof fn law_network_news_is_told(
    net: NetStateView,
    addr: MultiaddrView,
    peer: Seq<char>,
    before: Seq<char>,
    text: Seq<char>,
    facts: SwarmFactsView,
)
    ensures
        logs_ending(
            net_step(net, NetInputView::NewListenAddr { addr }, facts).1,
            peer::addr_text(addr) + ("/p2p/"@ + net.local_peer_id),
        ),
        logs_ending(
            net_step(net, NetInputView::NatStatusChanged { before, after: text }, facts).1,
            before + " -> "@ + text,
        ),
        logs_ending(net_step(net, NetInputView::NatOther { event: text }, facts).1, text),
        logs_ending(net_step(net, NetInputView::RelayClientOther { event: text }, facts).1, text),
        net.config.relay_server ==> logs_ending(
            net_step(net, NetInputView::RelayServerOther { event: text }, facts).1,
            text,
        ),
        logs_ending(
            net_step(net, NetInputView::BootstrapDialed { addr, error: None }, facts).1,
            peer::addr_text(addr),
        ),
        logs_ending(
            net_step(
                net,
                NetInputView::RelayListened { peer_id: peer, addr, error: None },
                facts,
            ).1,
            peer::addr_text(addr),
        ),
        logs_ending(
            net_step(
                net,
                NetInputView::RelayReservationAccepted { relay_peer_id: peer },
                facts,
            ).1,
            peer,
        ),
        ({
            let (after, done) = net_step(
                net,
                NetInputView::ListenerClosed { addresses: before, error: Some(text) },
                facts,
            );
            &&& logs_ending(done, text)
            &&& after.relay_last_error matches Some(e) && text.is_suffix_of(e)
        }),
        net_step(net, NetInputView::ListenerClosed { addresses: before, error: None }, facts) == (
            net,
            Seq::<NetEffectView>::empty(),
        ),
        !net.config.relay_server ==> net_step(
            net,
            NetInputView::RelayServerOther { event: text },
            facts,
        ) == (net, Seq::<NetEffectView>::empty()),
{
    peer::law_with_peer_text(addr, net.local_peer_id);
    lemma_logged(
        net_step(net, NetInputView::NewListenAddr { addr }, facts).1,
        "[p2p] listening on "@,
        peer::addr_text(addr) + ("/p2p/"@ + net.local_peer_id),
    );
    let change = "[p2p] autonat status changed: "@;
    assert(change + before + " -> "@ + text =~= change + (before + " -> "@ + text));
    lemma_logged(
        net_step(net, NetInputView::NatStatusChanged { before, after: text }, facts).1,
        change,
        before + " -> "@ + text,
    );
    lemma_logged(
        net_step(net, NetInputView::NatOther { event: text }, facts).1,
        "[p2p] autonat event: "@,
        text,
    );
    let client = net_step(net, NetInputView::RelayClientOther { event: text }, facts).1;
    assert(client[0] == network::logged("[p2p] relay client event: "@ + text));
    lemma_logged(client, "[p2p] relay client event: "@, text);
    if net.config.relay_server {
        lemma_logged(
            net_step(net, NetInputView::RelayServerOther { event: text }, facts).1,
            "[p2p] relay server event: "@,
            text,
        );
    }
    let dialed = net_step(net, NetInputView::BootstrapDialed { addr, error: None }, facts).1;
    assert(dialed[0] == network::logged("[p2p] bootstrap dial started: "@ + peer::addr_text(addr)));
    lemma_logged(dialed, "[p2p] bootstrap dial started: "@, peer::addr_text(addr));
    lemma_logged(
        net_step(
            net,
            NetInputView::RelayListened { peer_id: peer, addr, error: None },
            facts,
        ).1,
        "[p2p] relay reservation requested: "@,
        peer::addr_text(addr),
    );
    let granted = net_step(
        net,
        NetInputView::RelayReservationAccepted { relay_peer_id: peer },
        facts,
    ).1;
    assert(granted[0] == network::logged("[p2p] relay reservation accepted: "@ + peer));
    lemma_logged(granted, "[p2p] relay reservation accepted: "@, peer);
    let closed = "listener closed with error: addresses="@ + before + " error="@;
    assert("[p2p] "@ + (closed + text) =~= ("[p2p] "@ + closed) + text);
    lemma_logged(
        net_step(
            net,
            NetInputView::ListenerClosed { addresses: before, error: Some(text) },
            facts,
        ).1,
        "[p2p] "@ + closed,
        text,
    );
    lemma_ends(closed, text);
}

/// The last error of the bootstrap peers is forgotten when one of them connects, and set when one of
/// them leaves. Other peers do not touch it.
pub proof fn law_bootstrap_errors_follow_the_connections(
    net: NetStateView,
    peer: Seq<char>,
    endpoint: Seq<char>,
    facts: SwarmFactsView,
)
    ensures
        ({
            let joined = net_step(
                net,
                NetInputView::ConnectionEstablished { peer_id: peer, endpoint },
                facts,
            ).0;
            let left = net_step(net, NetInputView::ConnectionClosed { peer_id: peer }, facts).0;
            if net.bootstrap_peer_ids.contains(peer) {
                &&& joined.bootstrap_last_error is None
                &&& left.bootstrap_last_error matches Some(e) && peer.is_suffix_of(e)
            } else {
                &&& joined.bootstrap_last_error == net.bootstrap_last_error
                &&& left.bootstrap_last_error == net.bootstrap_last_error
            }
        }),
{
    lemma_ends("bootstrap peer disconnected: "@, peer);
}

} // verus!
