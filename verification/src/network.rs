//! The state of the network node: what it does on each event.
//!
//! The swarm itself lives outside. It hands its events over, together with what it knows at that
//! moment, and carries out the effects that come back.

use crate::crypto;
use crate::discovery;
use crate::discovery::DiscoveryDirectory;
use crate::discovery::DiscoveryDirectoryView;
use crate::discovery::DiscoveryResolution;
use crate::discovery::DiscoveryResolutionView;
use crate::peer;
use crate::peer::Multiaddr;
use crate::peer::MultiaddrView;
use crate::peer::PeerId;
use crate::protocol::DiscoveryRequest;
use crate::protocol::DiscoveryRequestView;
use crate::protocol::DiscoveryResponse;
use crate::protocol::DiscoveryResponseView;
use crate::protocol::DogelResponse;
use crate::protocol::DogelResponseView;
use crate::protocol::PeerAdvertisement;
use crate::protocol::PeerAdvertisementView;
use crate::protocol::RoomInvite;
use crate::protocol::RoomInviteView;
use crate::protocol::SignedEncryptedEnvelope;
use crate::protocol::SignedEncryptedEnvelopeView;
use crate::table;
use crate::table::TextMap;
use crate::table::TextSet;
use crate::table::TextSetView;
use crate::text;
use crate::text::cat2;
use crate::text::cat3;
use crate::text::cat4;
use crate::text::copy_opt;
use crate::text::decimal_text;
use vstd::prelude::*;

verus! {

/// What can go wrong at the boundary of the network node.
#[derive(Debug, Clone, PartialEq, Eq)]
pub enum P2pError {
    Noise(String),
    Listen { addr: String, source: String },
    RuntimeClosed,
    ResponseDropped,
    InvalidMultiaddr(String),
    InvalidPeerId(String),
    MissingPeerId(String),
}

/// The plain values held by a [`P2pError`].
#[verifier::ext_equal]
pub enum P2pErrorView {
    Noise(Seq<char>),
    Listen { addr: Seq<char>, source: Seq<char> },
    RuntimeClosed,
    ResponseDropped,
    InvalidMultiaddr(Seq<char>),
    InvalidPeerId(Seq<char>),
    MissingPeerId(Seq<char>),
}

impl View for P2pError {
    type V = P2pErrorView;

    open spec fn view(&self) -> P2pErrorView {
        match *self {
            P2pError::Noise(x0) => P2pErrorView::Noise(x0@),
            P2pError::Listen { addr, source } => P2pErrorView::Listen { addr: addr@, source: source@ },
            P2pError::RuntimeClosed => P2pErrorView::RuntimeClosed,
            P2pError::ResponseDropped => P2pErrorView::ResponseDropped,
            P2pError::InvalidMultiaddr(x0) => P2pErrorView::InvalidMultiaddr(x0@),
            P2pError::InvalidPeerId(x0) => P2pErrorView::InvalidPeerId(x0@),
            P2pError::MissingPeerId(x0) => P2pErrorView::MissingPeerId(x0@),
        }
    }
}

/// What a network error says.
pub open spec fn p2p_error_text(e: P2pErrorView) -> Seq<char> {
    match e {
        P2pErrorView::Noise(reason) => "failed to configure noise transport: "@ + reason,
        P2pErrorView::Listen { addr, source } => "failed to listen on "@ + addr + ": "@ + source,
        P2pErrorView::RuntimeClosed => "p2p runtime is not running"@,
        P2pErrorView::ResponseDropped => "p2p runtime dropped a response"@,
        P2pErrorView::InvalidMultiaddr(reason) => "invalid multiaddr: "@ + reason,
        P2pErrorView::InvalidPeerId(reason) => "invalid peer id: "@ + reason,
        P2pErrorView::MissingPeerId(addr) => "multiaddr must include /p2p/<peer_id>: "@ + addr,
    }
}

impl P2pError {
    /// What this error says.
    pub fn message(&self) -> (res: String)
        ensures
            res@ == p2p_error_text(self@),
    {
        match self {
            P2pError::Noise(reason) => cat2("failed to configure noise transport: ", reason.as_str()),
            P2pError::Listen { addr, source } => cat4(
                "failed to listen on ",
                addr.as_str(),
                ": ",
                source.as_str(),
            ),
            P2pError::RuntimeClosed => "p2p runtime is not running".to_owned(),
            P2pError::ResponseDropped => "p2p runtime dropped a response".to_owned(),
            P2pError::InvalidMultiaddr(reason) => cat2("invalid multiaddr: ", reason.as_str()),
            P2pError::InvalidPeerId(reason) => cat2("invalid peer id: ", reason.as_str()),
            P2pError::MissingPeerId(addr) => cat2(
                "multiaddr must include /p2p/<peer_id>: ",
                addr.as_str(),
            ),
        }
    }
}

/// How a node is set up.
pub struct P2pConfig {
    pub listen_addr: Multiaddr,
    pub bootstrap_peers: Vec<Multiaddr>,
    pub relay_server: bool,
    pub external_addrs: Vec<Multiaddr>,
    pub identity_alias: Option<String>,
}

/// The plain values held by a [`P2pConfig`].
#[verifier::ext_equal]
pub struct P2pConfigView {
    pub listen_addr: MultiaddrView,
    pub bootstrap_peers: Seq<MultiaddrView>,
    pub relay_server: bool,
    pub external_addrs: Seq<MultiaddrView>,
    pub identity_alias: Option<Seq<char>>,
}

impl View for P2pConfig {
    type V = P2pConfigView;

    open spec fn view(&self) -> P2pConfigView {
        P2pConfigView {
            listen_addr: self.listen_addr@,
            bootstrap_peers: self.bootstrap_peers@.map_values(|x: Multiaddr| x@),
            relay_server: self.relay_server,
            external_addrs: self.external_addrs@.map_values(|x: Multiaddr| x@),
            identity_alias: text::opt_text(self.identity_alias),
        }
    }
}

impl P2pConfig {
    /// A node that only listens.
    pub fn lan_only(listen_addr: Multiaddr) -> (res: P2pConfig)
        ensures
            res@ == (P2pConfigView {
                listen_addr: listen_addr@,
                bootstrap_peers: Seq::empty(),
                relay_server: false,
                external_addrs: Seq::empty(),
                identity_alias: None,
            }),
    {
        let res = P2pConfig {
            listen_addr,
            bootstrap_peers: Vec::new(),
            relay_server: false,
            external_addrs: Vec::new(),
            identity_alias: None,
        };
        assert(res@.bootstrap_peers =~= Seq::empty());
        assert(res@.external_addrs =~= Seq::empty());
        res
    }
}

/// What the node tells the application.
#[derive(Debug, Clone, PartialEq, Eq)]
pub enum P2pEvent {
    Log { line: String },
    PeerConnected { peer_id: String },
    PeerDisconnected { peer_id: String },
    InboundEnvelope { peer_id: String, envelope: SignedEncryptedEnvelope },
    InboundInvite { peer_id: String, invite: RoomInvite },
}

/// The plain values held by a [`P2pEvent`].
#[verifier::ext_equal]
pub enum P2pEventView {
    Log { line: Seq<char> },
    PeerConnected { peer_id: Seq<char> },
    PeerDisconnected { peer_id: Seq<char> },
    InboundEnvelope { peer_id: Seq<char>, envelope: SignedEncryptedEnvelopeView },
    InboundInvite { peer_id: Seq<char>, invite: RoomInviteView },
}

impl View for P2pEvent {
    type V = P2pEventView;

    open spec fn view(&self) -> P2pEventView {
        match *self {
            P2pEvent::Log { line } => P2pEventView::Log { line: line@ },
            P2pEvent::PeerConnected { peer_id } => P2pEventView::PeerConnected { peer_id: peer_id@ },
            P2pEvent::PeerDisconnected { peer_id } => P2pEventView::PeerDisconnected { peer_id: peer_id@ },
            P2pEvent::InboundEnvelope { peer_id, envelope } => P2pEventView::InboundEnvelope { peer_id: peer_id@, envelope: envelope@ },
            P2pEvent::InboundInvite { peer_id, invite } => P2pEventView::InboundInvite { peer_id: peer_id@, invite: invite@ },
        }
    }
}

/// What a question to the directory of a bootstrap peer is waiting for.
#[derive(Debug, Clone, PartialEq, Eq)]
pub enum PendingDiscovery {
    Resolve { query: String },
    List,
    Register { alias: Option<String>, expires_at_ms: u64 },
}

/// The plain values held by a [`PendingDiscovery`].
#[verifier::ext_equal]
pub enum PendingDiscoveryView {
    Resolve { query: Seq<char> },
    List,
    Register { alias: Option<Seq<char>>, expires_at_ms: u64 },
}

impl View for PendingDiscovery {
    type V = PendingDiscoveryView;

    open spec fn view(&self) -> PendingDiscoveryView {
        match *self {
            PendingDiscovery::Resolve { query } => PendingDiscoveryView::Resolve { query: query@ },
            PendingDiscovery::List => PendingDiscoveryView::List,
            PendingDiscovery::Register { alias, expires_at_ms } => PendingDiscoveryView::Register { alias: text::opt_text(alias), expires_at_ms: expires_at_ms },
        }
    }
}

/// What is to be done after an event.
pub enum NetEffect {
    /// Tell the application.
    Emit(P2pEvent),
    /// Dial a bootstrap peer.
    DialBootstrap { addr: Multiaddr },
    /// Ask a relay for a reservation by listening on its circuit address.
    ListenOnRelay { peer_id: String, addr: Multiaddr },
    /// Ask the directory of a peer, and remember what for.
    AskDirectory { peer_id: String, request: DiscoveryRequest, pending: PendingDiscovery },
    /// Answer a question to the directory of this node.
    AnswerDirectory(DiscoveryResponse),
    /// Answer a message.
    AnswerMessage(DogelResponse),
    /// Hand a resolution to whoever asked for it.
    Resolved(DiscoveryResolution),
    /// Hand a list of advertisements to whoever asked for it.
    Listed(Vec<PeerAdvertisement>),
    /// Advertise an address of this node.
    AddExternalAddress { addr: Multiaddr },
    /// Let a peer probe whether this node can be reached.
    AddNatServer { peer_id: String, addr: Multiaddr },
}

/// The plain values held by a [`NetEffect`].
#[verifier::ext_equal]
pub enum NetEffectView {
    Emit(P2pEventView),
    DialBootstrap { addr: MultiaddrView },
    ListenOnRelay { peer_id: Seq<char>, addr: MultiaddrView },
    AskDirectory { peer_id: Seq<char>, request: DiscoveryRequestView, pending: PendingDiscoveryView },
    AnswerDirectory(DiscoveryResponseView),
    AnswerMessage(DogelResponseView),
    Resolved(DiscoveryResolutionView),
    Listed(Seq<PeerAdvertisementView>),
    AddExternalAddress { addr: MultiaddrView },
    AddNatServer { peer_id: Seq<char>, addr: MultiaddrView },
}

impl View for NetEffect {
    type V = NetEffectView;

    open spec fn view(&self) -> NetEffectView {
        match *self {
            NetEffect::Emit(x0) => NetEffectView::Emit(x0@),
            NetEffect::DialBootstrap { addr } => NetEffectView::DialBootstrap { addr: addr@ },
            NetEffect::ListenOnRelay { peer_id, addr } => NetEffectView::ListenOnRelay { peer_id: peer_id@, addr: addr@ },
            NetEffect::AskDirectory { peer_id, request, pending } => NetEffectView::AskDirectory { peer_id: peer_id@, request: request@, pending: pending@ },
            NetEffect::AnswerDirectory(x0) => NetEffectView::AnswerDirectory(x0@),
            NetEffect::AnswerMessage(x0) => NetEffectView::AnswerMessage(x0@),
            NetEffect::Resolved(x0) => NetEffectView::Resolved(x0@),
            NetEffect::Listed(x0) => NetEffectView::Listed(x0@.map_values(|x: PeerAdvertisement| x@)),
            NetEffect::AddExternalAddress { addr } => NetEffectView::AddExternalAddress { addr: addr@ },
            NetEffect::AddNatServer { peer_id, addr } => NetEffectView::AddNatServer { peer_id: peer_id@, addr: addr@ },
        }
    }
}

/// A line for the log.
pub open spec fn logged(line: Seq<char>) -> NetEffectView {
    NetEffectView::Emit(P2pEventView::Log { line })
}

/// What is to be done, in order.
pub struct Effects {
    items: Vec<NetEffect>,
}

impl View for Effects {
    type V = Seq<NetEffectView>;

    closed spec fn view(&self) -> Seq<NetEffectView> {
        self.items@.map_values(|x: NetEffect| x@)
    }
}

impl Effects {
    /// Nothing to do.
    pub fn new() -> (res: Effects)
        ensures
            res@ == Seq::<NetEffectView>::empty(),
    {
        let res = Effects { items: Vec::new() };
        assert(res@ =~= Seq::<NetEffectView>::empty());
        res
    }

    /// Append an effect.
    pub fn add(&mut self, effect: NetEffect)
        ensures
            final(self)@ == old(self)@.push(effect@),
    {
        let ghost before = self@;
        self.items.push(effect);
        assert(self@ =~= before.push(effect@));
    }

    /// Append a line for the log.
    pub fn log(&mut self, line: String)
        ensures
            final(self)@ == old(self)@.push(logged(line@)),
    {
        self.add(NetEffect::Emit(P2pEvent::Log { line }));
    }

    /// The effects as a list.
    pub fn into_list(self) -> (res: Vec<NetEffect>)
        ensures
            res@.map_values(|x: NetEffect| x@) == self@,
    {
        self.items
    }
}

/// What the swarm knows when an event comes.
pub struct SwarmFacts {
    pub listeners: Vec<Multiaddr>,
    pub external_addrs: Vec<Multiaddr>,
    pub nat_status: String,
    pub now_ms: u64,
}

/// The plain values held by a [`SwarmFacts`].
#[verifier::ext_equal]
pub struct SwarmFactsView {
    pub listeners: Seq<MultiaddrView>,
    pub external_addrs: Seq<MultiaddrView>,
    pub nat_status: Seq<char>,
    pub now_ms: u64,
}

impl View for SwarmFacts {
    type V = SwarmFactsView;

    open spec fn view(&self) -> SwarmFactsView {
        SwarmFactsView {
            listeners: self.listeners@.map_values(|x: Multiaddr| x@),
            external_addrs: self.external_addrs@.map_values(|x: Multiaddr| x@),
            nat_status: self.nat_status@,
            now_ms: self.now_ms,
        }
    }
}

/// Whether this node can be reached from outside.
pub enum NatStatus {
    Public(Multiaddr),
    Private,
    Unknown,
}

/// The plain values held by a [`NatStatus`].
#[verifier::ext_equal]
pub enum NatStatusView {
    Public(MultiaddrView),
    Private,
    Unknown,
}

impl View for NatStatus {
    type V = NatStatusView;

    open spec fn view(&self) -> NatStatusView {
        match *self {
            NatStatus::Public(x0) => NatStatusView::Public(x0@),
            NatStatus::Private => NatStatusView::Private,
            NatStatus::Unknown => NatStatusView::Unknown,
        }
    }
}

/// The name of a reachability.
pub open spec fn nat_label(status: NatStatusView) -> Seq<char> {
    match status {
        NatStatusView::Public(addr) => "Public("@ + peer::addr_text(addr) + ")"@,
        NatStatusView::Private => "Private"@,
        NatStatusView::Unknown => "Unknown"@,
    }
}

/// Name a reachability.
pub fn nat_status_label(status: &NatStatus) -> (res: String)
    ensures
        res@ == nat_label(status@),
{
    match status {
        NatStatus::Public(addr) => cat3("Public(", addr.to_text().as_str(), ")"),
        NatStatus::Private => "Private".to_owned(),
        NatStatus::Unknown => "Unknown".to_owned(),
    }
}

/// The state of a node.
pub struct NetState {
    pub config: P2pConfig,
    pub local_peer_id: String,
    pub connected: TextSet,
    pub relay_reservations: TextSet,
    pub relay_reservation_errors: Vec<String>,
    pub dcutr_events: Vec<String>,
    pub directory: DiscoveryDirectory,
    pub bootstrap_peer_ids: TextSet,
    pub bootstrap_last_error: Option<String>,
    pub relay_last_error: Option<String>,
    pub nat_last_error: Option<String>,
    pub discovery_registered: bool,
    pub discovery_registered_alias: Option<String>,
    pub discovery_expires_at_ms: Option<u64>,
    pub discovery_last_error: Option<String>,
    pub connection_counts: TextMap<usize>,
}

/// The plain values held by a [`NetState`].
#[verifier::ext_equal]
pub struct NetStateView {
    pub config: P2pConfigView,
    pub local_peer_id: Seq<char>,
    pub connected: TextSetView,
    pub relay_reservations: TextSetView,
    pub relay_reservation_errors: Seq<Seq<char>>,
    pub dcutr_events: Seq<Seq<char>>,
    pub directory: DiscoveryDirectoryView,
    pub bootstrap_peer_ids: TextSetView,
    pub bootstrap_last_error: Option<Seq<char>>,
    pub relay_last_error: Option<Seq<char>>,
    pub nat_last_error: Option<Seq<char>>,
    pub discovery_registered: bool,
    pub discovery_registered_alias: Option<Seq<char>>,
    pub discovery_expires_at_ms: Option<u64>,
    pub discovery_last_error: Option<Seq<char>>,
    pub connection_counts: Map<Seq<char>, usize>,
}

impl View for NetState {
    type V = NetStateView;

    open spec fn view(&self) -> NetStateView {
        NetStateView {
            config: self.config@,
            local_peer_id: self.local_peer_id@,
            connected: self.connected@,
            relay_reservations: self.relay_reservations@,
            relay_reservation_errors: text::texts(self.relay_reservation_errors@),
            dcutr_events: text::texts(self.dcutr_events@),
            directory: self.directory@,
            bootstrap_peer_ids: self.bootstrap_peer_ids@,
            bootstrap_last_error: text::opt_text(self.bootstrap_last_error),
            relay_last_error: text::opt_text(self.relay_last_error),
            nat_last_error: text::opt_text(self.nat_last_error),
            discovery_registered: self.discovery_registered,
            discovery_registered_alias: text::opt_text(self.discovery_registered_alias),
            discovery_expires_at_ms: self.discovery_expires_at_ms,
            discovery_last_error: text::opt_text(self.discovery_last_error),
            connection_counts: self.connection_counts@,
        }
    }
}

/// The peers that a list of addresses names.
pub open spec fn named_peers(addrs: Seq<MultiaddrView>) -> Set<Seq<char>>
    decreases addrs.len(),
{
    if addrs.len() == 0 {
        Set::empty()
    } else {
        match peer::addr_peer(addrs.last()) {
            Some(peer) => named_peers(addrs.drop_last()).insert(peer),
            None => named_peers(addrs.drop_last()),
        }
    }
}

/// The peers that a list of addresses names.
pub fn bootstrap_peer_ids_from_addrs(addrs: &Vec<Multiaddr>) -> (res: TextSet)
    ensures
        res@ == named_peers(peer::addr_views(addrs@)),
{
    let ghost all = peer::addr_views(addrs@);
    let mut res = TextSet::new();
    let mut i: usize = 0;
    while i < addrs.len()
        invariant
            i <= addrs@.len(),
            all == peer::addr_views(addrs@),
            res@ == named_peers(all.take(i as int)),
        decreases addrs.len() - i,
    {
        assert(all.take(i + 1).drop_last() =~= all.take(i as int));
        assert(all.take(i + 1).last() == addrs@[i as int]@);
        if let Some(peer) = addrs[i].peer() {
            let _ = res.insert(peer.as_str());
        }
        i = i + 1;
    }
    assert(all.take(i as int) =~= all);
    res
}

/// The state of a node before any event.
pub open spec fn fresh_node(config: P2pConfigView, local_peer_id: Seq<char>) -> NetStateView {
    NetStateView {
        config,
        local_peer_id,
        connected: Set::empty(),
        relay_reservations: Set::empty(),
        relay_reservation_errors: Seq::empty(),
        dcutr_events: Seq::empty(),
        directory: discovery::empty_directory(),
        bootstrap_peer_ids: named_peers(config.bootstrap_peers),
        bootstrap_last_error: None,
        relay_last_error: None,
        nat_last_error: None,
        discovery_registered: false,
        discovery_registered_alias: config.identity_alias,
        discovery_expires_at_ms: None,
        discovery_last_error: None,
        connection_counts: Map::empty(),
    }
}

impl NetState {
    /// The state of a node before any event.
    pub fn new(config: P2pConfig, local_peer_id: &PeerId) -> (res: NetState)
        ensures
            res@ == fresh_node(config@, local_peer_id@),
    {
        let bootstrap_peer_ids = bootstrap_peer_ids_from_addrs(&config.bootstrap_peers);
        let alias = copy_opt(&config.identity_alias);
        let res = NetState {
            config,
            local_peer_id: local_peer_id.as_text().to_owned(),
            connected: TextSet::new(),
            relay_reservations: TextSet::new(),
            relay_reservation_errors: Vec::new(),
            dcutr_events: Vec::new(),
            directory: DiscoveryDirectory::new(),
            bootstrap_peer_ids,
            bootstrap_last_error: None,
            relay_last_error: None,
            nat_last_error: None,
            discovery_registered: false,
            discovery_registered_alias: alias,
            discovery_expires_at_ms: None,
            discovery_last_error: None,
            connection_counts: TextMap::new(),
        };
        assert(res@.relay_reservation_errors =~= Seq::empty());
        assert(res@.dcutr_events =~= Seq::empty());
        res
    }
}

/// The addresses under which this node can be reached, as they are written.
pub open spec fn own_addrs(addrs: Seq<MultiaddrView>, local: Seq<char>) -> Seq<Seq<char>> {
    addrs.map_values(|addr: MultiaddrView| peer::addr_text(peer::addr_with_peer(addr, local)))
}

/// The relayed address of this node over one bootstrap address.
pub open spec fn relayed_addr(addr: MultiaddrView, local: Seq<char>) -> MultiaddrView {
    peer::addr_with_peer(peer::addr_with_circuit(addr), local)
}

/// The relayed addresses of this node over the relays that granted a reservation.
pub open spec fn relayed(
    bootstrap: Seq<MultiaddrView>,
    reservations: Set<Seq<char>>,
    local: Seq<char>,
) -> Seq<MultiaddrView>
    decreases bootstrap.len(),
{
    if bootstrap.len() == 0 {
        Seq::empty()
    } else {
        let rest = relayed(bootstrap.drop_last(), reservations, local);
        match peer::addr_peer(bootstrap.last()) {
            Some(peer) => if reservations.contains(peer) {
                rest.push(relayed_addr(bootstrap.last(), local))
            } else {
                rest
            },
            None => rest,
        }
    }
}

/// The relayed addresses of this node.
pub fn build_relayed_addrs(bootstrap: &Vec<Multiaddr>, reservations: &TextSet, local: &str) -> (res:
    Vec<Multiaddr>)
    ensures
        peer::addr_views(res@) == relayed(peer::addr_views(bootstrap@), reservations@, local@),
{
    let ghost all = peer::addr_views(bootstrap@);
    let mut res: Vec<Multiaddr> = Vec::new();
    let mut i: usize = 0;
    assert(peer::addr_views(res@) =~= relayed(all.take(0), reservations@, local@));
    while i < bootstrap.len()
        invariant
            i <= bootstrap@.len(),
            all == peer::addr_views(bootstrap@),
            peer::addr_views(res@) == relayed(all.take(i as int), reservations@, local@),
        decreases bootstrap.len() - i,
    {
        let ghost before = res@;
        assert(all.take(i + 1).drop_last() =~= all.take(i as int));
        assert(all.take(i + 1).last() == bootstrap@[i as int]@);
        let reserved = match bootstrap[i].peer() {
            Some(peer) => reservations.contains(peer.as_str()),
            None => false,
        };
        if reserved {
            let addr = bootstrap[i].with_circuit().with_peer(local);
            res.push(addr);
            assert(peer::addr_views(res@) =~= peer::addr_views(before).push(addr@));
        }
        i = i + 1;
    }
    assert(all.take(i as int) =~= all);
    res
}

/// Sort addresses and remove repetitions.
pub fn dedup_and_sort_addrs(addrs: &Vec<String>) -> (res: Vec<String>)
    ensures
        text::texts(res@) == table::sorted_texts(text::texts(addrs@).to_set()),
{
    TextSet::from_list(addrs).to_list()
}

/// Write the addresses under which this node can be reached.
pub fn write_own_addrs(addrs: &Vec<Multiaddr>, local: &str) -> (res: Vec<String>)
    ensures
        text::texts(res@) == own_addrs(peer::addr_views(addrs@), local@),
{
    let mut res: Vec<String> = Vec::new();
    let ghost want = own_addrs(peer::addr_views(addrs@), local@);
    let mut i: usize = 0;
    while i < addrs.len()
        invariant
            i <= addrs@.len(),
            want == own_addrs(peer::addr_views(addrs@), local@),
            res@.len() == i,
            forall|j: int| 0 <= j < i ==> (#[trigger] res@[j])@ == want[j],
        decreases addrs.len() - i,
    {
        res.push(addrs[i].with_peer(local).to_text());
        i = i + 1;
    }
    assert(text::texts(res@) =~= want);
    res
}

/// Write addresses.
pub fn write_addrs(addrs: &Vec<Multiaddr>) -> (res: Vec<String>)
    ensures
        text::texts(res@) == peer::addr_views(addrs@).map_values(|addr: MultiaddrView| peer::addr_text(addr)),
{
    let mut res: Vec<String> = Vec::new();
    let ghost want = peer::addr_views(addrs@).map_values(|addr: MultiaddrView| peer::addr_text(addr));
    let mut i: usize = 0;
    while i < addrs.len()
        invariant
            i <= addrs@.len(),
            want == peer::addr_views(addrs@).map_values(|addr: MultiaddrView| peer::addr_text(addr)),
            res@.len() == i,
            forall|j: int| 0 <= j < i ==> (#[trigger] res@[j])@ == want[j],
        decreases addrs.len() - i,
    {
        res.push(addrs[i].to_text());
        i = i + 1;
    }
    assert(text::texts(res@) =~= want);
    res
}

/// How long an advertisement lasts.
pub const ADVERT_TTL_MS: u64 = 120_000;

/// The advertisement of this node.
pub open spec fn own_advert(net: NetStateView, facts: SwarmFactsView) -> PeerAdvertisementView {
    PeerAdvertisementView {
        peer_id: net.local_peer_id,
        alias: net.config.identity_alias,
        direct_addrs: table::sorted_texts(
            (own_addrs(facts.listeners, net.local_peer_id) + own_addrs(
                facts.external_addrs,
                net.local_peer_id,
            )).to_set(),
        ),
        relayed_addrs: table::sorted_texts(
            relayed(
                net.config.bootstrap_peers,
                net.relay_reservations,
                net.local_peer_id,
            ).map_values(|addr: MultiaddrView| peer::addr_text(addr)).to_set(),
        ),
        nat_status: facts.nat_status,
        observed_at_ms: facts.now_ms,
        expires_at_ms: (facts.now_ms + ADVERT_TTL_MS) as u64,
    }
}

/// The end of an advertisement can be told.
pub open spec fn clock_fits(facts: SwarmFactsView) -> bool {
    facts.now_ms <= u64::MAX - ADVERT_TTL_MS
}

/// Append the texts of a list to another.
pub fn append_strings(into: &mut Vec<String>, from: &Vec<String>)
    ensures
        text::texts(final(into)@) == text::texts(old(into)@) + text::texts(from@),
{
    let ghost start = text::texts(into@);
    let mut i: usize = 0;
    assert(start + text::texts(from@).take(0) =~= start);
    while i < from.len()
        invariant
            i <= from@.len(),
            start == text::texts(old(into)@),
            text::texts(into@) == start + text::texts(from@).take(i as int),
        decreases from.len() - i,
    {
        let ghost before = into@;
        into.push(from[i].clone());
        i = i + 1;
        proof {
            assert(text::texts(into@) =~= text::texts(before).push(text::texts(from@)[i - 1]));
            assert(start + text::texts(from@).take(i as int) =~= (start + text::texts(from@).take(i - 1)).push(
                text::texts(from@)[i - 1],
            ));
        }
    }
    assert(text::texts(from@).take(i as int) =~= text::texts(from@));
}

/// Make the advertisement of this node.
pub fn build_local_peer_advertisement(net: &NetState, facts: &SwarmFacts) -> (res:
    PeerAdvertisement)
    requires
        clock_fits(facts@),
    ensures
        res@ == own_advert(net@, facts@),
{
    let local = net.local_peer_id.as_str();
    let mut direct = write_own_addrs(&facts.listeners, local);
    let external = write_own_addrs(&facts.external_addrs, local);
    append_strings(&mut direct, &external);
    let relayed = build_relayed_addrs(
        &net.config.bootstrap_peers,
        &net.relay_reservations,
        local,
    );
    let relayed = write_addrs(&relayed);
    PeerAdvertisement {
        peer_id: local.to_owned(),
        alias: copy_opt(&net.config.identity_alias),
        direct_addrs: dedup_and_sort_addrs(&direct),
        relayed_addrs: dedup_and_sort_addrs(&relayed),
        nat_status: facts.nat_status.clone(),
        observed_at_ms: facts.now_ms,
        expires_at_ms: facts.now_ms + ADVERT_TTL_MS,
    }
}

/// The members of one set that are in another, in ascending order.
pub open spec fn common(a: Set<Seq<char>>, b: Set<Seq<char>>) -> Seq<Seq<char>> {
    table::sorted_texts(a).filter(|peer: Seq<char>| b.contains(peer))
}

/// The connected bootstrap peers in ascending order.
pub fn connected_bootstrap_peers(connected: &TextSet, bootstrap: &TextSet) -> (res: Vec<String>)
    ensures
        text::texts(res@) == common(connected@, bootstrap@),
{
    let peers = connected.to_list();
    let ghost all = text::texts(peers@);
    let ghost wanted = |peer: Seq<char>| bootstrap@.contains(peer);
    let mut res: Vec<String> = Vec::new();
    let mut i: usize = 0;
    proof {
        reveal(Seq::filter);
        assert(text::texts(res@) =~= all.take(0).filter(wanted));
    }
    while i < peers.len()
        invariant
            i <= peers@.len(),
            all == text::texts(peers@),
            wanted == (|peer: Seq<char>| bootstrap@.contains(peer)),
            text::texts(res@) == all.take(i as int).filter(wanted),
        decreases peers.len() - i,
    {
        let ghost before = res@;
        let peer = peers[i].as_str();
        proof {
            assert(all.take(i + 1).drop_last() =~= all.take(i as int));
            assert(all.take(i + 1).last() == peer@);
            reveal(Seq::filter);
        }
        if bootstrap.contains(peer) {
            res.push(peer.to_owned());
            assert(text::texts(res@) =~= text::texts(before).push(peer@));
        }
        i = i + 1;
    }
    assert(all.take(i as int) =~= all);
    res
}

/// What is done to announce an advertisement to a list of bootstrap peers.
pub open spec fn announcements(
    targets: Seq<Seq<char>>,
    advert: PeerAdvertisementView,
    now_ms: u64,
) -> Seq<NetEffectView>
    decreases targets.len(),
{
    if targets.len() == 0 {
        Seq::empty()
    } else {
        announcements(targets.drop_last(), advert, now_ms).push(
            NetEffectView::AskDirectory {
                peer_id: targets.last(),
                request: DiscoveryRequestView::RegisterPeer(advert),
                pending: PendingDiscoveryView::Register {
                    alias: advert.alias,
                    expires_at_ms: advert.expires_at_ms,
                },
            },
        ).push(
            logged(
                "[p2p] discovery registration sent to "@ + targets.last() + " at "@ + text::decimal(
                    now_ms as nat,
                ),
            ),
        )
    }
}

/// The local half of publishing: a bootstrap node registers itself in its own directory.
pub open spec fn published_locally(net: NetStateView, advert: PeerAdvertisementView) -> (
    NetStateView,
    Seq<NetEffectView>,
) {
    if !net.config.relay_server {
        (net, Seq::empty())
    } else {
        match discovery::register_error(net.directory, advert) {
            None => (
                NetStateView {
                    directory: discovery::registered(net.directory, advert),
                    discovery_registered: true,
                    discovery_registered_alias: advert.alias,
                    discovery_expires_at_ms: Some(advert.expires_at_ms),
                    discovery_last_error: None,
                    ..net
                },
                seq![
                    logged("[p2p] discovery directory updated locally: "@ + advert.peer_id),
                ],
            ),
            Some(e) => (
                NetStateView { discovery_last_error: Some(e), ..net },
                seq![logged("[p2p] discovery directory update failed: "@ + e)],
            ),
        }
    }
}

/// Publishing: the advertisement of this node goes into its own directory, if it keeps one, and
/// to every connected bootstrap peer.
pub open spec fn published(net: NetStateView, facts: SwarmFactsView) -> (
    NetStateView,
    Seq<NetEffectView>,
) {
    let advert = own_advert(net, facts);
    let (here, done) = published_locally(net, advert);
    let targets = common(net.connected, net.bootstrap_peer_ids);
    if targets.len() == 0 {
        if net.config.relay_server {
            (here, done)
        } else {
            (
                NetStateView {
                    discovery_registered: false,
                    discovery_last_error: Some("no bootstrap peers connected"@),
                    ..here
                },
                done,
            )
        }
    } else {
        (
            NetStateView {
                discovery_expires_at_ms: Some(advert.expires_at_ms),
                discovery_registered_alias: advert.alias,
                discovery_last_error: None,
                ..here
            },
            done + announcements(targets, advert, facts.now_ms),
        )
    }
}

impl NetState {
    /// Publish the advertisement of this node.
    pub fn publish_discovery_advertisement(&mut self, facts: &SwarmFacts, effects: &mut Effects)
        requires
            clock_fits(facts@),
        ensures
            final(self)@ == published(old(self)@, facts@).0,
            final(effects)@ == old(effects)@ + published(old(self)@, facts@).1,
    {
        let ghost net = self@;
        let ghost start = effects@;
        let advert = build_local_peer_advertisement(self, facts);
        let ghost local = published_locally(net, advert@);
        if self.config.relay_server {
            match self.directory.register(advert.duplicate()) {
                Ok(_) => {
                    self.discovery_registered = true;
                    self.discovery_registered_alias = copy_opt(&advert.alias);
                    self.discovery_expires_at_ms = Some(advert.expires_at_ms);
                    self.discovery_last_error = None;
                    effects.log(
                        cat2(
                            "[p2p] discovery directory updated locally: ",
                            advert.peer_id.as_str(),
                        ),
                    );
                },
                Err(e) => {
                    effects.log(cat2("[p2p] discovery directory update failed: ", e.as_str()));
                    self.discovery_last_error = Some(e);
                },
            }
        }
        proof {
            assert(self@ =~= local.0);
            assert(effects@ =~= start + local.1);
        }
        let targets = connected_bootstrap_peers(&self.connected, &self.bootstrap_peer_ids);
        let ghost all = text::texts(targets@);
        if targets.len() == 0 {
            if !self.config.relay_server {
                self.discovery_registered = false;
                self.discovery_last_error = Some("no bootstrap peers connected".to_owned());
            }
            assert(self@ =~= published(net, facts@).0);
            return;
        }
        let ghost before = effects@;
        let mut i: usize = 0;
        assert(before + announcements(all.take(0), advert@, facts@.now_ms) =~= before);
        while i < targets.len()
            invariant
                i <= targets@.len(),
                all == text::texts(targets@),
                self@ == local.0,
                effects@ == before + announcements(all.take(i as int), advert@, facts@.now_ms),
            decreases targets.len() - i,
        {
            let ghost current = effects@;
            let peer = targets[i].as_str();
            effects.add(
                NetEffect::AskDirectory {
                    peer_id: peer.to_owned(),
                    request: DiscoveryRequest::RegisterPeer(advert.duplicate()),
                    pending: PendingDiscovery::Register {
                        alias: copy_opt(&advert.alias),
                        expires_at_ms: advert.expires_at_ms,
                    },
                },
            );
            effects.log(
                cat4(
                    "[p2p] discovery registration sent to ",
                    peer,
                    " at ",
                    decimal_text(facts.now_ms).as_str(),
                ),
            );
            i = i + 1;
            proof {
                assert(all.take(i as int).drop_last() =~= all.take(i - 1));
                assert(all.take(i as int).last() == peer@);
                assert(effects@ =~= before + announcements(
                    all.take(i as int),
                    advert@,
                    facts@.now_ms,
                ));
            }
        }
        assert(all.take(i as int) =~= all);
        self.discovery_expires_at_ms = Some(advert.expires_at_ms);
        self.discovery_registered_alias = copy_opt(&advert.alias);
        self.discovery_last_error = None;
        proof {
            assert(self@ =~= published(net, facts@).0);
            assert(effects@ =~= start + published(net, facts@).1);
        }
    }
}

/// The bootstrap peers are exactly those that the addresses name.
pub proof fn law_every_named_peer_counts(addrs: Seq<MultiaddrView>, peer: Seq<char>)
    ensures
        named_peers(addrs).contains(peer) <==> exists|i: int|
            0 <= i < addrs.len() && peer::addr_peer(#[trigger] addrs[i]) == Some(peer),
    decreases addrs.len(),
{
    if addrs.len() > 0 {
        let init = addrs.drop_last();
        law_every_named_peer_counts(init, peer);
        if exists|i: int| 0 <= i < init.len() && peer::addr_peer(#[trigger] init[i]) == Some(peer) {
            let i = choose|i: int|
                0 <= i < init.len() && peer::addr_peer(#[trigger] init[i]) == Some(peer);
            assert(addrs[i] == init[i]);
        }
        if exists|i: int| 0 <= i < addrs.len() && peer::addr_peer(#[trigger] addrs[i]) == Some(peer) {
            let i = choose|i: int|
                0 <= i < addrs.len() && peer::addr_peer(#[trigger] addrs[i]) == Some(peer);
            if i < init.len() {
                assert(addrs[i] == init[i]);
            } else {
                assert(addrs[i] == addrs.last());
            }
        }
        assert(addrs[addrs.len() - 1] == addrs.last());
    }
}

/// Each relay that granted a reservation gives one more address of this node, which leads over that
/// relay; a relay that granted none gives no address.
pub proof fn law_reservations_give_addresses(
    bootstrap: Seq<MultiaddrView>,
    addr: MultiaddrView,
    reservations: Set<Seq<char>>,
    local: Seq<char>,
)
    ensures
        relayed(Seq::empty(), reservations, local).len() == 0,
        ({
            let before = relayed(bootstrap, reservations, local);
            let after = relayed(bootstrap.push(addr), reservations, local);
            let granted = peer::addr_peer(addr) is Some && reservations.contains(peer::addr_peer(addr)->0);
            &&& !granted ==> after == before
            &&& granted ==> {
                &&& after.len() == before.len() + 1
                &&& before.is_prefix_of(after)
                &&& peer::addr_text(after.last()) == peer::addr_text(addr) + "/p2p-circuit"@ + ("/p2p/"@
                    + local)
                &&& peer::addr_peer(after.last()) == peer::addr_peer(addr)
            }
        }),
{
    assert(bootstrap.push(addr).drop_last() =~= bootstrap);
    let before = relayed(bootstrap, reservations, local);
    let after = relayed(bootstrap.push(addr), reservations, local);
    peer::law_with_circuit_text(addr);
    peer::law_with_peer_text(peer::addr_with_circuit(addr), local);
    if after != before {
        assert(after.subrange(0, before.len() as int) =~= before);
    }
}

/// The advertisement of this node names it with its alias, holds exactly the addresses at which it
/// listens or is known outside, each followed by its own id, and expires after two minutes.
pub proof fn law_the_advertisement_tells_where_to_find_this_node(
    net: NetStateView,
    facts: SwarmFactsView,
    text: Seq<char>,
)
    requires
        clock_fits(facts),
    ensures
        ({
            let advert = own_advert(net, facts);
            let all = facts.listeners + facts.external_addrs;
            &&& advert.peer_id == net.local_peer_id
            &&& advert.alias == net.config.identity_alias
            &&& advert.nat_status == facts.nat_status
            &&& advert.observed_at_ms == facts.now_ms
            &&& advert.expires_at_ms == facts.now_ms + 120_000
            &&& advert.direct_addrs.contains(text) <==> exists|i: int|
                0 <= i < all.len() && text == peer::addr_text(#[trigger] all[i]) + ("/p2p/"@
                    + net.local_peer_id)
            &&& advert.relayed_addrs.contains(text) <==> {
                let ways = relayed(
                    net.config.bootstrap_peers,
                    net.relay_reservations,
                    net.local_peer_id,
                );
                exists|i: int| 0 <= i < ways.len() && text == peer::addr_text(#[trigger] ways[i])
            }
            &&& table::ascending(advert.direct_addrs) && table::ascending(advert.relayed_addrs)
        }),
{
    let local = net.local_peer_id;
    let all = facts.listeners + facts.external_addrs;
    let own = own_addrs(facts.listeners, local) + own_addrs(facts.external_addrs, local);
    table::lemma_sorting(own);
    assert(table::sorted_texts(own.to_set()).to_set().contains(text) <==> own.to_set().contains(text));
    assert(own.len() == all.len());
    assert forall|i: int| 0 <= i < all.len() implies #[trigger] own[i] == peer::addr_text(all[i])
        + ("/p2p/"@ + local) by {
        peer::law_with_peer_text(all[i], local);
    }
    if own.contains(text) {
        let i = choose|i: int| 0 <= i < own.len() && own[i] == text;
        assert(text == peer::addr_text(all[i]) + ("/p2p/"@ + local));
    }
    if exists|i: int|
        0 <= i < all.len() && text == peer::addr_text(#[trigger] all[i]) + ("/p2p/"@ + local) {
        let i = choose|i: int|
            0 <= i < all.len() && text == peer::addr_text(#[trigger] all[i]) + ("/p2p/"@ + local);
        assert(own[i] == text);
    }
    let ways = relayed(net.config.bootstrap_peers, net.relay_reservations, local);
    let over = ways.map_values(|addr: MultiaddrView| peer::addr_text(addr));
    table::lemma_sorting(over);
    assert(table::sorted_texts(over.to_set()).to_set().contains(text) <==> over.to_set().contains(text));
    if over.contains(text) {
        let i = choose|i: int| 0 <= i < over.len() && over[i] == text;
        assert(text == peer::addr_text(ways[i]));
    }
    if exists|i: int| 0 <= i < ways.len() && text == peer::addr_text(#[trigger] ways[i]) {
        let i = choose|i: int| 0 <= i < ways.len() && text == peer::addr_text(#[trigger] ways[i]);
        assert(over[i] == text);
    }
}

/// The members of both sets are chosen.
pub proof fn lemma_common(a: Set<Seq<char>>, b: Set<Seq<char>>, peer: Seq<char>)
    requires
        a.finite(),
    ensures
        common(a, b).contains(peer) <==> a.contains(peer) && b.contains(peer),
{
    let all = table::sorted_texts(a);
    table::lemma_sorting_set(a);
    assert(all.to_set().contains(peer) <==> all.contains(peer));
    assert forall|wanted: spec_fn(Seq<char>) -> bool|
        (#[trigger] all.filter(wanted)).contains(peer) <==> all.contains(peer) && wanted(
            peer,
        ) by {
        table::lemma_chosen(all, wanted, peer);
    }
}

/// The request by which an advertisement is registered with a bootstrap peer.
pub open spec fn registration(peer: Seq<char>, advert: PeerAdvertisementView) -> NetEffectView {
    NetEffectView::AskDirectory {
        peer_id: peer,
        request: DiscoveryRequestView::RegisterPeer(advert),
        pending: PendingDiscoveryView::Register {
            alias: advert.alias,
            expires_at_ms: advert.expires_at_ms,
        },
    }
}

/// Each of a list of peers is asked once to register the advertisement, and nobody else is asked
/// anything.
pub proof fn law_announcements_reach_every_target(
    targets: Seq<Seq<char>>,
    advert: PeerAdvertisementView,
    now_ms: u64,
    peer: Seq<char>,
)
    ensures
        ({
            let done = announcements(targets, advert, now_ms);
            &&& done.contains(registration(peer, advert)) <==> targets.contains(peer)
            &&& forall|i: int|
                0 <= i < done.len() && (#[trigger] done[i]) is AskDirectory ==> exists|k: int|
                    0 <= k < targets.len() && done[i] == registration(
                        #[trigger] targets[k],
                        advert,
                    )
            &&& done.len() == 2 * targets.len()
        }),
    decreases targets.len(),
{
    if targets.len() > 0 {
        let init = targets.drop_last();
        let last = targets.last();
        law_announcements_reach_every_target(init, advert, now_ms, peer);
        let before = announcements(init, advert, now_ms);
        let done = announcements(targets, advert, now_ms);
        let n = before.len() as int;
        assert(done[n] == registration(last, advert));
        assert(!(done[n + 1] is AskDirectory));
        assert(targets[targets.len() - 1] == last);
        assert forall|i: int| 0 <= i < n implies #[trigger] done[i] == before[i] by {}
        if targets.contains(peer) {
            let k = choose|k: int| 0 <= k < targets.len() && targets[k] == peer;
            if k < init.len() {
                assert(init[k] == peer);
                let i = choose|i: int| 0 <= i < n && before[i] == registration(peer, advert);
                assert(done[i] == registration(peer, advert));
            } else {
                assert(done[n] == registration(peer, advert));
            }
        }
        if done.contains(registration(peer, advert)) {
            let i = choose|i: int| 0 <= i < done.len() && done[i] == registration(peer, advert);
            if i < n {
                assert(before[i] == registration(peer, advert));
                let k = choose|k: int| 0 <= k < init.len() && init[k] == peer;
                assert(targets[k] == peer);
            } else {
                assert(i == n);
            }
        }
        assert forall|i: int| 0 <= i < done.len() && (#[trigger] done[i]) is AskDirectory implies
            exists|k: int|
            0 <= k < targets.len() && done[i] == registration(#[trigger] targets[k], advert) by {
            if i < n {
                assert(before[i] is AskDirectory);
                let k = choose|k: int|
                    0 <= k < init.len() && before[i] == registration(#[trigger] init[k], advert);
                assert(done[i] == registration(targets[k], advert));
            } else {
                assert(i == n);
                assert(done[i] == registration(targets[targets.len() - 1], advert));
            }
        }
    }
}

/// Publishing asks exactly the connected bootstrap peers to register the advertisement of this
/// node. A bootstrap node files it in its own directory too, unless it is refused there. Where
/// nobody can be asked and no directory is kept, that is noted as an error.
pub proof fn law_publishing_reaches_the_bootstrap_peers(
    net: NetStateView,
    facts: SwarmFactsView,
    peer: Seq<char>,
)
    requires
        net.connected.finite(),
    ensures
        ({
            let (after, done) = published(net, facts);
            let advert = own_advert(net, facts);
            &&& done.contains(registration(peer, advert)) <==> net.connected.contains(peer)
                && net.bootstrap_peer_ids.contains(peer)
            &&& forall|i: int|
                0 <= i < done.len() && (#[trigger] done[i]) is AskDirectory ==> {
                    let target = done[i]->AskDirectory_peer_id;
                    &&& done[i] == registration(target, advert)
                    &&& net.connected.contains(target)
                    &&& net.bootstrap_peer_ids.contains(target)
                }
            &&& net.config.relay_server && discovery::register_error(net.directory, advert) is None
                ==> after.directory.by_peer_id.contains_key(net.local_peer_id)
                && after.directory.by_peer_id[net.local_peer_id] == advert
                && after.discovery_registered
            &&& !net.config.relay_server && !net.connected.contains(peer)
                && net.connected.is_empty() ==> !after.discovery_registered
                && after.discovery_last_error is Some
            &&& after.connected == net.connected
            &&& after.config == net.config
            &&& after.local_peer_id == net.local_peer_id
            &&& after.relay_reservations == net.relay_reservations
            &&& after.bootstrap_peer_ids == net.bootstrap_peer_ids
            &&& after.connection_counts == net.connection_counts
        }),
{
    let advert = own_advert(net, facts);
    let (here, local) = published_locally(net, advert);
    let targets = common(net.connected, net.bootstrap_peer_ids);
    let (after, done) = published(net, facts);
    lemma_common(net.connected, net.bootstrap_peer_ids, peer);
    law_announcements_reach_every_target(targets, advert, facts.now_ms, peer);
    let told = announcements(targets, advert, facts.now_ms);
    assert forall|i: int| 0 <= i < local.len() implies !((#[trigger] local[i]) is AskDirectory) by {}
    if targets.len() == 0 {
        assert(done == local);
        if done.contains(registration(peer, advert)) {
            let i = choose|i: int| 0 <= i < done.len() && done[i] == registration(peer, advert);
            assert(local[i] is AskDirectory);
        }
        assert(!targets.contains(peer));
    } else {
        assert(done == local + told);
        if told.contains(registration(peer, advert)) {
            let i = choose|i: int| 0 <= i < told.len() && told[i] == registration(peer, advert);
            assert(done[local.len() + i] == registration(peer, advert));
        }
        if done.contains(registration(peer, advert)) {
            let i = choose|i: int| 0 <= i < done.len() && done[i] == registration(peer, advert);
            if i < local.len() {
                assert(local[i] is AskDirectory);
            }
            assert(told[i - local.len()] == registration(peer, advert));
        }
        if net.connected.is_empty() {
            lemma_common(net.connected, net.bootstrap_peer_ids, targets[0]);
            assert(targets.contains(targets[0]));
        }
    }
    assert forall|i: int| 0 <= i < done.len() && (#[trigger] done[i]) is AskDirectory implies {
        let target = done[i]->AskDirectory_peer_id;
        &&& done[i] == registration(target, advert)
        &&& net.connected.contains(target)
        &&& net.bootstrap_peer_ids.contains(target)
    } by {
        if i < local.len() {
            assert(local[i] is AskDirectory);
        } else {
            assert(done[i] == told[i - local.len()]);
            let k = choose|k: int|
                0 <= k < targets.len() && told[i - local.len()] == registration(
                    #[trigger] targets[k],
                    advert,
                );
            assert(targets.contains(targets[k]));
            lemma_common(net.connected, net.bootstrap_peer_ids, targets[k]);
        }
    }
}

/// What a network error says ends with its reason or with the address that is wrong.
pub proof fn law_network_error_texts_name_their_cause(text: Seq<char>, addr: Seq<char>)
    ensures
        text.is_suffix_of(p2p_error_text(P2pErrorView::Noise(text))),
        text.is_suffix_of(p2p_error_text(P2pErrorView::Listen { addr, source: text })),
        text.is_suffix_of(p2p_error_text(P2pErrorView::InvalidMultiaddr(text))),
        text.is_suffix_of(p2p_error_text(P2pErrorView::InvalidPeerId(text))),
        addr.is_suffix_of(p2p_error_text(P2pErrorView::MissingPeerId(addr))),
{
    crypto::lemma_error_end("failed to configure noise transport: "@, text);
    crypto::lemma_error_end("failed to listen on "@ + addr + ": "@, text);
    crypto::lemma_error_end("invalid multiaddr: "@, text);
    crypto::lemma_error_end("invalid peer id: "@, text);
    crypto::lemma_error_end("multiaddr must include /p2p/<peer_id>: "@, addr);
}

/// The name of a reachability tells the public address, and differs for a private and an unknown
/// one; only a public one says so.
pub proof fn law_reachability_is_named(addr: MultiaddrView)
    ensures
        nat_label(NatStatusView::Public(addr)) == "Public("@ + peer::addr_text(addr) + ")"@,
        nat_label(NatStatusView::Private) == "Private"@,
        nat_label(NatStatusView::Unknown) == "Unknown"@,
{
}

} // verus!
