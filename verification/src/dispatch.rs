//! What each command does.
//!
//! A command that needs the network, a file or the terminal says what it needs. The answer to
//! that goes back in, and the reply comes out.

use crate::command::PolicyCommandView;
use crate::command::TrustCommand;
use crate::command::TrustCommandView;
use crate::command::UserCommand;
use crate::command::UserCommandView;
use crate::ids;
use crate::invite;
use crate::invite::accept_invite;
use crate::invite::invite_peer;
use crate::invite::InviteBookView;
use crate::invite::InviteStep;
use crate::invite::InviteStepView;
use crate::invite::list_invites;
use crate::invite::reject_invite;
use crate::message;
use crate::message::draft_message;
use crate::message::message_targets;
use crate::message::no_targets_reply;
use crate::network;
use crate::network::P2pError;
use crate::network::P2pErrorView;
use crate::peer;
use crate::peer::Multiaddr;
use crate::peer::MultiaddrView;
use crate::peer::PeerId;
use crate::policy;
use crate::policy::enforce_message_policy;
use crate::policy::handle_policy_command;
use crate::primitives;
use crate::protocol::PlainMessage;
use crate::protocol::PlainMessageView;
use crate::protocol::RoomInvite;
use crate::protocol::RoomInviteView;
use crate::reply;
use crate::reply::no_identity_reply;
use crate::reply::no_room_reply;
use crate::reply::no_runtime_reply;
use crate::reply::not_connected_reply;
use crate::reply::Reply;
use crate::reply::ReplyView;
use crate::reply::room_missing_text;
use crate::report;
use crate::report::peers_report;
use crate::room;
use crate::room::add_room_peer;
use crate::room::create_room;
use crate::room::direct_room;
use crate::room::HistorySwitch;
use crate::room::HistorySwitchView;
use crate::room::join_room;
use crate::room::list_room_peers;
use crate::room::list_rooms;
use crate::room::RoomSession;
use crate::room::RoomSessionView;
use crate::room::switch_history;
use crate::route::SearchUse;
use crate::session::AppState;
use crate::session::AppStateView;
use crate::storage::UnlockedIdentityView;
use crate::swarm::dialed_peer;
use crate::table::TextSet;
use crate::text;
use crate::text::bool_text;
use crate::text::cat2;
use crate::text::Lines;
use crate::trust;
use crate::trust::observed_for_pin;
use crate::trust::ObservedPeer;
use crate::trust::ObservedPeerView;
use crate::trust::require_peer_id;
use vstd::prelude::*;

verus! {

/// What the state of the network is wanted for.
#[derive(Debug, Clone, Copy, PartialEq, Eq)]
pub enum DiagnosisUse {
    Whoami,
    Status,
    Doctor,
}

/// What the list of connected peers is wanted for.
pub enum PeersUse {
    List,
    Direct { remote: PeerId, secret: String, ephemeral: bool },
    AddPeer { peer: PeerId },
    RoomPeers,
    Send { text: String },
    Invite { peer: PeerId },
}

/// The plain values held by a [`PeersUse`].
#[verifier::ext_equal]
pub enum PeersUseView {
    List,
    Direct { remote: Seq<char>, secret: Seq<char>, ephemeral: bool },
    AddPeer { peer: Seq<char> },
    RoomPeers,
    Send { text: Seq<char> },
    Invite { peer: Seq<char> },
}

impl View for PeersUse {
    type V = PeersUseView;

    open spec fn view(&self) -> PeersUseView {
        match *self {
            PeersUse::List => PeersUseView::List,
            PeersUse::Direct { remote, secret, ephemeral } => PeersUseView::Direct { remote: remote@, secret: secret@, ephemeral: ephemeral },
            PeersUse::AddPeer { peer } => PeersUseView::AddPeer { peer: peer@ },
            PeersUse::RoomPeers => PeersUseView::RoomPeers,
            PeersUse::Send { text } => PeersUseView::Send { text: text@ },
            PeersUse::Invite { peer } => PeersUseView::Invite { peer: peer@ },
        }
    }
}

/// What is to be done for a command.
pub enum Dispatch {
    /// It is answered.
    Done(Reply),
    /// Ask for a new password twice.
    AskNewPassword { alias: String },
    /// Ask for a password.
    AskPassword { alias: String },
    /// Ask the network node what it knows.
    Diagnose(DiagnosisUse),
    /// Ask the network node who is connected.
    AskPeers(PeersUse),
    /// Dial an address.
    Dial { addr: Multiaddr },
    /// Ask the network node for a peer, given by its id or its alias.
    FindPeer { query: String, wanted: SearchUse },
    /// Read the pinned peers and list them.
    ListPins { alias: String },
    /// Pin the key of a peer.
    Pin { alias: String, peer_id: String, seen: ObservedPeer },
    /// Forget the pinned key of a peer.
    Unpin { alias: String, peer_id: String },
    /// Show the history of a room behind a first line.
    ShowHistory { alias: String, first: String, room_id: String, room_key: [u8; 32] },
    /// Clear the screen.
    ClearScreen,
}

/// The plain values held by a [`Dispatch`].
#[verifier::ext_equal]
pub enum DispatchView {
    Done(ReplyView),
    AskNewPassword { alias: Seq<char> },
    AskPassword { alias: Seq<char> },
    Diagnose(DiagnosisUse),
    AskPeers(PeersUseView),
    Dial { addr: MultiaddrView },
    FindPeer { query: Seq<char>, wanted: SearchUse },
    ListPins { alias: Seq<char> },
    Pin { alias: Seq<char>, peer_id: Seq<char>, seen: ObservedPeerView },
    Unpin { alias: Seq<char>, peer_id: Seq<char> },
    ShowHistory { alias: Seq<char>, first: Seq<char>, room_id: Seq<char>, room_key: Seq<u8> },
    ClearScreen,
}

impl View for Dispatch {
    type V = DispatchView;

    open spec fn view(&self) -> DispatchView {
        match *self {
            Dispatch::Done(x0) => DispatchView::Done(x0@),
            Dispatch::AskNewPassword { alias } => DispatchView::AskNewPassword { alias: alias@ },
            Dispatch::AskPassword { alias } => DispatchView::AskPassword { alias: alias@ },
            Dispatch::Diagnose(x0) => DispatchView::Diagnose(x0),
            Dispatch::AskPeers(x0) => DispatchView::AskPeers(x0@),
            Dispatch::Dial { addr } => DispatchView::Dial { addr: addr@ },
            Dispatch::FindPeer { query, wanted } => DispatchView::FindPeer { query: query@, wanted: wanted },
            Dispatch::ListPins { alias } => DispatchView::ListPins { alias: alias@ },
            Dispatch::Pin { alias, peer_id, seen } => DispatchView::Pin { alias: alias@, peer_id: peer_id@, seen: seen@ },
            Dispatch::Unpin { alias, peer_id } => DispatchView::Unpin { alias: alias@, peer_id: peer_id@ },
            Dispatch::ShowHistory { alias, first, room_id, room_key } => DispatchView::ShowHistory { alias: alias@, first: first@, room_id: room_id@, room_key: room_key@ },
            Dispatch::ClearScreen => DispatchView::ClearScreen,
        }
    }
}

/// A state and what is to be done.
pub type DispatchStep = (AppStateView, DispatchView);

/// A command that is answered and changes nothing.
pub open spec fn answered(state: AppStateView, reply: ReplyView) -> DispatchStep {
    (state, DispatchView::Done(reply))
}

/// `/connect`: the address must be one, and must name a peer.
pub open spec fn connect_step(state: AppStateView, multiaddr: Seq<char>) -> DispatchStep {
    if state.p2p is None {
        answered(state, reply::no_runtime())
    } else {
        match primitives::multiaddr_parts(multiaddr) {
            None => answered(state, reply::failed("invalid multiaddr: "@ + multiaddr)),
            Some(addr) => if peer::addr_peer(addr) is None {
                answered(
                    state,
                    reply::failed(network::p2p_error_text(P2pErrorView::MissingPeerId(peer::addr_text(addr)))),
                )
            } else {
                (state, DispatchView::Dial { addr })
            },
        }
    }
}

/// `/connect-peer` and `/resolve-peer`: the directory is searched.
pub open spec fn find_step(state: AppStateView, query: Seq<char>, wanted: SearchUse) -> DispatchStep {
    if state.p2p is None {
        answered(state, reply::no_runtime())
    } else {
        (state, DispatchView::FindPeer { query, wanted })
    }
}

/// `/dm`: nobody talks to themselves.
pub open spec fn direct_step(
    state: AppStateView,
    peer_id: Seq<char>,
    secret: Seq<char>,
    ephemeral: bool,
) -> DispatchStep {
    match state.p2p {
        None => answered(state, reply::no_runtime()),
        Some(local) => match primitives::peer_id_text(peer_id) {
            None => answered(state, reply::failed(trust::bad_peer_id(peer_id))),
            Some(remote) => if remote == local {
                answered(state, reply::failed("cannot create a direct room with self"@))
            } else {
                (
                    state,
                    DispatchView::AskPeers(PeersUseView::Direct { remote, secret, ephemeral }),
                )
            },
        },
    }
}

/// `/invite`: nobody invites themselves.
pub open spec fn invite_command_step(state: AppStateView, peer_id: Seq<char>) -> DispatchStep {
    if state.active_identity is None {
        answered(state, reply::no_identity())
    } else {
        match state.p2p {
            None => answered(state, reply::no_runtime()),
            Some(local) => match primitives::peer_id_text(peer_id) {
                None => answered(state, reply::failed(trust::bad_peer_id(peer_id))),
                Some(peer) => if peer == local {
                    answered(state, reply::failed("cannot invite self"@))
                } else {
                    (state, DispatchView::AskPeers(PeersUseView::Invite { peer }))
                },
            },
        }
    }
}

/// `/room add-peer`.
pub open spec fn add_peer_step(state: AppStateView, peer_id: Seq<char>) -> DispatchStep {
    if state.p2p is None {
        answered(state, reply::no_runtime())
    } else {
        match primitives::peer_id_text(peer_id) {
            None => answered(state, reply::failed(trust::bad_peer_id(peer_id))),
            Some(peer) => (state, DispatchView::AskPeers(PeersUseView::AddPeer { peer })),
        }
    }
}

/// `/history`.
pub open spec fn history_step(state: AppStateView, enabled: bool) -> DispatchStep {
    match state.active_identity {
        None => answered(state, reply::no_identity()),
        Some(identity) => {
            let (rooms, switched) = room::history_outcome(state.rooms, enabled);
            (
                AppStateView { rooms, ..state },
                match switched {
                    HistorySwitchView::Answered { lines, error } => DispatchView::Done(
                        ReplyView { lines, error },
                    ),
                    HistorySwitchView::Show { first, room_id, room_key } =>
                        DispatchView::ShowHistory {
                            alias: identity.alias,
                            first,
                            room_id,
                            room_key,
                        },
                },
            )
        },
    }
}

/// `/trust`: a key is pinned only after it was seen.
pub open spec fn trust_step(state: AppStateView, action: TrustCommandView) -> DispatchStep {
    match state.active_identity {
        None => answered(state, reply::no_identity()),
        Some(identity) => {
            let alias = identity.alias;
            match action {
                TrustCommandView::List => (state, DispatchView::ListPins { alias }),
                TrustCommandView::Add { peer_id } => if primitives::peer_id_text(peer_id) is None {
                    answered(state, reply::failed(trust::bad_peer_id(peer_id)))
                } else if !state.trust.observed.contains_key(peer_id) {
                    answered(state, trust::not_observed_reply(peer_id))
                } else {
                    (
                        state,
                        DispatchView::Pin { alias, peer_id, seen: state.trust.observed[peer_id] },
                    )
                },
                TrustCommandView::Remove { peer_id } => if primitives::peer_id_text(peer_id) is None {
                    answered(state, reply::failed(trust::bad_peer_id(peer_id)))
                } else {
                    (state, DispatchView::Unpin { alias, peer_id })
                },
            }
        },
    }
}

/// `/create-room`, given the id and the seed that are used.
pub open spec fn create_room_step(
    state: AppStateView,
    room_id: Seq<char>,
    seed: Seq<u8>,
    ephemeral: bool,
) -> DispatchStep {
    match (state.active_identity, state.p2p) {
        (None, _) => answered(state, reply::no_identity()),
        (Some(_), None) => answered(state, reply::no_runtime()),
        (Some(identity), Some(local)) => {
            let (rooms, reply) = room::create_outcome(
                state.rooms,
                identity,
                local,
                room_id,
                seed,
                ephemeral,
            );
            answered(AppStateView { rooms, ..state }, reply)
        },
    }
}

/// `/accept-invite`.
pub open spec fn accept_step(state: AppStateView, invite_id: Seq<char>) -> DispatchStep {
    match state.p2p {
        None => answered(state, reply::no_runtime()),
        Some(local) => {
            let (invites, rooms, reply) = invite::accept_outcome(
                state.invites,
                state.rooms,
                local,
                invite_id,
            );
            answered(AppStateView { invites, rooms, ..state }, reply)
        },
    }
}

/// What a command does. The id and the seed are those of a room that is created.
pub open spec fn dispatched(
    state: AppStateView,
    command: UserCommandView,
    new_room_id: Seq<char>,
    seed: Seq<u8>,
) -> DispatchStep {
    match command {
        UserCommandView::IdentityCreate { alias } => (
            state,
            DispatchView::AskNewPassword { alias },
        ),
        UserCommandView::Login { alias } => (state, DispatchView::AskPassword { alias }),
        UserCommandView::Whoami => (state, DispatchView::Diagnose(DiagnosisUse::Whoami)),
        UserCommandView::Connect { multiaddr } => connect_step(state, multiaddr),
        UserCommandView::ConnectPeer { query } => find_step(state, query, SearchUse::Connect),
        UserCommandView::ResolvePeer { query } => find_step(state, query, SearchUse::Resolve),
        UserCommandView::Peers => if state.p2p is None {
            answered(state, reply::no_runtime())
        } else {
            (state, DispatchView::AskPeers(PeersUseView::List))
        },
        UserCommandView::Join { room_id, secret, ephemeral } => match state.p2p {
            None => answered(state, reply::no_runtime()),
            Some(local) => {
                let (rooms, reply) = room::join_outcome(state.rooms, local, room_id, secret, ephemeral);
                answered(AppStateView { rooms, ..state }, reply)
            },
        },
        UserCommandView::DirectMessage { peer_id, secret, ephemeral } => direct_step(
            state,
            peer_id,
            secret,
            ephemeral,
        ),
        UserCommandView::CreateRoom { room_id, ephemeral } => create_room_step(
            state,
            new_room_id,
            seed,
            ephemeral,
        ),
        UserCommandView::Invite { peer_id } => invite_command_step(state, peer_id),
        UserCommandView::Invites => answered(state, reply::printed(invite::invites_lines(state.invites))),
        UserCommandView::AcceptInvite { invite_id } => accept_step(state, invite_id),
        UserCommandView::RejectInvite { invite_id } => answered(
            AppStateView {
                invites: InviteBookView { pending: state.invites.pending.remove(invite_id) },
                ..state
            },
            reply::printed(invite::reject_lines(state.invites.pending.contains_key(invite_id), invite_id)),
        ),
        UserCommandView::RoomAddPeer { peer_id } => add_peer_step(state, peer_id),
        UserCommandView::RoomPeers => if state.p2p is None {
            answered(state, reply::no_runtime())
        } else {
            (state, DispatchView::AskPeers(PeersUseView::RoomPeers))
        },
        UserCommandView::Rooms => answered(state, reply::printed(room::rooms_lines(state.rooms))),
        UserCommandView::Message { text } => message_step(state, text),
        UserCommandView::History { enabled } => history_step(state, enabled),
        UserCommandView::Trust { action } => trust_step(state, action),
        UserCommandView::Policy { action } => answered(
            AppStateView { message_policy: policy::policy_after(action, state.message_policy), ..state },
            reply::printed(policy::policy_command_lines(action, state.message_policy)),
        ),
        UserCommandView::Status => (state, DispatchView::Diagnose(DiagnosisUse::Status)),
        UserCommandView::Doctor => (state, DispatchView::Diagnose(DiagnosisUse::Doctor)),
        UserCommandView::Debug { enabled } => answered(
            AppStateView { debug_enabled: enabled, ..state },
            reply::printed(seq!["debug="@ + text::bool_word(enabled)]),
        ),
        UserCommandView::Clear => (state, DispatchView::ClearScreen),
        UserCommandView::Help => answered(state, reply::printed(help_lines())),
        UserCommandView::Quit => answered(state, reply::printed(seq!["bye"@])),
    }
}

/// A text for the active room.
pub open spec fn message_step(state: AppStateView, text: Seq<char>) -> DispatchStep {
    if state.active_identity is None {
        answered(state, reply::no_identity())
    } else if state.p2p is None {
        answered(state, reply::no_runtime())
    } else {
        (state, DispatchView::AskPeers(PeersUseView::Send { text }))
    }
}

/// The id and the seed of a room that a command creates: the id is the given one, or a
/// generated one.
pub open spec fn room_choice(command: UserCommandView, new_room_id: Seq<char>, seed: Seq<u8>) -> bool {
    match command {
        UserCommandView::CreateRoom { room_id, .. } => seed.len() == 32 && match room_id {
            Some(given) => new_room_id == given,
            None => ids::room_id_generated(new_room_id),
        },
        _ => true,
    }
}

impl AppState {
    /// Handle `/connect`.
    fn connect(&self, multiaddr: &str) -> (res: Dispatch)
        ensures
            (self@, res@) == connect_step(self@, multiaddr@),
    {
        if self.p2p.is_none() {
            return Dispatch::Done(no_runtime_reply());
        }
        match Multiaddr::parse(multiaddr) {
            None => Dispatch::Done(Reply::fail(cat2("invalid multiaddr: ", multiaddr))),
            Some(addr) => match dialed_peer(&addr) {
                Ok(_) => Dispatch::Dial { addr },
                Err(e) => Dispatch::Done(Reply::fail(e.message())),
            },
        }
    }

    /// Handle `/connect-peer` and `/resolve-peer`.
    fn find_peer(&self, query: String, wanted: SearchUse) -> (res: Dispatch)
        ensures
            (self@, res@) == find_step(self@, query@, wanted),
    {
        if self.p2p.is_none() {
            Dispatch::Done(no_runtime_reply())
        } else {
            Dispatch::FindPeer { query, wanted }
        }
    }

    /// Handle `/dm`.
    fn direct(&self, peer_id: &str, secret: String, ephemeral: bool) -> (res: Dispatch)
        ensures
            (self@, res@) == direct_step(self@, peer_id@, secret@, ephemeral),
    {
        match &self.p2p {
            None => Dispatch::Done(no_runtime_reply()),
            Some(local) => match require_peer_id(peer_id) {
                Err(e) => Dispatch::Done(Reply::fail(e)),
                Ok(remote) => if remote.same(local) {
                    Dispatch::Done(
                        Reply::fail("cannot create a direct room with self".to_owned()),
                    )
                } else {
                    Dispatch::AskPeers(PeersUse::Direct { remote, secret, ephemeral })
                },
            },
        }
    }

    /// Handle `/invite`.
    fn invite(&self, peer_id: &str) -> (res: Dispatch)
        ensures
            (self@, res@) == invite_command_step(self@, peer_id@),
    {
        if self.active_identity.is_none() {
            return Dispatch::Done(no_identity_reply());
        }
        match &self.p2p {
            None => Dispatch::Done(no_runtime_reply()),
            Some(local) => match require_peer_id(peer_id) {
                Err(e) => Dispatch::Done(Reply::fail(e)),
                Ok(peer) => if peer.same(local) {
                    Dispatch::Done(Reply::fail("cannot invite self".to_owned()))
                } else {
                    Dispatch::AskPeers(PeersUse::Invite { peer })
                },
            },
        }
    }

    /// Handle `/room add-peer`.
    fn add_peer(&self, peer_id: &str) -> (res: Dispatch)
        ensures
            (self@, res@) == add_peer_step(self@, peer_id@),
    {
        if self.p2p.is_none() {
            return Dispatch::Done(no_runtime_reply());
        }
        match require_peer_id(peer_id) {
            Err(e) => Dispatch::Done(Reply::fail(e)),
            Ok(peer) => Dispatch::AskPeers(PeersUse::AddPeer { peer }),
        }
    }

    /// Handle `/history`.
    fn set_history(&mut self, enabled: bool) -> (res: Dispatch)
        ensures
            (final(self)@, res@) == history_step(old(self)@, enabled),
    {
        let alias = match &self.active_identity {
            None => {
                return Dispatch::Done(no_identity_reply());
            },
            Some(identity) => identity.alias.clone(),
        };
        match switch_history(&mut self.rooms, enabled) {
            HistorySwitch::Answered { lines, error } => Dispatch::Done(
                Reply { lines: Lines::of(lines), error },
            ),
            HistorySwitch::Show { first, room_id, room_key } => Dispatch::ShowHistory {
                alias,
                first,
                room_id,
                room_key,
            },
        }
    }

    /// Handle `/trust`.
    fn trust_action(&self, action: TrustCommand) -> (res: Dispatch)
        ensures
            (self@, res@) == trust_step(self@, action@),
    {
        let alias = match &self.active_identity {
            None => {
                return Dispatch::Done(no_identity_reply());
            },
            Some(identity) => identity.alias.clone(),
        };
        match action {
            TrustCommand::List => Dispatch::ListPins { alias },
            TrustCommand::Add { peer_id } => match observed_for_pin(
                &self.trust,
                peer_id.as_str(),
            ) {
                Ok(seen) => Dispatch::Pin { alias, peer_id, seen },
                Err(reply) => Dispatch::Done(reply),
            },
            TrustCommand::Remove { peer_id } => match require_peer_id(peer_id.as_str()) {
                Ok(_) => Dispatch::Unpin { alias, peer_id },
                Err(e) => Dispatch::Done(Reply::fail(e)),
            },
        }
    }

    /// Handle `/create-room`.
    fn make_room(&mut self, room_id: &Option<String>, ephemeral: bool) -> (res: Dispatch)
        ensures
            exists|id: Seq<char>, seed: Seq<u8>|
                {
                    &&& room_choice(
                        UserCommandView::CreateRoom { room_id: text::opt_text(*room_id), ephemeral },
                        id,
                        seed,
                    )
                    &&& (final(self)@, res@) == #[trigger] create_room_step(
                        old(self)@,
                        id,
                        seed,
                        ephemeral,
                    )
                },
    {
        let ghost state = self@;
        let ghost any_seed = Seq::new(32, |i: int| 0u8);
        let ghost any_id = match text::opt_text(*room_id) {
            Some(given) => given,
            None => choose|id: Seq<char>| ids::room_id_generated(id),
        };
        proof {
            lemma_some_room_id();
        }
        match (&self.active_identity, &self.p2p) {
            (None, _) => {
                let res = Dispatch::Done(no_identity_reply());
                assert((self@, res@) == create_room_step(state, any_id, any_seed, ephemeral));
                res
            },
            (Some(_), None) => {
                let res = Dispatch::Done(no_runtime_reply());
                assert((self@, res@) == create_room_step(state, any_id, any_seed, ephemeral));
                res
            },
            (Some(identity), Some(local)) => {
                let reply = create_room(&mut self.rooms, identity, local, room_id, ephemeral);
                let ghost (id, seed) = choose|id: Seq<char>, seed: Seq<u8>|
                    {
                        &&& text::opt_text(*room_id) matches Some(given) ==> id == given
                        &&& *room_id is None ==> ids::room_id_generated(id)
                        &&& seed.len() == 32
                        &&& self.rooms@ == (#[trigger] room::create_outcome(
                            state.rooms,
                            identity@,
                            local@,
                            id,
                            seed,
                            ephemeral,
                        )).0
                        &&& reply@ == room::create_outcome(
                            state.rooms,
                            identity@,
                            local@,
                            id,
                            seed,
                            ephemeral,
                        ).1
                    };
                let res = Dispatch::Done(reply);
                assert((self@, res@) == create_room_step(state, id, seed, ephemeral));
                res
            },
        }
    }

    /// Handle `/accept-invite`.
    fn accept(&mut self, invite_id: &str) -> (res: Dispatch)
        ensures
            (final(self)@, res@) == accept_step(old(self)@, invite_id@),
    {
        match &self.p2p {
            None => Dispatch::Done(no_runtime_reply()),
            Some(local) => {
                let reply = accept_invite(&mut self.invites, &mut self.rooms, local, invite_id);
                Dispatch::Done(reply)
            },
        }
    }

    /// Handle a text for the active room.
    pub fn message(&self, text: String) -> (res: Dispatch)
        ensures
            (self@, res@) == message_step(self@, text@),
    {
        if self.active_identity.is_none() {
            Dispatch::Done(no_identity_reply())
        } else if self.p2p.is_none() {
            Dispatch::Done(no_runtime_reply())
        } else {
            Dispatch::AskPeers(PeersUse::Send { text })
        }
    }
}

/// There is a room id that can be generated.
proof fn lemma_some_room_id()
    ensures
        exists|id: Seq<char>| ids::room_id_generated(id),
{
    let bytes = Seq::new(16, |i: int| 0u8);
    assert(ids::room_id_generated(ids::invite_room_id(text::hex(bytes))));
}

/// The commands, as `/help` lists them.
pub open spec fn help_command_lines() -> Seq<Seq<char>> {
    seq![
        "commands:"@,
        "  /identity create <alias>"@,
        "  /login <alias>"@,
        "  /whoami"@,
        "  /connect <multiaddr>"@,
        "  /connect-peer <peer_id|alias>"@,
        "  /resolve-peer <peer_id|alias>"@,
        "  /peers"@,
        "  /create-room [room_id] [--ephemeral]"@,
        "  /invite <peer_id>"@,
        "  /invites"@,
        "  /accept-invite <invite_id>"@,
        "  /reject-invite <invite_id>"@,
        "  /join <room_id> --secret <passphrase> [--ephemeral]"@,
        "  /dm <peer_id> --secret <passphrase> [--ephemeral]"@,
        "  /room add-peer <peer_id>"@,
        "  /room peers"@,
        "  /rooms"@,
        "  /msg <text>"@,
        "  /history on"@,
        "  /history off"@,
        "  /trust <peer_id>"@,
        "  /trust list"@,
        "  /trust remove <peer_id>"@,
        "  /policy"@,
        "  /policy strict"@,
        "  /policy relaxed"@,
        "  /status"@,
        "  /doctor"@,
        "  /debug on"@,
        "  /debug off"@,
        "  /clear"@,
        "  /help"@,
        "  /quit"@,
    ]
}

/// What `/help` says behind the commands.
pub open spec fn help_example_lines() -> Seq<Seq<char>> {
    seq![
        ""@,
        "startup:"@,
        "  dogel.bin [--listen <multiaddr>] [--bootstrap <multiaddr>] [--relay-server] [--external-addr <multiaddr>] [--tui]"@,
        ""@,
        "generic examples:"@,
        "  /login <alias>"@,
        "  /whoami"@,
        "  /connect /ip4/<host>/tcp/<port>/p2p/<peer_id>"@,
        "  dogel.bin --relay-server --listen /ip4/0.0.0.0/tcp/7777 --external-addr /ip4/<public-ip>/tcp/7777"@,
        "  dogel.bin --bootstrap /ip4/<relay-host>/tcp/7777/p2p/<relay-peer-id>"@,
        "  /create-room --ephemeral"@,
        "  /invite <peer_id>"@,
        "  /invites"@,
        "  /accept-invite <invite_id>"@,
        "  hello world"@,
        ""@,
        "dev shortcuts still available:"@,
        "  /join <room_id> --secret \"<shared phrase>\" --ephemeral"@,
        "  /dm <peer_id> --secret \"<shared phrase>\" --ephemeral"@,
    ]
}

/// The answer to `/help`.
pub open spec fn help_lines() -> Seq<Seq<char>> {
    help_command_lines() + help_example_lines()
}

/// List the commands.
fn help_commands() -> (res: Lines)
    ensures
        res@ == help_command_lines(),
{
    let mut lines = Lines::new();
    lines.say("commands:");
    lines.say("  /identity create <alias>");
    lines.say("  /login <alias>");
    lines.say("  /whoami");
    lines.say("  /connect <multiaddr>");
    lines.say("  /connect-peer <peer_id|alias>");
    lines.say("  /resolve-peer <peer_id|alias>");
    lines.say("  /peers");
    lines.say("  /create-room [room_id] [--ephemeral]");
    lines.say("  /invite <peer_id>");
    lines.say("  /invites");
    lines.say("  /accept-invite <invite_id>");
    lines.say("  /reject-invite <invite_id>");
    lines.say("  /join <room_id> --secret <passphrase> [--ephemeral]");
    lines.say("  /dm <peer_id> --secret <passphrase> [--ephemeral]");
    lines.say("  /room add-peer <peer_id>");
    lines.say("  /room peers");
    lines.say("  /rooms");
    lines.say("  /msg <text>");
    lines.say("  /history on");
    lines.say("  /history off");
    lines.say("  /trust <peer_id>");
    lines.say("  /trust list");
    lines.say("  /trust remove <peer_id>");
    lines.say("  /policy");
    lines.say("  /policy strict");
    lines.say("  /policy relaxed");
    lines.say("  /status");
    lines.say("  /doctor");
    lines.say("  /debug on");
    lines.say("  /debug off");
    lines.say("  /clear");
    lines.say("  /help");
    lines.say("  /quit");
    assert(lines@ =~= help_command_lines());
    lines
}

/// Say what `/help` says behind the commands.
fn help_examples() -> (res: Lines)
    ensures
        res@ == help_example_lines(),
{
    let mut lines = Lines::new();
    lines.say("");
    lines.say("startup:");
    lines.say(
        "  dogel.bin [--listen <multiaddr>] [--bootstrap <multiaddr>] [--relay-server] [--external-addr <multiaddr>] [--tui]",
    );
    lines.say("");
    lines.say("generic examples:");
    lines.say("  /login <alias>");
    lines.say("  /whoami");
    lines.say("  /connect /ip4/<host>/tcp/<port>/p2p/<peer_id>");
    lines.say(
        "  dogel.bin --relay-server --listen /ip4/0.0.0.0/tcp/7777 --external-addr /ip4/<public-ip>/tcp/7777",
    );
    lines.say("  dogel.bin --bootstrap /ip4/<relay-host>/tcp/7777/p2p/<relay-peer-id>");
    lines.say("  /create-room --ephemeral");
    lines.say("  /invite <peer_id>");
    lines.say("  /invites");
    lines.say("  /accept-invite <invite_id>");
    lines.say("  hello world");
    lines.say("");
    lines.say("dev shortcuts still available:");
    lines.say("  /join <room_id> --secret \"<shared phrase>\" --ephemeral");
    lines.say("  /dm <peer_id> --secret \"<shared phrase>\" --ephemeral");
    assert(lines@ =~= help_example_lines());
    lines
}

/// Answer `/help`.
pub fn print_help() -> (res: Lines)
    ensures
        res@ == help_lines(),
{
    let mut lines = help_commands();
    lines.extend(&help_examples());
    lines
}

impl AppState {
    /// Do what a command asks for. `/quit` never comes here: whoever reads the commands ends on
    /// it.
    pub fn handle_command(&mut self, command: UserCommand) -> (res: Dispatch)
        requires
            !(command@ is Quit),
        ensures
            exists|id: Seq<char>, seed: Seq<u8>|
                {
                    &&& room_choice(command@, id, seed)
                    &&& (final(self)@, res@) == #[trigger] dispatched(
                        old(self)@,
                        command@,
                        id,
                        seed,
                    )
                },
    {
        let ghost state = self@;
        let ghost asked = command@;
        let ghost id = Seq::<char>::empty();
        let ghost seed = Seq::<u8>::empty();
        let res = match command {
            UserCommand::CreateRoom { room_id, ephemeral } => {
                let res = self.make_room(&room_id, ephemeral);
                let ghost (id, seed) = choose|id: Seq<char>, seed: Seq<u8>|
                    room_choice(asked, id, seed) && (self@, res@) == #[trigger] create_room_step(
                        state,
                        id,
                        seed,
                        ephemeral,
                    );
                assert((self@, res@) == dispatched(state, asked, id, seed));
                return res;
            },
            UserCommand::IdentityCreate { alias } => Dispatch::AskNewPassword { alias },
            UserCommand::Login { alias } => Dispatch::AskPassword { alias },
            UserCommand::Whoami => Dispatch::Diagnose(DiagnosisUse::Whoami),
            UserCommand::Connect { multiaddr } => self.connect(multiaddr.as_str()),
            UserCommand::ConnectPeer { query } => self.find_peer(query, SearchUse::Connect),
            UserCommand::ResolvePeer { query } => self.find_peer(query, SearchUse::Resolve),
            UserCommand::Peers => if self.p2p.is_none() {
                Dispatch::Done(no_runtime_reply())
            } else {
                Dispatch::AskPeers(PeersUse::List)
            },
            UserCommand::Join { room_id, secret, ephemeral } => match &self.p2p {
                None => Dispatch::Done(no_runtime_reply()),
                Some(local) => Dispatch::Done(
                    join_room(
                        &mut self.rooms,
                        local,
                        room_id.as_str(),
                        secret.as_str(),
                        ephemeral,
                    ),
                ),
            },
            UserCommand::DirectMessage { peer_id, secret, ephemeral } => self.direct(
                peer_id.as_str(),
                secret,
                ephemeral,
            ),
            UserCommand::Invite { peer_id } => self.invite(peer_id.as_str()),
            UserCommand::Invites => Dispatch::Done(Reply::print(list_invites(&self.invites))),
            UserCommand::AcceptInvite { invite_id } => self.accept(invite_id.as_str()),
            UserCommand::RejectInvite { invite_id } => Dispatch::Done(
                Reply::print(reject_invite(&mut self.invites, invite_id.as_str())),
            ),
            UserCommand::RoomAddPeer { peer_id } => self.add_peer(peer_id.as_str()),
            UserCommand::RoomPeers => if self.p2p.is_none() {
                Dispatch::Done(no_runtime_reply())
            } else {
                Dispatch::AskPeers(PeersUse::RoomPeers)
            },
            UserCommand::Rooms => Dispatch::Done(Reply::print(list_rooms(&self.rooms))),
            UserCommand::Message { text } => self.message(text),
            UserCommand::History { enabled } => self.set_history(enabled),
            UserCommand::Trust { action } => self.trust_action(action),
            UserCommand::Policy { action } => Dispatch::Done(
                Reply::print(handle_policy_command(&action, &mut self.message_policy)),
            ),
            UserCommand::Status => Dispatch::Diagnose(DiagnosisUse::Status),
            UserCommand::Doctor => Dispatch::Diagnose(DiagnosisUse::Doctor),
            UserCommand::Debug { enabled } => {
                self.debug_enabled = enabled;
                let mut lines = Lines::new();
                lines.add(cat2("debug=", bool_text(enabled)));
                assert(lines@ =~= seq!["debug="@ + text::bool_word(enabled)]);
                Dispatch::Done(Reply::print(lines))
            },
            UserCommand::Clear => Dispatch::ClearScreen,
            UserCommand::Help => Dispatch::Done(Reply::print(print_help())),
            UserCommand::Quit => {
                let mut lines = Lines::new();
                lines.say("bye");
                assert(lines@ =~= seq!["bye"@]);
                Dispatch::Done(Reply::print(lines))
            },
        };
        proof {
            assert(self@ =~= dispatched(state, asked, id, seed).0);
            assert((self@, res@) == dispatched(state, asked, id, seed));
        }
        res
    }
}

/// A message that is ready to be sealed, and who gets it.
pub struct MessageDraft {
    pub room: RoomSession,
    pub plain: PlainMessage,
    pub targets: Vec<String>,
}

/// The plain values held by a [`MessageDraft`].
#[verifier::ext_equal]
pub struct MessageDraftView {
    pub room: RoomSessionView,
    pub plain: PlainMessageView,
    pub targets: Seq<Seq<char>>,
}

impl View for MessageDraft {
    type V = MessageDraftView;

    open spec fn view(&self) -> MessageDraftView {
        MessageDraftView {
            room: self.room@,
            plain: self.plain@,
            targets: text::texts(self.targets@),
        }
    }
}

/// What is to be done once the connected peers are known.
pub enum PeersNext {
    /// It is answered.
    Done(Reply),
    /// Seal a message and send it.
    Deliver(MessageDraft),
    /// Send an invite.
    SendInvite { peer: PeerId, invite: RoomInvite, key_fingerprint: String },
}

/// The plain values held by a [`PeersNext`].
#[verifier::ext_equal]
pub enum PeersNextView {
    Done(ReplyView),
    Deliver(MessageDraftView),
    SendInvite { peer: Seq<char>, invite: RoomInviteView, key_fingerprint: Seq<char> },
}

impl View for PeersNext {
    type V = PeersNextView;

    open spec fn view(&self) -> PeersNextView {
        match *self {
            PeersNext::Done(x0) => PeersNextView::Done(x0@),
            PeersNext::Deliver(x0) => PeersNextView::Deliver(x0@),
            PeersNext::SendInvite { peer, invite, key_fingerprint } => PeersNextView::SendInvite { peer: peer@, invite: invite@, key_fingerprint: key_fingerprint@ },
        }
    }
}

/// A state and what is to be done.
pub type PeersStep = (AppStateView, PeersNextView);

/// The connected peers, or why they are not known.
pub type PeersAnswer = Result<Seq<Seq<char>>, P2pErrorView>;

/// The view of an answer of the network node.
pub open spec fn peers_answer(peers: Result<Vec<String>, P2pError>) -> PeersAnswer {
    match peers {
        Ok(list) => Ok(text::texts(list@)),
        Err(e) => Err(e@),
    }
}

/// Sending a text: it goes to the connected members of the active room if the local policy lets
/// it pass.
pub open spec fn send_step(
    state: AppStateView,
    local: Seq<char>,
    connected: Set<Seq<char>>,
    text: Seq<char>,
    now_ms: u64,
    message_id: Seq<char>,
) -> PeersStep {
    match state.rooms.active_room {
        None => (state, PeersNextView::Done(reply::no_room())),
        Some(room_id) => if !state.rooms.rooms.contains_key(room_id) {
            (state, PeersNextView::Done(reply::failed(reply::room_missing(room_id))))
        } else {
            let room = state.rooms.rooms[room_id];
            let receivers = message::targets(room.members, local, connected);
            if receivers.len() == 0 {
                (state, PeersNextView::Done(message::no_targets()))
            } else {
                let (policy, rejection) = policy::offer(text, now_ms, state.message_policy);
                let after = AppStateView { message_policy: policy, ..state };
                match rejection {
                    Some(reason) => (after, PeersNextView::Done(reply::failed(reason))),
                    None => (
                        after,
                        PeersNextView::Deliver(
                            MessageDraftView {
                                room: room::snapshot_of(room),
                                plain: message::plain_message(message_id, room.room_id, text, now_ms),
                                targets: receivers,
                            },
                        ),
                    ),
                }
            }
        },
    }
}

/// Inviting a peer.
pub open spec fn invite_next(
    state: AppStateView,
    identity: UnlockedIdentityView,
    peer: Seq<char>,
    invite_id: Seq<char>,
    now_ms: u64,
) -> PeersStep {
    let (rooms, step) = invite::invite_outcome(state.rooms, identity, peer, invite_id, now_ms);
    (
        AppStateView { rooms, ..state },
        match step {
            InviteStepView::Answered { lines, error } => PeersNextView::Done(
                ReplyView { lines, error },
            ),
            InviteStepView::Send { invite, key_fingerprint } => PeersNextView::SendInvite {
                peer,
                invite,
                key_fingerprint,
            },
        },
    )
}

/// What is done once the connected peers are known. A new id is that of a message or an invite.
pub open spec fn peers_step(
    state: AppStateView,
    wanted: PeersUseView,
    peers: PeersAnswer,
    now_ms: u64,
    new_id: Seq<char>,
) -> PeersStep {
    match (state.p2p, peers) {
        (None, _) => (state, PeersNextView::Done(reply::no_runtime())),
        (Some(_), Err(e)) => (state, PeersNextView::Done(reply::failed(network::p2p_error_text(e)))),
        (Some(local), Ok(list)) => {
            let connected = list.to_set();
            match wanted {
                PeersUseView::List => (state, PeersNextView::Done(reply::printed(report::peers_lines(list)))),
                PeersUseView::Direct { remote, secret, ephemeral } => if !connected.contains(
                    remote,
                ) {
                    (state, PeersNextView::Done(reply::not_connected()))
                } else {
                    let (rooms, reply) = room::direct_outcome(
                        state.rooms,
                        local,
                        remote,
                        secret,
                        ephemeral,
                    );
                    (AppStateView { rooms, ..state }, PeersNextView::Done(reply))
                },
                PeersUseView::AddPeer { peer } => if !connected.contains(peer) {
                    (state, PeersNextView::Done(reply::not_connected()))
                } else {
                    let (rooms, reply) = room::add_peer_outcome(state.rooms, peer);
                    (AppStateView { rooms, ..state }, PeersNextView::Done(reply))
                },
                PeersUseView::RoomPeers => (
                    state,
                    PeersNextView::Done(room::room_peers_reply(state.rooms, local, connected)),
                ),
                PeersUseView::Send { text } => send_step(
                    state,
                    local,
                    connected,
                    text,
                    now_ms,
                    new_id,
                ),
                PeersUseView::Invite { peer } => match state.active_identity {
                    None => (state, PeersNextView::Done(reply::no_identity())),
                    Some(identity) => if !connected.contains(peer) {
                        (state, PeersNextView::Done(reply::not_connected()))
                    } else {
                        invite_next(state, identity, peer, new_id, now_ms)
                    },
                },
            }
        },
    }
}

impl AppState {
    /// Send a text.
    fn plan_message(&mut self, local: &PeerId, connected: &TextSet, text: &str, now_ms: u64) -> (res:
        PeersNext)
        ensures
            exists|id: Seq<char>|
                {
                    &&& ids::id_generated(id)
                    &&& (final(self)@, res@) == #[trigger] send_step(
                        old(self)@,
                        local@,
                        connected@,
                        text@,
                        now_ms,
                        id,
                    )
                },
    {
        let ghost state = self@;
        let ghost any = choose|id: Seq<char>| ids::id_generated(id);
        proof {
            lemma_some_message_id();
        }
        let room_id = match &self.rooms.active_room {
            None => {
                let res = PeersNext::Done(no_room_reply());
                assert((self@, res@) == send_step(
                    state,
                    local@,
                    connected@,
                    text@,
                    now_ms,
                    any,
                ));
                return res;
            },
            Some(room_id) => room_id.clone(),
        };
        let (room, targets) = match self.rooms.rooms.get(room_id.as_str()) {
            None => {
                let res = PeersNext::Done(
                    Reply::fail(room_missing_text(room_id.as_str())),
                );
                assert((self@, res@) == send_step(
                    state,
                    local@,
                    connected@,
                    text@,
                    now_ms,
                    any,
                ));
                return res;
            },
            Some(room) => (room.snapshot(), message_targets(room, local, connected)),
        };
        if targets.len() == 0 {
            let res = PeersNext::Done(no_targets_reply());
            assert((self@, res@) == send_step(state, local@, connected@, text@, now_ms, any));
            return res;
        }
        match enforce_message_policy(text, &mut self.message_policy, now_ms) {
            Err(reason) => {
                let res = PeersNext::Done(Reply::fail(reason));
                assert((self@, res@) == send_step(
                    state,
                    local@,
                    connected@,
                    text@,
                    now_ms,
                    any,
                ));
                res
            },
            Ok(_) => {
                let plain = draft_message(&room, text, now_ms);
                let ghost id = plain@.message_id;
                let res = PeersNext::Deliver(MessageDraft { room, plain, targets });
                assert((self@, res@) == send_step(
                    state,
                    local@,
                    connected@,
                    text@,
                    now_ms,
                    id,
                ));
                res
            },
        }
    }

    /// Go on with a command once the connected peers are known.
    pub fn with_peers(
        &mut self,
        wanted: PeersUse,
        peers: &Result<Vec<String>, P2pError>,
        now_ms: u64,
    ) -> (res: PeersNext)
        ensures
            exists|id: Seq<char>|
                {
                    &&& ids::id_generated(id)
                    &&& (final(self)@, res@) == #[trigger] peers_step(
                        old(self)@,
                        wanted@,
                        peers_answer(*peers),
                        now_ms,
                        id,
                    )
                },
    {
        let ghost state = self@;
        let ghost asked = wanted@;
        let ghost answer = peers_answer(*peers);
        let ghost any = choose|id: Seq<char>| ids::id_generated(id);
        proof {
            lemma_some_message_id();
        }
        let local = match &self.p2p {
            None => {
                let res = PeersNext::Done(no_runtime_reply());
                assert((self@, res@) == peers_step(state, asked, answer, now_ms, any));
                return res;
            },
            Some(local) => local.duplicate(),
        };
        let list = match peers {
            Err(e) => {
                let res = PeersNext::Done(Reply::fail(e.message()));
                assert((self@, res@) == peers_step(state, asked, answer, now_ms, any));
                return res;
            },
            Ok(list) => list,
        };
        let connected = TextSet::from_list(list);
        let res = match wanted {
            PeersUse::Send { text } => {
                let res = self.plan_message(&local, &connected, text.as_str(), now_ms);
                let ghost id = choose|id: Seq<char>|
                    ids::id_generated(id) && (self@, res@) == #[trigger] send_step(
                        state,
                        local@,
                        connected@,
                        text@,
                        now_ms,
                        id,
                    );
                assert((self@, res@) == peers_step(state, asked, answer, now_ms, id));
                return res;
            },
            PeersUse::Invite { peer } => match &self.active_identity {
                None => PeersNext::Done(no_identity_reply()),
                Some(identity) => if !connected.contains(peer.as_text()) {
                    PeersNext::Done(not_connected_reply())
                } else {
                    let step = invite_peer(&mut self.rooms, identity, &peer, now_ms);
                    let ghost id = choose|id: Seq<char>|
                        {
                            &&& ids::id_generated(id)
                            &&& self.rooms@ == (#[trigger] invite::invite_outcome(
                                state.rooms,
                                identity@,
                                peer@,
                                id,
                                now_ms,
                            )).0
                            &&& step@ == invite::invite_outcome(
                                state.rooms,
                                identity@,
                                peer@,
                                id,
                                now_ms,
                            ).1
                        };
                    let res = match step {
                        InviteStep::Answered { lines, error } => PeersNext::Done(
                            Reply { lines: Lines::of(lines), error },
                        ),
                        InviteStep::Send { invite, key_fingerprint } => PeersNext::SendInvite {
                            peer,
                            invite,
                            key_fingerprint,
                        },
                    };
                    assert((self@, res@) == peers_step(state, asked, answer, now_ms, id));
                    return res;
                },
            },
            PeersUse::List => PeersNext::Done(Reply::print(peers_report(list))),
            PeersUse::Direct { remote, secret, ephemeral } => if !connected.contains(
                remote.as_text(),
            ) {
                PeersNext::Done(not_connected_reply())
            } else {
                PeersNext::Done(
                    direct_room(&mut self.rooms, &local, &remote, secret.as_str(), ephemeral),
                )
            },
            PeersUse::AddPeer { peer } => if !connected.contains(peer.as_text()) {
                PeersNext::Done(not_connected_reply())
            } else {
                PeersNext::Done(add_room_peer(&mut self.rooms, &peer))
            },
            PeersUse::RoomPeers => PeersNext::Done(
                list_room_peers(&self.rooms, &local, &connected),
            ),
        };
        assert((self@, res@) == peers_step(state, asked, answer, now_ms, any));
        res
    }
}

/// There is a message id that can be generated.
proof fn lemma_some_message_id()
    ensures
        exists|id: Seq<char>| ids::id_generated(id),
{
    let bytes = Seq::new(16, |i: int| 0u8);
    assert(ids::id_generated(text::hex(bytes)));
}

/// A text goes to the active room: it is delivered exactly if somebody else in the room is
/// connected and the policy lets it pass, and then to every connected member but this peer, once
/// each. The message holds the text, the room and the time, and is sealed with the key of the
/// room. Sending changes nothing but the budget of the policy.
pub proof fn law_messages_reach_the_room(
    state: AppStateView,
    list: Seq<Seq<char>>,
    text: Seq<char>,
    now_ms: u64,
    new_id: Seq<char>,
    who: Seq<char>,
)
    requires
        state.p2p is Some,
        state.rooms.active_room is Some,
        state.rooms.rooms.contains_key(state.rooms.active_room->0),
        state.rooms.rooms[state.rooms.active_room->0].members.finite(),
    ensures
        ({
            let local = state.p2p->0;
            let room = state.rooms.rooms[state.rooms.active_room->0];
            let (after, next) = peers_step(
                state,
                PeersUseView::Send { text },
                PeersAnswer::Ok(list),
                now_ms,
                new_id,
            );
            &&& after == (AppStateView { message_policy: after.message_policy, ..state })
            &&& next is Deliver || next is Done
            &&& next is Deliver <==> (exists|peer: Seq<char>| #[trigger]
                room.members.contains(peer) && list.contains(peer) && peer != local) && policy::offer(
                text,
                now_ms,
                state.message_policy,
            ).1 is None
            &&& next matches PeersNextView::Deliver(draft) ==> {
                &&& draft.targets.contains(who) <==> room.members.contains(who) && list.contains(
                    who,
                ) && who != local
                &&& draft.targets.no_duplicates()
                &&& draft.plain.body == text
                &&& draft.plain.room_id == room.room_id
                &&& draft.plain.timestamp_ms == now_ms
                &&& draft.plain.message_id == new_id
                &&& draft.room.room_id == room.room_id
                &&& draft.room.room_key == room.room_key
                &&& draft.room.ephemeral == room.ephemeral
                &&& draft.room.history_enabled == room.history_enabled
                &&& after.message_policy == policy::offer(text, now_ms, state.message_policy).0
            }
            &&& next matches PeersNextView::Done(reply) ==> reply.error is Some || reply
                == message::no_targets()
        }),
{
    let local = state.p2p->0;
    let room = state.rooms.rooms[state.rooms.active_room->0];
    let connected = list.to_set();
    let receivers = message::targets(room.members, local, connected);
    message::law_receivers(room.members, local, connected, who);
    if receivers.len() > 0 {
        message::law_receivers(room.members, local, connected, receivers[0]);
        assert(receivers.contains(receivers[0]));
        assert(room.members.contains(receivers[0]));
    }
    if exists|peer: Seq<char>| #[trigger]
        room.members.contains(peer) && list.contains(peer) && peer != local {
        let peer = choose|peer: Seq<char>| #[trigger]
            room.members.contains(peer) && list.contains(peer) && peer != local;
        message::law_receivers(room.members, local, connected, peer);
        assert(connected.contains(peer));
        assert(receivers.contains(peer));
    }
    assert(connected.contains(who) == list.contains(who));
}

/// Between two states a command changed only what it is about.
pub open spec fn only_own_part_changed(
    state: AppStateView,
    command: UserCommandView,
    after: AppStateView,
) -> bool {
    &&& after.active_identity == state.active_identity
    &&& after.p2p == state.p2p
    &&& after.listen_addr == state.listen_addr
    &&& after.bootstrap_peers == state.bootstrap_peers
    &&& after.relay_server == state.relay_server
    &&& after.external_addrs == state.external_addrs
    &&& after.trust == state.trust
    &&& after.session_lock_alias == state.session_lock_alias
    &&& !(command is Join || command is CreateRoom || command is AcceptInvite
        || command is History) ==> after.rooms == state.rooms
    &&& !(command is AcceptInvite || command is RejectInvite) ==> after.invites
        == state.invites
    &&& !(command is Policy) ==> after.message_policy == state.message_policy
    &&& command matches UserCommandView::Debug { enabled } ==> after.debug_enabled
        == enabled
    &&& !(command is Debug) ==> after.debug_enabled == state.debug_enabled
}

/// Each command changes only what it is about: the identity, the network and the addresses by
/// none; the rooms by `/join`, `/create-room`, `/accept-invite` and `/history`; the invites by
/// `/accept-invite` and `/reject-invite`; the policy by `/policy`; the debug switch by `/debug`.
#[verifier::spinoff_prover]
pub proof fn law_commands_change_only_their_part(
    state: AppStateView,
    command: UserCommandView,
    new_room_id: Seq<char>,
    seed: Seq<u8>,
)
    ensures
        only_own_part_changed(
            state,
            command,
            dispatched(state, command, new_room_id, seed).0,
        ),
{
}

/// A command is answered with an error.
pub open spec fn refused_with_error(next: DispatchView) -> bool {
    next matches DispatchView::Done(reply) && reply.error is Some
}

/// With a network node and an identity every command gets to do its work with the arguments it was
/// given.
#[verifier::spinoff_prover]
#[verifier::rlimit(40)]
pub proof fn law_commands_do_their_work(
    state: AppStateView,
    command: UserCommandView,
    new_room_id: Seq<char>,
    seed: Seq<u8>,
)
    requires
        state.p2p is Some,
        state.active_identity is Some,
    ensures
        ({
            let local = state.p2p->0;
            let identity = state.active_identity->0;
            let (after, next) = dispatched(state, command, new_room_id, seed);
            match command {
                UserCommandView::IdentityCreate { alias } => next == (
                DispatchView::AskNewPassword { alias }),
                UserCommandView::Login { alias } => next == (DispatchView::AskPassword { alias }),
                UserCommandView::Whoami => next == DispatchView::Diagnose(DiagnosisUse::Whoami),
                UserCommandView::Status => next == DispatchView::Diagnose(DiagnosisUse::Status),
                UserCommandView::Doctor => next == DispatchView::Diagnose(DiagnosisUse::Doctor),
                UserCommandView::Clear => next is ClearScreen,
                UserCommandView::Connect { multiaddr } => {
                    let addr = primitives::multiaddr_parts(multiaddr);
                    &&& addr is Some && peer::addr_peer(addr->0) is Some ==> next == (DispatchView::Dial {
                        addr: addr->0,
                    })
                    &&& addr is None || peer::addr_peer(addr->0) is None ==> refused_with_error(next)
                },
                UserCommandView::ConnectPeer { query } => next == (DispatchView::FindPeer {
                    query,
                    wanted: SearchUse::Connect,
                }),
                UserCommandView::ResolvePeer { query } => next == (DispatchView::FindPeer {
                    query,
                    wanted: SearchUse::Resolve,
                }),
                UserCommandView::Peers => next == DispatchView::AskPeers(PeersUseView::List),
                UserCommandView::RoomPeers => next == DispatchView::AskPeers(
                    PeersUseView::RoomPeers,
                ),
                UserCommandView::Message { text } => next == DispatchView::AskPeers(
                    PeersUseView::Send { text },
                ),
                UserCommandView::Join { room_id, secret, ephemeral } => {
                    let (rooms, reply) = room::join_outcome(
                        state.rooms,
                        local,
                        room_id,
                        secret,
                        ephemeral,
                    );
                    after.rooms == rooms && next == DispatchView::Done(reply)
                },
                UserCommandView::CreateRoom { ephemeral, .. } => {
                    let (rooms, reply) = room::create_outcome(
                        state.rooms,
                        identity,
                        local,
                        new_room_id,
                        seed,
                        ephemeral,
                    );
                    after.rooms == rooms && next == DispatchView::Done(reply)
                },
                UserCommandView::DirectMessage { peer_id, secret, ephemeral } => {
                    let remote = primitives::peer_id_text(peer_id);
                    &&& remote is Some && remote->0 != local ==> next == DispatchView::AskPeers(
                        PeersUseView::Direct { remote: remote->0, secret, ephemeral },
                    )
                    &&& remote is None || remote->0 == local ==> refused_with_error(next)
                },
                UserCommandView::Invite { peer_id } => {
                    let peer = primitives::peer_id_text(peer_id);
                    &&& peer is Some && peer->0 != local ==> next == DispatchView::AskPeers(
                        PeersUseView::Invite { peer: peer->0 },
                    )
                    &&& peer is None || peer->0 == local ==> refused_with_error(next)
                },
                UserCommandView::RoomAddPeer { peer_id } => {
                    let peer = primitives::peer_id_text(peer_id);
                    &&& peer is Some ==> next == DispatchView::AskPeers(
                        PeersUseView::AddPeer { peer: peer->0 },
                    )
                    &&& peer is None ==> refused_with_error(next)
                },
                UserCommandView::AcceptInvite { invite_id } => {
                    let (invites, rooms, reply) = invite::accept_outcome(
                        state.invites,
                        state.rooms,
                        local,
                        invite_id,
                    );
                    after.invites == invites && after.rooms == rooms && next == DispatchView::Done(
                        reply,
                    )
                },
                UserCommandView::RejectInvite { invite_id } => after.invites.pending
                    == state.invites.pending.remove(invite_id),
                UserCommandView::Invites => next == DispatchView::Done(
                    reply::printed(invite::invites_lines(state.invites)),
                ),
                UserCommandView::Rooms => next == DispatchView::Done(
                    reply::printed(room::rooms_lines(state.rooms)),
                ),
                UserCommandView::History { enabled } => after.rooms == room::history_outcome(
                    state.rooms,
                    enabled,
                ).0 && (next matches DispatchView::ShowHistory { alias, room_id, room_key, .. }
                    ==> alias == identity.alias && state.rooms.active_room is Some && room_id
                    == state.rooms.rooms[state.rooms.active_room->0].room_id && room_key
                    == state.rooms.rooms[state.rooms.active_room->0].room_key),
                UserCommandView::Policy { action } => match action {
                    PolicyCommandView::Show => after.message_policy == state.message_policy,
                    PolicyCommandView::Strict => after.message_policy == policy::strict_policy(),
                    PolicyCommandView::Relaxed => after.message_policy == policy::relaxed_policy(),
                },
                UserCommandView::Trust { action } => match action {
                    TrustCommandView::List => next == (DispatchView::ListPins {
                        alias: identity.alias,
                    }),
                    TrustCommandView::Add { peer_id } => {
                        let known = primitives::peer_id_text(peer_id) is Some
                            && state.trust.observed.contains_key(peer_id);
                        &&& known ==> next == (DispatchView::Pin {
                            alias: identity.alias,
                            peer_id,
                            seen: state.trust.observed[peer_id],
                        })
                        &&& !known ==> next is Done
                    },
                    TrustCommandView::Remove { peer_id } => if primitives::peer_id_text(peer_id) is Some {
                        next == (DispatchView::Unpin { alias: identity.alias, peer_id })
                    } else {
                        next is Done
                    },
                },
                _ => true,
            }
        }),
{
}

/// Without a network node nothing is dialed, joined, sent or searched, and nothing changes but by
/// the commands that need none.
pub proof fn law_the_network_is_needed(
    state: AppStateView,
    command: UserCommandView,
    new_room_id: Seq<char>,
    seed: Seq<u8>,
)
    requires
        state.p2p is None,
        command is Connect || command is ConnectPeer || command is ResolvePeer || command is Peers
            || command is Join || command is DirectMessage || command is CreateRoom
            || command is Invite || command is AcceptInvite || command is RoomAddPeer
            || command is RoomPeers || command is Message,
    ensures
        dispatched(state, command, new_room_id, seed).0 == state,
        dispatched(state, command, new_room_id, seed).1 is Done,
{
}

/// What a command goes on with once the connected peers are known: only a connected peer is
/// talked to, added or invited, and with it the rooms change as the command says.
pub proof fn law_only_connected_peers_are_used(
    state: AppStateView,
    wanted: PeersUseView,
    list: Seq<Seq<char>>,
    now_ms: u64,
    new_id: Seq<char>,
)
    requires
        state.p2p is Some,
        state.active_identity is Some,
    ensures
        ({
            let local = state.p2p->0;
            let (after, next) = peers_step(
                state,
                wanted,
                PeersAnswer::Ok(list),
                now_ms,
                new_id,
            );
            match wanted {
                PeersUseView::Direct { remote, secret, ephemeral } => {
                    let (rooms, reply) = room::direct_outcome(
                        state.rooms,
                        local,
                        remote,
                        secret,
                        ephemeral,
                    );
                    if list.contains(remote) {
                        after.rooms == rooms && next == PeersNextView::Done(reply)
                    } else {
                        after == state && next == PeersNextView::Done(reply::not_connected())
                    }
                },
                PeersUseView::AddPeer { peer } => {
                    let (rooms, reply) = room::add_peer_outcome(state.rooms, peer);
                    if list.contains(peer) {
                        after.rooms == rooms && next == PeersNextView::Done(reply)
                    } else {
                        after == state && next == PeersNextView::Done(reply::not_connected())
                    }
                },
                PeersUseView::Invite { peer } => {
                    let (rooms, step) = invite::invite_outcome(
                        state.rooms,
                        state.active_identity->0,
                        peer,
                        new_id,
                        now_ms,
                    );
                    if list.contains(peer) {
                        &&& after.rooms == rooms
                        &&& step matches InviteStepView::Send { invite, key_fingerprint } ==> next
                            == (PeersNextView::SendInvite { peer, invite, key_fingerprint })
                        &&& step matches InviteStepView::Answered { lines, error } ==> next
                            == PeersNextView::Done(ReplyView { lines, error })
                    } else {
                        after == state && next == PeersNextView::Done(reply::not_connected())
                    }
                },
                PeersUseView::List => after == state && next == PeersNextView::Done(
                    reply::printed(report::peers_lines(list)),
                ),
                PeersUseView::RoomPeers => after == state && next == PeersNextView::Done(
                    room::room_peers_reply(state.rooms, local, list.to_set()),
                ),
                PeersUseView::Send { .. } => after.rooms == state.rooms,
            }
        }),
{
}

/// A room is created under the id that was given, and under one made of random digits where none
/// was; its seed has 32 bytes.
pub proof fn law_given_room_ids_are_used(
    given: Option<Seq<char>>,
    ephemeral: bool,
    id: Seq<char>,
    seed: Seq<u8>,
)
    requires
        room_choice(UserCommandView::CreateRoom { room_id: given, ephemeral }, id, seed),
    ensures
        seed.len() == 32,
        given matches Some(room_id) ==> id == room_id,
        given is None ==> ids::room_id_valid(id) && id.len() == 21 && "room-"@.is_prefix_of(id),
{
    if given is None {
        let bytes = choose|bytes: Seq<u8>|
            bytes.len() == 16 && id == ids::invite_room_id(#[trigger] text::hex(bytes));
        ids::law_generated_ids_are_valid(bytes);
        text::law_hex_is_faithful(bytes, bytes);
        reveal_strlit("room-");
        assert(id.subrange(0, 5) =~= "room-"@);
    }
}

/// Switching debugging changes the setting and says so, help lists commands, and `/policy` shows the
/// policy that holds then.
pub proof fn law_settings_are_told(
    state: AppStateView,
    new_room_id: Seq<char>,
    seed: Seq<u8>,
    enabled: bool,
    action: PolicyCommandView,
)
    ensures
        ({
            let (after, next) = dispatched(
                state,
                UserCommandView::Debug { enabled },
                new_room_id,
                seed,
            );
            &&& after == (AppStateView { debug_enabled: enabled, ..state })
            &&& next matches DispatchView::Done(reply) && reply.error is None && reply.lines
                == seq!["debug="@ + text::bool_word(enabled)]
        }),
        ({
            let (after, next) = dispatched(
                state,
                UserCommandView::Policy { action },
                new_room_id,
                seed,
            );
            let p = after.message_policy;
            &&& after == (AppStateView { message_policy: p, ..state })
            &&& next matches DispatchView::Done(reply)
            &&& reply.error is None
            &&& reply.lines.contains("  mode: "@ + policy::mode_word(p.mode))
            &&& reply.lines.contains("  max chars: "@ + text::decimal(p.max_chars as nat))
            &&& reply.lines.contains("  links: "@ + policy::rule_word(p.reject_links))
            &&& reply.lines.contains("  multiline: "@ + policy::rule_word(p.reject_multiline))
            &&& reply.lines.contains("  control chars: "@ + policy::rule_word(p.reject_control_chars))
            &&& reply.lines.contains(
                "  rate limit: "@ + text::decimal(p.max_messages_per_window as nat) + " messages / "@
                    + text::decimal((p.window_ms / 1000) as nat) + "s"@,
            )
        }),
        ({
            let (after, next) = dispatched(state, UserCommandView::Help, new_room_id, seed);
            &&& after == state
            &&& next == DispatchView::Done(reply::printed(help_lines()))
        }),
{
    let (after, next) = dispatched(state, UserCommandView::Policy { action }, new_room_id, seed);
    let p = after.message_policy;
    let shown = policy::policy_lines(p);
    let lines = policy::policy_command_lines(action, state.message_policy);
    let at = lines.len() - shown.len();
    assert forall|x: int| 0 <= x < shown.len() implies #[trigger] lines[at + x] == shown[x] by {}
    assert(lines[at + 1] == shown[1]);
    assert(lines[at + 2] == shown[2]);
    assert(lines[at + 3] == shown[3]);
    assert(lines[at + 4] == shown[4]);
    assert(lines[at + 5] == shown[5]);
    assert(lines[at + 6] == shown[6]);
}

/// Without an identity, the commands that need one are refused and change nothing.
pub proof fn law_an_identity_is_needed(
    state: AppStateView,
    command: UserCommandView,
    new_room_id: Seq<char>,
    seed: Seq<u8>,
)
    requires
        state.active_identity is None,
        command is CreateRoom || command is History || command is Trust,
    ensures
        dispatched(state, command, new_room_id, seed).0 == state,
        dispatched(state, command, new_room_id, seed).1 == DispatchView::Done(reply::no_identity()),
{
}

/// An invitation that is refused is told, and so is one that does not exist.
pub proof fn law_refused_invites_are_told(
    state: AppStateView,
    invite_id: Seq<char>,
    new_room_id: Seq<char>,
    seed: Seq<u8>,
)
    ensures
        ({
            let (after, next) = dispatched(
                state,
                UserCommandView::RejectInvite { invite_id },
                new_room_id,
                seed,
            );
            &&& !after.invites.pending.contains_key(invite_id)
            &&& forall|other: Seq<char>|
                other != invite_id && #[trigger] state.invites.pending.contains_key(other)
                    ==> after.invites.pending.contains_key(other)
                    && after.invites.pending[other] == state.invites.pending[other]
            &&& next == DispatchView::Done(
                reply::printed(
                    invite::reject_lines(state.invites.pending.contains_key(invite_id), invite_id),
                ),
            )
        }),
{
}

/// A message that the policy refuses is answered with the reason, if somebody could have received
/// it, and the policy keeps what the refusal left.
pub proof fn law_refused_messages_are_told(
    state: AppStateView,
    list: Seq<Seq<char>>,
    text: Seq<char>,
    now_ms: u64,
    new_id: Seq<char>,
    who: Seq<char>,
)
    requires
        state.p2p is Some,
        state.rooms.active_room is Some,
        state.rooms.rooms.contains_key(state.rooms.active_room->0),
        state.rooms.rooms[state.rooms.active_room->0].members.finite(),
        state.rooms.rooms[state.rooms.active_room->0].members.contains(who),
        list.contains(who),
        who != state.p2p->0,
        policy::offer(text, now_ms, state.message_policy).1 is Some,
    ensures
        ({
            let (after, next) = peers_step(
                state,
                PeersUseView::Send { text },
                PeersAnswer::Ok(list),
                now_ms,
                new_id,
            );
            let (policy, reason) = policy::offer(text, now_ms, state.message_policy);
            &&& next == PeersNextView::Done(reply::failed(reason->0))
            &&& after == (AppStateView { message_policy: policy, ..state })
        }),
{
    let room = state.rooms.rooms[state.rooms.active_room->0];
    message::law_receivers(room.members, state.p2p->0, list.to_set(), who);
}

} // verus!
