//! The state of a running program.

use crate::invite;
use crate::invite::InviteBook;
use crate::invite::InviteBookView;
use crate::peer::Multiaddr;
use crate::peer::MultiaddrView;
use crate::peer::PeerId;
use crate::policy;
use crate::policy::MessagePolicy;
use crate::policy::MessagePolicyView;
use crate::policy::PolicyMode;
use crate::room;
use crate::room::RoomBook;
use crate::room::RoomBookView;
use crate::room::RoomSession;
use crate::room::RoomSessionView;
use crate::startup::StartupConfig;
use crate::startup::StartupConfigView;
use crate::storage::UnlockedIdentity;
use crate::storage::UnlockedIdentityView;
use crate::text;
use crate::text::cat2;
use crate::text::cat3;
use crate::text::cat5;
use crate::trust;
use crate::trust::TrustBook;
use crate::trust::TrustBookView;
use vstd::prelude::*;

verus! {

/// The state of a running program.
pub struct AppState {
    pub active_identity: Option<UnlockedIdentity>,
    /// The peer id of the network node, if one runs.
    pub p2p: Option<PeerId>,
    pub listen_addr: Multiaddr,
    pub bootstrap_peers: Vec<Multiaddr>,
    pub relay_server: bool,
    pub external_addrs: Vec<Multiaddr>,
    pub rooms: RoomBook,
    pub invites: InviteBook,
    pub trust: TrustBook,
    pub message_policy: MessagePolicy,
    pub debug_enabled: bool,
    pub session_lock_alias: Option<String>,
}

/// The plain values held by a [`AppState`].
#[verifier::ext_equal]
pub struct AppStateView {
    pub active_identity: Option<UnlockedIdentityView>,
    pub p2p: Option<Seq<char>>,
    pub listen_addr: MultiaddrView,
    pub bootstrap_peers: Seq<MultiaddrView>,
    pub relay_server: bool,
    pub external_addrs: Seq<MultiaddrView>,
    pub rooms: RoomBookView,
    pub invites: InviteBookView,
    pub trust: TrustBookView,
    pub message_policy: MessagePolicyView,
    pub debug_enabled: bool,
    pub session_lock_alias: Option<Seq<char>>,
}

impl View for AppState {
    type V = AppStateView;

    open spec fn view(&self) -> AppStateView {
        AppStateView {
            active_identity: (match self.active_identity { Some(x) => Some(x@), None => None }),
            p2p: (match self.p2p { Some(x) => Some(x@), None => None }),
            listen_addr: self.listen_addr@,
            bootstrap_peers: self.bootstrap_peers@.map_values(|x: Multiaddr| x@),
            relay_server: self.relay_server,
            external_addrs: self.external_addrs@.map_values(|x: Multiaddr| x@),
            rooms: self.rooms@,
            invites: self.invites@,
            trust: self.trust@,
            message_policy: self.message_policy@,
            debug_enabled: self.debug_enabled,
            session_lock_alias: text::opt_text(self.session_lock_alias),
        }
    }
}

/// The state of a program that just started.
pub open spec fn fresh_state(config: StartupConfigView) -> AppStateView {
    AppStateView {
        active_identity: None,
        p2p: None,
        listen_addr: config.listen_addr,
        bootstrap_peers: config.bootstrap_peers,
        relay_server: config.relay_server,
        external_addrs: config.external_addrs,
        rooms: room::empty_rooms(),
        invites: invite::empty_invites(),
        trust: trust::empty_trust(),
        message_policy: policy::strict_policy(),
        debug_enabled: false,
        session_lock_alias: None,
    }
}

impl AppState {
    /// The state of a program that just started.
    pub fn new(config: &StartupConfig) -> (res: AppState)
        ensures
            res@ == fresh_state(config@),
    {
        AppState {
            active_identity: None,
            p2p: None,
            listen_addr: config.listen_addr.duplicate(),
            bootstrap_peers: Multiaddr::duplicate_all(&config.bootstrap_peers),
            relay_server: config.relay_server,
            external_addrs: Multiaddr::duplicate_all(&config.external_addrs),
            rooms: RoomBook::new(),
            invites: InviteBook::new(),
            trust: TrustBook::new(),
            message_policy: MessagePolicy::strict(),
            debug_enabled: false,
            session_lock_alias: None,
        }
    }
}

/// The name of a room with a mark if it is ephemeral.
pub open spec fn room_mark(room: RoomSessionView) -> Seq<char> {
    room.room_id + (if room.ephemeral {
        "*"@
    } else {
        ""@
    })
}

/// Show the name of a room with a mark if it is ephemeral.
pub fn marked_room(room: &RoomSession) -> (res: String)
    ensures
        res@ == room_mark(room@),
{
    let mark = if room.ephemeral {
        "*"
    } else {
        ""
    };
    cat2(room.room_id.as_str(), mark)
}

/// The prompt: who is logged in, and which room is active.
pub open spec fn prompt_text(state: AppStateView) -> Seq<char> {
    match (state.active_identity, room::active_session(state.rooms)) {
        (Some(identity), Some(room)) => "dogel:"@ + identity.alias + "["@ + room_mark(room) + "]> "@,
        (Some(identity), None) => "dogel:"@ + identity.alias + "> "@,
        (None, Some(room)) => "dogel["@ + room_mark(room) + "]> "@,
        (None, None) => "dogel> "@,
    }
}

/// Build the prompt.
pub fn build_prompt(state: &AppState) -> (res: String)
    ensures
        res@ == prompt_text(state@),
{
    match (&state.active_identity, state.rooms.active()) {
        (Some(identity), Some(room)) => cat5(
            "dogel:",
            identity.alias.as_str(),
            "[",
            marked_room(room).as_str(),
            "]> ",
        ),
        (Some(identity), None) => cat3("dogel:", identity.alias.as_str(), "> "),
        (None, Some(room)) => cat3("dogel[", marked_room(room).as_str(), "]> "),
        (None, None) => "dogel> ".to_owned(),
    }
}

/// The prompt names who is logged in and which room is active, with a star where the room is
/// ephemeral.
pub proof fn law_the_prompt_names_identity_and_room(state: AppStateView)
    ensures
        "dogel"@.is_prefix_of(prompt_text(state)),
        "> "@.is_suffix_of(prompt_text(state)),
        state.active_identity matches Some(identity) ==> text::occurs_in(
            ":"@ + identity.alias,
            prompt_text(state),
        ),
        room::active_session(state.rooms) matches Some(room) ==> text::occurs_in(
            "["@ + room.room_id + if room.ephemeral {
                "*]"@
            } else {
                "]"@
            },
            prompt_text(state),
        ),
        state.active_identity is None && room::active_session(state.rooms) is None ==> prompt_text(state)
            == "dogel> "@,
{
    reveal_strlit("dogel");
    reveal_strlit("dogel> ");
    reveal_strlit("dogel:");
    reveal_strlit("dogel[");
    reveal_strlit("> ");
    reveal_strlit("]> ");
    reveal_strlit(":");
    reveal_strlit("[");
    reveal_strlit("]");
    reveal_strlit("*");
    reveal_strlit("*]");
    reveal_strlit("");
    let p = prompt_text(state);
    assert(p.subrange(0, 5) =~= "dogel"@);
    assert(p.subrange(p.len() - 2, p.len() as int) =~= "> "@);
    match state.active_identity {
        Some(identity) => {
            let name = ":"@ + identity.alias;
            assert(p.subrange(5, 5int + name.len()) =~= name);
        },
        None => {},
    }
    match room::active_session(state.rooms) {
        Some(room) => {
            let name = "["@ + room.room_id + if room.ephemeral {
                "*]"@
            } else {
                "]"@
            };
            let at = p.len() - 2 - name.len();
            assert(p.subrange(at, at + name.len()) =~= name);
        },
        None => {},
    }
}

/// A program starts with the settings it was given, with nobody logged in, without rooms and
/// invitations, and with the strict policy.
pub proof fn law_fresh_sessions_are_empty(config: StartupConfigView)
    ensures
        ({
            let state = fresh_state(config);
            &&& state.active_identity is None && state.p2p is None
            &&& state.session_lock_alias is None
            &&& state.listen_addr == config.listen_addr
            &&& state.bootstrap_peers == config.bootstrap_peers
            &&& state.relay_server == config.relay_server
            &&& state.external_addrs == config.external_addrs
            &&& state.rooms.rooms.dom().is_empty() && state.rooms.active_room is None
            &&& state.invites.pending.dom().is_empty()
            &&& state.trust.observed.dom().is_empty() && state.trust.identity_alias is None
            &&& state.message_policy.mode == PolicyMode::Strict
            &&& state.message_policy.reject_links
            &&& !state.debug_enabled
        }),
{
    let state = fresh_state(config);
    assert(state.rooms.rooms.dom() =~= Set::empty());
    assert(state.invites.pending.dom() =~= Set::empty());
    assert(state.trust.observed.dom() =~= Set::empty());
}

} // verus!
