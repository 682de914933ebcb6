//! What happens to messages and invites that arrive.

use crate::command::UserCommandView;
use crate::crypto;
use crate::crypto::fingerprint_from_public_key;
use crate::dispatch;
use crate::dispatch::PeersAnswer;
use crate::dispatch::PeersUseView;
use crate::invite;
use crate::invite::file_invite;
use crate::invite::InviteBookView;
use crate::invite::PendingInvite;
use crate::invite::PendingInviteView;
use crate::invite::verify_invite;
use crate::login;
use crate::message;
use crate::message::receive_message;
use crate::message::record_room_history;
use crate::message::render_message;
use crate::peer::PeerId;
use crate::pins;
use crate::pins::PinsRead;
use crate::pins::PinsReadView;
use crate::pins::read_pins;
use crate::primitives;
use crate::primitives::base64_decode;
use crate::primitives::Outcome;
use crate::protocol::PlainMessage;
use crate::protocol::PlainMessageView;
use crate::protocol::RoomInvite;
use crate::protocol::RoomInviteView;
use crate::protocol::SignedEncryptedEnvelope;
use crate::protocol::SignedEncryptedEnvelopeView;
use crate::replay;
use crate::replay::REPLAY_CAPACITY;
use crate::room;
use crate::session;
use crate::session::AppState;
use crate::session::AppStateView;
use crate::startup::StartupConfigView;
use crate::storage::IdentityStore;
use crate::storage::RoomHistoryDirection;
use crate::storage::RoomHistoryEntry;
use crate::storage::RoomHistoryEntryView;
use crate::storage::TrustedPeerRecord;
use crate::storage::TrustedPeerRecordView;
use crate::storage::UnlockedIdentityView;
use crate::text;
use crate::text::cat2;
use crate::text::cat3;
use crate::text::Lines;
use crate::trust;
use crate::trust::classify_peer;
use crate::trust::InboundTrustStatusView;
use crate::trust::observe_peer;
use vstd::prelude::*;

verus! {

/// What is said of a message that is not accepted.
pub open spec fn message_rejected(reason: Seq<char>) -> Seq<Seq<char>> {
    seq![""@, "[msg] rejected inbound envelope: "@ + reason]
}

/// Tell of a message that is not accepted.
pub fn reject_message(reason: &str) -> (res: Lines)
    ensures
        res@ == message_rejected(reason@),
{
    let mut lines = Lines::new();
    lines.say("");
    lines.add(cat2("[msg] rejected inbound envelope: ", reason));
    assert(lines@ =~= message_rejected(reason@));
    lines
}

/// What is said of an invite that is not accepted.
pub open spec fn invite_rejected(reason: Seq<char>) -> Seq<Seq<char>> {
    seq![""@, "[invite] rejected inbound invite: "@ + reason]
}

/// Tell of an invite that is not accepted.
pub fn refuse_invite(reason: &str) -> (res: Lines)
    ensures
        res@ == invite_rejected(reason@),
{
    let mut lines = Lines::new();
    lines.say("");
    lines.add(cat2("[invite] rejected inbound invite: ", reason));
    assert(lines@ =~= invite_rejected(reason@));
    lines
}

/// A message that was accepted: the history entry to store with the key of its room, the
/// identity whose pinned peers decide on trust, and the fingerprint of the signing key.
pub struct AcceptedMessage {
    pub entry: Option<RoomHistoryEntry>,
    pub room_key: [u8; 32],
    pub alias: Option<String>,
    pub fingerprint: String,
}

/// The plain values held by a [`AcceptedMessage`].
#[verifier::ext_equal]
pub struct AcceptedMessageView {
    pub entry: Option<RoomHistoryEntryView>,
    pub room_key: Seq<u8>,
    pub alias: Option<Seq<char>>,
    pub fingerprint: Seq<char>,
}

impl View for AcceptedMessage {
    type V = AcceptedMessageView;

    open spec fn view(&self) -> AcceptedMessageView {
        AcceptedMessageView {
            entry: (match self.entry { Some(x) => Some(x@), None => None }),
            room_key: self.room_key@,
            alias: text::opt_text(self.alias),
            fingerprint: self.fingerprint@,
        }
    }
}

/// The fingerprint of the key that signed an envelope.
pub open spec fn envelope_fingerprint(envelope: SignedEncryptedEnvelopeView) -> Seq<char> {
    match primitives::base64_bytes(envelope.sender_signing_public_key_b64) {
        Ok(public_key) => crypto::fingerprint(public_key),
        Err(_) => Seq::empty(),
    }
}

/// The history entry of a message that was accepted. Nothing is kept without an identity.
pub open spec fn inbound_entry(
    state: AppStateView,
    peer: Seq<char>,
    envelope: SignedEncryptedEnvelopeView,
    plain: PlainMessageView,
) -> Option<RoomHistoryEntryView> {
    if state.trust.identity_alias is None {
        None
    } else {
        message::history_entry(
            state.rooms.rooms[envelope.room_id],
            RoomHistoryDirection::Inbound,
            plain.message_id,
            peer,
            envelope.sender_alias,
            plain.body,
            plain.timestamp_ms,
        )
    }
}

/// What is done with a decrypted message: it is remembered, and the key of its sender is noted.
pub open spec fn message_taken(
    state: AppStateView,
    peer: Seq<char>,
    envelope: SignedEncryptedEnvelopeView,
    plain: PlainMessageView,
    now_ms: u64,
) -> (AppStateView, Result<AcceptedMessageView, Seq<char>>) {
    match message::receive_error(state.rooms, peer, envelope, plain) {
        Some(e) => (state, Err(e)),
        None => (
            AppStateView {
                rooms: message::received(state.rooms, peer, envelope, plain),
                trust: trust::observed(
                    state.trust,
                    trust::observation(
                        peer,
                        envelope.sender_alias,
                        envelope.sender_signing_public_key_b64,
                        envelope_fingerprint(envelope),
                        now_ms,
                    ),
                ),
                ..state
            },
            Ok(
                AcceptedMessageView {
                    entry: inbound_entry(state, peer, envelope, plain),
                    room_key: state.rooms.rooms[envelope.room_id].room_key,
                    alias: state.trust.identity_alias,
                    fingerprint: envelope_fingerprint(envelope),
                },
            ),
        ),
    }
}

/// The fingerprint of the key that signed an envelope.
fn fingerprint_of(envelope: &SignedEncryptedEnvelope) -> (res: String)
    ensures
        res@ == envelope_fingerprint(envelope@),
{
    match base64_decode(envelope.sender_signing_public_key_b64.as_str()) {
        Ok(public_key) => fingerprint_from_public_key(public_key.as_slice()),
        Err(_) => String::new(),
    }
}

impl AppState {
    /// Take a decrypted message.
    pub fn take_inbound_message(
        &mut self,
        peer: &PeerId,
        envelope: &SignedEncryptedEnvelope,
        plain: &PlainMessage,
        now_ms: u64,
    ) -> (res: Result<AcceptedMessage, String>)
        ensures
            final(self)@ == message_taken(old(self)@, peer@, envelope@, plain@, now_ms).0,
            match res {
                Ok(accepted) => message_taken(old(self)@, peer@, envelope@, plain@, now_ms).1
                    == Ok::<AcceptedMessageView, Seq<char>>(accepted@),
                Err(e) => message_taken(old(self)@, peer@, envelope@, plain@, now_ms).1 == Err::<
                    AcceptedMessageView,
                    Seq<char>,
                >(e@),
            },
    {
        let ghost state = self@;
        if let Err(e) = receive_message(&mut self.rooms, peer, envelope, plain) {
            assert(self@ =~= state);
            return Err(e);
        }
        let fingerprint = fingerprint_of(envelope);
        let alias = observe_peer(
            &mut self.trust,
            peer,
            envelope.sender_alias.as_str(),
            envelope.sender_signing_public_key_b64.as_str(),
            fingerprint.as_str(),
            now_ms,
        );
        let (entry, room_key) = match self.rooms.rooms.get(envelope.room_id.as_str()) {
            Some(room) => {
                let entry = if alias.is_none() {
                    None
                } else {
                    record_room_history(
                        room,
                        RoomHistoryDirection::Inbound,
                        plain.message_id.as_str(),
                        peer.as_text(),
                        envelope.sender_alias.as_str(),
                        plain.body.as_str(),
                        plain.timestamp_ms,
                    )
                };
                (entry, room.room_key)
            },
            None => (None, [0;32]),
        };
        Ok(AcceptedMessage { entry, room_key, alias, fingerprint })
    }
}

/// The pinned peers of an identity, if there is an identity; nothing if they cannot be known.
pub open spec fn pins_for(alias: Option<Seq<char>>, read: PinsReadView) -> Option<
    Option<Seq<TrustedPeerRecordView>>,
> {
    match alias {
        None => Some(None),
        Some(a) => match pins::pins_of(a, read) {
            Some(pinned) => Some(Some(pinned)),
            None => None,
        },
    }
}

/// Read the pinned peers of an identity, if there is one.
fn read_pins_for(store: &IdentityStore, alias: &Option<String>, read: PinsRead) -> (res: Option<
    Option<Vec<TrustedPeerRecord>>,
>)
    ensures
        match res {
            Some(pinned) => pins_for(text::opt_text(*alias), read@) == Some(trust::pinned_view(pinned)),
            None => pins_for(text::opt_text(*alias), read@) is None,
        },
{
    match alias {
        None => Some(None),
        Some(alias) => match read_pins(store, alias.as_str(), read) {
            Some(pinned) => Some(Some(pinned)),
            None => None,
        },
    }
}

/// What is shown of an accepted message.
pub open spec fn shown_message(
    peer: Seq<char>,
    envelope: SignedEncryptedEnvelopeView,
    body: Seq<char>,
    accepted: AcceptedMessageView,
    read: PinsReadView,
) -> Seq<Seq<char>> {
    match pins_for(accepted.alias, read) {
        None => message_rejected("failed to load trusted peers"@),
        Some(pinned) => message::message_lines(
            envelope,
            accepted.fingerprint,
            body,
            peer,
            trust::trust_status(
                pinned,
                peer,
                envelope.sender_signing_public_key_b64,
                accepted.fingerprint,
            ),
        ),
    }
}

/// Show an accepted message.
pub fn show_inbound_message(
    store: &IdentityStore,
    peer: &PeerId,
    envelope: &SignedEncryptedEnvelope,
    body: &str,
    accepted: &AcceptedMessage,
    read: PinsRead,
) -> (res: Lines)
    ensures
        res@ == shown_message(peer@, envelope@, body@, accepted@, read@),
{
    match read_pins_for(store, &accepted.alias, read) {
        None => reject_message("failed to load trusted peers"),
        Some(pinned) => {
            let status = classify_peer(
                &pinned,
                peer,
                envelope.sender_signing_public_key_b64.as_str(),
                accepted.fingerprint.as_str(),
            );
            render_message(envelope, accepted.fingerprint.as_str(), body, peer, &status)
        },
    }
}

/// What is done with an invite that arrives: the key of its sender is noted.
pub open spec fn invite_taken(
    state: AppStateView,
    peer: Seq<char>,
    invite: RoomInviteView,
    now_ms: u64,
) -> (AppStateView, Result<PendingInviteView, Seq<char>>) {
    match invite::invite_error(peer, invite) {
        Some(e) => (state, Err(e)),
        None => {
            let pending = invite::pending_invite(peer, invite, now_ms);
            (
                AppStateView {
                    trust: trust::observed(
                        state.trust,
                        trust::observation(
                            peer,
                            invite.sender_alias,
                            invite.sender_signing_public_key_b64,
                            pending.sender_fingerprint,
                            now_ms,
                        ),
                    ),
                    ..state
                },
                Ok(pending),
            )
        },
    }
}

/// What an invite whose sender is known does: it waits for an answer, and is shown.
pub open spec fn invite_filed(
    state: AppStateView,
    pending: PendingInviteView,
    key_b64: Seq<char>,
    read: PinsReadView,
) -> (AppStateView, Seq<Seq<char>>) {
    match pins_for(state.trust.identity_alias, read) {
        None => (state, invite_rejected("failed to load trusted peers"@)),
        Some(pinned) => (
            AppStateView {
                invites: InviteBookView {
                    pending: state.invites.pending.insert(pending.invite_id, pending),
                },
                ..state
            },
            invite::invite_lines(
                pending,
                trust::trust_status(
                    pinned,
                    pending.sender_peer_id,
                    key_b64,
                    pending.sender_fingerprint,
                ),
            ),
        ),
    }
}

impl AppState {
    /// Take an invite that arrives.
    pub fn take_inbound_invite(&mut self, peer: &PeerId, invite: &RoomInvite, now_ms: u64) -> (res:
        Result<PendingInvite, String>)
        ensures
            final(self)@ == invite_taken(old(self)@, peer@, invite@, now_ms).0,
            match res {
                Ok(pending) => invite_taken(old(self)@, peer@, invite@, now_ms).1 == Ok::<
                    PendingInviteView,
                    Seq<char>,
                >(pending@),
                Err(e) => invite_taken(old(self)@, peer@, invite@, now_ms).1 == Err::<
                    PendingInviteView,
                    Seq<char>,
                >(e@),
            },
    {
        match verify_invite(peer, invite, now_ms) {
            Err(e) => Err(e),
            Ok(pending) => {
                let _ = observe_peer(
                    &mut self.trust,
                    peer,
                    invite.sender_alias.as_str(),
                    invite.sender_signing_public_key_b64.as_str(),
                    pending.sender_fingerprint.as_str(),
                    now_ms,
                );
                Ok(pending)
            },
        }
    }

    /// File an invite that was taken, and show it.
    pub fn file_inbound_invite(
        &mut self,
        store: &IdentityStore,
        pending: PendingInvite,
        key_b64: &str,
        read: PinsRead,
    ) -> (res: Lines)
        ensures
            final(self)@ == invite_filed(old(self)@, pending@, key_b64@, read@).0,
            res@ == invite_filed(old(self)@, pending@, key_b64@, read@).1,
    {
        match read_pins_for(store, &self.trust.identity_alias, read) {
            None => refuse_invite("failed to load trusted peers"),
            Some(pinned) => {
                let status = classify_peer(
                    &pinned,
                    &pending.sender_peer_id,
                    key_b64,
                    pending.sender_fingerprint.as_str(),
                );
                file_invite(&mut self.invites, pending, &status)
            },
        }
    }
}

/// What is said where a message cannot be put into the history.
pub open spec fn history_warning(direction: RoomHistoryDirection) -> Seq<char> {
    "[history] warning: failed to persist "@ + (match direction {
        RoomHistoryDirection::Inbound => "inbound"@,
        RoomHistoryDirection::Outbound => "outbound"@,
    }) + " message: failed to append encrypted room history"@
}

/// Warn that a message cannot be put into the history.
pub fn warn_of_history(direction: RoomHistoryDirection) -> (res: String)
    ensures
        res@ == history_warning(direction),
{
    let word = match direction {
        RoomHistoryDirection::Inbound => "inbound",
        RoomHistoryDirection::Outbound => "outbound",
    };
    cat3(
        "[history] warning: failed to persist ",
        word,
        " message: failed to append encrypted room history",
    )
}

/// A message that is not accepted changes nothing, and neither does an invite.
pub proof fn law_rejected_input_changes_nothing(
    state: AppStateView,
    peer: Seq<char>,
    envelope: SignedEncryptedEnvelopeView,
    plain: PlainMessageView,
    invite: RoomInviteView,
    now_ms: u64,
)
    ensures
        message_taken(state, peer, envelope, plain, now_ms).1 is Err ==> message_taken(
            state,
            peer,
            envelope,
            plain,
            now_ms,
        ).0 == state,
        invite_taken(state, peer, invite, now_ms).1 is Err ==> invite_taken(
            state,
            peer,
            invite,
            now_ms,
        ).0 == state,
{
}

/// What every reachable state keeps: the active room exists, rooms are filed under their ids, no
/// ephemeral room keeps a history, and each room can tell a message that it remembers.
pub open spec fn session_sound(state: AppStateView) -> bool {
    &&& room::rooms_sound(state.rooms)
    &&& forall|room_id: Seq<char>| #[trigger]
        state.rooms.rooms.contains_key(room_id) ==> {
            let cache = state.rooms.rooms[room_id].replay_cache;
            replay::cache_consistent(cache) && cache.capacity == REPLAY_CAPACITY
        }
}

/// A program that just started is sound, and stays so over a login.
pub proof fn law_fresh_session_is_sound(
    config: StartupConfigView,
    state: AppStateView,
    identity: UnlockedIdentityView,
    local: Seq<char>,
)
    ensures
        session_sound(session::fresh_state(config)),
        session_sound(state) ==> session_sound(login::logged_in(state, identity, local)),
{
}

/// Every command keeps the session sound.
pub proof fn law_commands_keep_the_session_sound(
    state: AppStateView,
    command: UserCommandView,
    new_room_id: Seq<char>,
    seed: Seq<u8>,
)
    requires
        session_sound(state),
    ensures
        session_sound(dispatch::dispatched(state, command, new_room_id, seed).0),
{
    replay::law_empty_cache_consistent(REPLAY_CAPACITY);
    if let Some(local) = state.p2p {
        match command {
            UserCommandView::Join { room_id, secret, ephemeral } => {
                let any = arbitrary();
                room::law_commands_keep_rooms_sound(
                    state.rooms,
                    any,
                    local,
                    local,
                    room_id,
                    secret,
                    seed,
                    ephemeral,
                );
            },
            UserCommandView::CreateRoom { room_id, ephemeral } => {
                if let Some(identity) = state.active_identity {
                    room::law_commands_keep_rooms_sound(
                        state.rooms,
                        identity,
                        local,
                        local,
                        new_room_id,
                        local,
                        seed,
                        ephemeral,
                    );
                }
            },
            UserCommandView::AcceptInvite { invite_id } => {
                invite::law_invites_keep_rooms_sound(
                    state.invites,
                    state.rooms,
                    arbitrary(),
                    local,
                    local,
                    invite_id,
                    0,
                );
            },
            _ => {},
        }
    }
    if let UserCommandView::History { enabled } = command {
        if let Some(identity) = state.active_identity {
            room::law_commands_keep_rooms_sound(
                state.rooms,
                identity,
                identity.alias,
                identity.alias,
                identity.alias,
                identity.alias,
                seed,
                enabled,
            );
        }
    }
}

/// What follows a command once the connected peers are known keeps the session sound.
pub proof fn law_peers_keep_the_session_sound(
    state: AppStateView,
    wanted: PeersUseView,
    peers: PeersAnswer,
    now_ms: u64,
    new_id: Seq<char>,
)
    requires
        session_sound(state),
    ensures
        session_sound(dispatch::peers_step(state, wanted, peers, now_ms, new_id).0),
{
    replay::law_empty_cache_consistent(REPLAY_CAPACITY);
    if let Some(local) = state.p2p {
        match wanted {
            PeersUseView::Direct { remote, secret, ephemeral } => {
                room::law_commands_keep_rooms_sound(
                    state.rooms,
                    arbitrary(),
                    local,
                    remote,
                    local,
                    secret,
                    Seq::empty(),
                    ephemeral,
                );
            },
            PeersUseView::AddPeer { peer } => {
                room::law_commands_keep_rooms_sound(
                    state.rooms,
                    arbitrary(),
                    local,
                    peer,
                    local,
                    local,
                    Seq::empty(),
                    false,
                );
            },
            PeersUseView::Invite { peer } => {
                if let Some(identity) = state.active_identity {
                    invite::law_invites_keep_rooms_sound(
                        state.invites,
                        state.rooms,
                        identity,
                        local,
                        peer,
                        new_id,
                        now_ms,
                    );
                }
            },
            _ => {},
        }
    }
}

/// What arrives keeps the session sound, and a message that was accepted once is not accepted
/// again.
pub proof fn law_input_keeps_the_session_sound(
    state: AppStateView,
    peer: Seq<char>,
    envelope: SignedEncryptedEnvelopeView,
    plain: PlainMessageView,
    invite: RoomInviteView,
    pending: PendingInviteView,
    key_b64: Seq<char>,
    read: PinsReadView,
    now_ms: u64,
    later_ms: u64,
)
    requires
        session_sound(state),
    ensures
        session_sound(message_taken(state, peer, envelope, plain, now_ms).0),
        session_sound(invite_taken(state, peer, invite, now_ms).0),
        session_sound(invite_filed(state, pending, key_b64, read).0),
        message_taken(
            message_taken(state, peer, envelope, plain, now_ms).0,
            peer,
            envelope,
            plain,
            later_ms,
        ).1 is Err,
{
    if message::receive_error(state.rooms, peer, envelope, plain) is None {
        message::law_replay_is_rejected(state.rooms, peer, envelope, plain);
        let after = message::received(state.rooms, peer, envelope, plain);
        let before = state.rooms;
        assert forall|room_id: Seq<char>| #[trigger]
            after.rooms.contains_key(room_id) && room_id != envelope.room_id implies before.rooms.contains_key(
        room_id) && after.rooms[room_id] == before.rooms[room_id] by {
            assert(after.rooms.remove(envelope.room_id).contains_key(room_id));
        }
        assert(after.rooms[envelope.room_id].replay_cache.capacity
            == before.rooms[envelope.room_id].replay_cache.capacity) by {
            replay::lemma_capacity_kept(
                before.rooms[envelope.room_id].replay_cache,
                message::replay_key(envelope, plain),
            );
        }
    }
}

/// What follows from an accepted message: the key of its sender is the one that was last seen of
/// it, nothing is noted of anybody else, the message is recorded exactly where its room keeps a
/// history and an identity is unlocked, and the record holds what was said, by whom and when.
pub proof fn law_accepted_messages_are_noted(
    state: AppStateView,
    peer: Seq<char>,
    envelope: SignedEncryptedEnvelopeView,
    plain: PlainMessageView,
    now_ms: u64,
)
    requires
        message_taken(state, peer, envelope, plain, now_ms).1 is Ok,
    ensures
        ({
            let (after, outcome) = message_taken(state, peer, envelope, plain, now_ms);
            let accepted = outcome->Ok_0;
            let room = state.rooms.rooms[envelope.room_id];
            &&& after.rooms == message::received(state.rooms, peer, envelope, plain)
            &&& after == (AppStateView { rooms: after.rooms, trust: after.trust, ..state })
            &&& after.trust.identity_alias == state.trust.identity_alias
            &&& after.trust.observed.contains_key(peer)
            &&& after.trust.observed[peer].peer_id == peer
            &&& after.trust.observed[peer].alias == envelope.sender_alias
            &&& after.trust.observed[peer].signing_public_key_b64
                == envelope.sender_signing_public_key_b64
            &&& after.trust.observed[peer].last_seen_at_ms == now_ms
            &&& after.trust.observed[peer].fingerprint == accepted.fingerprint
            &&& forall|other: Seq<char>|
                other != peer && state.trust.observed.contains_key(other)
                    ==> after.trust.observed.contains_key(other)
                    && #[trigger] after.trust.observed[other] == state.trust.observed[other]
            &&& primitives::base64_bytes(envelope.sender_signing_public_key_b64) matches Outcome::Ok(key)
                ==> accepted.fingerprint == crypto::fingerprint(key)
            &&& accepted.room_key == room.room_key
            &&& accepted.alias == state.trust.identity_alias
            &&& accepted.entry is Some <==> room.history_enabled && !room.ephemeral
                && state.trust.identity_alias is Some
            &&& accepted.entry matches Some(entry) ==> {
                &&& entry.body == plain.body
                &&& entry.message_id == plain.message_id
                &&& entry.timestamp_ms == plain.timestamp_ms
                &&& entry.peer_id == peer
                &&& entry.alias == envelope.sender_alias
                &&& entry.direction == RoomHistoryDirection::Inbound
                &&& entry.room_id == room.room_id
            }
        }),
{
}

/// Whatever is pinned, some line shown for an accepted message ends with its text, and the mark
/// in front tells whether the key is pinned, unknown or changed. Only where the pins cannot be
/// known, the message is not shown.
pub proof fn law_accepted_messages_are_shown(
    peer: Seq<char>,
    envelope: SignedEncryptedEnvelopeView,
    body: Seq<char>,
    accepted: AcceptedMessageView,
    read: PinsReadView,
)
    requires
        pins_for(accepted.alias, read) is Some,
    ensures
        ({
            let lines = shown_message(peer, envelope, body, accepted, read);
            let pinned = pins_for(accepted.alias, read)->0;
            let mark = match trust::trust_status(
                pinned,
                peer,
                envelope.sender_signing_public_key_b64,
                accepted.fingerprint,
            ) {
                InboundTrustStatusView::Trusted => ""@,
                InboundTrustStatusView::Untrusted => "[untrusted] "@,
                InboundTrustStatusView::KeyChanged { .. } => "[key-changed] "@,
            };
            exists|i: int|
                0 <= i < lines.len() && #[trigger] lines[i] == "["@ + envelope.room_id + "] "@ + mark
                    + envelope.sender_alias + " ["@ + accepted.fingerprint + "]: "@ + body
                    && body.is_suffix_of(lines[i])
        }),
{
    let pinned = pins_for(accepted.alias, read)->0;
    let status = trust::trust_status(
        pinned,
        peer,
        envelope.sender_signing_public_key_b64,
        accepted.fingerprint,
    );
    let mark = match status {
        InboundTrustStatusView::Trusted => ""@,
        InboundTrustStatusView::Untrusted => "[untrusted] "@,
        InboundTrustStatusView::KeyChanged { .. } => "[key-changed] "@,
    };
    message::law_messages_are_shown(envelope, accepted.fingerprint, body, peer, status);
    let said = "["@ + envelope.room_id + "] "@ + mark + envelope.sender_alias + " ["@
        + accepted.fingerprint + "]: "@ + body;
    let lines = message::message_lines(envelope, accepted.fingerprint, body, peer, status);
    let i = choose|i: int|
        0 <= i < lines.len() && #[trigger] lines[i] == said && body.is_suffix_of(lines[i]);
    assert(shown_message(peer, envelope, body, accepted, read)[i] == said);
}

/// An invite that arrives is refused exactly where it is not in order. Otherwise the key of its
/// sender is noted, and it waits under its id with what it said until it is answered; the other
/// invites, and the rooms, stay as they are.
pub proof fn law_invites_wait(
    state: AppStateView,
    peer: Seq<char>,
    invite: RoomInviteView,
    key_b64: Seq<char>,
    read: PinsReadView,
    now_ms: u64,
)
    ensures
        ({
            let (after, outcome) = invite_taken(state, peer, invite, now_ms);
            &&& outcome is Ok <==> invite::invite_error(peer, invite) is None
            &&& after.rooms == state.rooms && after.invites == state.invites
            &&& outcome matches Ok(pending) ==> {
                &&& pending == invite::pending_invite(peer, invite, now_ms)
                &&& after.trust.observed.contains_key(peer)
                &&& after.trust.observed[peer].signing_public_key_b64
                    == invite.sender_signing_public_key_b64
                &&& after.trust.observed[peer].alias == invite.sender_alias
                &&& after.trust.observed[peer].fingerprint == pending.sender_fingerprint
                &&& after.trust.observed.remove(peer) == state.trust.observed.remove(peer)
                &&& pins_for(after.trust.identity_alias, read) is Some ==> {
                    let (filed, lines) = invite_filed(after, pending, key_b64, read);
                    &&& filed.invites.pending == state.invites.pending.insert(
                        invite.invite_id,
                        pending,
                    )
                    &&& filed.rooms == state.rooms
                    &&& lines == invite::invite_lines(
                        pending,
                        trust::trust_status(
                            pins_for(after.trust.identity_alias, read)->0,
                            peer,
                            key_b64,
                            pending.sender_fingerprint,
                        ),
                    )
                }
            }
        }),
{
    let after = invite_taken(state, peer, invite, now_ms).0;
    assert(after.trust.observed.remove(peer) =~= state.trust.observed.remove(peer));
}

/// What is said of a message or an invite that is refused, and of one that could not be recorded,
/// tells why.
pub proof fn law_refusals_are_told(
    peer: Seq<char>,
    envelope: SignedEncryptedEnvelopeView,
    body: Seq<char>,
    accepted: AcceptedMessageView,
    read: PinsReadView,
    reason: Seq<char>,
)
    ensures
        message_rejected(reason).len() > 0 && reason.is_suffix_of(message_rejected(reason).last()),
        invite_rejected(reason).len() > 0 && reason.is_suffix_of(invite_rejected(reason).last()),
        pins_for(accepted.alias, read) is None ==> {
            let lines = shown_message(peer, envelope, body, accepted, read);
            lines.len() > 0 && "failed to load trusted peers"@.is_suffix_of(lines.last())
        },
        history_warning(RoomHistoryDirection::Inbound) != history_warning(
            RoomHistoryDirection::Outbound,
        ),
{
    let a = "[msg] rejected inbound envelope: "@;
    let b = "[invite] rejected inbound invite: "@;
    let f = "failed to load trusted peers"@;
    assert((a + reason).subrange((a + reason).len() - reason.len(), (a + reason).len() as int)
        =~= reason);
    assert((b + reason).subrange((b + reason).len() - reason.len(), (b + reason).len() as int)
        =~= reason);
    assert((a + f).subrange((a + f).len() - f.len(), (a + f).len() as int) =~= f);
    reveal_strlit("inbound");
    reveal_strlit("outbound");
    let head = "[history] warning: failed to persist "@;
    let x = history_warning(RoomHistoryDirection::Inbound);
    let y = history_warning(RoomHistoryDirection::Outbound);
    assert(x[head.len() as int] == 'i');
    assert(y[head.len() as int] == 'o');
}

} // verus!
