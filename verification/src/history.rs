//! What holds over a whole session, whatever happens in it.

use crate::command::UserCommandView;
use crate::dispatch;
use crate::dispatch::PeersAnswer;
use crate::dispatch::PeersUseView;
use crate::inbound;
use crate::invite::PendingInviteView;
use crate::login;
use crate::message;
use crate::pins::PinsReadView;
use crate::protocol::PlainMessageView;
use crate::protocol::RoomInviteView;
use crate::protocol::SignedEncryptedEnvelopeView;
use crate::replay;
use crate::replay::REPLAY_CAPACITY;
use crate::room::RoomBookView;
use crate::session::AppStateView;
use crate::storage::UnlockedIdentityView;
use vstd::prelude::*;

verus! {

/// What can happen in a session.
#[verifier::ext_equal]
pub enum SessionEvent {
    /// An identity is unlocked and its network node runs.
    Login { identity: UnlockedIdentityView, local: Seq<char> },
    /// A command. The id and the seed are those of a room that it creates.
    Command { command: UserCommandView, new_room_id: Seq<char>, seed: Seq<u8> },
    /// A command goes on with the connected peers. The id is that of a message or an invite.
    Peers { wanted: PeersUseView, peers: PeersAnswer, now_ms: u64, new_id: Seq<char> },
    /// A decrypted message arrives.
    Message {
        peer: Seq<char>,
        envelope: SignedEncryptedEnvelopeView,
        plain: PlainMessageView,
        now_ms: u64,
    },
    /// An invite arrives.
    Invite { peer: Seq<char>, invite: RoomInviteView, now_ms: u64 },
    /// An invite is filed.
    Filed { pending: PendingInviteView, key_b64: Seq<char>, read: PinsReadView },
    /// The session lock is given up.
    LockTaken,
}

/// A session after something happened.
pub open spec fn session_after(state: AppStateView, event: SessionEvent) -> AppStateView {
    match event {
        SessionEvent::Login { identity, local } => login::logged_in(state, identity, local),
        SessionEvent::Command { command, new_room_id, seed } => dispatch::dispatched(
            state,
            command,
            new_room_id,
            seed,
        ).0,
        SessionEvent::Peers { wanted, peers, now_ms, new_id } => dispatch::peers_step(
            state,
            wanted,
            peers,
            now_ms,
            new_id,
        ).0,
        SessionEvent::Message { peer, envelope, plain, now_ms } => inbound::message_taken(
            state,
            peer,
            envelope,
            plain,
            now_ms,
        ).0,
        SessionEvent::Invite { peer, invite, now_ms } => inbound::invite_taken(
            state,
            peer,
            invite,
            now_ms,
        ).0,
        SessionEvent::Filed { pending, key_b64, read } => inbound::invite_filed(
            state,
            pending,
            key_b64,
            read,
        ).0,
        SessionEvent::LockTaken => AppStateView { session_lock_alias: None, ..state },
    }
}

/// A session after some things happened one after another.
pub open spec fn session_run(state: AppStateView, events: Seq<SessionEvent>) -> AppStateView
    decreases events.len(),
{
    if events.len() == 0 {
        state
    } else {
        session_after(session_run(state, events.drop_last()), events.last())
    }
}

/// Whatever happens keeps a session sound.
proof fn lemma_event_sound(state: AppStateView, event: SessionEvent)
    requires
        inbound::session_sound(state),
    ensures
        inbound::session_sound(session_after(state, event)),
{
    match event {
        SessionEvent::Command { command, new_room_id, seed } => {
            inbound::law_commands_keep_the_session_sound(state, command, new_room_id, seed);
        },
        SessionEvent::Peers { wanted, peers, now_ms, new_id } => {
            inbound::law_peers_keep_the_session_sound(state, wanted, peers, now_ms, new_id);
        },
        SessionEvent::Message { peer, envelope, plain, now_ms } => {
            inbound::law_input_keeps_the_session_sound(
                state,
                peer,
                envelope,
                plain,
                arbitrary(),
                arbitrary(),
                peer,
                arbitrary(),
                now_ms,
                now_ms,
            );
        },
        _ => {},
    }
}

/// Whatever happens after a sound state leads to a sound state.
pub proof fn law_sessions_stay_sound(state: AppStateView, events: Seq<SessionEvent>)
    requires
        inbound::session_sound(state),
    ensures
        inbound::session_sound(session_run(state, events)),
    decreases events.len(),
{
    if events.len() > 0 {
        law_sessions_stay_sound(state, events.drop_last());
        lemma_event_sound(session_run(state, events.drop_last()), events.last());
    }
}

/// A room stays, and what it remembers of messages is what it was.
pub open spec fn memory_kept(before: RoomBookView, after: RoomBookView, room_id: Seq<char>) -> bool {
    before.rooms.contains_key(room_id) ==> after.rooms.contains_key(room_id)
        && after.rooms[room_id].replay_cache == before.rooms[room_id].replay_cache
}

/// A message is accepted into a room.
pub open spec fn accepted_into(
    state: AppStateView,
    event: SessionEvent,
    room_id: Seq<char>,
) -> bool {
    match event {
        SessionEvent::Message { peer, envelope, plain, .. } => envelope.room_id == room_id
            && message::receive_error(state.rooms, peer, envelope, plain) is None,
        _ => false,
    }
}

/// How many messages are accepted into a room.
pub open spec fn accepted_count(
    state: AppStateView,
    events: Seq<SessionEvent>,
    room_id: Seq<char>,
) -> nat
    decreases events.len(),
{
    if events.len() == 0 {
        0
    } else {
        let init = events.drop_last();
        accepted_count(state, init, room_id) + if accepted_into(
            session_run(state, init),
            events.last(),
            room_id,
        ) {
            1nat
        } else {
            0nat
        }
    }
}

/// Only a message that is accepted into a room changes what the room remembers of messages; no
/// command does, and no room is lost.
#[verifier::spinoff_prover]
pub proof fn law_only_messages_change_the_memory(
    state: AppStateView,
    event: SessionEvent,
    room_id: Seq<char>,
)
    requires
        inbound::session_sound(state),
        !accepted_into(state, event, room_id),
    ensures
        memory_kept(state.rooms, session_after(state, event).rooms, room_id),
{
}

/// What a room remembers stays while fewer messages than it remembers are accepted into it.
#[verifier::spinoff_prover]
proof fn lemma_memory_lasts(
    state: AppStateView,
    events: Seq<SessionEvent>,
    room_id: Seq<char>,
    key: Seq<char>,
)
    requires
        inbound::session_sound(state),
        message::recent_in(state.rooms, room_id, key, 0),
        accepted_count(state, events, room_id) < REPLAY_CAPACITY,
    ensures
        message::recent_in(
            session_run(state, events).rooms,
            room_id,
            key,
            accepted_count(state, events, room_id),
        ),
    decreases events.len(),
{
    if events.len() > 0 {
        let init = events.drop_last();
        let last = events.last();
        lemma_memory_lasts(state, init, room_id, key);
        law_sessions_stay_sound(state, init);
        let before = session_run(state, init);
        if accepted_into(before, last, room_id) {
            if let SessionEvent::Message { peer, envelope, plain, now_ms } = last {
                replay::lemma_recent_kept(
                    before.rooms.rooms[room_id].replay_cache,
                    key,
                    accepted_count(state, init, room_id),
                    message::replay_key(envelope, plain),
                );
            }
        } else {
            law_only_messages_change_the_memory(before, last, room_id);
        }
    }
}

/// A message that was accepted is refused when it comes again, whatever happens in between, while
/// fewer messages than a room remembers were accepted into the room since. The refused message
/// changes nothing and leaves nothing to show or to record.
#[verifier::spinoff_prover]
pub proof fn law_replays_are_refused(
    state: AppStateView,
    peer: Seq<char>,
    envelope: SignedEncryptedEnvelopeView,
    plain: PlainMessageView,
    now_ms: u64,
    events: Seq<SessionEvent>,
    later_ms: u64,
)
    requires
        inbound::session_sound(state),
        inbound::message_taken(state, peer, envelope, plain, now_ms).1 is Ok,
        accepted_count(
            inbound::message_taken(state, peer, envelope, plain, now_ms).0,
            events,
            envelope.room_id,
        ) < REPLAY_CAPACITY,
    ensures
        ({
            let after = session_run(
                inbound::message_taken(state, peer, envelope, plain, now_ms).0,
                events,
            );
            &&& inbound::message_taken(after, peer, envelope, plain, later_ms).1 is Err
            &&& inbound::message_taken(after, peer, envelope, plain, later_ms).0 == after
        }),
{
    let room_id = envelope.room_id;
    let key = message::replay_key(envelope, plain);
    let first = inbound::message_taken(state, peer, envelope, plain, now_ms).0;
    lemma_event_sound(state, SessionEvent::Message { peer, envelope, plain, now_ms });
    replay::lemma_new_key_recent(state.rooms.rooms[room_id].replay_cache, key);
    lemma_memory_lasts(first, events, room_id, key);
    let after = session_run(first, events);
    replay::lemma_recent_seen(
        after.rooms.rooms[room_id].replay_cache,
        key,
        accepted_count(first, events, room_id),
    );
}

} // verus!
