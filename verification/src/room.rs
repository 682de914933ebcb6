//! The rooms of this session.

use crate::crypto;
use crate::crypto::CryptoOutcome;
use crate::crypto::derive_bound_room_key;
use crate::crypto::derive_room_key;
use crate::crypto::generate_random_room_key;
use crate::crypto::room_key_fingerprint;
use crate::ids;
use crate::ids::deterministic_dm_room_id;
use crate::ids::generate_invite_room_id;
use crate::ids::validate_room_id;
use crate::membership;
use crate::membership::build_membership_state;
use crate::peer::PeerId;
use crate::protocol;
use crate::protocol::PROTOCOL_VERSION;
use crate::protocol::RoomMembershipState;
use crate::protocol::RoomMembershipStateView;
use crate::replay;
use crate::replay::REPLAY_CAPACITY;
use crate::replay::ReplayCache;
use crate::replay::ReplayCacheView;
use crate::reply;
use crate::reply::hint_reply;
use crate::reply::no_room_reply;
use crate::reply::Reply;
use crate::reply::ReplyView;
use crate::reply::room_missing_text;
use crate::storage::UnlockedIdentity;
use crate::storage::UnlockedIdentityView;
use crate::table;
use crate::table::TextMap;
use crate::table::TextSet;
use crate::table::TextSetView;
use crate::text;
use crate::text::bool_text;
use crate::text::cat2;
use crate::text::cat3;
use crate::text::cat4;
use crate::text::cat5;
use crate::text::count_text;
use crate::text::Lines;
use crate::text::pad_right;
use crate::text::same_bytes;
use crate::text::same_text;
use vstd::prelude::*;

verus! {

/// A room that this session takes part in.
pub struct RoomSession {
    pub room_id: String,
    pub room_key: [u8; 32],
    pub room_seed: Option<[u8; 32]>,
    pub key_fingerprint: String,
    pub ephemeral: bool,
    pub history_enabled: bool,
    pub members: TextSet,
    pub membership: Option<RoomMembershipState>,
    pub replay_cache: ReplayCache,
}

/// The plain values held by a [`RoomSession`].
#[verifier::ext_equal]
pub struct RoomSessionView {
    pub room_id: Seq<char>,
    pub room_key: Seq<u8>,
    pub room_seed: Option<Seq<u8>>,
    pub key_fingerprint: Seq<char>,
    pub ephemeral: bool,
    pub history_enabled: bool,
    pub members: TextSetView,
    pub membership: Option<RoomMembershipStateView>,
    pub replay_cache: ReplayCacheView,
}

impl View for RoomSession {
    type V = RoomSessionView;

    open spec fn view(&self) -> RoomSessionView {
        RoomSessionView {
            room_id: self.room_id@,
            room_key: self.room_key@,
            room_seed: (match self.room_seed { Some(x) => Some(x@), None => None }),
            key_fingerprint: self.key_fingerprint@,
            ephemeral: self.ephemeral,
            history_enabled: self.history_enabled,
            members: self.members@,
            membership: (match self.membership { Some(x) => Some(x@), None => None }),
            replay_cache: self.replay_cache@,
        }
    }
}

/// The rooms of this session, and which of them is active.
pub struct RoomBook {
    pub rooms: TextMap<RoomSession>,
    pub active_room: Option<String>,
}

/// The plain values held by a [`RoomBook`].
#[verifier::ext_equal]
pub struct RoomBookView {
    pub rooms: Map<Seq<char>, RoomSessionView>,
    pub active_room: Option<Seq<char>>,
}

impl View for RoomBook {
    type V = RoomBookView;

    open spec fn view(&self) -> RoomBookView {
        RoomBookView {
            rooms: self.rooms@,
            active_room: text::opt_text(self.active_room),
        }
    }
}

/// A session without rooms.
pub open spec fn empty_rooms() -> RoomBookView {
    RoomBookView { rooms: Map::empty(), active_room: None }
}

impl RoomSession {
    /// Copy this room without the memory of what was received in it.
    pub fn snapshot(&self) -> (res: RoomSession)
        ensures
            res@ == snapshot_of(self@),
    {
        RoomSession {
            room_id: self.room_id.clone(),
            room_key: self.room_key,
            room_seed: self.room_seed,
            key_fingerprint: self.key_fingerprint.clone(),
            ephemeral: self.ephemeral,
            history_enabled: self.history_enabled,
            members: self.members.duplicate(),
            membership: match &self.membership {
                Some(membership) => Some(membership.duplicate()),
                None => None,
            },
            replay_cache: ReplayCache::with_capacity(REPLAY_CAPACITY),
        }
    }
}

/// A room without the memory of what was received in it.
pub open spec fn snapshot_of(room: RoomSessionView) -> RoomSessionView {
    RoomSessionView { replay_cache: replay::empty_cache(REPLAY_CAPACITY), ..room }
}

impl RoomBook {
    /// A session without rooms.
    pub fn new() -> (res: RoomBook)
        ensures
            res@ == empty_rooms(),
    {
        RoomBook { rooms: TextMap::new(), active_room: None }
    }

    /// The active room, if there is one and it has a session.
    pub fn active(&self) -> (res: Option<&RoomSession>)
        ensures
            match res {
                Some(room) => active_session(self@) == Some(room@),
                None => active_session(self@) is None,
            },
    {
        match &self.active_room {
            Some(room_id) => self.rooms.get(room_id.as_str()),
            None => None,
        }
    }
}

/// The active room, if there is one and it has a session.
pub open spec fn active_session(book: RoomBookView) -> Option<RoomSessionView> {
    match book.active_room {
        Some(room_id) => if book.rooms.contains_key(room_id) {
            Some(book.rooms[room_id])
        } else {
            None
        },
        None => None,
    }
}

/// A new room.
pub open spec fn new_room(
    room_id: Seq<char>,
    key: Seq<u8>,
    seed: Option<Seq<u8>>,
    ephemeral: bool,
    members: Set<Seq<char>>,
    membership: Option<RoomMembershipStateView>,
) -> RoomSessionView {
    RoomSessionView {
        room_id,
        room_key: key,
        room_seed: seed,
        key_fingerprint: crypto::fingerprint(key),
        ephemeral,
        history_enabled: false,
        members,
        membership,
        replay_cache: replay::empty_cache(REPLAY_CAPACITY),
    }
}

/// A room is stored and becomes the active one.
pub open spec fn enter(book: RoomBookView, room_id: Seq<char>, room: RoomSessionView) -> RoomBookView {
    RoomBookView { rooms: book.rooms.insert(room_id, room), active_room: Some(room_id) }
}

/// The rooms and the answer after `/join`.
pub open spec fn join_outcome(
    book: RoomBookView,
    self_peer: Seq<char>,
    room_id: Seq<char>,
    secret: Seq<char>,
    ephemeral: bool,
) -> (RoomBookView, ReplyView) {
    match ids::room_id_error(room_id) {
        Some(e) => (book, reply::failed(e)),
        None => match crypto::passphrase_room_key(room_id, secret) {
            Err(_) => (book, reply::failed("failed to derive Argon2id room key"@)),
            Ok(key) => if book.rooms.contains_key(room_id) {
                let room = book.rooms[room_id];
                if room.room_key != key {
                    (
                        book,
                        reply::hinted(
                            "error: room "@ + room_id + " already exists with a different key"@,
                            "  leave/recreate is not supported in v0.1"@,
                        ),
                    )
                } else {
                    (
                        enter(
                            book,
                            room_id,
                            RoomSessionView { members: room.members.insert(self_peer), ..room },
                        ),
                        reply::printed(
                            seq![
                                "active room: "@ + room_id,
                                "ephemeral: "@ + text::bool_word(room.ephemeral),
                                "history: "@ + text::bool_word(room.history_enabled),
                                "room key fingerprint: "@ + room.key_fingerprint,
                            ],
                        ),
                    )
                }
            } else {
                (
                    enter(
                        book,
                        room_id,
                        new_room(
                            room_id,
                            key,
                            None,
                            ephemeral,
                            Set::empty().insert(self_peer),
                            None,
                        ),
                    ),
                    reply::printed(
                        seq![
                            "joined room: "@ + room_id,
                            "active room: "@ + room_id,
                            "ephemeral: "@ + text::bool_word(ephemeral),
                            "history: false"@,
                            "room key fingerprint: "@ + crypto::fingerprint(key),
                        ],
                    ),
                )
            },
        },
    }
}

/// Store a room in place of an earlier one and make it active.
fn put_room(book: &mut RoomBook, room_id: &str, room: RoomSession)
    ensures
        final(book)@ == enter(old(book)@, room_id@, room@),
{
    book.rooms.insert(room_id, room);
    book.active_room = Some(room_id.to_owned());
}

/// Join a room by passphrase, or make a joined room active.
pub fn join_room(
    book: &mut RoomBook,
    self_peer: &PeerId,
    room_id: &str,
    secret: &str,
    ephemeral: bool,
) -> (res: Reply)
    ensures
        final(book)@ == join_outcome(old(book)@, self_peer@, room_id@, secret@, ephemeral).0,
        res@ == join_outcome(old(book)@, self_peer@, room_id@, secret@, ephemeral).1,
{
    match validate_room_id(room_id) {
        Ok(_) => {},
        Err(e) => return Reply::fail(e),
    }
    let room_key = match derive_room_key(room_id, secret) {
        Ok(key) => key,
        Err(_) => return Reply::fail("failed to derive Argon2id room key".to_owned()),
    };
    let existing = match book.rooms.get(room_id) {
        Some(room) => Some(same_bytes(room.room_key.as_slice(), room_key.as_slice())),
        None => None,
    };
    if let Some(same_key) = existing {
        if !same_key {
            let error = cat3("error: room ", room_id, " already exists with a different key");
            return hint_reply(error.as_str(), "  leave/recreate is not supported in v0.1");
        }
        let mut room = book.rooms.remove(room_id).unwrap();
        let _ = room.members.insert(self_peer.as_text());
        let mut lines = Lines::new();
        lines.add(cat2("active room: ", room_id));
        lines.add(cat2("ephemeral: ", bool_text(room.ephemeral)));
        lines.add(cat2("history: ", bool_text(room.history_enabled)));
        lines.add(cat2("room key fingerprint: ", room.key_fingerprint.as_str()));
        put_room(book, room_id, room);
        proof {
            let want = join_outcome(old(book)@, self_peer@, room_id@, secret@, ephemeral);
            assert(book@.rooms =~= want.0.rooms);
            assert(lines@ =~= want.1.lines);
        }
        return Reply::print(lines);
    }
    let key_fingerprint = room_key_fingerprint(&room_key);
    let mut lines = Lines::new();
    lines.add(cat2("joined room: ", room_id));
    lines.add(cat2("active room: ", room_id));
    lines.add(cat2("ephemeral: ", bool_text(ephemeral)));
    lines.say("history: false");
    lines.add(cat2("room key fingerprint: ", key_fingerprint.as_str()));
    let mut members = TextSet::new();
    let _ = members.insert(self_peer.as_text());
    let room = RoomSession {
        room_id: room_id.to_owned(),
        room_key,
        room_seed: None,
        key_fingerprint,
        ephemeral,
        history_enabled: false,
        members,
        membership: None,
        replay_cache: ReplayCache::default(),
    };
    put_room(book, room_id, room);
    assert(lines@ =~= join_outcome(
        old(book)@,
        self_peer@,
        room_id@,
        secret@,
        ephemeral,
    ).1.lines);
    Reply::print(lines)
}

/// The rooms and the answer after `/dm` with a connected peer.
pub open spec fn direct_outcome(
    book: RoomBookView,
    self_peer: Seq<char>,
    remote: Seq<char>,
    secret: Seq<char>,
    ephemeral: bool,
) -> (RoomBookView, ReplyView) {
    let room_id = ids::dm_room_id(self_peer, remote);
    match crypto::passphrase_room_key(room_id, secret) {
        Err(_) => (book, reply::failed("failed to derive Argon2id room key"@)),
        Ok(key) => if book.rooms.contains_key(room_id) {
            let room = book.rooms[room_id];
            if room.room_key != key {
                (
                    book,
                    reply::failed(
                        "direct room "@ + room_id
                            + " already exists with a different key; use the same --secret on both peers"@,
                    ),
                )
            } else {
                let members = room.members.insert(self_peer).insert(remote);
                (
                    enter(book, room_id, RoomSessionView { members, ..room }),
                    reply::printed(
                        seq![
                            "direct room active: "@ + room_id,
                            "peer: "@ + remote,
                            "ephemeral: "@ + text::bool_word(room.ephemeral),
                            "history: "@ + text::bool_word(room.history_enabled),
                            "members: "@ + text::decimal(members.len()),
                            "room key fingerprint: "@ + room.key_fingerprint,
                        ],
                    ),
                )
            }
        } else {
            (
                enter(
                    book,
                    room_id,
                    new_room(
                        room_id,
                        key,
                        None,
                        ephemeral,
                        Set::empty().insert(self_peer).insert(remote),
                        None,
                    ),
                ),
                reply::printed(
                    seq![
                        "direct room ready: "@ + room_id,
                        "peer: "@ + remote,
                        "active room: "@ + room_id,
                        "ephemeral: "@ + text::bool_word(ephemeral),
                        "history: false"@,
                        "members: 2"@,
                        "room key fingerprint: "@ + crypto::fingerprint(key),
                    ],
                ),
            )
        },
    }
}

/// Open the direct room with a connected peer.
pub fn direct_room(
    book: &mut RoomBook,
    self_peer: &PeerId,
    remote: &PeerId,
    secret: &str,
    ephemeral: bool,
) -> (res: Reply)
    ensures
        final(book)@ == direct_outcome(old(book)@, self_peer@, remote@, secret@, ephemeral).0,
        res@ == direct_outcome(old(book)@, self_peer@, remote@, secret@, ephemeral).1,
{
    let ghost want = direct_outcome(book@, self_peer@, remote@, secret@, ephemeral);
    let id = deterministic_dm_room_id(self_peer, remote);
    let room_id = id.as_str();
    let room_key = match derive_room_key(room_id, secret) {
        Ok(key) => key,
        Err(_) => return Reply::fail("failed to derive Argon2id room key".to_owned()),
    };
    let existing = match book.rooms.get(room_id) {
        Some(room) => Some(same_bytes(room.room_key.as_slice(), room_key.as_slice())),
        None => None,
    };
    if let Some(same_key) = existing {
        if !same_key {
            return Reply::fail(
                cat3(
                    "direct room ",
                    room_id,
                    " already exists with a different key; use the same --secret on both peers",
                ),
            );
        }
        let mut room = book.rooms.remove(room_id).unwrap();
        let _ = room.members.insert(self_peer.as_text());
        let _ = room.members.insert(remote.as_text());
        let mut lines = Lines::new();
        lines.add(cat2("direct room active: ", room_id));
        lines.add(cat2("peer: ", remote.as_text()));
        lines.add(cat2("ephemeral: ", bool_text(room.ephemeral)));
        lines.add(cat2("history: ", bool_text(room.history_enabled)));
        lines.add(cat2("members: ", count_text(room.members.len()).as_str()));
        lines.add(cat2("room key fingerprint: ", room.key_fingerprint.as_str()));
        put_room(book, room_id, room);
        assert(book@.rooms =~= want.0.rooms);
        assert(lines@ =~= want.1.lines);
        return Reply::print(lines);
    }
    let key_fingerprint = room_key_fingerprint(&room_key);
    let mut lines = Lines::new();
    lines.add(cat2("direct room ready: ", room_id));
    lines.add(cat2("peer: ", remote.as_text()));
    lines.add(cat2("active room: ", room_id));
    lines.add(cat2("ephemeral: ", bool_text(ephemeral)));
    lines.say("history: false");
    lines.say("members: 2");
    lines.add(cat2("room key fingerprint: ", key_fingerprint.as_str()));
    let mut members = TextSet::new();
    let _ = members.insert(self_peer.as_text());
    let _ = members.insert(remote.as_text());
    let room = RoomSession {
        room_id: room_id.to_owned(),
        room_key,
        room_seed: None,
        key_fingerprint,
        ephemeral,
        history_enabled: false,
        members,
        membership: None,
        replay_cache: ReplayCache::default(),
    };
    put_room(book, room_id, room);
    assert(lines@ =~= want.1.lines);
    Reply::print(lines)
}

/// The rooms and the answer after `/create-room`, for a given id and seed.
pub open spec fn create_outcome(
    book: RoomBookView,
    identity: UnlockedIdentityView,
    self_peer: Seq<char>,
    room_id: Seq<char>,
    seed: Seq<u8>,
    ephemeral: bool,
) -> (RoomBookView, ReplyView) {
    match ids::room_id_error(room_id) {
        Some(e) => (book, reply::failed(e)),
        None => {
            let membership = membership::signed_membership(identity, room_id, seq![self_peer]);
            let key = crypto::bound_room_key(room_id, membership.peers, seed, PROTOCOL_VERSION);
            if book.rooms.contains_key(room_id) {
                (book, reply::failed("room "@ + room_id + " already exists"@))
            } else {
                (
                    enter(
                        book,
                        room_id,
                        new_room(
                            room_id,
                            key,
                            Some(seed),
                            ephemeral,
                            Set::empty().insert(self_peer),
                            Some(membership),
                        ),
                    ),
                    reply::printed(
                        seq![
                            "created room: "@ + room_id,
                            "active room: "@ + room_id,
                            "ephemeral: "@ + text::bool_word(ephemeral),
                            "history: false"@,
                            "members: 1"@,
                            "room key fingerprint: "@ + crypto::fingerprint(key),
                            ""@,
                            "hint:"@,
                            "  /invite <peer_id>"@,
                        ],
                    ),
                )
            }
        },
    }
}

/// Create a room with a given id and seed.
pub fn create_room_with(
    book: &mut RoomBook,
    identity: &UnlockedIdentity,
    self_peer: &PeerId,
    room_id: &str,
    seed: [u8; 32],
    ephemeral: bool,
) -> (res: Reply)
    ensures
        final(book)@ == create_outcome(
            old(book)@,
            identity@,
            self_peer@,
            room_id@,
            seed@,
            ephemeral,
        ).0,
        res@ == create_outcome(old(book)@, identity@, self_peer@, room_id@, seed@, ephemeral).1,
{
    let ghost want = create_outcome(book@, identity@, self_peer@, room_id@, seed@, ephemeral);
    match validate_room_id(room_id) {
        Ok(_) => {},
        Err(e) => return Reply::fail(e),
    }
    let mut peers: Vec<String> = Vec::new();
    peers.push(self_peer.as_text().to_owned());
    assert(text::texts(peers@) =~= seq![self_peer@]);
    let membership = build_membership_state(identity, room_id, &peers);
    let room_key = derive_bound_room_key(room_id, &membership.peers, &seed, PROTOCOL_VERSION);
    if book.rooms.contains_key(room_id) {
        return Reply::fail(cat3("room ", room_id, " already exists"));
    }
    let key_fingerprint = room_key_fingerprint(&room_key);
    let mut lines = Lines::new();
    lines.add(cat2("created room: ", room_id));
    lines.add(cat2("active room: ", room_id));
    lines.add(cat2("ephemeral: ", bool_text(ephemeral)));
    lines.say("history: false");
    lines.say("members: 1");
    lines.add(cat2("room key fingerprint: ", key_fingerprint.as_str()));
    lines.say("");
    lines.say("hint:");
    lines.say("  /invite <peer_id>");
    let mut members = TextSet::new();
    let _ = members.insert(self_peer.as_text());
    let room = RoomSession {
        room_id: room_id.to_owned(),
        room_key,
        room_seed: Some(seed),
        key_fingerprint,
        ephemeral,
        history_enabled: false,
        members,
        membership: Some(membership),
        replay_cache: ReplayCache::default(),
    };
    put_room(book, room_id, room);
    assert(lines@ =~= want.1.lines);
    Reply::print(lines)
}

/// Create a room with a random seed and, where none is given, a random id.
pub fn create_room(
    book: &mut RoomBook,
    identity: &UnlockedIdentity,
    self_peer: &PeerId,
    room_id: &Option<String>,
    ephemeral: bool,
) -> (res: Reply)
    ensures
        exists|id: Seq<char>, seed: Seq<u8>|
            {
                &&& text::opt_text(*room_id) matches Some(given) ==> id == given
                &&& *room_id is None ==> ids::room_id_generated(id)
                &&& seed.len() == 32
                &&& final(book)@ == (#[trigger] create_outcome(
                    old(book)@,
                    identity@,
                    self_peer@,
                    id,
                    seed,
                    ephemeral,
                )).0
                &&& res@ == create_outcome(
                    old(book)@,
                    identity@,
                    self_peer@,
                    id,
                    seed,
                    ephemeral,
                ).1
            },
{
    let id = match room_id {
        Some(id) => id.clone(),
        None => generate_invite_room_id(),
    };
    let seed = generate_random_room_key();
    let res = create_room_with(book, identity, self_peer, id.as_str(), seed, ephemeral);
    proof {
        let o = create_outcome(old(book)@, identity@, self_peer@, id@, seed@, ephemeral);
        assert(book@ == o.0 && res@ == o.1);
    }
    res
}

/// The rooms and the answer after `/room add-peer` with a connected peer.
pub open spec fn add_peer_outcome(book: RoomBookView, peer: Seq<char>) -> (
    RoomBookView,
    ReplyView,
) {
    match book.active_room {
        None => (book, reply::no_room()),
        Some(room_id) => if !book.rooms.contains_key(room_id) {
            (book, reply::failed(reply::room_missing(room_id)))
        } else {
            let room = book.rooms[room_id];
            (
                RoomBookView {
                    rooms: book.rooms.insert(
                        room_id,
                        RoomSessionView { members: room.members.insert(peer), ..room },
                    ),
                    ..book
                },
                if room.members.contains(peer) {
                    reply::printed(
                        seq!["peer is already in room "@ + room_id + ":"@, "  "@ + peer],
                    )
                } else {
                    reply::printed(seq!["added peer to room "@ + room_id + ":"@, "  "@ + peer])
                },
            )
        },
    }
}

/// Add a connected peer to the active room.
pub fn add_room_peer(book: &mut RoomBook, peer: &PeerId) -> (res: Reply)
    ensures
        final(book)@ == add_peer_outcome(old(book)@, peer@).0,
        res@ == add_peer_outcome(old(book)@, peer@).1,
{
    let ghost want = add_peer_outcome(book@, peer@);
    let room_id = match &book.active_room {
        Some(room_id) => room_id.clone(),
        None => return no_room_reply(),
    };
    let mut room = match book.rooms.remove(room_id.as_str()) {
        Some(room) => room,
        None => {
            assert(book@.rooms =~= old(book)@.rooms);
            return Reply::fail(room_missing_text(room_id.as_str()));
        },
    };
    let inserted = room.members.insert(peer.as_text());
    book.rooms.insert(room_id.as_str(), room);
    let mut lines = Lines::new();
    if inserted {
        lines.add(cat3("added peer to room ", room_id.as_str(), ":"));
    } else {
        lines.add(cat3("peer is already in room ", room_id.as_str(), ":"));
    }
    lines.add(cat2("  ", peer.as_text()));
    assert(book@.rooms =~= want.0.rooms);
    assert(lines@ =~= want.1.lines);
    Reply::print(lines)
}

/// How a member of a room is listed.
pub open spec fn member_line(
    peer: Seq<char>,
    self_peer: Seq<char>,
    connected: Set<Seq<char>>,
) -> Seq<char> {
    if peer == self_peer {
        "  "@ + peer + "   self=true"@
    } else {
        "  "@ + peer + "   connected="@ + text::bool_word(connected.contains(peer))
    }
}

/// The answer to `/room peers`.
pub open spec fn room_peers_reply(
    book: RoomBookView,
    self_peer: Seq<char>,
    connected: Set<Seq<char>>,
) -> ReplyView {
    match book.active_room {
        None => reply::no_room(),
        Some(room_id) => if !book.rooms.contains_key(room_id) {
            reply::failed(reply::room_missing(room_id))
        } else {
            let room = book.rooms[room_id];
            reply::printed(
                seq!["room: "@ + room.room_id, "members:"@] + table::sorted_texts(
                    room.members,
                ).map_values(|peer: Seq<char>| member_line(peer, self_peer, connected)),
            )
        },
    }
}

/// List the members of the active room.
pub fn list_room_peers(book: &RoomBook, self_peer: &PeerId, connected: &TextSet) -> (res: Reply)
    ensures
        res@ == room_peers_reply(book@, self_peer@, connected@),
{
    let room_id = match &book.active_room {
        Some(room_id) => room_id,
        None => return no_room_reply(),
    };
    let room = match book.rooms.get(room_id.as_str()) {
        Some(room) => room,
        None => return Reply::fail(room_missing_text(room_id.as_str())),
    };
    let peers = room.members.to_list();
    let ghost all = text::texts(peers@);
    let ghost listed = all.map_values(
        |peer: Seq<char>| member_line(peer, self_peer@, connected@),
    );
    let mut rows = Lines::new();
    let mut i: usize = 0;
    assert(rows@ =~= listed.take(0));
    while i < peers.len()
        invariant
            i <= peers@.len(),
            all == text::texts(peers@),
            listed == all.map_values(
                |peer: Seq<char>| member_line(peer, self_peer@, connected@),
            ),
            rows@ == listed.take(i as int),
        decreases peers.len() - i,
    {
        let peer = peers[i].as_str();
        assert(peer@ == all[i as int]);
        if same_text(peer, self_peer.as_text()) {
            rows.add(cat3("  ", peer, "   self=true"));
        } else {
            rows.add(cat4("  ", peer, "   connected=", bool_text(connected.contains(peer))));
        }
        i = i + 1;
        assert(rows@ =~= listed.take(i as int));
    }
    assert(rows@ =~= listed);
    let mut lines = Lines::new();
    lines.add(cat2("room: ", room.room_id.as_str()));
    lines.say("members:");
    assert(lines@ =~= seq!["room: "@ + room@.room_id, "members:"@]);
    lines.extend(&rows);
    Reply::print(lines)
}

/// How a room is listed.
pub open spec fn room_line(room: RoomSessionView, active: Option<Seq<char>>) -> Seq<char> {
    "  "@ + (if active == Some(room.room_id) {
        "*"@
    } else {
        " "@
    }) + " "@ + text::padded(room.room_id, 12) + " ephemeral="@ + text::padded(text::bool_word(room.ephemeral), 5)
        + " history="@ + text::padded(text::bool_word(room.history_enabled), 5) + " members="@ + text::decimal(
        room.members.len(),
    ) + " key="@ + room.key_fingerprint
}

/// The answer to `/rooms`.
pub open spec fn rooms_lines(book: RoomBookView) -> Seq<Seq<char>> {
    if book.rooms.dom().len() == 0 {
        seq!["rooms:"@, "  none"@]
    } else {
        seq!["rooms:"@] + table::sorted_values(book.rooms).map_values(
            |room: RoomSessionView| room_line(room, book.active_room),
        )
    }
}

/// List the rooms.
pub fn list_rooms(book: &RoomBook) -> (res: Lines)
    ensures
        res@ == rooms_lines(book@),
{
    let mut lines = Lines::new();
    lines.say("rooms:");
    let n: usize = book.rooms.len();
    if n == 0 {
        lines.say("  none");
        assert(lines@ =~= rooms_lines(book@));
        return lines;
    }
    let ghost all = table::sorted_values(book@.rooms);
    let ghost listed = all.map_values(
        |room: RoomSessionView| room_line(room, book@.active_room),
    );
    let mut rows = Lines::new();
    let mut i: usize = 0;
    assert(rows@ =~= listed.take(0));
    while i < n
        invariant
            i <= n == all.len(),
            n == table::sorted_texts(book@.rooms.dom()).len(),
            all == table::sorted_values(book@.rooms),
            listed == all.map_values(
                |room: RoomSessionView| room_line(room, book@.active_room),
            ),
            rows@ == listed.take(i as int),
        decreases n - i,
    {
        let room = book.rooms.nth(i);
        assert(room@ == all[i as int]);
        let active = match &book.active_room {
            Some(active) => same_text(active.as_str(), room.room_id.as_str()),
            None => false,
        };
        let marker = if active {
            "*"
        } else {
            " "
        };
        let head = cat5(
            "  ",
            marker,
            " ",
            pad_right(room.room_id.as_str(), 12).as_str(),
            " ephemeral=",
        );
        let middle = cat4(
            head.as_str(),
            pad_right(bool_text(room.ephemeral), 5).as_str(),
            " history=",
            pad_right(bool_text(room.history_enabled), 5).as_str(),
        );
        let line = cat5(
            middle.as_str(),
            " members=",
            count_text(room.members.len()).as_str(),
            " key=",
            room.key_fingerprint.as_str(),
        );
        assert(line@ =~= room_line(room@, book@.active_room));
        rows.add(line);
        i = i + 1;
        assert(rows@ =~= listed.take(i as int));
    }
    assert(rows@ =~= listed);
    lines.extend(&rows);
    assert(lines@ =~= rooms_lines(book@));
    lines
}

/// What `/history` does next.
pub enum HistorySwitch {
    /// It is answered.
    Answered { lines: Vec<String>, error: Option<String> },
    /// The history of the active room has to be shown behind a first line.
    Show { first: String, room_id: String, room_key: [u8; 32] },
}

/// The plain values held by a [`HistorySwitch`].
#[verifier::ext_equal]
pub enum HistorySwitchView {
    Answered { lines: Seq<Seq<char>>, error: Option<Seq<char>> },
    Show { first: Seq<char>, room_id: Seq<char>, room_key: Seq<u8> },
}

impl View for HistorySwitch {
    type V = HistorySwitchView;

    open spec fn view(&self) -> HistorySwitchView {
        match *self {
            HistorySwitch::Answered { lines, error } => HistorySwitchView::Answered { lines: text::texts(lines@), error: text::opt_text(error) },
            HistorySwitch::Show { first, room_id, room_key } => HistorySwitchView::Show { first: first@, room_id: room_id@, room_key: room_key@ },
        }
    }
}

/// The rooms after `/history on|off`, and what it does next.
pub open spec fn history_outcome(book: RoomBookView, enabled: bool) -> (
    RoomBookView,
    HistorySwitchView,
) {
    match book.active_room {
        None => (
            book,
            HistorySwitchView::Answered { lines: reply::no_room().lines, error: None },
        ),
        Some(room_id) => if !book.rooms.contains_key(room_id) {
            (
                book,
                HistorySwitchView::Answered {
                    lines: Seq::empty(),
                    error: Some(reply::room_missing(room_id)),
                },
            )
        } else {
            let room = book.rooms[room_id];
            let first = "room "@ + room_id + " history_enabled="@ + text::bool_word(enabled);
            if enabled && room.ephemeral {
                (
                    book,
                    HistorySwitchView::Answered {
                        lines: seq!["error: cannot enable history for an ephemeral room"@],
                        error: None,
                    },
                )
            } else {
                let after = RoomBookView {
                    rooms: book.rooms.insert(
                        room_id,
                        RoomSessionView { history_enabled: enabled, ..room },
                    ),
                    ..book
                };
                if enabled {
                    (
                        after,
                        HistorySwitchView::Show {
                            first,
                            room_id: room.room_id,
                            room_key: room.room_key,
                        },
                    )
                } else {
                    (after, HistorySwitchView::Answered { lines: seq![first], error: None })
                }
            }
        },
    }
}

/// Switch the history of the active room.
pub fn switch_history(book: &mut RoomBook, enabled: bool) -> (res: HistorySwitch)
    ensures
        final(book)@ == history_outcome(old(book)@, enabled).0,
        res@ == history_outcome(old(book)@, enabled).1,
{
    let ghost want = history_outcome(book@, enabled);
    let room_id = match &book.active_room {
        Some(room_id) => room_id.clone(),
        None => {
            let reply = no_room_reply();
            return HistorySwitch::Answered { lines: reply.lines.into_strings(), error: None };
        },
    };
    let mut room = match book.rooms.remove(room_id.as_str()) {
        Some(room) => room,
        None => {
            assert(book@.rooms =~= old(book)@.rooms);
            let none: Vec<String> = Vec::new();
            assert(text::texts(none@) =~= Seq::empty());
            return HistorySwitch::Answered {
                lines: none,
                error: Some(room_missing_text(room_id.as_str())),
            };
        },
    };
    if enabled && room.ephemeral {
        book.rooms.insert(room_id.as_str(), room);
        assert(book@.rooms =~= old(book)@.rooms);
        let mut lines = Lines::new();
        lines.say("error: cannot enable history for an ephemeral room");
        assert(lines@ =~= seq!["error: cannot enable history for an ephemeral room"@]);
        return HistorySwitch::Answered { lines: lines.into_strings(), error: None };
    }
    room.history_enabled = enabled;
    let shown_id = room.room_id.clone();
    let room_key = room.room_key;
    book.rooms.insert(room_id.as_str(), room);
    assert(book@.rooms =~= want.0.rooms);
    let first = cat4("room ", room_id.as_str(), " history_enabled=", bool_text(enabled));
    if enabled {
        HistorySwitch::Show { first, room_id: shown_id, room_key }
    } else {
        let mut lines = Lines::new();
        lines.add(first);
        assert(lines@ =~= seq![first@]);
        HistorySwitch::Answered { lines: lines.into_strings(), error: None }
    }
}

/// The active room exists, sessions are filed under their ids, and no ephemeral room keeps a
/// history.
pub open spec fn rooms_sound(book: RoomBookView) -> bool {
    &&& book.active_room matches Some(room_id) ==> book.rooms.contains_key(room_id)
    &&& forall|room_id: Seq<char>| #[trigger]
        book.rooms.contains_key(room_id) ==> book.rooms[room_id].room_id == room_id && (
        book.rooms[room_id].ephemeral ==> !book.rooms[room_id].history_enabled)
}

/// No command breaks the soundness of the rooms: the active room always exists, every session
/// is filed under its id, and no ephemeral room ever keeps a history.
pub proof fn law_commands_keep_rooms_sound(
    book: RoomBookView,
    identity: UnlockedIdentityView,
    self_peer: Seq<char>,
    peer: Seq<char>,
    room_id: Seq<char>,
    secret: Seq<char>,
    seed: Seq<u8>,
    flag: bool,
)
    requires
        rooms_sound(book),
    ensures
        rooms_sound(join_outcome(book, self_peer, room_id, secret, flag).0),
        rooms_sound(direct_outcome(book, self_peer, peer, secret, flag).0),
        rooms_sound(create_outcome(book, identity, self_peer, room_id, seed, flag).0),
        rooms_sound(add_peer_outcome(book, peer).0),
        rooms_sound(history_outcome(book, flag).0),
        rooms_sound(empty_rooms()),
{
}

/// Joining a room again with the same passphrase makes it active and changes nothing else of the
/// rooms but that this peer is a member; joining it with another key changes nothing at all.
pub proof fn law_join_again(
    book: RoomBookView,
    self_peer: Seq<char>,
    room_id: Seq<char>,
    secret: Seq<char>,
    ephemeral: bool,
)
    requires
        rooms_sound(book),
        book.rooms.contains_key(room_id),
    ensures
        ({
            let after = join_outcome(book, self_peer, room_id, secret, ephemeral).0;
            if crypto::passphrase_room_key(room_id, secret) == CryptoOutcome::Ok(
                book.rooms[room_id].room_key,
            ) && ids::room_id_valid(room_id) {
                &&& after.active_room == Some(room_id)
                &&& after.rooms[room_id].room_key == book.rooms[room_id].room_key
                &&& after.rooms[room_id].members == book.rooms[room_id].members.insert(self_peer)
                &&& after.rooms.remove(room_id) == book.rooms.remove(room_id)
            } else {
                after == book
            }
        }),
{
    let after = join_outcome(book, self_peer, room_id, secret, ephemeral).0;
    assert(after.rooms.remove(room_id) =~= book.rooms.remove(room_id));
}

/// A book differs from another at most in one room.
pub open spec fn only_room_changed(book: RoomBookView, after: RoomBookView, id: Seq<char>) -> bool {
    &&& after.rooms.dom() == book.rooms.dom().insert(id)
    &&& forall|other: Seq<char>|
        book.rooms.contains_key(other) && other != id ==> #[trigger] after.rooms[other]
            == book.rooms[other]
}

/// A room is as it was but for its members.
pub open spec fn only_members_changed(before: RoomSessionView, now: RoomSessionView) -> bool {
    &&& now.room_id == before.room_id
    &&& now.room_key == before.room_key
    &&& now.room_seed == before.room_seed
    &&& now.key_fingerprint == before.key_fingerprint
    &&& now.ephemeral == before.ephemeral
    &&& now.history_enabled == before.history_enabled
    &&& now.membership == before.membership
    &&& now.replay_cache == before.replay_cache
}

/// `/join` is refused, without any change, for a bad room id, a secret that gives no key, and a
/// room that is there with another key. Otherwise the room is active: a new one has the key of the
/// secret, this peer as its only member, no history, and is ephemeral exactly if asked for; a room
/// that was there gets this peer as a member and keeps the rest.
pub proof fn law_join_enters_a_room(
    book: RoomBookView,
    self_peer: Seq<char>,
    room_id: Seq<char>,
    secret: Seq<char>,
    ephemeral: bool,
)
    ensures
        ({
            let (after, reply) = join_outcome(book, self_peer, room_id, secret, ephemeral);
            let key = crypto::passphrase_room_key(room_id, secret);
            let fits = ids::room_id_valid(room_id) && key is Ok && (book.rooms.contains_key(room_id)
                ==> book.rooms[room_id].room_key == key->Ok_0);
            &&& !fits ==> after == book
            &&& fits ==> {
                let now = after.rooms[room_id];
                &&& reply.error is None
                &&& after.active_room == Some(room_id)
                &&& only_room_changed(book, after, room_id)
                &&& if book.rooms.contains_key(room_id) {
                    let before = book.rooms[room_id];
                    only_members_changed(before, now) && now.members == before.members.insert(
                        self_peer,
                    )
                } else {
                    &&& now.room_id == room_id
                    &&& now.room_key == key->Ok_0
                    &&& now.members == set![self_peer]
                    &&& now.ephemeral == ephemeral
                    &&& !now.history_enabled
                    &&& now.room_seed is None && now.membership is None
                    &&& now.key_fingerprint == crypto::fingerprint(key->Ok_0)
                    &&& now.replay_cache.seen == Set::<Seq<char>>::empty()
                }
            }
        }),
{
    let after = join_outcome(book, self_peer, room_id, secret, ephemeral).0;
    if after != book {
        assert(after.rooms.dom() =~= book.rooms.dom().insert(room_id));
    }
    if book.rooms.contains_key(room_id) {
        assert(book.rooms.dom().insert(room_id) =~= book.rooms.dom());
    }
    assert(Set::<Seq<char>>::empty().insert(self_peer) =~= set![self_peer]);
}

/// `/dm` opens the same room from either side, with the same key under the same secret. Both
/// peers are its members; a new room is ephemeral exactly if asked for, and a room that was there
/// keeps all but its members. With another secret nothing changes.
pub proof fn law_direct_rooms_are_shared(
    book: RoomBookView,
    self_peer: Seq<char>,
    remote: Seq<char>,
    secret: Seq<char>,
    ephemeral: bool,
)
    ensures
        ids::dm_room_id(self_peer, remote) == ids::dm_room_id(remote, self_peer),
        ({
            let id = ids::dm_room_id(self_peer, remote);
            let key = crypto::passphrase_room_key(id, secret);
            let (after, reply) = direct_outcome(book, self_peer, remote, secret, ephemeral);
            let fits = key is Ok && (book.rooms.contains_key(id) ==> book.rooms[id].room_key
                == key->Ok_0);
            &&& !fits ==> after == book && reply.error is Some
            &&& fits ==> {
                let now = after.rooms[id];
                &&& reply.error is None
                &&& after.active_room == Some(id)
                &&& only_room_changed(book, after, id)
                &&& now.room_key == key->Ok_0
                &&& if book.rooms.contains_key(id) {
                    let before = book.rooms[id];
                    only_members_changed(before, now) && now.members == before.members.insert(
                        self_peer,
                    ).insert(remote)
                } else {
                    &&& now.room_id == id
                    &&& now.members == set![self_peer, remote]
                    &&& now.ephemeral == ephemeral
                    &&& !now.history_enabled
                    &&& now.room_seed is None && now.membership is None
                    &&& now.key_fingerprint == crypto::fingerprint(key->Ok_0)
                    &&& now.replay_cache.seen == Set::<Seq<char>>::empty()
                }
            }
        }),
{
    ids::law_dm_room_id_symmetric(self_peer, remote);
    let id = ids::dm_room_id(self_peer, remote);
    let after = direct_outcome(book, self_peer, remote, secret, ephemeral).0;
    if after != book {
        assert(after.rooms.dom() =~= book.rooms.dom().insert(id));
    }
    if book.rooms.contains_key(id) {
        assert(book.rooms.dom().insert(id) =~= book.rooms.dom());
    }
    assert(Set::<Seq<char>>::empty().insert(self_peer).insert(remote) =~= set![self_peer, remote]);
}

/// `/create-room` is refused, without any change, for a bad room id and a room that is there.
/// Otherwise the room is active, this peer is its only member and its only signed peer, it has the
/// key that belongs to its seed and that membership, no history, and is ephemeral exactly if asked
/// for.
pub proof fn law_create_makes_a_room(
    book: RoomBookView,
    identity: UnlockedIdentityView,
    self_peer: Seq<char>,
    room_id: Seq<char>,
    seed: Seq<u8>,
    ephemeral: bool,
)
    ensures
        ({
            let (after, reply) = create_outcome(
                book,
                identity,
                self_peer,
                room_id,
                seed,
                ephemeral,
            );
            let fits = ids::room_id_valid(room_id) && !book.rooms.contains_key(room_id);
            &&& !fits ==> after == book && reply.error is Some
            &&& fits ==> {
                let now = after.rooms[room_id];
                let membership = now.membership->0;
                &&& reply.error is None
                &&& after.active_room == Some(room_id)
                &&& only_room_changed(book, after, room_id)
                &&& now.room_id == room_id
                &&& now.members == set![self_peer]
                &&& now.ephemeral == ephemeral
                &&& !now.history_enabled
                &&& now.room_seed == Some(seed)
                &&& now.membership is Some
                &&& membership.peers == seq![self_peer]
                &&& membership.room_id == room_id
                &&& membership.creator_peer_id == identity.peer_id
                &&& now.room_key == crypto::bound_room_key(
                    room_id,
                    membership.peers,
                    seed,
                    PROTOCOL_VERSION,
                )
                &&& now.key_fingerprint == crypto::fingerprint(now.room_key)
                &&& now.replay_cache.seen == Set::<Seq<char>>::empty()
            }
        }),
{
    let after = create_outcome(book, identity, self_peer, room_id, seed, ephemeral).0;
    if after != book {
        assert(after.rooms.dom() =~= book.rooms.dom().insert(room_id));
    }
    if book.rooms.contains_key(room_id) {
        assert(book.rooms.dom().insert(room_id) =~= book.rooms.dom());
    }
    let own = seq![self_peer];
    protocol::law_canonical_peers(own);
    assert(table::ascending(own));
    assert(Set::<Seq<char>>::empty().insert(self_peer) =~= set![self_peer]);
}

/// `/room add-peer` adds the peer to the members of the active room, and changes nothing else.
/// `/history` switches the history of the active room, which an ephemeral room refuses to turn on,
/// and changes nothing else.
pub proof fn law_active_room_commands(book: RoomBookView, peer: Seq<char>, enabled: bool)
    ensures
        ({
            let id = book.active_room->0;
            let there = book.active_room is Some && book.rooms.contains_key(id);
            let before = book.rooms[id];
            let added = add_peer_outcome(book, peer).0;
            let (switched, next) = history_outcome(book, enabled);
            &&& added.active_room == book.active_room
            &&& switched.active_room == book.active_room
            &&& !there ==> added == book && switched == book && next is Answered
            &&& there ==> {
                &&& only_room_changed(book, added, id)
                &&& only_members_changed(before, added.rooms[id])
                &&& added.rooms[id].members == before.members.insert(peer)
                &&& enabled && before.ephemeral ==> switched == book && next is Answered
                &&& !(enabled && before.ephemeral) ==> {
                    &&& only_room_changed(book, switched, id)
                    &&& switched.rooms[id] == (RoomSessionView { history_enabled: enabled, ..before })
                    &&& next is Show <==> enabled
                    &&& next matches HistorySwitchView::Show { room_id, room_key, .. } ==> room_id
                        == before.room_id && room_key == before.room_key
                }
            }
        }),
{
    let id = book.active_room->0;
    if book.active_room is Some && book.rooms.contains_key(id) {
        assert(book.rooms.dom().insert(id) =~= book.rooms.dom());
        assert(add_peer_outcome(book, peer).0.rooms.dom() =~= book.rooms.dom().insert(id));
        assert(history_outcome(book, enabled).0.rooms.dom() =~= book.rooms.dom().insert(id));
    }
}

/// Every member of the active room is listed, this peer as such and each other with whether it is
/// connected, and nobody else is.
pub proof fn law_members_are_listed(
    book: RoomBookView,
    self_peer: Seq<char>,
    connected: Set<Seq<char>>,
    who: Seq<char>,
)
    requires
        book.active_room is Some,
        book.rooms.contains_key(book.active_room->0),
        book.rooms[book.active_room->0].members.finite(),
    ensures
        ({
            let room = book.rooms[book.active_room->0];
            let reply = room_peers_reply(book, self_peer, connected);
            &&& reply.error is None
            &&& reply.lines.len() == 2 + room.members.len()
            &&& room.members.contains(who) ==> reply.lines.contains(
                if who == self_peer {
                    "  "@ + who + "   self=true"@
                } else if connected.contains(who) {
                    "  "@ + who + "   connected=true"@
                } else {
                    "  "@ + who + "   connected=false"@
                },
            )
        }),
{
    let room = book.rooms[book.active_room->0];
    table::lemma_sorting_set(room.members);
    let all = table::sorted_texts(room.members);
    table::lemma_ascending_len(all);
    let lines = room_peers_reply(book, self_peer, connected).lines;
    if room.members.contains(who) {
        assert(all.to_set().contains(who));
        let i = choose|i: int| 0 <= i < all.len() && all[i] == who;
        assert(lines[i + 2] == member_line(who, self_peer, connected));
        reveal_strlit("true");
        reveal_strlit("false");
        reveal_strlit("   connected=");
        reveal_strlit("   connected=true");
        reveal_strlit("   connected=false");
        assert("   connected="@ + "true"@ =~= "   connected=true"@);
        assert("   connected="@ + "false"@ =~= "   connected=false"@);
        assert("  "@ + who + "   connected="@ + "true"@ =~= "  "@ + who + ("   connected="@
            + "true"@));
        assert("  "@ + who + "   connected="@ + "false"@ =~= "  "@ + who + ("   connected="@
            + "false"@));
    }
}

/// How a setting is listed: in five columns.
pub open spec fn listed_word(b: bool) -> Seq<char> {
    if b {
        "true "@
    } else {
        "false"@
    }
}

/// A setting takes five columns.
proof fn lemma_listed_word(b: bool)
    ensures
        text::padded(text::bool_word(b), 5) == listed_word(b),
{
    reveal_strlit("true");
    reveal_strlit("true ");
    reveal_strlit("false");
    assert(text::padded(text::bool_word(b), 5) =~= listed_word(b));
}

/// Every room is listed, and nothing else is. The active one, and it alone, bears the mark.
pub proof fn law_rooms_are_listed(book: RoomBookView, id: Seq<char>)
    requires
        rooms_sound(book),
        book.rooms.dom().finite(),
        book.rooms.contains_key(id),
    ensures
        ({
            let room = book.rooms[id];
            let lines = rooms_lines(book);
            &&& lines.len() == 1 + book.rooms.dom().len()
            &&& exists|i: int|
                {
                    &&& 1 <= i < lines.len()
                    &&& (if book.active_room == Some(id) {
                        "  * "@ + id
                    } else {
                        "    "@ + id
                    }).is_prefix_of(#[trigger] lines[i])
                    &&& (" ephemeral="@ + listed_word(room.ephemeral) + " history="@ + listed_word(
                        room.history_enabled,
                    ) + " members="@ + text::decimal(room.members.len()) + " key="@
                        + room.key_fingerprint).is_suffix_of(lines[i])
                }
        }),
{
    table::lemma_sorting_set(book.rooms.dom());
    let keys = table::sorted_texts(book.rooms.dom());
    table::lemma_ascending_len(keys);
    assert(keys.to_set().contains(id));
    let i = choose|i: int| 0 <= i < keys.len() && keys[i] == id;
    let room = book.rooms[id];
    let lines = rooms_lines(book);
    let line = room_line(room, book.active_room);
    assert(table::sorted_values(book.rooms)[i] == room);
    assert(lines[i + 1] == line);
    reveal_strlit("  ");
    reveal_strlit("*");
    reveal_strlit(" ");
    reveal_strlit("  * ");
    reveal_strlit("    ");
    let mark = if book.active_room == Some(id) {
        "*"@
    } else {
        " "@
    };
    let head = if book.active_room == Some(id) {
        "  * "@
    } else {
        "    "@
    };
    assert("  "@ + mark + " "@ =~= head);
    let tail = " members="@ + text::decimal(room.members.len()) + " key="@ + room.key_fingerprint;
    let middle = " ephemeral="@ + text::padded(text::bool_word(room.ephemeral), 5) + " history="@ + text::padded(
        text::bool_word(room.history_enabled),
        5,
    );
    assert(line =~= head + text::padded(id, 12) + middle + tail);
    lemma_listed_word(room.ephemeral);
    lemma_listed_word(room.history_enabled);
    let end = " ephemeral="@ + listed_word(room.ephemeral) + " history="@ + listed_word(
        room.history_enabled,
    ) + " members="@ + text::decimal(room.members.len()) + " key="@ + room.key_fingerprint;
    assert(end =~= middle + tail);
    assert(line.subrange(line.len() - end.len(), line.len() as int) =~= end);
    let start = head + id;
    text::law_padding_only_adds_spaces(id, 12);
    assert(text::padded(id, 12).subrange(0, id.len() as int) == id);
    assert forall|k: int| 0 <= k < start.len() implies line[k] == start[k] by {
        if k >= head.len() {
            assert(line[k] == text::padded(id, 12)[k - head.len()]);
            assert(text::padded(id, 12).subrange(0, id.len() as int)[k - head.len()] == text::padded(id, 12)[k
                - head.len()]);
        }
    }
    assert(line.subrange(0, start.len() as int) =~= start);
    assert(start.is_prefix_of(line));
    assert(end.is_suffix_of(line));
    assert(1 <= i + 1 < lines.len());
}

/// An answer that tells of a failure: an error, or a line that begins as one.
pub open spec fn tells_failure(reply: ReplyView) -> bool {
    reply.error is Some || reply.lines.len() > 0 && "error: "@.is_prefix_of(reply.lines[0])
}

/// What `/join` says tells which room is active, whether it is ephemeral and keeps a history, and
/// the fingerprint of its key; a room that could not be joined is a failure.
pub proof fn law_join_tells_the_room(
    book: RoomBookView,
    self_peer: Seq<char>,
    room_id: Seq<char>,
    secret: Seq<char>,
    ephemeral: bool,
)
    requires
        rooms_sound(book),
    ensures
        ({
            let (after, reply) = join_outcome(book, self_peer, room_id, secret, ephemeral);
            let key = crypto::passphrase_room_key(room_id, secret);
            let fits = ids::room_id_valid(room_id) && key is Ok && (book.rooms.contains_key(room_id)
                ==> book.rooms[room_id].room_key == key->Ok_0);
            &&& !fits <==> tells_failure(reply)
            &&& fits ==> {
                let now = after.rooms[room_id];
                &&& reply.lines.contains("active room: "@ + room_id)
                &&& reply.lines.contains("ephemeral: "@ + text::bool_word(now.ephemeral))
                &&& reply.lines.contains("history: "@ + text::bool_word(now.history_enabled))
                &&& reply.lines.contains("room key fingerprint: "@ + now.key_fingerprint)
            }
        }),
{
    let (after, reply) = join_outcome(book, self_peer, room_id, secret, ephemeral);
    lemma_room_words();
    lemma_failures(room_id);
    if reply.error is None && reply.lines.len() == 4 && reply.lines[0] == "active room: "@
        + room_id {
        assert(reply.lines[1] == "ephemeral: "@ + text::bool_word(after.rooms[room_id].ephemeral));
        assert(reply.lines[2] == "history: "@ + text::bool_word(after.rooms[room_id].history_enabled));
        assert(reply.lines[3] == "room key fingerprint: "@ + after.rooms[room_id].key_fingerprint);
    }
    if reply.lines.len() == 5 {
        assert(reply.lines[1] == "active room: "@ + room_id);
        assert(reply.lines[2] == "ephemeral: "@ + text::bool_word(ephemeral));
        assert(reply.lines[3] == "history: false"@);
        assert(reply.lines[4] == "room key fingerprint: "@ + after.rooms[room_id].key_fingerprint);
    }
}

/// How a setting is told.
proof fn lemma_room_words()
    ensures
        "history: "@ + text::bool_word(false) == "history: false"@,
{
    reveal_strlit("history: ");
    reveal_strlit("false");
    reveal_strlit("history: false");
    assert("history: "@ + "false"@ =~= "history: false"@);
}

/// What begins as a failure and what does not.
proof fn lemma_failures(room_id: Seq<char>)
    ensures
        "error: "@.is_prefix_of(
            "error: room "@ + room_id + " already exists with a different key"@,
        ),
        !"error: "@.is_prefix_of("active room: "@ + room_id),
        !"error: "@.is_prefix_of("joined room: "@ + room_id),
{
    reveal_strlit("error: ");
    reveal_strlit("error: room ");
    reveal_strlit("active room: ");
    reveal_strlit("joined room: ");
    let line = "error: room "@ + room_id + " already exists with a different key"@;
    assert(line.subrange(0, 7) =~= "error: "@);
    let a = "active room: "@ + room_id;
    let j = "joined room: "@ + room_id;
    assert(a[0] == 'a');
    assert(j[0] == 'j');
    if "error: "@.is_prefix_of(a) {
        assert(a.subrange(0, 7)[0] == 'e');
    }
    if "error: "@.is_prefix_of(j) {
        assert(j.subrange(0, 7)[0] == 'e');
    }
}

/// What `/dm` and `/create-room` say of a room that they made or opened names it, tells whether it
/// is ephemeral and keeps a history, and gives the fingerprint of its key.
pub proof fn law_new_rooms_are_told(
    book: RoomBookView,
    identity: UnlockedIdentityView,
    self_peer: Seq<char>,
    remote: Seq<char>,
    room_id: Seq<char>,
    secret: Seq<char>,
    seed: Seq<u8>,
    ephemeral: bool,
)
    requires
        rooms_sound(book),
    ensures
        ({
            let (after, reply) = direct_outcome(book, self_peer, remote, secret, ephemeral);
            let id = ids::dm_room_id(self_peer, remote);
            let now = after.rooms[id];
            reply.error is None ==> {
                &&& id.is_suffix_of(reply.lines[0])
                &&& reply.lines.contains("peer: "@ + remote)
                &&& reply.lines.contains("ephemeral: "@ + text::bool_word(now.ephemeral))
                &&& reply.lines.contains("history: "@ + text::bool_word(now.history_enabled))
                &&& reply.lines.contains("room key fingerprint: "@ + now.key_fingerprint)
            }
        }),
        ({
            let (after, reply) = create_outcome(
                book,
                identity,
                self_peer,
                room_id,
                seed,
                ephemeral,
            );
            let now = after.rooms[room_id];
            reply.error is None ==> {
                &&& reply.lines.contains("created room: "@ + room_id)
                &&& reply.lines.contains("active room: "@ + room_id)
                &&& reply.lines.contains("ephemeral: "@ + text::bool_word(now.ephemeral))
                &&& reply.lines.contains("history: "@ + text::bool_word(now.history_enabled))
                &&& reply.lines.contains("room key fingerprint: "@ + now.key_fingerprint)
            }
        }),
{
    lemma_room_words();
    let id = ids::dm_room_id(self_peer, remote);
    let (after, reply) = direct_outcome(book, self_peer, remote, secret, ephemeral);
    if reply.error is None {
        let line = reply.lines[0];
        assert(line.subrange(line.len() - id.len(), line.len() as int) =~= id);
        assert(reply.lines[1] == "peer: "@ + remote);
        if book.rooms.contains_key(id) {
            assert(reply.lines[2] == "ephemeral: "@ + text::bool_word(after.rooms[id].ephemeral));
            assert(reply.lines[3] == "history: "@ + text::bool_word(after.rooms[id].history_enabled));
            assert(reply.lines[5] == "room key fingerprint: "@ + after.rooms[id].key_fingerprint);
        } else {
            assert(reply.lines[3] == "ephemeral: "@ + text::bool_word(after.rooms[id].ephemeral));
            assert(reply.lines[4] == "history: false"@);
            assert(reply.lines[6] == "room key fingerprint: "@ + after.rooms[id].key_fingerprint);
        }
    }
    let (made, told) = create_outcome(book, identity, self_peer, room_id, seed, ephemeral);
    if told.error is None {
        assert(told.lines[0] == "created room: "@ + room_id);
        assert(told.lines[1] == "active room: "@ + room_id);
        assert(told.lines[2] == "ephemeral: "@ + text::bool_word(ephemeral));
        assert(told.lines[3] == "history: false"@);
        assert(told.lines[5] == "room key fingerprint: "@ + made.rooms[room_id].key_fingerprint);
    }
}

/// What `/room add-peer` says names the peer, and differs for one that was in the room already; what
/// `/history` says tells the setting.
pub proof fn law_room_changes_are_told(book: RoomBookView, peer: Seq<char>, enabled: bool)
    requires
        book.active_room is Some,
        book.rooms.contains_key(book.active_room->0),
    ensures
        ({
            let id = book.active_room->0;
            let room = book.rooms[id];
            let reply = add_peer_outcome(book, peer).1;
            let first = "room "@ + id + " history_enabled="@ + text::bool_word(enabled);
            &&& reply.error is None
            &&& reply.lines.contains("  "@ + peer)
            &&& reply.lines[0] == if room.members.contains(peer) {
                "peer is already in room "@ + id + ":"@
            } else {
                "added peer to room "@ + id + ":"@
            }
            &&& match history_outcome(book, enabled).1 {
                HistorySwitchView::Show { first: said, .. } => enabled && said == first,
                HistorySwitchView::Answered { lines, error } => if enabled {
                    lines.len() > 0 && lines[0]
                        == "error: cannot enable history for an ephemeral room"@
                } else {
                    lines == seq![first] && error is None
                },
            }
        }),
{
    assert(add_peer_outcome(book, peer).1.lines[1] == "  "@ + peer);
}

/// Without an active room, the commands on it tell of a failure.
pub proof fn law_a_room_is_needed(
    book: RoomBookView,
    peer: Seq<char>,
    connected: Set<Seq<char>>,
    enabled: bool,
)
    requires
        book.active_room is None,
    ensures
        tells_failure(add_peer_outcome(book, peer).1),
        tells_failure(room_peers_reply(book, peer, connected)),
        history_outcome(book, enabled).1 matches HistorySwitchView::Answered { lines, .. }
            && lines.len() > 0 && "error: "@.is_prefix_of(lines[0]),
{
    reveal_strlit("error: ");
    reveal_strlit("error: no active room");
    assert("error: no active room"@.subrange(0, 7) =~= "error: "@);
}

} // verus!
