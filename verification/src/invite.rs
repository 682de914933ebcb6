//! Online room invites.

use crate::crypto;
use crate::crypto::derive_bound_room_key;
use crate::crypto::fingerprint_from_public_key;
use crate::crypto::room_key_fingerprint;
use crate::crypto::sign_bytes;
use crate::crypto::to_array32;
use crate::crypto::verify_signature;
use crate::ids;
use crate::ids::generate_message_id;
use crate::ids::validate_room_id;
use crate::membership;
use crate::membership::build_membership_state;
use crate::membership::verify_membership_state;
use crate::peer::PeerId;
use crate::primitives;
use crate::primitives::base64_decode;
use crate::primitives::base64_encode;
use crate::protocol;
use crate::protocol::PROTOCOL_VERSION;
use crate::protocol::require_protocol_version;
use crate::protocol::RoomInvite;
use crate::protocol::RoomInviteView;
use crate::protocol::RoomMembershipState;
use crate::protocol::RoomMembershipStateView;
use crate::replay::ReplayCache;
use crate::reply;
use crate::reply::hint_reply;
use crate::reply::Reply;
use crate::reply::ReplyView;
use crate::reply::room_missing_text;
use crate::room;
use crate::room::RoomBook;
use crate::room::RoomBookView;
use crate::room::RoomSession;
use crate::room::RoomSessionView;
use crate::storage::UnlockedIdentity;
use crate::storage::UnlockedIdentityView;
use crate::table;
use crate::table::TextMap;
use crate::table::TextSet;
use crate::text;
use crate::text::bool_text;
use crate::text::byte_len;
use crate::text::cat2;
use crate::text::cat3;
use crate::text::cat4;
use crate::text::cat5;
use crate::text::chars_of;
use crate::text::count_text;
use crate::text::decimal_text;
use crate::text::Lines;
use crate::text::list_contains;
use crate::text::same_bytes;
use crate::text::same_text;
use crate::trust::InboundTrustStatus;
use crate::trust::InboundTrustStatusView;
use vstd::prelude::*;
use vstd::utf8::*;

verus! {

/// An invite that waits for the user.
pub struct PendingInvite {
    pub invite_id: String,
    pub room_id: String,
    pub room_key: [u8; 32],
    pub room_seed: [u8; 32],
    pub key_fingerprint: String,
    pub ephemeral: bool,
    pub membership: RoomMembershipState,
    pub sender_alias: String,
    pub sender_peer_id: PeerId,
    pub sender_fingerprint: String,
    pub received_at_ms: u64,
}

/// The plain values held by a [`PendingInvite`].
#[verifier::ext_equal]
pub struct PendingInviteView {
    pub invite_id: Seq<char>,
    pub room_id: Seq<char>,
    pub room_key: Seq<u8>,
    pub room_seed: Seq<u8>,
    pub key_fingerprint: Seq<char>,
    pub ephemeral: bool,
    pub membership: RoomMembershipStateView,
    pub sender_alias: Seq<char>,
    pub sender_peer_id: Seq<char>,
    pub sender_fingerprint: Seq<char>,
    pub received_at_ms: u64,
}

impl View for PendingInvite {
    type V = PendingInviteView;

    open spec fn view(&self) -> PendingInviteView {
        PendingInviteView {
            invite_id: self.invite_id@,
            room_id: self.room_id@,
            room_key: self.room_key@,
            room_seed: self.room_seed@,
            key_fingerprint: self.key_fingerprint@,
            ephemeral: self.ephemeral,
            membership: self.membership@,
            sender_alias: self.sender_alias@,
            sender_peer_id: self.sender_peer_id@,
            sender_fingerprint: self.sender_fingerprint@,
            received_at_ms: self.received_at_ms,
        }
    }
}

/// The invites that wait for the user.
pub struct InviteBook {
    pub pending: TextMap<PendingInvite>,
}

/// The plain values held by a [`InviteBook`].
#[verifier::ext_equal]
pub struct InviteBookView {
    pub pending: Map<Seq<char>, PendingInviteView>,
}

impl View for InviteBook {
    type V = InviteBookView;

    open spec fn view(&self) -> InviteBookView {
        InviteBookView {
            pending: self.pending@,
        }
    }
}

/// No invites.
pub open spec fn empty_invites() -> InviteBookView {
    InviteBookView { pending: Map::empty() }
}

impl InviteBook {
    /// No invites.
    pub fn new() -> (res: InviteBook)
        ensures
            res@ == empty_invites(),
    {
        InviteBook { pending: TextMap::new() }
    }
}

/// What an invite says, or why there is none.
pub type InviteOutcome = Result<RoomInviteView, Seq<char>>;

/// The invite to a room that an identity signs, before it is signed.
pub open spec fn unsigned_invite(
    identity: UnlockedIdentityView,
    room: RoomSessionView,
    invite_id: Seq<char>,
    now_ms: u64,
) -> RoomInviteView {
    RoomInviteView {
        version: PROTOCOL_VERSION,
        invite_id,
        room_id: room.room_id,
        room_key_b64: primitives::base64_text(room.room_seed->0),
        ephemeral: room.ephemeral,
        membership: room.membership->0,
        sender_alias: identity.alias,
        sender_peer_id: identity.peer_id,
        sender_signing_public_key_b64: primitives::base64_text(primitives::ed25519_public(identity.signing_key)),
        timestamp_ms: now_ms,
        signature_b64: ""@,
    }
}

/// The invite to a room that an identity signs.
pub open spec fn signed_invite(
    identity: UnlockedIdentityView,
    room: RoomSessionView,
    invite_id: Seq<char>,
    now_ms: u64,
) -> InviteOutcome {
    if room.membership is None {
        Err(
            "legacy /join rooms cannot be invited in Phase 12; create a hardened room with /create-room"@,
        )
    } else if room.room_seed is None {
        Err("hardened room is missing its room seed"@)
    } else {
        let unsigned = unsigned_invite(identity, room, invite_id, now_ms);
        Ok(
            RoomInviteView {
                signature_b64: primitives::base64_text(
                    primitives::ed25519_signed(identity.signing_key, protocol::invite_payload(unsigned)),
                ),
                ..unsigned
            },
        )
    }
}

/// A room can be invited to by the identity that created it: its signed membership is in order,
/// speaks of this room, and names the identity as the creator.
pub open spec fn invitable(identity: UnlockedIdentityView, room: RoomSessionView) -> bool {
    &&& room.membership is Some
    &&& room.room_seed is Some
    &&& ids::room_id_valid(room.room_id)
    &&& membership::membership_error(room.membership->0) is None
    &&& room.membership->0.room_id == room.room_id
    &&& room.membership->0.creator_peer_id == identity.peer_id
    &&& room.membership->0.creator_signing_public_key_b64 == primitives::base64_text(
        primitives::ed25519_public(identity.signing_key),
    )
}

/// Sign an invite to a room under a given invite id.
///
/// The invite to a room that this identity created is accepted from this identity, and the
/// invited peer derives the key that belongs to the seed and the signed peer list.
pub fn sign_invite(identity: &UnlockedIdentity, room: &RoomSession, invite_id: &str, now_ms: u64) -> (res:
    Result<RoomInvite, String>)
    ensures
        match res {
            Ok(invite) => signed_invite(identity@, room@, invite_id@, now_ms) == InviteOutcome::Ok(
                invite@,
            ) && (invitable(identity@, room@) && 0 < invite_id@.len() && encode_utf8(
                invite_id@,
            ).len() <= 64 ==> {
                &&& invite_error(identity@.peer_id, invite@) is None
                &&& invite_seed(invite@) == room@.room_seed->0
            }),
            Err(e) => signed_invite(identity@, room@, invite_id@, now_ms) == InviteOutcome::Err(e@),
        },
{
    let membership = match &room.membership {
        Some(membership) => membership.duplicate(),
        None => return Err(
            "legacy /join rooms cannot be invited in Phase 12; create a hardened room with /create-room".to_owned(),
        ),
    };
    let seed = match &room.room_seed {
        Some(seed) => seed,
        None => return Err("hardened room is missing its room seed".to_owned()),
    };
    let public_key = identity.signing_key.public_key();
    let mut invite = RoomInvite {
        version: PROTOCOL_VERSION,
        invite_id: invite_id.to_owned(),
        room_id: room.room_id.clone(),
        room_key_b64: base64_encode(seed.as_slice()),
        ephemeral: room.ephemeral,
        membership,
        sender_alias: identity.alias.clone(),
        sender_peer_id: identity.peer_id.clone(),
        sender_signing_public_key_b64: base64_encode(public_key.as_slice()),
        timestamp_ms: now_ms,
        signature_b64: "".to_owned(),
    };
    let ghost unsigned = invite@;
    let payload = invite.signing_payload();
    let signature = sign_bytes(&identity.signing_key, payload.as_slice());
    invite.signature_b64 = base64_encode(signature.as_slice());
    proof {
        assert(unsigned == unsigned_invite(identity@, room@, invite_id@, now_ms));
        assert(protocol::invite_fields(invite@) =~= protocol::invite_fields(unsigned));
        if invitable(identity@, room@) {
            membership::law_accepted_membership_is_canonical(room@.membership->0);
        }
    }
    Ok(invite)
}

/// The seed that an invite carries.
pub open spec fn invite_seed(invite: RoomInviteView) -> Seq<u8> {
    primitives::base64_bytes(invite.room_key_b64)->Ok_0
}

/// Why an invite from a connected peer is refused, if it is.
pub open spec fn invite_error(peer: Seq<char>, invite: RoomInviteView) -> Option<Seq<char>> {
    if invite.version != PROTOCOL_VERSION {
        Some(protocol::version_error(invite.version))
    } else if invite.sender_peer_id != peer {
        Some(
            "sender peer mismatch: connection peer is "@ + peer + ", invite claims "@
                + invite.sender_peer_id,
        )
    } else if invite.invite_id.len() == 0 || encode_utf8(invite.invite_id).len() > 64 {
        Some("invalid invite id"@)
    } else if ids::room_id_error(invite.room_id) is Some {
        ids::room_id_error(invite.room_id)
    } else if membership::membership_error(invite.membership) is Some {
        membership::membership_error(invite.membership)
    } else if invite.membership.room_id != invite.room_id {
        Some(
            "invite room id '"@ + invite.room_id + "' does not match membership room id '"@
                + invite.membership.room_id + "'"@,
        )
    } else if !invite.membership.peers.contains(peer) {
        Some("signed membership does not include invite sender"@)
    } else if invite.sender_peer_id != invite.membership.creator_peer_id {
        Some("Phase 12 invites must be sent by the signed room creator"@)
    } else if invite.sender_signing_public_key_b64
        != invite.membership.creator_signing_public_key_b64 {
        Some("invite signing key does not match membership creator key"@)
    } else {
        match primitives::base64_bytes(invite.sender_signing_public_key_b64) {
            Err(_) => Some("invalid invite signing public key base64"@),
            Ok(public_key) => match primitives::base64_bytes(invite.signature_b64) {
                Err(_) => Some("invalid invite signature base64"@),
                Ok(signature) => if crypto::signature_error(
                    public_key,
                    protocol::invite_payload(invite),
                    signature,
                ) is Some {
                    Some("invalid invite signature"@)
                } else {
                    match primitives::base64_bytes(invite.room_key_b64) {
                        Err(_) => Some("invalid invite room seed base64"@),
                        Ok(seed) => if seed.len() != 32 {
                            Some(
                                "invalid invite room seed length: expected 32 bytes, got "@
                                    + text::decimal(seed.len()),
                            )
                        } else {
                            None
                        },
                    }
                },
            },
        }
    }
}

/// The invite as it waits for the user.
pub open spec fn pending_invite(peer: Seq<char>, invite: RoomInviteView, now_ms: u64) -> PendingInviteView {
    let seed = invite_seed(invite);
    let key = crypto::bound_room_key(invite.room_id, invite.membership.peers, seed, PROTOCOL_VERSION);
    PendingInviteView {
        invite_id: invite.invite_id,
        room_id: invite.room_id,
        room_key: key,
        room_seed: seed,
        key_fingerprint: crypto::fingerprint(key),
        ephemeral: invite.ephemeral,
        membership: invite.membership,
        sender_alias: invite.sender_alias,
        sender_peer_id: peer,
        sender_fingerprint: crypto::fingerprint(
            primitives::base64_bytes(invite.sender_signing_public_key_b64)->Ok_0,
        ),
        received_at_ms: now_ms,
    }
}

/// Verify an invite from a connected peer.
pub fn verify_invite(peer: &PeerId, invite: &RoomInvite, now_ms: u64) -> (res: Result<
    PendingInvite,
    String,
>)
    ensures
        match res {
            Ok(pending) => invite_error(peer@, invite@) is None && pending@ == pending_invite(
                peer@,
                invite@,
                now_ms,
            ),
            Err(e) => invite_error(peer@, invite@) == Some(e@),
        },
{
    match require_protocol_version(invite.version) {
        Ok(_) => {},
        Err(e) => return Err(e),
    }
    if !same_text(invite.sender_peer_id.as_str(), peer.as_text()) {
        return Err(
            cat4(
                "sender peer mismatch: connection peer is ",
                peer.as_text(),
                ", invite claims ",
                invite.sender_peer_id.as_str(),
            ),
        );
    }
    if chars_of(invite.invite_id.as_str()).len() == 0 || byte_len(invite.invite_id.as_str()) > 64 {
        return Err("invalid invite id".to_owned());
    }
    match validate_room_id(invite.room_id.as_str()) {
        Ok(_) => {},
        Err(e) => return Err(e),
    }
    match verify_membership_state(&invite.membership) {
        Ok(_) => {},
        Err(e) => return Err(e),
    }
    if !same_text(invite.membership.room_id.as_str(), invite.room_id.as_str()) {
        return Err(
            cat5(
                "invite room id '",
                invite.room_id.as_str(),
                "' does not match membership room id '",
                invite.membership.room_id.as_str(),
                "'",
            ),
        );
    }
    if !list_contains(&invite.membership.peers, peer.as_text()) {
        return Err("signed membership does not include invite sender".to_owned());
    }
    if !same_text(invite.sender_peer_id.as_str(), invite.membership.creator_peer_id.as_str()) {
        return Err("Phase 12 invites must be sent by the signed room creator".to_owned());
    }
    if !same_text(
        invite.sender_signing_public_key_b64.as_str(),
        invite.membership.creator_signing_public_key_b64.as_str(),
    ) {
        return Err("invite signing key does not match membership creator key".to_owned());
    }
    let public_key = match base64_decode(invite.sender_signing_public_key_b64.as_str()) {
        Ok(key) => key,
        Err(_) => return Err("invalid invite signing public key base64".to_owned()),
    };
    let signature = match base64_decode(invite.signature_b64.as_str()) {
        Ok(signature) => signature,
        Err(_) => return Err("invalid invite signature base64".to_owned()),
    };
    let payload = invite.signing_payload();
    match verify_signature(public_key.as_slice(), payload.as_slice(), signature.as_slice()) {
        Ok(_) => {},
        Err(_) => return Err("invalid invite signature".to_owned()),
    }
    let seed_bytes = match base64_decode(invite.room_key_b64.as_str()) {
        Ok(seed) => seed,
        Err(_) => return Err("invalid invite room seed base64".to_owned()),
    };
    if seed_bytes.len() != 32 {
        return Err(
            cat2(
                "invalid invite room seed length: expected 32 bytes, got ",
                count_text(seed_bytes.len()).as_str(),
            ),
        );
    }
    let room_seed = to_array32(seed_bytes.as_slice());
    let room_key = derive_bound_room_key(
        invite.room_id.as_str(),
        &invite.membership.peers,
        &room_seed,
        PROTOCOL_VERSION,
    );
    Ok(
        PendingInvite {
            invite_id: invite.invite_id.clone(),
            room_id: invite.room_id.clone(),
            room_key,
            room_seed,
            key_fingerprint: room_key_fingerprint(&room_key),
            ephemeral: invite.ephemeral,
            membership: invite.membership.duplicate(),
            sender_alias: invite.sender_alias.clone(),
            sender_peer_id: peer.duplicate(),
            sender_fingerprint: fingerprint_from_public_key(public_key.as_slice()),
            received_at_ms: now_ms,
        },
    )
}

/// What is printed for a new invite.
pub open spec fn invite_lines(pending: PendingInviteView, status: InboundTrustStatusView) -> Seq<
    Seq<char>,
> {
    let invites = pending.sender_alias + " ["@ + pending.sender_fingerprint
        + "] invites you to room "@ + pending.room_id;
    seq![""@] + (match status {
        InboundTrustStatusView::Trusted => seq!["[invite] "@ + invites],
        InboundTrustStatusView::Untrusted => seq![
            "[invite] [untrusted] "@ + invites,
            "hint: verify fingerprint out-of-band, then run /trust "@ + pending.sender_peer_id,
        ],
        InboundTrustStatusView::KeyChanged { old_fingerprint, new_fingerprint } => seq![
            "SECURITY WARNING: signing key changed for peer "@ + pending.sender_peer_id,
            "  old fingerprint: "@ + old_fingerprint,
            "  new fingerprint: "@ + new_fingerprint,
            "[invite] [key-changed] "@ + invites,
        ],
    }) + seq![
        "  invite_id: "@ + pending.invite_id,
        "  ephemeral: "@ + text::bool_word(pending.ephemeral),
        "  room key fingerprint: "@ + pending.key_fingerprint,
        "hint:"@,
        "  /accept-invite "@ + pending.invite_id,
        "  /reject-invite "@ + pending.invite_id,
    ]
}

/// File a verified invite and announce it.
pub fn file_invite(book: &mut InviteBook, pending: PendingInvite, status: &InboundTrustStatus) -> (res:
    Lines)
    ensures
        final(book)@.pending == old(book)@.pending.insert(pending@.invite_id, pending@),
        res@ == invite_lines(pending@, status@),
{
    let mut lines = Lines::new();
    lines.say("");
    let invites = cat5(
        pending.sender_alias.as_str(),
        " [",
        pending.sender_fingerprint.as_str(),
        "] invites you to room ",
        pending.room_id.as_str(),
    );
    match status {
        InboundTrustStatus::Trusted => {
            lines.add(cat2("[invite] ", invites.as_str()));
        },
        InboundTrustStatus::Untrusted => {
            lines.add(cat2("[invite] [untrusted] ", invites.as_str()));
            lines.add(
                cat2(
                    "hint: verify fingerprint out-of-band, then run /trust ",
                    pending.sender_peer_id.as_text(),
                ),
            );
        },
        InboundTrustStatus::KeyChanged { old_fingerprint, new_fingerprint } => {
            lines.add(
                cat2(
                    "SECURITY WARNING: signing key changed for peer ",
                    pending.sender_peer_id.as_text(),
                ),
            );
            lines.add(cat2("  old fingerprint: ", old_fingerprint.as_str()));
            lines.add(cat2("  new fingerprint: ", new_fingerprint.as_str()));
            lines.add(cat2("[invite] [key-changed] ", invites.as_str()));
        },
    }
    lines.add(cat2("  invite_id: ", pending.invite_id.as_str()));
    lines.add(cat2("  ephemeral: ", bool_text(pending.ephemeral)));
    lines.add(cat2("  room key fingerprint: ", pending.key_fingerprint.as_str()));
    lines.say("hint:");
    lines.add(cat2("  /accept-invite ", pending.invite_id.as_str()));
    lines.add(cat2("  /reject-invite ", pending.invite_id.as_str()));
    assert(lines@ =~= invite_lines(pending@, status@));
    let id = pending.invite_id.clone();
    book.pending.insert(id.as_str(), pending);
    lines
}

/// The active room after a peer is invited to it: the peer is a member, and a hardened room gets
/// a new signed membership and the key that belongs to it.
pub open spec fn room_with_invitee(
    identity: UnlockedIdentityView,
    room: RoomSessionView,
    peer: Seq<char>,
) -> RoomSessionView {
    let members = room.members.insert(peer);
    match room.room_seed {
        None => RoomSessionView { members, ..room },
        Some(seed) => {
            let membership = membership::signed_membership(identity, room.room_id, table::sorted_texts(members));
            let key = crypto::bound_room_key(room.room_id, membership.peers, seed, PROTOCOL_VERSION);
            RoomSessionView {
                members,
                room_key: key,
                key_fingerprint: crypto::fingerprint(key),
                membership: Some(membership),
                ..room
            }
        },
    }
}

/// Only the creator of a hardened room may change its membership.
pub open spec fn may_invite(identity: UnlockedIdentityView, room: RoomSessionView) -> bool {
    room.membership is Some && room.room_seed is Some ==> room.membership->0.creator_peer_id
        == identity.peer_id
}

/// What `/invite` does next.
pub enum InviteStep {
    /// It is answered.
    Answered { lines: Vec<String>, error: Option<String> },
    /// An invite has to be sent.
    Send { invite: RoomInvite, key_fingerprint: String },
}

/// The plain values held by a [`InviteStep`].
#[verifier::ext_equal]
pub enum InviteStepView {
    Answered { lines: Seq<Seq<char>>, error: Option<Seq<char>> },
    Send { invite: RoomInviteView, key_fingerprint: Seq<char> },
}

impl View for InviteStep {
    type V = InviteStepView;

    open spec fn view(&self) -> InviteStepView {
        match *self {
            InviteStep::Answered { lines, error } => InviteStepView::Answered { lines: text::texts(lines@), error: text::opt_text(error) },
            InviteStep::Send { invite, key_fingerprint } => InviteStepView::Send { invite: invite@, key_fingerprint: key_fingerprint@ },
        }
    }
}

/// The rooms after `/invite` with a connected peer, and what it does next.
pub open spec fn invite_outcome(
    book: RoomBookView,
    identity: UnlockedIdentityView,
    peer: Seq<char>,
    invite_id: Seq<char>,
    now_ms: u64,
) -> (RoomBookView, InviteStepView) {
    match book.active_room {
        None => (
            book,
            InviteStepView::Answered {
                lines: reply::hinted("error: no active room"@, "  /create-room --ephemeral"@).lines,
                error: None,
            },
        ),
        Some(room_id) => if !book.rooms.contains_key(room_id) {
            (
                book,
                InviteStepView::Answered {
                    lines: Seq::empty(),
                    error: Some(reply::room_missing(room_id)),
                },
            )
        } else if !may_invite(identity, book.rooms[room_id]) {
            (
                book,
                InviteStepView::Answered {
                    lines: Seq::empty(),
                    error: Some("only the room creator can update signed membership in Phase 12"@),
                },
            )
        } else {
            let room = room_with_invitee(identity, book.rooms[room_id], peer);
            (
                RoomBookView { rooms: book.rooms.insert(room_id, room), ..book },
                match signed_invite(identity, room, invite_id, now_ms) {
                    Ok(invite) => InviteStepView::Send {
                        invite,
                        key_fingerprint: room.key_fingerprint,
                    },
                    Err(e) => InviteStepView::Answered { lines: Seq::empty(), error: Some(e) },
                },
            )
        },
    }
}

/// No lines.
fn no_lines() -> (res: Vec<String>)
    ensures
        text::texts(res@) == Seq::<Seq<char>>::empty(),
{
    let none: Vec<String> = Vec::new();
    assert(text::texts(none@) =~= Seq::empty());
    none
}

/// Invite a connected peer to the active room under a given invite id.
///
/// What is sent for a room that this identity created is accepted from this identity, names the
/// invited peer as a member, and leads the invited peer to the key of the room.
pub fn invite_peer_with(
    book: &mut RoomBook,
    identity: &UnlockedIdentity,
    peer: &PeerId,
    invite_id: &str,
    now_ms: u64,
) -> (res: InviteStep)
    ensures
        final(book)@ == invite_outcome(old(book)@, identity@, peer@, invite_id@, now_ms).0,
        res@ == invite_outcome(old(book)@, identity@, peer@, invite_id@, now_ms).1,
        res matches InviteStep::Send { invite, .. } ==> {
            let room_id = old(book)@.active_room->0;
            let room = final(book)@.rooms[room_id];
            room.room_seed is Some && ids::room_id_valid(room.room_id) && room.members.contains(
                identity@.peer_id,
            ) && ids::message_id_valid(invite_id@) ==> {
                &&& invite_error(identity@.peer_id, invite@) is None
                &&& pending_invite(identity@.peer_id, invite@, now_ms).room_key == room.room_key
                &&& invite@.membership.peers.contains(peer@)
            }
        },
        res matches InviteStep::Send { invite, .. } ==> {
            let room_id = old(book)@.active_room->0;
            let members = old(book)@.rooms[room_id].members.insert(peer@);
            &&& final(book)@.rooms[room_id].members == members
            &&& forall|who: Seq<char>| #[trigger]
                invite@.membership.peers.contains(who) <==> members.contains(who)
        },
{
    let ghost want = invite_outcome(book@, identity@, peer@, invite_id@, now_ms);
    let room_id = match &book.active_room {
        Some(room_id) => room_id.clone(),
        None => {
            let reply = hint_reply("error: no active room", "  /create-room --ephemeral");
            return InviteStep::Answered { lines: reply.lines.into_strings(), error: None };
        },
    };
    let mut room = match book.rooms.remove(room_id.as_str()) {
        Some(room) => room,
        None => {
            assert(book@.rooms =~= old(book)@.rooms);
            return InviteStep::Answered {
                lines: no_lines(),
                error: Some(room_missing_text(room_id.as_str())),
            };
        },
    };
    let allowed = match &room.membership {
        Some(membership) => room.room_seed.is_none() || same_text(
            membership.creator_peer_id.as_str(),
            identity.peer_id.as_str(),
        ),
        None => true,
    };
    if !allowed {
        book.rooms.insert(room_id.as_str(), room);
        assert(book@.rooms =~= old(book)@.rooms);
        return InviteStep::Answered {
            lines: no_lines(),
            error: Some(
                "only the room creator can update signed membership in Phase 12".to_owned(),
            ),
        };
    }
    let ghost before = room@;
    let _ = room.members.insert(peer.as_text());
    let peers = room.members.to_list();
    if let Some(seed) = room.room_seed {
        let membership = build_membership_state(identity, room.room_id.as_str(), &peers);
        room.room_key = derive_bound_room_key(
            room.room_id.as_str(),
            &membership.peers,
            &seed,
            PROTOCOL_VERSION,
        );
        room.key_fingerprint = room_key_fingerprint(&room.room_key);
        room.membership = Some(membership);
    }
    assert(room@ == room_with_invitee(identity@, before, peer@));
    let signed = sign_invite(identity, &room, invite_id, now_ms);
    proof {
        if room@.room_seed is Some && ids::room_id_valid(room@.room_id) && room@.members.contains(
            identity@.peer_id,
        ) && ids::message_id_valid(invite_id@) {
            assert(text::texts(peers@).to_set().contains(identity@.peer_id));
            assert(text::texts(peers@).contains(identity@.peer_id));
            assert(invitable(identity@, room@));
            protocol::law_canonical_peers(text::texts(peers@));
            assert(text::texts(peers@).to_set().contains(peer@));
            assert(room@.membership->0.peers.to_set().contains(peer@));
            lemma_message_id_nonempty(invite_id@);
        }
    }
    let step = match signed {
        Ok(invite) => InviteStep::Send { invite, key_fingerprint: room.key_fingerprint.clone() },
        Err(e) => InviteStep::Answered { lines: no_lines(), error: Some(e) },
    };
    book.rooms.insert(room_id.as_str(), room);
    assert(book@.rooms =~= want.0.rooms);
    proof {
        let all = before.members.insert(peer@);
        assert(before.members.subset_of(all));
        vstd::set_lib::lemma_len_subset(before.members, all);
        if want.1 is Send {
            law_sent_invites_name_all_members(old(book)@, identity@, peer@, invite_id@, now_ms);
            let named = want.1->invite.membership.peers;
            assert forall|who: Seq<char>| #[trigger]
                named.contains(who) <==> all.contains(who) by {
                assert(named.to_set().contains(who) <==> named.contains(who));
            }
        }
    }
    step
}

/// A message id is not empty and not too long for an invite id.
proof fn lemma_message_id_nonempty(id: Seq<char>)
    requires
        ids::message_id_valid(id),
    ensures
        0 < id.len(),
        encode_utf8(id).len() <= 64,
{
    text::lemma_utf8_len(id);
}

/// Invite a connected peer to the active room under a random invite id.
pub fn invite_peer(book: &mut RoomBook, identity: &UnlockedIdentity, peer: &PeerId, now_ms: u64) -> (res:
    InviteStep)
    ensures
        exists|invite_id: Seq<char>|
            {
                &&& ids::id_generated(invite_id)
                &&& final(book)@ == (#[trigger] invite_outcome(
                    old(book)@,
                    identity@,
                    peer@,
                    invite_id,
                    now_ms,
                )).0
                &&& res@ == invite_outcome(old(book)@, identity@, peer@, invite_id, now_ms).1
            },
{
    let invite_id = generate_message_id();
    let step = invite_peer_with(book, identity, peer, invite_id.as_str(), now_ms);
    proof {
        let o = invite_outcome(old(book)@, identity@, peer@, invite_id@, now_ms);
        assert(book@ == o.0 && step@ == o.1);
    }
    step
}

/// What is printed after an invite is sent.
pub open spec fn invite_sent_lines(
    invite: RoomInviteView,
    peer: Seq<char>,
    key_fingerprint: Seq<char>,
) -> Seq<Seq<char>> {
    seq![
        "invite sent:"@,
        "  invite_id: "@ + invite.invite_id,
        "  room_id: "@ + invite.room_id,
        "  peer: "@ + peer,
        "  room key fingerprint: "@ + key_fingerprint,
    ]
}

/// Report that an invite was sent.
pub fn report_invite_sent(invite: &RoomInvite, peer: &PeerId, key_fingerprint: &str) -> (res: Lines)
    ensures
        res@ == invite_sent_lines(invite@, peer@, key_fingerprint@),
{
    let mut lines = Lines::new();
    lines.say("invite sent:");
    lines.add(cat2("  invite_id: ", invite.invite_id.as_str()));
    lines.add(cat2("  room_id: ", invite.room_id.as_str()));
    lines.add(cat2("  peer: ", peer.as_text()));
    lines.add(cat2("  room key fingerprint: ", key_fingerprint));
    assert(lines@ =~= invite_sent_lines(invite@, peer@, key_fingerprint@));
    lines
}

/// How an invite that waits is listed.
pub open spec fn pending_lines(p: PendingInviteView) -> Seq<Seq<char>> {
    seq![
        "  "@ + p.invite_id,
        "    room_id: "@ + p.room_id,
        "    from: "@ + p.sender_alias + " ["@ + p.sender_fingerprint + "]"@,
        "    peer_id: "@ + p.sender_peer_id,
        "    ephemeral: "@ + text::bool_word(p.ephemeral),
        "    received_at_ms: "@ + text::decimal(p.received_at_ms as nat),
        "    room key fingerprint: "@ + p.key_fingerprint,
    ]
}

/// How a list of invites that wait is printed.
pub open spec fn all_pending_lines(pending: Seq<PendingInviteView>) -> Seq<Seq<char>>
    decreases pending.len(),
{
    if pending.len() == 0 {
        Seq::empty()
    } else {
        all_pending_lines(pending.drop_last()) + pending_lines(pending.last())
    }
}

/// The answer to `/invites`.
pub open spec fn invites_lines(book: InviteBookView) -> Seq<Seq<char>> {
    if book.pending.dom().len() == 0 {
        seq!["pending invites:"@, "  none"@]
    } else {
        seq!["pending invites:"@] + all_pending_lines(table::sorted_values(book.pending))
    }
}

/// List the invites that wait.
pub fn list_invites(book: &InviteBook) -> (res: Lines)
    ensures
        res@ == invites_lines(book@),
{
    let mut lines = Lines::new();
    lines.say("pending invites:");
    let n: usize = book.pending.len();
    if n == 0 {
        lines.say("  none");
        assert(lines@ =~= invites_lines(book@));
        return lines;
    }
    let ghost head = lines@;
    assert(head =~= seq!["pending invites:"@]);
    let ghost all = table::sorted_values(book@.pending);
    let mut i: usize = 0;
    assert(lines@ =~= head + all_pending_lines(all.take(0)));
    while i < n
        invariant
            i <= n == all.len(),
            n == table::sorted_texts(book@.pending.dom()).len(),
            all == table::sorted_values(book@.pending),
            lines@ == head + all_pending_lines(all.take(i as int)),
        decreases n - i,
    {
        let p = book.pending.nth(i);
        assert(p@ == all[i as int]);
        let ghost before = lines@;
        lines.add(cat2("  ", p.invite_id.as_str()));
        lines.add(cat2("    room_id: ", p.room_id.as_str()));
        lines.add(
            cat5("    from: ", p.sender_alias.as_str(), " [", p.sender_fingerprint.as_str(), "]"),
        );
        lines.add(cat2("    peer_id: ", p.sender_peer_id.as_text()));
        lines.add(cat2("    ephemeral: ", bool_text(p.ephemeral)));
        lines.add(cat2("    received_at_ms: ", decimal_text(p.received_at_ms).as_str()));
        lines.add(cat2("    room key fingerprint: ", p.key_fingerprint.as_str()));
        assert(lines@ =~= before + pending_lines(p@));
        i = i + 1;
        proof {
            assert(all.take(i as int).drop_last() =~= all.take(i - 1));
            assert(all.take(i as int).last() == p@);
            assert(lines@ =~= head + all_pending_lines(all.take(i as int)));
        }
    }
    assert(all.take(i as int) =~= all);
    lines
}

/// The first text of a list that is not a peer id.
pub open spec fn bad_member(peers: Seq<Seq<char>>) -> Option<Seq<char>>
    decreases peers.len(),
{
    if peers.len() == 0 {
        None
    } else {
        match bad_member(peers.drop_last()) {
            Some(bad) => Some(bad),
            None => if primitives::peer_id_text(peers.last()) is None {
                Some(peers.last())
            } else {
                None
            },
        }
    }
}

/// The peer ids of a list.
pub open spec fn members_of(peers: Seq<Seq<char>>) -> Set<Seq<char>>
    decreases peers.len(),
{
    if peers.len() == 0 {
        Set::empty()
    } else {
        members_of(peers.drop_last()).insert(primitives::peer_id_text(peers.last())->0)
    }
}

/// Read the peer ids of a list, or give the first text that is not one.
fn read_members(peers: &Vec<String>) -> (res: Result<TextSet, String>)
    ensures
        match res {
            Ok(members) => bad_member(text::texts(peers@)) is None && members@ == members_of(
                text::texts(peers@),
            ),
            Err(bad) => bad_member(text::texts(peers@)) == Some(bad@),
        },
{
    let ghost all = text::texts(peers@);
    let mut members = TextSet::new();
    let mut i: usize = 0;
    while i < peers.len()
        invariant
            i <= peers@.len(),
            all == text::texts(peers@),
            bad_member(all.take(i as int)) is None,
            members@ == members_of(all.take(i as int)),
        decreases peers.len() - i,
    {
        proof {
            assert(all.take(i + 1).drop_last() =~= all.take(i as int));
            assert(all.take(i + 1).last() == peers@[i as int]@);
        }
        match PeerId::parse(peers[i].as_str()) {
            Some(peer) => {
                let _ = members.insert(peer.as_text());
            },
            None => {
                proof {
                    lemma_bad_member_stays(all, i + 1);
                }
                return Err(peers[i].clone());
            },
        }
        i = i + 1;
    }
    assert(all.take(i as int) =~= all);
    Ok(members)
}

/// The first bad text of a list is that of each longer list.
proof fn lemma_bad_member_stays(peers: Seq<Seq<char>>, n: int)
    requires
        0 <= n <= peers.len(),
        bad_member(peers.take(n)) is Some,
    ensures
        bad_member(peers) == bad_member(peers.take(n)),
    decreases peers.len() - n,
{
    if n < peers.len() {
        assert(peers.take(n + 1).drop_last() =~= peers.take(n));
        lemma_bad_member_stays(peers, n + 1);
    } else {
        assert(peers.take(n) =~= peers);
    }
}

/// The invites, the rooms and the answer after `/accept-invite`.
pub open spec fn accept_outcome(
    invites: InviteBookView,
    book: RoomBookView,
    self_peer: Seq<char>,
    invite_id: Seq<char>,
) -> (InviteBookView, RoomBookView, ReplyView) {
    let left = InviteBookView { pending: invites.pending.remove(invite_id) };
    if !invites.pending.contains_key(invite_id) {
        (
            left,
            book,
            reply::hinted("error: invite not found: "@ + invite_id, "  /invites"@),
        )
    } else {
        let p = invites.pending[invite_id];
        let from = "from: "@ + p.sender_alias + " ["@ + p.sender_fingerprint + "]"@;
        if !p.membership.peers.contains(self_peer) {
            (
                left,
                book,
                reply::failed(
                    "signed membership for room "@ + p.room_id + " does not include this peer"@,
                ),
            )
        } else if bad_member(p.membership.peers) is Some {
            (
                left,
                book,
                reply::failed(
                    "invalid peer id in membership: "@ + bad_member(p.membership.peers)->0,
                ),
            )
        } else {
            let members = members_of(p.membership.peers);
            if book.rooms.contains_key(p.room_id) {
                let room = book.rooms[p.room_id];
                if room.room_key != p.room_key {
                    (
                        left,
                        book,
                        reply::failed(
                            "room "@ + p.room_id
                                + " already exists with a different key; refusing invite"@,
                        ),
                    )
                } else {
                    (
                        left,
                        room::enter(
                            book,
                            p.room_id,
                            RoomSessionView {
                                members,
                                room_key: p.room_key,
                                room_seed: Some(p.room_seed),
                                membership: Some(p.membership),
                                key_fingerprint: p.key_fingerprint,
                                ..room
                            },
                        ),
                        reply::printed(
                            seq![
                                "accepted invite: "@ + p.invite_id,
                                "active room: "@ + p.room_id,
                                from,
                                "members: "@ + text::decimal(members.len()),
                            ],
                        ),
                    )
                }
            } else {
                (
                    left,
                    room::enter(
                        book,
                        p.room_id,
                        RoomSessionView {
                            key_fingerprint: p.key_fingerprint,
                            ..room::new_room(
                                p.room_id,
                                p.room_key,
                                Some(p.room_seed),
                                p.ephemeral,
                                members,
                                Some(p.membership),
                            )
                        },
                    ),
                    reply::printed(
                        seq![
                            "accepted invite: "@ + p.invite_id,
                            "active room: "@ + p.room_id,
                            from,
                            "ephemeral: "@ + text::bool_word(p.ephemeral),
                            "history: false"@,
                            "members: 2"@,
                            "room key fingerprint: "@ + p.key_fingerprint,
                        ],
                    ),
                )
            }
        }
    }
}

/// Accept an invite that waits, and enter its room.
pub fn accept_invite(
    invites: &mut InviteBook,
    book: &mut RoomBook,
    self_peer: &PeerId,
    invite_id: &str,
) -> (res: Reply)
    ensures
        final(invites)@ == accept_outcome(old(invites)@, old(book)@, self_peer@, invite_id@).0,
        final(book)@ == accept_outcome(old(invites)@, old(book)@, self_peer@, invite_id@).1,
        res@ == accept_outcome(old(invites)@, old(book)@, self_peer@, invite_id@).2,
{
    let ghost want = accept_outcome(invites@, book@, self_peer@, invite_id@);
    let p = match invites.pending.remove(invite_id) {
        Some(p) => p,
        None => {
            return hint_reply(
                cat2("error: invite not found: ", invite_id).as_str(),
                "  /invites",
            );
        },
    };
    if !list_contains(&p.membership.peers, self_peer.as_text()) {
        return Reply::fail(
            cat3(
                "signed membership for room ",
                p.room_id.as_str(),
                " does not include this peer",
            ),
        );
    }
    let members = match read_members(&p.membership.peers) {
        Ok(members) => members,
        Err(bad) => return Reply::fail(cat2("invalid peer id in membership: ", bad.as_str())),
    };
    let from = cat5(
        "from: ",
        p.sender_alias.as_str(),
        " [",
        p.sender_fingerprint.as_str(),
        "]",
    );
    let existing = match book.rooms.get(p.room_id.as_str()) {
        Some(room) => Some(same_bytes(room.room_key.as_slice(), p.room_key.as_slice())),
        None => None,
    };
    if let Some(same_key) = existing {
        if !same_key {
            return Reply::fail(
                cat3(
                    "room ",
                    p.room_id.as_str(),
                    " already exists with a different key; refusing invite",
                ),
            );
        }
        let mut room = book.rooms.remove(p.room_id.as_str()).unwrap();
        let mut lines = Lines::new();
        lines.add(cat2("accepted invite: ", p.invite_id.as_str()));
        lines.add(cat2("active room: ", p.room_id.as_str()));
        lines.add(from);
        lines.add(cat2("members: ", count_text(members.len()).as_str()));
        room.members = members;
        room.room_key = p.room_key;
        room.room_seed = Some(p.room_seed);
        room.membership = Some(p.membership);
        room.key_fingerprint = p.key_fingerprint;
        book.rooms.insert(p.room_id.as_str(), room);
        book.active_room = Some(p.room_id);
        assert(book@.rooms =~= want.1.rooms);
        assert(lines@ =~= want.2.lines);
        return Reply::print(lines);
    }
    let mut lines = Lines::new();
    lines.add(cat2("accepted invite: ", p.invite_id.as_str()));
    lines.add(cat2("active room: ", p.room_id.as_str()));
    lines.add(from);
    lines.add(cat2("ephemeral: ", bool_text(p.ephemeral)));
    lines.say("history: false");
    lines.say("members: 2");
    lines.add(cat2("room key fingerprint: ", p.key_fingerprint.as_str()));
    assert(lines@ =~= want.2.lines);
    let room = RoomSession {
        room_id: p.room_id.clone(),
        room_key: p.room_key,
        room_seed: Some(p.room_seed),
        key_fingerprint: p.key_fingerprint,
        ephemeral: p.ephemeral,
        history_enabled: false,
        members,
        membership: Some(p.membership),
        replay_cache: ReplayCache::default(),
    };
    book.rooms.insert(p.room_id.as_str(), room);
    book.active_room = Some(p.room_id);
    assert(book@.rooms =~= want.1.rooms);
    Reply::print(lines)
}

/// What is printed after `/reject-invite`.
pub open spec fn reject_lines(found: bool, invite_id: Seq<char>) -> Seq<Seq<char>> {
    if found {
        seq!["rejected invite: "@ + invite_id]
    } else {
        seq!["invite not found: "@ + invite_id]
    }
}

/// Forget an invite that waits.
pub fn reject_invite(invites: &mut InviteBook, invite_id: &str) -> (res: Lines)
    ensures
        final(invites)@.pending == old(invites)@.pending.remove(invite_id@),
        res@ == reject_lines(old(invites)@.pending.contains_key(invite_id@), invite_id@),
{
    let mut lines = Lines::new();
    match invites.pending.remove(invite_id) {
        Some(_) => {
            lines.add(cat2("rejected invite: ", invite_id));
        },
        None => {
            lines.add(cat2("invite not found: ", invite_id));
        },
    }
    assert(lines@ =~= reject_lines(old(invites)@.pending.contains_key(invite_id@), invite_id@));
    lines
}

/// An accepted invite was signed by the connected peer as the creator of the room, for this room
/// and with the peer list that the creator signed.
pub proof fn law_accepted_invite_is_bound(peer: Seq<char>, invite: RoomInviteView)
    requires
        invite_error(peer, invite) is None,
    ensures
        invite.version == PROTOCOL_VERSION,
        invite.sender_peer_id == peer,
        invite.membership.creator_peer_id == peer,
        invite.membership.room_id == invite.room_id,
        membership::membership_error(invite.membership) is None,
        invite.membership.peers.contains(peer),
        invite_seed(invite).len() == 32,
{
}

/// The peer that is invited to a room ends up with the key of its creator: filing the invite that
/// the creator signed and accepting it enters a room with the same id, key, seed and signed
/// membership, whose members are the signed peers.
pub proof fn law_invite_round_trip(
    identity: UnlockedIdentityView,
    room: RoomSessionView,
    invite: RoomInviteView,
    invites: InviteBookView,
    book: RoomBookView,
    self_peer: Seq<char>,
    sent_ms: u64,
    now_ms: u64,
)
    requires
        signed_invite(identity, room, invite.invite_id, sent_ms) == InviteOutcome::Ok(invite),
        invite_error(identity.peer_id, invite) is None,
        invite_seed(invite) == room.room_seed->0,
        room.room_key == crypto::bound_room_key(
            room.room_id,
            room.membership->0.peers,
            room.room_seed->0,
            PROTOCOL_VERSION,
        ),
        room.membership->0.peers.contains(self_peer),
        bad_member(room.membership->0.peers) is None,
        !book.rooms.contains_key(room.room_id),
    ensures
        ({
            let pending = pending_invite(identity.peer_id, invite, now_ms);
            let filed = InviteBookView {
                pending: invites.pending.insert(invite.invite_id, pending),
            };
            let after = accept_outcome(filed, book, self_peer, invite.invite_id);
            let entered = after.1.rooms[room.room_id];
            &&& after.1.active_room == Some(room.room_id)
            &&& after.1.rooms.contains_key(room.room_id)
            &&& entered.room_key == room.room_key
            &&& entered.room_seed == room.room_seed
            &&& entered.membership == room.membership
            &&& entered.ephemeral == room.ephemeral
            &&& entered.members == members_of(room.membership->0.peers)
            &&& after.2.error is None
            &&& !after.0.pending.contains_key(invite.invite_id)
        }),
{
}

/// Accepting and inviting keep the rooms sound.
pub proof fn law_invites_keep_rooms_sound(
    invites: InviteBookView,
    book: RoomBookView,
    identity: UnlockedIdentityView,
    self_peer: Seq<char>,
    peer: Seq<char>,
    invite_id: Seq<char>,
    now_ms: u64,
)
    requires
        room::rooms_sound(book),
    ensures
        room::rooms_sound(accept_outcome(invites, book, self_peer, invite_id).1),
        room::rooms_sound(invite_outcome(book, identity, peer, invite_id, now_ms).0),
{
}

/// An invite adds the invited peer to the members that the active room already has, and changes
/// nothing else of the rooms but the signed membership and the key that belong to those members.
/// Only the creator of a room with a seed is let.
pub proof fn law_invite_adds_a_member(
    book: RoomBookView,
    identity: UnlockedIdentityView,
    peer: Seq<char>,
    invite_id: Seq<char>,
    now_ms: u64,
)
    ensures
        ({
            let (after, step) = invite_outcome(book, identity, peer, invite_id, now_ms);
            let id = book.active_room->0;
            let room = book.rooms[id];
            let there = book.active_room is Some && book.rooms.contains_key(id);
            let refused = room.room_seed is Some && room.membership is Some
                && room.membership->0.creator_peer_id != identity.peer_id;
            &&& after.active_room == book.active_room
            &&& after.rooms.dom() == book.rooms.dom()
            &&& forall|other: Seq<char>|
                book.rooms.contains_key(other) && Some(other) != book.active_room
                    ==> #[trigger] after.rooms[other] == book.rooms[other]
            &&& !there || refused ==> after == book && step is Answered
            &&& there && !refused ==> {
                let now = after.rooms[id];
                &&& now.members == room.members.insert(peer)
                &&& now.room_id == room.room_id
                &&& now.room_seed == room.room_seed
                &&& now.ephemeral == room.ephemeral
                &&& now.history_enabled == room.history_enabled
                &&& now.replay_cache == room.replay_cache
                &&& step is Send <==> room.room_seed is Some
                &&& room.room_seed is None ==> now.room_key == room.room_key && now.membership
                    == room.membership && now.key_fingerprint == room.key_fingerprint
            }
        }),
{
    assert(invite_outcome(book, identity, peer, invite_id, now_ms).0.rooms.dom()
        =~= book.rooms.dom());
}

/// The invite that is sent is for the active room: it carries the seed of the room, names exactly
/// the members of the room after the invite as signed peers, and is signed by this identity as the
/// creator. The key of the room is the one that belongs to that seed and those peers.
pub proof fn law_sent_invites_name_all_members(
    book: RoomBookView,
    identity: UnlockedIdentityView,
    peer: Seq<char>,
    invite_id: Seq<char>,
    now_ms: u64,
)
    requires
        invite_outcome(book, identity, peer, invite_id, now_ms).1 is Send,
        book.rooms[book.active_room->0].members.finite(),
    ensures
        ({
            let (after, step) = invite_outcome(book, identity, peer, invite_id, now_ms);
            let before = book.rooms[book.active_room->0];
            let room = after.rooms[book.active_room->0];
            let invite = step->invite;
            &&& invite.membership.peers.to_set() == before.members.insert(peer)
            &&& invite.membership.peers.no_duplicates()
            &&& room.membership == Some(invite.membership)
            &&& invite.membership.room_id == before.room_id
            &&& invite.membership.creator_peer_id == identity.peer_id
            &&& invite.invite_id == invite_id
            &&& invite.room_id == before.room_id
            &&& invite.ephemeral == before.ephemeral
            &&& invite.sender_alias == identity.alias
            &&& invite.sender_peer_id == identity.peer_id
            &&& invite.timestamp_ms == now_ms
            &&& before.room_seed == room.room_seed
            &&& invite.room_key_b64 == primitives::base64_text(before.room_seed->0)
            &&& room.room_key == crypto::bound_room_key(
                before.room_id,
                invite.membership.peers,
                before.room_seed->0,
                PROTOCOL_VERSION,
            )
            &&& step->key_fingerprint == crypto::fingerprint(room.room_key)
            &&& room.key_fingerprint == crypto::fingerprint(room.room_key)
        }),
{
    let before = book.rooms[book.active_room->0];
    let members = before.members.insert(peer);
    table::lemma_sorting_set(members);
    protocol::law_canonical_peers(table::sorted_texts(members));
    let peers = invite_outcome(book, identity, peer, invite_id, now_ms).1->invite.membership.peers;
    assert(peers.to_set() =~= members);
    table::lemma_ascending_len(peers);
    let (after, step) = invite_outcome(book, identity, peer, invite_id, now_ms);
    let room = after.rooms[book.active_room->0];
    assert(room.membership == Some(step->invite.membership));
    assert(step->key_fingerprint == crypto::fingerprint(room.room_key));
}

/// Inviting two peers one after the other leads to a room with both, and the second invite names
/// the first peer too.
pub proof fn law_invites_add_up(
    book: RoomBookView,
    identity: UnlockedIdentityView,
    first: Seq<char>,
    second: Seq<char>,
    id1: Seq<char>,
    id2: Seq<char>,
    ms1: u64,
    ms2: u64,
)
    requires
        invite_outcome(book, identity, first, id1, ms1).1 is Send,
        book.rooms[book.active_room->0].members.finite(),
    ensures
        ({
            let between = invite_outcome(book, identity, first, id1, ms1).0;
            let (after, step) = invite_outcome(between, identity, second, id2, ms2);
            let members = book.rooms[book.active_room->0].members;
            &&& step is Send
            &&& after.rooms[book.active_room->0].members == members.insert(first).insert(second)
            &&& step->invite.membership.peers.contains(first)
            &&& step->invite.membership.peers.contains(second)
            &&& forall|p: Seq<char>|
                members.contains(p) ==> #[trigger] step->invite.membership.peers.contains(p)
        }),
{
    let between = invite_outcome(book, identity, first, id1, ms1).0;
    law_invite_adds_a_member(book, identity, first, id1, ms1);
    law_sent_invites_name_all_members(book, identity, first, id1, ms1);
    law_invite_adds_a_member(between, identity, second, id2, ms2);
    law_sent_invites_name_all_members(between, identity, second, id2, ms2);
    let (after, step) = invite_outcome(between, identity, second, id2, ms2);
    let peers = step->invite.membership.peers;
    let members = book.rooms[book.active_room->0].members;
    assert forall|p: Seq<char>| members.insert(first).insert(second).contains(
        p,
    ) implies #[trigger] peers.contains(p) by {
        assert(peers.to_set().contains(p));
    }
}

/// The members that a list of peer ids stands for are those that some text of the list denotes.
proof fn lemma_members_of(peers: Seq<Seq<char>>, q: Seq<char>)
    requires
        bad_member(peers) is None,
    ensures
        members_of(peers).contains(q) <==> exists|i: int|
            0 <= i < peers.len() && primitives::peer_id_text(#[trigger] peers[i]) == Some(q),
    decreases peers.len(),
{
    if peers.len() > 0 {
        let init = peers.drop_last();
        lemma_members_of(init, q);
        if members_of(init).contains(q) {
            let i = choose|i: int|
                0 <= i < init.len() && primitives::peer_id_text(#[trigger] init[i]) == Some(q);
            assert(primitives::peer_id_text(peers[i]) == Some(q));
        }
        if primitives::peer_id_text(peers.last()) == Some(q) {
            assert(primitives::peer_id_text(peers[peers.len() - 1]) == Some(q));
        }
        if exists|i: int| 0 <= i < peers.len() && primitives::peer_id_text(#[trigger] peers[i]) == Some(q) {
            let i = choose|i: int|
                0 <= i < peers.len() && primitives::peer_id_text(#[trigger] peers[i]) == Some(q);
            if i < init.len() {
                assert(primitives::peer_id_text(init[i]) == Some(q));
            }
        }
    }
}

/// A list has no bad text exactly where all its texts are peer ids.
proof fn lemma_bad_member(peers: Seq<Seq<char>>)
    ensures
        bad_member(peers) is None <==> forall|i: int|
            0 <= i < peers.len() ==> primitives::peer_id_text(#[trigger] peers[i]) is Some,
    decreases peers.len(),
{
    if peers.len() > 0 {
        let init = peers.drop_last();
        lemma_bad_member(init);
        assert(forall|i: int| 0 <= i < init.len() ==> init[i] == peers[i]);
        if bad_member(peers) is None {
            assert forall|i: int| 0 <= i < peers.len() implies primitives::peer_id_text(
                #[trigger] peers[i],
            ) is Some by {
                if i < init.len() {
                    assert(primitives::peer_id_text(init[i]) is Some);
                }
            }
        } else if forall|i: int| 0 <= i < peers.len() ==> primitives::peer_id_text(#[trigger] peers[i]) is Some {
            assert forall|i: int| 0 <= i < init.len() implies primitives::peer_id_text(
                #[trigger] init[i],
            ) is Some by {
                assert(primitives::peer_id_text(peers[i]) is Some);
            }
            assert(primitives::peer_id_text(peers[peers.len() - 1]) is Some);
        }
    }
}

/// Accepting an invite uses it up and leaves the others. Where the signed membership names this
/// peer, holds only peer ids, and no room of the same id has another key, the room is entered with
/// the key, the seed and the membership of the invite, its members are the signed peers, and a
/// room that was there keeps the rest; otherwise no room changes, and the user is told.
pub proof fn law_accepted_invites_are_entered(
    invites: InviteBookView,
    book: RoomBookView,
    self_peer: Seq<char>,
    invite_id: Seq<char>,
)
    ensures
        ({
            let (left, after, reply) = accept_outcome(invites, book, self_peer, invite_id);
            let p = invites.pending[invite_id];
            let fits = invites.pending.contains_key(invite_id) && p.membership.peers.contains(
                self_peer,
            ) && (forall|i: int|
                0 <= i < p.membership.peers.len() ==> primitives::peer_id_text(
                    #[trigger] p.membership.peers[i],
                ) is Some) && (book.rooms.contains_key(p.room_id)
                ==> book.rooms[p.room_id].room_key == p.room_key);
            &&& left.pending == invites.pending.remove(invite_id)
            &&& !fits ==> after == book && (reply.error is Some || !invites.pending.contains_key(
                invite_id,
            ))
            &&& fits ==> {
                let room = after.rooms[p.room_id];
                &&& reply.error is None
                &&& after.active_room == Some(p.room_id)
                &&& after.rooms.dom() == book.rooms.dom().insert(p.room_id)
                &&& forall|other: Seq<char>|
                    book.rooms.contains_key(other) && other != p.room_id
                        ==> #[trigger] after.rooms[other] == book.rooms[other]
                &&& room.room_key == p.room_key
                &&& room.room_seed == Some(p.room_seed)
                &&& room.membership == Some(p.membership)
                &&& room.key_fingerprint == p.key_fingerprint
                &&& forall|q: Seq<char>| #[trigger]
                    room.members.contains(q) <==> exists|i: int|
                        0 <= i < p.membership.peers.len() && primitives::peer_id_text(
                            #[trigger] p.membership.peers[i],
                        ) == Some(q)
                &&& if book.rooms.contains_key(p.room_id) {
                    let before = book.rooms[p.room_id];
                    room.ephemeral == before.ephemeral && room.history_enabled
                        == before.history_enabled && room.replay_cache == before.replay_cache
                        && room.room_id == before.room_id
                } else {
                    room.ephemeral == p.ephemeral && !room.history_enabled && room.room_id
                        == p.room_id && room.replay_cache.seen == Set::<Seq<char>>::empty()
                }
            }
        }),
{
    let p = invites.pending[invite_id];
    let peers = p.membership.peers;
    lemma_bad_member(peers);
    let (left, after, reply) = accept_outcome(invites, book, self_peer, invite_id);
    if invites.pending.contains_key(invite_id) && peers.contains(self_peer) && bad_member(
        peers,
    ) is None {
        assert forall|q: Seq<char>| #[trigger]
            members_of(peers).contains(q) <==> exists|i: int|
                0 <= i < peers.len() && primitives::peer_id_text(#[trigger] peers[i]) == Some(q) by {
            lemma_members_of(peers, q);
        }
        if book.rooms.contains_key(p.room_id) ==> book.rooms[p.room_id].room_key == p.room_key {
            assert(after.rooms.dom() =~= book.rooms.dom().insert(p.room_id));
        }
    }
}

/// What waits for an answer is what the invite said: its id, its room, who sent it, the signed
/// membership, and the key that belongs to the seed and the signed peers.
pub proof fn law_pending_invites_say_what_was_sent(
    peer: Seq<char>,
    invite: RoomInviteView,
    now_ms: u64,
)
    ensures
        ({
            let p = pending_invite(peer, invite, now_ms);
            let seed = primitives::base64_bytes(invite.room_key_b64)->Ok_0;
            &&& p.invite_id == invite.invite_id
            &&& p.room_id == invite.room_id
            &&& p.ephemeral == invite.ephemeral
            &&& p.membership == invite.membership
            &&& p.sender_alias == invite.sender_alias
            &&& p.sender_peer_id == peer
            &&& p.received_at_ms == now_ms
            &&& p.room_seed == seed
            &&& p.room_key == crypto::bound_room_key(
                invite.room_id,
                invite.membership.peers,
                seed,
                PROTOCOL_VERSION,
            )
            &&& p.key_fingerprint == crypto::fingerprint(p.room_key)
            &&& p.sender_fingerprint == crypto::fingerprint(
                primitives::base64_bytes(invite.sender_signing_public_key_b64)->Ok_0,
            )
        }),
{
}

/// Whatever the trust in the sender, what is printed for an invite tells who invites to which
/// room, and how the invite is accepted or rejected. Only a sender whose key is pinned is shown
/// without a mark.
pub proof fn law_invites_are_shown(pending: PendingInviteView, status: InboundTrustStatusView)
    ensures
        ({
            let lines = invite_lines(pending, status);
            let mark = match status {
                InboundTrustStatusView::Trusted => ""@,
                InboundTrustStatusView::Untrusted => "[untrusted] "@,
                InboundTrustStatusView::KeyChanged { .. } => "[key-changed] "@,
            };
            &&& lines.contains(
                "[invite] "@ + mark + pending.sender_alias + " ["@ + pending.sender_fingerprint
                    + "] invites you to room "@ + pending.room_id,
            )
            &&& lines.contains("  /accept-invite "@ + pending.invite_id)
            &&& lines.contains("  /reject-invite "@ + pending.invite_id)
            &&& lines.contains("  ephemeral: "@ + text::bool_word(pending.ephemeral))
            &&& lines.contains("  room key fingerprint: "@ + pending.key_fingerprint)
            &&& status matches InboundTrustStatusView::KeyChanged {
                old_fingerprint,
                new_fingerprint,
            } ==> lines.contains("  old fingerprint: "@ + old_fingerprint) && lines.contains(
                "  new fingerprint: "@ + new_fingerprint,
            )
        }),
{
    reveal_strlit("");
    reveal_strlit("[invite] ");
    reveal_strlit("[untrusted] ");
    reveal_strlit("[key-changed] ");
    reveal_strlit("[invite] [untrusted] ");
    reveal_strlit("[invite] [key-changed] ");
    let lines = invite_lines(pending, status);
    let n = lines.len();
    let said = pending.sender_alias + " ["@ + pending.sender_fingerprint + "] invites you to room "@
        + pending.room_id;
    assert(lines[n - 2] == "  /accept-invite "@ + pending.invite_id);
    assert(lines[n - 1] == "  /reject-invite "@ + pending.invite_id);
    assert(lines[n - 5] == "  ephemeral: "@ + text::bool_word(pending.ephemeral));
    assert(lines[n - 4] == "  room key fingerprint: "@ + pending.key_fingerprint);
    match status {
        InboundTrustStatusView::Trusted => {
            assert(lines[1] =~= "[invite] "@ + ""@ + pending.sender_alias + " ["@
                + pending.sender_fingerprint + "] invites you to room "@ + pending.room_id);
        },
        InboundTrustStatusView::Untrusted => {
            assert("[invite] "@ + "[untrusted] "@ =~= "[invite] [untrusted] "@);
            assert(lines[1] =~= "[invite] "@ + "[untrusted] "@ + pending.sender_alias + " ["@
                + pending.sender_fingerprint + "] invites you to room "@ + pending.room_id);
        },
        InboundTrustStatusView::KeyChanged { old_fingerprint, new_fingerprint } => {
            assert("[invite] "@ + "[key-changed] "@ =~= "[invite] [key-changed] "@);
            assert(lines[4] =~= "[invite] "@ + "[key-changed] "@ + pending.sender_alias + " ["@
                + pending.sender_fingerprint + "] invites you to room "@ + pending.room_id);
            assert(lines[2] == "  old fingerprint: "@ + old_fingerprint);
            assert(lines[3] == "  new fingerprint: "@ + new_fingerprint);
        },
    }
}

/// Every invite of a list has its lines.
proof fn lemma_listed(pending: Seq<PendingInviteView>, i: int, line: Seq<char>)
    requires
        0 <= i < pending.len(),
        pending_lines(pending[i]).contains(line),
    ensures
        all_pending_lines(pending).contains(line),
    decreases pending.len(),
{
    let init = all_pending_lines(pending.drop_last());
    let last = pending_lines(pending.last());
    let all = all_pending_lines(pending);
    if i == pending.len() - 1 {
        let k = choose|k: int| 0 <= k < last.len() && last[k] == line;
        assert(all[init.len() + k] == line);
    } else {
        lemma_listed(pending.drop_last(), i, line);
        let k = choose|k: int| 0 <= k < init.len() && init[k] == line;
        assert(all[k] == line);
    }
}

/// Each invite has the same number of lines.
proof fn lemma_listed_len(pending: Seq<PendingInviteView>)
    ensures
        all_pending_lines(pending).len() == 7 * pending.len(),
    decreases pending.len(),
{
    if pending.len() > 0 {
        lemma_listed_len(pending.drop_last());
    }
}

/// Every invite that waits is listed with its id, its room and its sender, and nothing else is.
pub proof fn law_every_invite_is_listed(book: InviteBookView, id: Seq<char>)
    requires
        book.pending.dom().finite(),
        book.pending.contains_key(id),
    ensures
        ({
            let p = book.pending[id];
            let lines = invites_lines(book);
            &&& lines.contains("  "@ + p.invite_id)
            &&& lines.contains("    room_id: "@ + p.room_id)
            &&& lines.contains(
                "    from: "@ + p.sender_alias + " ["@ + p.sender_fingerprint + "]"@,
            )
            &&& lines.contains("    peer_id: "@ + p.sender_peer_id)
            &&& lines.contains("    room key fingerprint: "@ + p.key_fingerprint)
            &&& lines.len() == 1 + 7 * book.pending.dom().len()
        }),
{
    table::lemma_sorting_set(book.pending.dom());
    let keys = table::sorted_texts(book.pending.dom());
    table::lemma_ascending_len(keys);
    let all = table::sorted_values(book.pending);
    assert(keys.to_set().contains(id));
    let i = choose|i: int| 0 <= i < keys.len() && keys[i] == id;
    let p = book.pending[id];
    assert(all[i] == p);
    let own = pending_lines(p);
    lemma_listed_len(all);
    let head = seq!["pending invites:"@];
    let rest = all_pending_lines(all);
    assert forall|k: int| 0 <= k < own.len() implies invites_lines(book).contains(
        #[trigger] own[k],
    ) by {
        assert(own.contains(own[k]));
        lemma_listed(all, i, own[k]);
        let m = choose|m: int| 0 <= m < rest.len() && rest[m] == own[k];
        assert((head + rest)[m + 1] == own[k]);
    }
    assert(own[0] == "  "@ + p.invite_id);
    assert(own[1] == "    room_id: "@ + p.room_id);
    assert(own[2] == "    from: "@ + p.sender_alias + " ["@ + p.sender_fingerprint + "]"@);
    assert(own[3] == "    peer_id: "@ + p.sender_peer_id);
    assert(own[6] == "    room key fingerprint: "@ + p.key_fingerprint);
}

/// An invite is accepted exactly if it comes from the peer that signed it and made its room, speaks
/// this protocol version, has usable ids, bears a valid membership of the same room and the same
/// key, is signed with that key, and carries a seed of 32 bytes.
pub proof fn law_when_invites_are_accepted(peer: Seq<char>, invite: RoomInviteView)
    ensures
        invite_error(peer, invite) is None <==> {
            &&& invite.version == PROTOCOL_VERSION
            &&& invite.sender_peer_id == peer
            &&& invite.invite_id.len() > 0
            &&& encode_utf8(invite.invite_id).len() <= 64
            &&& ids::room_id_valid(invite.room_id)
            &&& membership::membership_error(invite.membership) is None
            &&& invite.membership.room_id == invite.room_id
            &&& invite.membership.creator_peer_id == peer
            &&& invite.membership.creator_signing_public_key_b64
                == invite.sender_signing_public_key_b64
            &&& primitives::base64_bytes(invite.sender_signing_public_key_b64) is Ok
            &&& primitives::base64_bytes(invite.signature_b64) is Ok
            &&& crypto::signature_error(
                primitives::base64_bytes(invite.sender_signing_public_key_b64)->Ok_0,
                protocol::invite_payload(invite),
                primitives::base64_bytes(invite.signature_b64)->Ok_0,
            ) is None
            &&& primitives::base64_bytes(invite.room_key_b64) is Ok
            &&& primitives::base64_bytes(invite.room_key_b64)->Ok_0.len() == 32
        },
{
    ids::law_room_ids(invite.room_id);
    membership::law_when_memberships_are_accepted(invite.membership);
}

/// What is said of an invite that was sent, accepted or refused names it and its room.
pub proof fn law_invite_answers_name_the_invite(
    invite: RoomInviteView,
    peer: Seq<char>,
    print: Seq<char>,
    invites: InviteBookView,
    book: RoomBookView,
    self_peer: Seq<char>,
    invite_id: Seq<char>,
)
    ensures
        invite_sent_lines(invite, peer, print).contains("  invite_id: "@ + invite.invite_id),
        invite_sent_lines(invite, peer, print).contains("  room_id: "@ + invite.room_id),
        invite_sent_lines(invite, peer, print).contains("  peer: "@ + peer),
        invite_sent_lines(invite, peer, print).contains("  room key fingerprint: "@ + print),
        invite_id.is_suffix_of(reject_lines(true, invite_id)[0]),
        invite_id.is_suffix_of(reject_lines(false, invite_id)[0]),
        reject_lines(true, invite_id) != reject_lines(false, invite_id),
        ({
            let reply = accept_outcome(invites, book, self_peer, invite_id).2;
            let p = invites.pending[invite_id];
            &&& !invites.pending.contains_key(invite_id) ==> reply.lines.len() > 0
                && reply.lines[0] == "error: invite not found: "@ + invite_id
            &&& invites.pending.contains_key(invite_id) && reply.error is None ==> {
                &&& reply.lines.contains("accepted invite: "@ + p.invite_id)
                &&& reply.lines.contains("active room: "@ + p.room_id)
                &&& reply.lines.contains(
                    "from: "@ + p.sender_alias + " ["@ + p.sender_fingerprint + "]"@,
                )
            }
        }),
{
    let sent = invite_sent_lines(invite, peer, print);
    assert(sent[1] == "  invite_id: "@ + invite.invite_id);
    assert(sent[2] == "  room_id: "@ + invite.room_id);
    assert(sent[3] == "  peer: "@ + peer);
    assert(sent[4] == "  room key fingerprint: "@ + print);
    reveal_strlit("rejected invite: ");
    reveal_strlit("invite not found: ");
    let yes = reject_lines(true, invite_id)[0];
    let no = reject_lines(false, invite_id)[0];
    assert(yes.subrange(yes.len() - invite_id.len(), yes.len() as int) =~= invite_id);
    assert(no.subrange(no.len() - invite_id.len(), no.len() as int) =~= invite_id);
    assert(yes[0] == 'r');
    assert(no[0] == 'i');
    let reply = accept_outcome(invites, book, self_peer, invite_id).2;
    let p = invites.pending[invite_id];
    if invites.pending.contains_key(invite_id) && reply.error is None {
        assert(reply.lines[0] == "accepted invite: "@ + p.invite_id);
        assert(reply.lines[1] == "active room: "@ + p.room_id);
        assert(reply.lines[2] == "from: "@ + p.sender_alias + " ["@ + p.sender_fingerprint + "]"@);
    }
}

/// Of every invite that waits it is listed whether its room is ephemeral and when it came.
pub proof fn law_every_invite_is_listed_with_its_time(book: InviteBookView, id: Seq<char>)
    requires
        book.pending.dom().finite(),
        book.pending.contains_key(id),
    ensures
        invites_lines(book).contains("    ephemeral: "@ + text::bool_word(book.pending[id].ephemeral)),
        invites_lines(book).contains(
            "    received_at_ms: "@ + text::decimal(book.pending[id].received_at_ms as nat),
        ),
{
    table::lemma_sorting_set(book.pending.dom());
    let keys = table::sorted_texts(book.pending.dom());
    let all = table::sorted_values(book.pending);
    table::lemma_ascending_len(keys);
    assert(keys.to_set().contains(id));
    let i = choose|i: int| 0 <= i < keys.len() && keys[i] == id;
    let own = pending_lines(book.pending[id]);
    assert(all[i] == book.pending[id]);
    let head = seq!["pending invites:"@];
    let rest = all_pending_lines(all);
    assert forall|k: int| 0 <= k < own.len() implies invites_lines(book).contains(
        #[trigger] own[k],
    ) by {
        assert(own.contains(own[k]));
        lemma_listed(all, i, own[k]);
        let m = choose|m: int| 0 <= m < rest.len() && rest[m] == own[k];
        assert((head + rest)[m + 1] == own[k]);
    }
    assert(own[4] == "    ephemeral: "@ + text::bool_word(book.pending[id].ephemeral));
    assert(own[5] == "    received_at_ms: "@ + text::decimal(book.pending[id].received_at_ms as nat));
}

} // verus!
