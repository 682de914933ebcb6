//! Room memberships signed by the creator of the room.

use crate::crypto;
use crate::crypto::sign_bytes;
use crate::crypto::verify_signature;
use crate::primitives;
use crate::primitives::base64_decode;
use crate::primitives::base64_encode;
use crate::protocol;
use crate::protocol::canonical_peer_list;
use crate::protocol::PROTOCOL_VERSION;
use crate::protocol::require_protocol_version;
use crate::protocol::RoomMembershipState;
use crate::protocol::RoomMembershipStateView;
use crate::storage::UnlockedIdentity;
use crate::storage::UnlockedIdentityView;
use crate::table;
use crate::text;
use crate::text::byte_len;
use crate::text::chars_of;
use crate::text::list_contains;
use crate::text::same_list;
use vstd::prelude::*;
use vstd::utf8::*;

verus! {

/// The membership that an identity signs, before it is signed.
pub open spec fn unsigned_membership(
    identity: UnlockedIdentityView,
    room_id: Seq<char>,
    peers: Seq<Seq<char>>,
) -> RoomMembershipStateView {
    RoomMembershipStateView {
        version: PROTOCOL_VERSION,
        room_id,
        creator_peer_id: identity.peer_id,
        creator_signing_public_key_b64: primitives::base64_text(primitives::ed25519_public(identity.signing_key)),
        peers: protocol::canonical_peers(peers),
        membership_signature_b64: ""@,
    }
}

/// The membership that an identity signs.
pub open spec fn signed_membership(
    identity: UnlockedIdentityView,
    room_id: Seq<char>,
    peers: Seq<Seq<char>>,
) -> RoomMembershipStateView {
    let unsigned = unsigned_membership(identity, room_id, peers);
    RoomMembershipStateView {
        membership_signature_b64: primitives::base64_text(
            primitives::ed25519_signed(identity.signing_key, protocol::membership_payload(unsigned)),
        ),
        ..unsigned
    }
}

/// What is wrong with a membership, if anything is.
pub open spec fn membership_error(m: RoomMembershipStateView) -> Option<Seq<char>> {
    if m.version != PROTOCOL_VERSION {
        Some(protocol::version_error(m.version))
    } else if m.room_id.len() == 0 || encode_utf8(m.room_id).len() > 64 {
        Some("invalid membership room id"@)
    } else if m.peers.len() == 0 {
        Some("membership has no peers"@)
    } else if m.peers != protocol::canonical_peers(m.peers) {
        Some("membership peers must be sorted and deduplicated"@)
    } else if !m.peers.contains(m.creator_peer_id) {
        Some("membership does not include creator peer"@)
    } else {
        match primitives::base64_bytes(m.creator_signing_public_key_b64) {
            Err(_) => Some("invalid membership creator signing public key base64"@),
            Ok(public_key) => match primitives::base64_bytes(m.membership_signature_b64) {
                Err(_) => Some("invalid membership signature base64"@),
                Ok(signature) => if crypto::signature_error(
                    public_key,
                    protocol::membership_payload(m),
                    signature,
                ) is Some {
                    Some("invalid membership signature"@)
                } else {
                    None
                },
            },
        }
    }
}

/// Sign the membership of a room.
///
/// A membership of a room with a proper id that lists its creator is accepted by
/// [`verify_membership_state`].
pub fn build_membership_state(identity: &UnlockedIdentity, room_id: &str, peers: &Vec<String>) -> (res:
    RoomMembershipState)
    ensures
        res@ == signed_membership(identity@, room_id@, text::texts(peers@)),
        room_id@.len() > 0 && encode_utf8(room_id@).len() <= 64 && text::texts(peers@).contains(
            identity@.peer_id,
        ) ==> membership_error(res@) is None,
{
    let public_key = identity.signing_key.public_key();
    let mut membership = RoomMembershipState {
        version: PROTOCOL_VERSION,
        room_id: room_id.to_owned(),
        creator_peer_id: identity.peer_id.clone(),
        creator_signing_public_key_b64: base64_encode(public_key.as_slice()),
        peers: canonical_peer_list(peers),
        membership_signature_b64: "".to_owned(),
    };
    let ghost unsigned = membership@;
    let payload = membership.signing_payload();
    let signature = sign_bytes(&identity.signing_key, payload.as_slice());
    membership.membership_signature_b64 = base64_encode(signature.as_slice());
    proof {
        protocol::law_canonical_peers(text::texts(peers@));
        let m = membership@;
        assert(protocol::membership_fields(m) =~= protocol::membership_fields(unsigned));
        if text::texts(peers@).contains(identity@.peer_id) {
            assert(text::texts(peers@).to_set().contains(identity@.peer_id));
            assert(m.peers.to_set().contains(identity@.peer_id));
            assert(m.peers.contains(identity@.peer_id));
        }
    }
    membership
}

/// Verify the membership of a room.
pub fn verify_membership_state(membership: &RoomMembershipState) -> (res: Result<(), String>)
    ensures
        match res {
            Ok(_) => membership_error(membership@) is None,
            Err(e) => membership_error(membership@) == Some(e@),
        },
{
    match require_protocol_version(membership.version) {
        Ok(_) => {},
        Err(e) => return Err(e),
    }
    if chars_of(membership.room_id.as_str()).len() == 0 || byte_len(membership.room_id.as_str())
        > 64 {
        return Err("invalid membership room id".to_owned());
    }
    assert(text::texts(membership.peers@).len() == membership.peers@.len());
    if membership.peers.len() == 0 {
        return Err("membership has no peers".to_owned());
    }
    let canonical = canonical_peer_list(&membership.peers);
    if !same_list(&membership.peers, &canonical) {
        return Err("membership peers must be sorted and deduplicated".to_owned());
    }
    if !list_contains(&membership.peers, membership.creator_peer_id.as_str()) {
        return Err("membership does not include creator peer".to_owned());
    }
    let public_key = match base64_decode(membership.creator_signing_public_key_b64.as_str()) {
        Ok(key) => key,
        Err(_) => return Err(
            "invalid membership creator signing public key base64".to_owned(),
        ),
    };
    let signature = match base64_decode(membership.membership_signature_b64.as_str()) {
        Ok(signature) => signature,
        Err(_) => return Err("invalid membership signature base64".to_owned()),
    };
    let payload = membership.signing_payload();
    match verify_signature(public_key.as_slice(), payload.as_slice(), signature.as_slice()) {
        Ok(_) => Ok(()),
        Err(_) => Err("invalid membership signature".to_owned()),
    }
}

/// An accepted membership speaks this protocol version, lists its creator, and lists its peers
/// in ascending order without repetitions.
pub proof fn law_accepted_membership_is_canonical(m: RoomMembershipStateView)
    requires
        membership_error(m) is None,
    ensures
        m.version == PROTOCOL_VERSION,
        m.peers.contains(m.creator_peer_id),
        table::ascending(m.peers),
{
    protocol::law_canonical_peers(m.peers);
}

/// A membership is accepted exactly if it speaks this protocol version, names a room of at most 64
/// bytes, lists its peers in ascending order with its creator among them, and bears a signature by
/// the key that it states.
pub proof fn law_when_memberships_are_accepted(m: RoomMembershipStateView)
    ensures
        membership_error(m) is None <==> {
            &&& m.version == PROTOCOL_VERSION
            &&& m.room_id.len() > 0
            &&& encode_utf8(m.room_id).len() <= 64
            &&& table::ascending(m.peers)
            &&& m.peers.contains(m.creator_peer_id)
            &&& primitives::base64_bytes(m.creator_signing_public_key_b64) is Ok
            &&& primitives::base64_bytes(m.membership_signature_b64) is Ok
            &&& crypto::signature_error(
                primitives::base64_bytes(m.creator_signing_public_key_b64)->Ok_0,
                protocol::membership_payload(m),
                primitives::base64_bytes(m.membership_signature_b64)->Ok_0,
            ) is None
        },
{
    table::lemma_sorting(m.peers);
    if table::ascending(m.peers) {
        table::lemma_sorted_is(m.peers);
    }
}

/// A signed membership names its room and its creator, and its peers are those that were given,
/// each once.
pub proof fn law_memberships_list_their_peers(
    identity: UnlockedIdentityView,
    room_id: Seq<char>,
    peers: Seq<Seq<char>>,
    peer: Seq<char>,
)
    ensures
        ({
            let m = signed_membership(identity, room_id, peers);
            &&& m.room_id == room_id
            &&& m.creator_peer_id == identity.peer_id
            &&& m.version == PROTOCOL_VERSION
            &&& m.peers.contains(peer) <==> peers.contains(peer)
            &&& table::ascending(m.peers)
        }),
{
    table::lemma_sorting(peers);
    let sorted = protocol::canonical_peers(peers);
    assert(sorted.to_set().contains(peer) <==> peers.to_set().contains(peer));
}

} // verus!
