//! Signed and encrypted chat messages.

use crate::crypto;
use crate::crypto::CryptoOutcome;
use crate::crypto::decrypt_room_message;
use crate::crypto::encrypt_room_message;
use crate::crypto::sign_bytes;
use crate::crypto::verify_signature;
use crate::ids;
use crate::ids::generate_message_id;
use crate::ids::is_valid_message_id;
use crate::peer::PeerId;
use crate::primitives;
use crate::primitives::base64_decode;
use crate::primitives::base64_encode;
use crate::primitives::Outcome;
use crate::protocol;
use crate::protocol::PlainMessage;
use crate::protocol::PlainMessageView;
use crate::protocol::PROTOCOL_VERSION;
use crate::protocol::require_protocol_version;
use crate::protocol::SignedEncryptedEnvelope;
use crate::protocol::SignedEncryptedEnvelopeView;
use crate::replay;
use crate::reply;
use crate::reply::hint_reply;
use crate::reply::Reply;
use crate::reply::ReplyView;
use crate::room::RoomBook;
use crate::room::RoomBookView;
use crate::room::RoomSession;
use crate::room::RoomSessionView;
use crate::storage::RoomHistoryDirection;
use crate::storage::RoomHistoryEntry;
use crate::storage::RoomHistoryEntryView;
use crate::storage::UnlockedIdentity;
use crate::storage::UnlockedIdentityView;
use crate::table;
use crate::table::TextSet;
use crate::text;
use crate::text::cat2;
use crate::text::cat3;
use crate::text::cat4;
use crate::text::cat5;
use crate::text::count_text;
use crate::text::Lines;
use crate::text::same_text;
use crate::trust::InboundTrustStatus;
use crate::trust::InboundTrustStatusView;
use vstd::prelude::*;

verus! {

/// A new message.
pub open spec fn plain_message(
    message_id: Seq<char>,
    room_id: Seq<char>,
    body: Seq<char>,
    now_ms: u64,
) -> PlainMessageView {
    PlainMessageView { message_id, room_id, body, timestamp_ms: now_ms }
}

/// Write a new message to a room, under a random message id.
pub fn draft_message(room: &RoomSession, body: &str, now_ms: u64) -> (res: PlainMessage)
    ensures
        ids::message_id_valid(res@.message_id),
        ids::id_generated(res@.message_id),
        res@ == plain_message(res@.message_id, room@.room_id, body@, now_ms),
{
    PlainMessage {
        message_id: generate_message_id(),
        room_id: room.room_id.clone(),
        body: body.to_owned(),
        timestamp_ms: now_ms,
    }
}

/// The envelope that an identity signs, before it is signed.
pub open spec fn unsigned_envelope(
    identity: UnlockedIdentityView,
    room_id: Seq<char>,
    nonce: Seq<u8>,
    sealed: Seq<u8>,
    now_ms: u64,
) -> SignedEncryptedEnvelopeView {
    SignedEncryptedEnvelopeView {
        version: PROTOCOL_VERSION,
        room_id,
        sender_alias: identity.alias,
        sender_peer_id: identity.peer_id,
        sender_signing_public_key_b64: primitives::base64_text(primitives::ed25519_public(identity.signing_key)),
        timestamp_ms: now_ms,
        nonce_b64: primitives::base64_text(nonce),
        ciphertext_b64: primitives::base64_text(sealed),
        signature_b64: ""@,
    }
}

/// The envelope that an identity signs.
pub open spec fn signed_envelope(
    identity: UnlockedIdentityView,
    room_id: Seq<char>,
    nonce: Seq<u8>,
    sealed: Seq<u8>,
    now_ms: u64,
) -> SignedEncryptedEnvelopeView {
    let unsigned = unsigned_envelope(identity, room_id, nonce, sealed, now_ms);
    SignedEncryptedEnvelopeView {
        signature_b64: primitives::base64_text(
            primitives::ed25519_signed(identity.signing_key, protocol::envelope_payload(unsigned)),
        ),
        ..unsigned
    }
}

/// A peer can read the messages of a sender to a room: it has the room with the same key, and
/// the sender is a member there.
pub open spec fn can_read(
    book: RoomBookView,
    sender: Seq<char>,
    room_id: Seq<char>,
    room_key: Seq<u8>,
) -> bool {
    &&& book.rooms.contains_key(room_id)
    &&& book.rooms[room_id].room_key == room_key
    &&& book.rooms[room_id].members.contains(sender)
}

/// Sign an encrypted message.
pub fn sign_envelope(
    identity: &UnlockedIdentity,
    room_id: &str,
    nonce: &[u8],
    sealed: &[u8],
    now_ms: u64,
) -> (res: SignedEncryptedEnvelope)
    ensures
        res@ == signed_envelope(identity@, room_id@, nonce@, sealed@, now_ms),
        primitives::base64_bytes(res@.sender_signing_public_key_b64) is Ok,
        primitives::base64_bytes(res@.signature_b64) is Ok,
        crypto::signature_error(
            primitives::base64_bytes(res@.sender_signing_public_key_b64)->Ok_0,
            protocol::envelope_payload(res@),
            primitives::base64_bytes(res@.signature_b64)->Ok_0,
        ) is None,
        primitives::base64_bytes(res@.nonce_b64) == Outcome::Ok(nonce@),
        primitives::base64_bytes(res@.ciphertext_b64) == Outcome::Ok(sealed@),
{
    let public_key = identity.signing_key.public_key();
    let mut envelope = SignedEncryptedEnvelope {
        version: PROTOCOL_VERSION,
        room_id: room_id.to_owned(),
        sender_alias: identity.alias.clone(),
        sender_peer_id: identity.peer_id.clone(),
        sender_signing_public_key_b64: base64_encode(public_key.as_slice()),
        timestamp_ms: now_ms,
        nonce_b64: base64_encode(nonce),
        ciphertext_b64: base64_encode(sealed),
        signature_b64: "".to_owned(),
    };
    let ghost unsigned = envelope@;
    let payload = envelope.signing_payload();
    let signature = sign_bytes(&identity.signing_key, payload.as_slice());
    envelope.signature_b64 = base64_encode(signature.as_slice());
    assert(protocol::envelope_fields(envelope@) =~= protocol::envelope_fields(unsigned));
    envelope
}

/// Encrypt and sign a serialised message to a room.
///
/// Every peer that has the room with the same key and this identity as a member gets the
/// serialised message back from the envelope.
pub fn build_signed_envelope(
    identity: &UnlockedIdentity,
    room: &RoomSession,
    plaintext: &[u8],
    now_ms: u64,
) -> (res: Result<SignedEncryptedEnvelope, String>)
    ensures
        match res {
            Ok(envelope) => {
                &&& !primitives::exceeds_stream(plaintext@.len())
                &&& exists|nonce: Seq<u8>|
                    nonce.len() == 12 && envelope@ == signed_envelope(
                        identity@,
                        room@.room_id,
                        nonce,
                        #[trigger] primitives::chacha_sealed(room@.room_key, nonce, plaintext@),
                        now_ms,
                    )
                &&& forall|book: RoomBookView|
                    can_read(book, identity@.peer_id, room@.room_id, room@.room_key)
                        ==> #[trigger] inbound_plaintext(book, identity@.peer_id, envelope@)
                        == Outcome::Ok(plaintext@)
            },
            Err(e) => primitives::exceeds_stream(plaintext@.len()) && e@ == "failed to encrypt message"@,
        },
{
    let (nonce, sealed) = match encrypt_room_message(&room.room_key, plaintext) {
        Ok(pair) => pair,
        Err(_) => return Err("failed to encrypt message".to_owned()),
    };
    let envelope = sign_envelope(
        identity,
        room.room_id.as_str(),
        nonce.as_slice(),
        sealed.as_slice(),
        now_ms,
    );
    assert(envelope@ == signed_envelope(
        identity@,
        room@.room_id,
        nonce@,
        primitives::chacha_sealed(room@.room_key, nonce@, plaintext@),
        now_ms,
    ));
    Ok(envelope)
}

/// The connected members of a room besides this peer, in ascending order.
pub open spec fn targets(
    members: Set<Seq<char>>,
    self_peer: Seq<char>,
    connected: Set<Seq<char>>,
) -> Seq<Seq<char>> {
    table::sorted_texts(members).filter(
        |peer: Seq<char>| peer != self_peer && connected.contains(peer),
    )
}

/// Choose to whom a message to a room is sent.
pub fn message_targets(room: &RoomSession, self_peer: &PeerId, connected: &TextSet) -> (res: Vec<
    String,
>)
    ensures
        text::texts(res@) == targets(room@.members, self_peer@, connected@),
        forall|who: Seq<char>| #[trigger]
            text::texts(res@).contains(who) <==> room@.members.contains(who) && connected@.contains(who)
                && who != self_peer@,
{
    let members = room.members.to_list();
    let ghost all = text::texts(members@);
    let ghost wanted = |peer: Seq<char>| peer != self_peer@ && connected@.contains(peer);
    let mut res: Vec<String> = Vec::new();
    let mut i: usize = 0;
    proof {
        reveal(Seq::filter);
        assert(text::texts(res@) =~= all.take(0).filter(wanted));
    }
    while i < members.len()
        invariant
            i <= members@.len(),
            all == text::texts(members@),
            wanted == (|peer: Seq<char>| peer != self_peer@ && connected@.contains(peer)),
            text::texts(res@) == all.take(i as int).filter(wanted),
        decreases members.len() - i,
    {
        let ghost before = res@;
        let peer = members[i].as_str();
        proof {
            assert(all.take(i + 1).drop_last() =~= all.take(i as int));
            assert(all.take(i + 1).last() == peer@);
            reveal(Seq::filter);
        }
        if !same_text(peer, self_peer.as_text()) && connected.contains(peer) {
            res.push(peer.to_owned());
            assert(text::texts(res@) =~= text::texts(before).push(peer@));
        }
        i = i + 1;
    }
    assert(all.take(i as int) =~= all);
    proof {
        assert forall|who: Seq<char>| #[trigger]
            text::texts(res@).contains(who) <==> room@.members.contains(who) && connected@.contains(who)
                && who != self_peer@ by {
            law_receivers(room@.members, self_peer@, connected@, who);
        }
    }
    res
}

/// The answer where nobody in the room is connected.
pub open spec fn no_targets() -> ReplyView {
    reply::hinted("error: room has no connected peers"@, "  /room add-peer <peer_id>"@)
}

/// The answer where nobody in the room is connected.
pub fn no_targets_reply() -> (res: Reply)
    ensures
        res@ == no_targets(),
{
    hint_reply("error: room has no connected peers", "  /room add-peer <peer_id>")
}

/// What is printed after a message is sent.
pub open spec fn sent_line(room_id: Seq<char>, count: nat, text: Seq<char>) -> Seq<char> {
    "["@ + room_id + "] you -> "@ + text::decimal(count) + " peer(s): "@ + text
}

/// Report that a message was sent.
pub fn report_sent(room_id: &str, count: usize, text: &str) -> (res: String)
    ensures
        res@ == sent_line(room_id@, count as nat, text@),
{
    let head = cat5("[", room_id, "] you -> ", count_text(count).as_str(), " peer(s): ");
    cat2(head.as_str(), text)
}

/// What an envelope from a connected peer holds, or why it is refused.
pub open spec fn inbound_plaintext(
    book: RoomBookView,
    peer: Seq<char>,
    envelope: SignedEncryptedEnvelopeView,
) -> Outcome<Seq<u8>> {
    if envelope.version != PROTOCOL_VERSION {
        Err(protocol::version_error(envelope.version))
    } else if !book.rooms.contains_key(envelope.room_id) {
        Err(
            "unknown room '"@ + envelope.room_id + "' from peer "@ + peer
                + "; join the room first"@,
        )
    } else if !book.rooms[envelope.room_id].members.contains(peer) {
        Err(
            "peer "@ + peer + " is not a local member of room '"@ + envelope.room_id
                + "'; use /room add-peer before accepting messages"@,
        )
    } else if envelope.sender_peer_id != peer {
        Err(
            "sender peer mismatch: connection peer is "@ + peer + ", envelope claims "@
                + envelope.sender_peer_id,
        )
    } else {
        match primitives::base64_bytes(envelope.sender_signing_public_key_b64) {
            Err(_) => Err("invalid sender signing public key base64"@),
            Ok(public_key) => match primitives::base64_bytes(envelope.signature_b64) {
                Err(_) => Err("invalid signature base64"@),
                Ok(signature) => if crypto::signature_error(
                    public_key,
                    protocol::envelope_payload(envelope),
                    signature,
                ) is Some {
                    Err("invalid message signature"@)
                } else {
                    match primitives::base64_bytes(envelope.nonce_b64) {
                        Err(_) => Err("invalid nonce base64"@),
                        Ok(nonce) => match primitives::base64_bytes(envelope.ciphertext_b64) {
                            Err(_) => Err("invalid ciphertext base64"@),
                            Ok(sealed) => match crypto::opened_room_message(
                                book.rooms[envelope.room_id].room_key,
                                nonce,
                                sealed,
                            ) {
                                Err(_) => Err("message decryption failed"@),
                                Ok(plaintext) => Ok(plaintext),
                            },
                        },
                    }
                },
            },
        }
    }
}

/// Verify and decrypt an envelope from a connected peer: the serialised message.
pub fn open_envelope(book: &RoomBook, peer: &PeerId, envelope: &SignedEncryptedEnvelope) -> (res:
    Result<Vec<u8>, String>)
    ensures
        match res {
            Ok(plaintext) => inbound_plaintext(book@, peer@, envelope@) == Outcome::Ok(plaintext@),
            Err(e) => inbound_plaintext(book@, peer@, envelope@) == Outcome::<Seq<u8>>::Err(e@),
        },
{
    match require_protocol_version(envelope.version) {
        Ok(_) => {},
        Err(e) => return Err(e),
    }
    let room = match book.rooms.get(envelope.room_id.as_str()) {
        Some(room) => room,
        None => return Err(
            cat5(
                "unknown room '",
                envelope.room_id.as_str(),
                "' from peer ",
                peer.as_text(),
                "; join the room first",
            ),
        ),
    };
    if !room.members.contains(peer.as_text()) {
        return Err(
            cat5(
                "peer ",
                peer.as_text(),
                " is not a local member of room '",
                envelope.room_id.as_str(),
                "'; use /room add-peer before accepting messages",
            ),
        );
    }
    if !same_text(envelope.sender_peer_id.as_str(), peer.as_text()) {
        return Err(
            cat4(
                "sender peer mismatch: connection peer is ",
                peer.as_text(),
                ", envelope claims ",
                envelope.sender_peer_id.as_str(),
            ),
        );
    }
    let public_key = match base64_decode(envelope.sender_signing_public_key_b64.as_str()) {
        Ok(key) => key,
        Err(_) => return Err("invalid sender signing public key base64".to_owned()),
    };
    let signature = match base64_decode(envelope.signature_b64.as_str()) {
        Ok(signature) => signature,
        Err(_) => return Err("invalid signature base64".to_owned()),
    };
    let payload = envelope.signing_payload();
    match verify_signature(public_key.as_slice(), payload.as_slice(), signature.as_slice()) {
        Ok(_) => {},
        Err(_) => return Err("invalid message signature".to_owned()),
    }
    let nonce = match base64_decode(envelope.nonce_b64.as_str()) {
        Ok(nonce) => nonce,
        Err(_) => return Err("invalid nonce base64".to_owned()),
    };
    let sealed = match base64_decode(envelope.ciphertext_b64.as_str()) {
        Ok(sealed) => sealed,
        Err(_) => return Err("invalid ciphertext base64".to_owned()),
    };
    match decrypt_room_message(&room.room_key, nonce.as_slice(), sealed.as_slice()) {
        Ok(plaintext) => Ok(plaintext),
        Err(_) => Err("message decryption failed".to_owned()),
    }
}

/// The key under which a received message is remembered.
pub open spec fn replay_key(
    envelope: SignedEncryptedEnvelopeView,
    plain: PlainMessageView,
) -> Seq<char> {
    envelope.sender_peer_id + ":"@ + plain.message_id
}

/// Why a decrypted message is refused, if it is.
pub open spec fn receive_error(
    book: RoomBookView,
    peer: Seq<char>,
    envelope: SignedEncryptedEnvelopeView,
    plain: PlainMessageView,
) -> Option<Seq<char>> {
    if plain.room_id != envelope.room_id {
        Some(
            "inner room id '"@ + plain.room_id + "' does not match outer room id '"@
                + envelope.room_id + "'"@,
        )
    } else if !ids::message_id_valid(plain.message_id) {
        Some("invalid message id in decrypted plaintext"@)
    } else if !book.rooms.contains_key(envelope.room_id) {
        Some(
            "room '"@ + envelope.room_id + "' disappeared while processing inbound message"@,
        )
    } else if !book.rooms[envelope.room_id].members.contains(peer) {
        Some(
            "peer "@ + peer + " is no longer a local member of room '"@ + envelope.room_id + "'"@,
        )
    } else if book.rooms[envelope.room_id].replay_cache.seen.contains(
        replay_key(envelope, plain),
    ) {
        Some(
            "replayed message rejected from peer "@ + peer + " in room '"@ + envelope.room_id
                + "'"@,
        )
    } else {
        None
    }
}

/// The rooms after a decrypted message is received.
pub open spec fn received(
    book: RoomBookView,
    peer: Seq<char>,
    envelope: SignedEncryptedEnvelopeView,
    plain: PlainMessageView,
) -> RoomBookView {
    if receive_error(book, peer, envelope, plain) is Some {
        book
    } else {
        let room = book.rooms[envelope.room_id];
        RoomBookView {
            rooms: book.rooms.insert(
                envelope.room_id,
                RoomSessionView {
                    replay_cache: replay::remembered(room.replay_cache, replay_key(envelope, plain)),
                    ..room
                },
            ),
            ..book
        }
    }
}

/// Check a decrypted message and remember it, so that it is refused when it comes again.
pub fn receive_message(
    book: &mut RoomBook,
    peer: &PeerId,
    envelope: &SignedEncryptedEnvelope,
    plain: &PlainMessage,
) -> (res: Result<(), String>)
    ensures
        final(book)@ == received(old(book)@, peer@, envelope@, plain@),
        match res {
            Ok(_) => receive_error(old(book)@, peer@, envelope@, plain@) is None,
            Err(e) => receive_error(old(book)@, peer@, envelope@, plain@) == Some(e@),
        },
{
    if !same_text(plain.room_id.as_str(), envelope.room_id.as_str()) {
        return Err(
            cat5(
                "inner room id '",
                plain.room_id.as_str(),
                "' does not match outer room id '",
                envelope.room_id.as_str(),
                "'",
            ),
        );
    }
    if !is_valid_message_id(plain.message_id.as_str()) {
        return Err("invalid message id in decrypted plaintext".to_owned());
    }
    let mut room = match book.rooms.remove(envelope.room_id.as_str()) {
        Some(room) => room,
        None => {
            assert(book@.rooms =~= old(book)@.rooms);
            return Err(
                cat3(
                    "room '",
                    envelope.room_id.as_str(),
                    "' disappeared while processing inbound message",
                ),
            );
        },
    };
    if !room.members.contains(peer.as_text()) {
        book.rooms.insert(envelope.room_id.as_str(), room);
        assert(book@.rooms =~= old(book)@.rooms);
        return Err(
            cat5(
                "peer ",
                peer.as_text(),
                " is no longer a local member of room '",
                envelope.room_id.as_str(),
                "'",
            ),
        );
    }
    let key = cat3(envelope.sender_peer_id.as_str(), ":", plain.message_id.as_str());
    let fresh = room.replay_cache.insert(key);
    book.rooms.insert(envelope.room_id.as_str(), room);
    if !fresh {
        assert(book@.rooms =~= old(book)@.rooms);
        return Err(
            cat5(
                "replayed message rejected from peer ",
                peer.as_text(),
                " in room '",
                envelope.room_id.as_str(),
                "'",
            ),
        );
    }
    assert(book@.rooms =~= received(old(book)@, peer@, envelope@, plain@).rooms);
    Ok(())
}

/// A message that was received is refused when it comes again right away, and receiving changes
/// nothing of the rooms but the memory of the room it came to.
pub proof fn law_replay_is_rejected(
    book: RoomBookView,
    peer: Seq<char>,
    envelope: SignedEncryptedEnvelopeView,
    plain: PlainMessageView,
)
    requires
        receive_error(book, peer, envelope, plain) is None,
        replay::cache_consistent(book.rooms[envelope.room_id].replay_cache),
        book.rooms[envelope.room_id].replay_cache.capacity > 0,
    ensures
        ({
            let after = received(book, peer, envelope, plain);
            &&& receive_error(after, peer, envelope, plain) is Some
            &&& received(after, peer, envelope, plain) == after
            &&& after.active_room == book.active_room
            &&& after.rooms.remove(envelope.room_id) == book.rooms.remove(envelope.room_id)
            &&& replay::cache_consistent(after.rooms[envelope.room_id].replay_cache)
        }),
{
    let after = received(book, peer, envelope, plain);
    replay::law_replay_is_refused(
        book.rooms[envelope.room_id].replay_cache,
        replay_key(envelope, plain),
    );
    assert(after.rooms.remove(envelope.room_id) =~= book.rooms.remove(envelope.room_id));
}

/// A decrypted message and the peer that it came from.
pub type Arrival = (Seq<char>, SignedEncryptedEnvelopeView, PlainMessageView);

/// The rooms after some decrypted messages are received one after another.
pub open spec fn received_all(book: RoomBookView, arrivals: Seq<Arrival>) -> RoomBookView
    decreases arrivals.len(),
{
    if arrivals.len() == 0 {
        book
    } else {
        let last = arrivals.last();
        received(received_all(book, arrivals.drop_last()), last.0, last.1, last.2)
    }
}

/// A room remembers a key, and at most so many came after it.
pub open spec fn recent_in(book: RoomBookView, room_id: Seq<char>, key: Seq<char>, later: nat) -> bool {
    book.rooms.contains_key(room_id) && replay::recent(book.rooms[room_id].replay_cache, key, later)
}

/// Receiving messages keeps what a room remembers while they are fewer than it remembers.
proof fn lemma_recent_in_kept(
    book: RoomBookView,
    room_id: Seq<char>,
    key: Seq<char>,
    arrivals: Seq<Arrival>,
)
    requires
        recent_in(book, room_id, key, 0),
        arrivals.len() < book.rooms[room_id].replay_cache.capacity,
    ensures
        recent_in(received_all(book, arrivals), room_id, key, arrivals.len()),
        received_all(book, arrivals).rooms[room_id].replay_cache.capacity
            == book.rooms[room_id].replay_cache.capacity,
    decreases arrivals.len(),
{
    if arrivals.len() > 0 {
        let init = arrivals.drop_last();
        let last = arrivals.last();
        lemma_recent_in_kept(book, room_id, key, init);
        let before = received_all(book, init);
        let cache = before.rooms[room_id].replay_cache;
        replay::lemma_recent_kept(cache, key, init.len(), replay_key(last.1, last.2));
        let i = choose|i: int|
            0 <= i < cache.order.len() && #[trigger] cache.order[i] == key && cache.order.len() - 1
                - i <= init.len();
        assert(replay::recent(cache, key, arrivals.len()));
    }
}

/// A message that was received is refused when it comes again, whatever is received in between,
/// while that is less than the room remembers.
pub proof fn law_replay_is_rejected_for_long(
    book: RoomBookView,
    peer: Seq<char>,
    envelope: SignedEncryptedEnvelopeView,
    plain: PlainMessageView,
    arrivals: Seq<Arrival>,
)
    requires
        receive_error(book, peer, envelope, plain) is None,
        replay::cache_consistent(book.rooms[envelope.room_id].replay_cache),
        arrivals.len() < book.rooms[envelope.room_id].replay_cache.capacity,
    ensures
        receive_error(
            received_all(received(book, peer, envelope, plain), arrivals),
            peer,
            envelope,
            plain,
        ) is Some,
{
    let room_id = envelope.room_id;
    let key = replay_key(envelope, plain);
    let first = received(book, peer, envelope, plain);
    replay::lemma_new_key_recent(book.rooms[room_id].replay_cache, key);
    lemma_recent_in_kept(first, room_id, key, arrivals);
    let after = received_all(first, arrivals);
    replay::lemma_recent_seen(after.rooms[room_id].replay_cache, key, arrivals.len());
}

/// Only members are heard: an envelope is opened only if the connected peer is a member of the
/// room, signed it, and speaks this protocol version.
pub proof fn law_only_members_are_heard(
    book: RoomBookView,
    peer: Seq<char>,
    envelope: SignedEncryptedEnvelopeView,
)
    requires
        inbound_plaintext(book, peer, envelope) is Ok,
    ensures
        envelope.version == PROTOCOL_VERSION,
        book.rooms.contains_key(envelope.room_id),
        book.rooms[envelope.room_id].members.contains(peer),
        envelope.sender_peer_id == peer,
        crypto::signature_error(
            primitives::base64_bytes(envelope.sender_signing_public_key_b64)->Ok_0,
            protocol::envelope_payload(envelope),
            primitives::base64_bytes(envelope.signature_b64)->Ok_0,
        ) is None,
{
}

/// The history entry of a message, if the room keeps a history.
pub open spec fn history_entry(
    room: RoomSessionView,
    direction: RoomHistoryDirection,
    message_id: Seq<char>,
    peer_id: Seq<char>,
    alias: Seq<char>,
    body: Seq<char>,
    timestamp_ms: u64,
) -> Option<RoomHistoryEntryView> {
    if !room.history_enabled || room.ephemeral {
        None
    } else {
        Some(
            RoomHistoryEntryView {
                version: PROTOCOL_VERSION,
                room_id: room.room_id,
                message_id,
                direction,
                peer_id,
                alias,
                timestamp_ms,
                body,
            },
        )
    }
}

/// Make the history entry of a message, if the room keeps a history.
pub fn record_room_history(
    room: &RoomSession,
    direction: RoomHistoryDirection,
    message_id: &str,
    peer_id: &str,
    alias: &str,
    body: &str,
    timestamp_ms: u64,
) -> (res: Option<RoomHistoryEntry>)
    ensures
        match res {
            Some(entry) => history_entry(
                room@,
                direction,
                message_id@,
                peer_id@,
                alias@,
                body@,
                timestamp_ms,
            ) == Some(entry@),
            None => history_entry(
                room@,
                direction,
                message_id@,
                peer_id@,
                alias@,
                body@,
                timestamp_ms,
            ) is None,
        },
{
    if !room.history_enabled || room.ephemeral {
        return None;
    }
    Some(
        RoomHistoryEntry {
            version: PROTOCOL_VERSION,
            room_id: room.room_id.clone(),
            message_id: message_id.to_owned(),
            direction,
            peer_id: peer_id.to_owned(),
            alias: alias.to_owned(),
            timestamp_ms,
            body: body.to_owned(),
        },
    )
}

/// An ephemeral room never gets a history entry.
pub proof fn law_ephemeral_rooms_leave_no_history(
    room: RoomSessionView,
    direction: RoomHistoryDirection,
    message_id: Seq<char>,
    peer_id: Seq<char>,
    alias: Seq<char>,
    body: Seq<char>,
    timestamp_ms: u64,
)
    requires
        room.ephemeral,
    ensures
        history_entry(room, direction, message_id, peer_id, alias, body, timestamp_ms) is None,
{
}

/// What is printed for a received message.
pub open spec fn message_lines(
    envelope: SignedEncryptedEnvelopeView,
    print: Seq<char>,
    body: Seq<char>,
    peer: Seq<char>,
    status: InboundTrustStatusView,
) -> Seq<Seq<char>> {
    let room = "["@ + envelope.room_id + "] "@;
    let said = envelope.sender_alias + " ["@ + print + "]: "@ + body;
    match status {
        InboundTrustStatusView::Trusted => seq![""@, room + said],
        InboundTrustStatusView::Untrusted => seq![
            ""@,
            room + "[untrusted] "@ + said,
            "hint: verify fingerprint out-of-band, then run /trust "@ + peer,
        ],
        InboundTrustStatusView::KeyChanged { old_fingerprint, new_fingerprint } => seq![
            ""@,
            "SECURITY WARNING: signing key changed for peer "@ + peer,
            "  old fingerprint: "@ + old_fingerprint,
            "  new fingerprint: "@ + new_fingerprint,
            room + "[key-changed] "@ + said,
        ],
    }
}

/// Print a received message.
pub fn render_message(
    envelope: &SignedEncryptedEnvelope,
    print: &str,
    body: &str,
    peer: &PeerId,
    status: &InboundTrustStatus,
) -> (res: Lines)
    ensures
        res@ == message_lines(envelope@, print@, body@, peer@, status@),
        exists|i: int| 0 <= i < res@.len() && body@.is_suffix_of(#[trigger] res@[i]),
{
    let mut lines = Lines::new();
    lines.say("");
    let room = cat3("[", envelope.room_id.as_str(), "] ");
    let said = cat5(envelope.sender_alias.as_str(), " [", print, "]: ", body);
    match status {
        InboundTrustStatus::Trusted => {
            lines.add(cat2(room.as_str(), said.as_str()));
        },
        InboundTrustStatus::Untrusted => {
            lines.add(cat3(room.as_str(), "[untrusted] ", said.as_str()));
            lines.add(
                cat2(
                    "hint: verify fingerprint out-of-band, then run /trust ",
                    peer.as_text(),
                ),
            );
        },
        InboundTrustStatus::KeyChanged { old_fingerprint, new_fingerprint } => {
            lines.add(cat2("SECURITY WARNING: signing key changed for peer ", peer.as_text()));
            lines.add(cat2("  old fingerprint: ", old_fingerprint.as_str()));
            lines.add(cat2("  new fingerprint: ", new_fingerprint.as_str()));
            lines.add(cat3(room.as_str(), "[key-changed] ", said.as_str()));
        },
    }
    assert(lines@ =~= message_lines(envelope@, print@, body@, peer@, status@));
    proof {
        law_messages_are_shown(envelope@, print@, body@, peer@, status@);
    }
    lines
}

/// The mark of a direction.
pub open spec fn direction_mark(direction: RoomHistoryDirection) -> Seq<char> {
    match direction {
        RoomHistoryDirection::Inbound => "<-"@,
        RoomHistoryDirection::Outbound => "->"@,
    }
}

/// The mark of a direction.
pub fn format_history_direction(direction: RoomHistoryDirection) -> (res: &'static str)
    ensures
        res@ == direction_mark(direction),
{
    match direction {
        RoomHistoryDirection::Inbound => "<-",
        RoomHistoryDirection::Outbound => "->",
    }
}

/// How a history entry is shown.
pub open spec fn history_line(entry: RoomHistoryEntryView) -> Seq<char> {
    "  ["@ + entry.room_id + "] "@ + direction_mark(entry.direction) + " "@ + entry.alias + " ["@
        + entry.message_id + "]: "@ + entry.body
}

/// The number of history entries that are shown.
pub const HISTORY_PREVIEW: usize = 20;

/// The last entries of a history.
pub open spec fn last_entries(entries: Seq<RoomHistoryEntryView>) -> Seq<RoomHistoryEntryView> {
    if entries.len() <= HISTORY_PREVIEW {
        entries
    } else {
        entries.subrange(entries.len() - HISTORY_PREVIEW, entries.len() as int)
    }
}

/// What is printed of a history.
pub open spec fn history_preview(entries: Seq<RoomHistoryEntryView>) -> Seq<Seq<char>> {
    if entries.len() == 0 {
        seq!["stored history entries: 0"@, "history: none"@]
    } else {
        seq![
            "stored history entries: "@ + text::decimal(entries.len()),
            "history entries: "@ + text::decimal(entries.len()),
        ] + last_entries(entries).map_values(|entry: RoomHistoryEntryView| history_line(entry))
    }
}

/// The views of a list of history entries.
pub open spec fn entry_views(entries: Seq<RoomHistoryEntry>) -> Seq<RoomHistoryEntryView> {
    entries.map_values(|entry: RoomHistoryEntry| entry@)
}

/// Print the end of a history.
pub fn preview_history(entries: &Vec<RoomHistoryEntry>) -> (res: Lines)
    ensures
        res@ == history_preview(entry_views(entries@)),
        forall|k: int|
            1 <= k <= entries@.len() && k <= 20 ==> k <= res@.len()
                && #[trigger] entries@[entries@.len() - k].body@.is_suffix_of(
                res@[res@.len() - k],
            ),
{
    let ghost all = entry_views(entries@);
    proof {
        let shown = history_preview(all);
        assert forall|k: int| 1 <= k <= entries@.len() && k <= 20 implies k <= shown.len()
            && #[trigger] entries@[entries@.len() - k].body@.is_suffix_of(
            shown[shown.len() - k],
        ) by {
            law_preview_shows_the_newest(all, k);
            assert(all[all.len() - k] == entries@[entries@.len() - k]@);
        }
    }
    let n: usize = entries.len();
    assert(all.len() == n);
    let mut lines = Lines::new();
    if n == 0 {
        lines.say("stored history entries: 0");
        lines.say("history: none");
        assert(lines@ =~= history_preview(all));
        return lines;
    }
    lines.add(cat2("stored history entries: ", count_text(n).as_str()));
    lines.add(cat2("history entries: ", count_text(n).as_str()));
    let start: usize = if n <= HISTORY_PREVIEW {
        0
    } else {
        n - HISTORY_PREVIEW
    };
    let ghost shown = last_entries(all).map_values(
        |entry: RoomHistoryEntryView| history_line(entry),
    );
    let mut rows = Lines::new();
    let mut i: usize = start;
    assert(rows@ =~= shown.take(0));
    while i < n
        invariant
            start <= i <= n == entries@.len(),
            all == entry_views(entries@),
            start == (if n <= HISTORY_PREVIEW {
                0
            } else {
                n - HISTORY_PREVIEW
            }),
            shown == last_entries(all).map_values(
                |entry: RoomHistoryEntryView| history_line(entry),
            ),
            rows@ == shown.take(i - start),
        decreases n - i,
    {
        let entry = &entries[i];
        assert(last_entries(all)[i - start] == entry@);
        let head = cat5(
            "  [",
            entry.room_id.as_str(),
            "] ",
            format_history_direction(entry.direction),
            " ",
        );
        let line = cat5(
            head.as_str(),
            entry.alias.as_str(),
            " [",
            entry.message_id.as_str(),
            "]: ",
        );
        let line = cat2(line.as_str(), entry.body.as_str());
        assert(line@ =~= history_line(entry@));
        rows.add(line);
        i = i + 1;
        assert(rows@ =~= shown.take(i - start));
    }
    assert(rows@ =~= shown);
    lines.extend(&rows);
    assert(lines@ =~= history_preview(all));
    lines
}

/// A peer is among the receivers of a message if and only if it is a member of the room, is
/// connected and is not the sender. Nobody gets a message twice.
pub proof fn law_receivers(
    members: Set<Seq<char>>,
    self_peer: Seq<char>,
    connected: Set<Seq<char>>,
    who: Seq<char>,
)
    requires
        members.finite(),
    ensures
        targets(members, self_peer, connected).contains(who) <==> members.contains(who)
            && connected.contains(who) && who != self_peer,
        targets(members, self_peer, connected).no_duplicates(),
{
    table::lemma_sorting_set(members);
    let all = table::sorted_texts(members);
    assert(all.to_set().contains(who) == all.contains(who));
    table::lemma_ascending_len(all);
    assert forall|wanted: spec_fn(Seq<char>) -> bool|
        #![trigger all.filter(wanted)]
        all.filter(wanted).no_duplicates() && (all.filter(wanted).contains(who) <==> all.contains(
            who,
        ) && wanted(who)) by {
        table::lemma_chosen(all, wanted, who);
    }
}

/// Whatever the trust in the sender, what is printed for a message has a line that names the room,
/// the sender and the fingerprint of the key, and ends with the text of the message. Only a
/// sender whose key is pinned is shown without a mark.
pub proof fn law_messages_are_shown(
    envelope: SignedEncryptedEnvelopeView,
    print: Seq<char>,
    body: Seq<char>,
    peer: Seq<char>,
    status: InboundTrustStatusView,
)
    ensures
        ({
            let mark = match status {
                InboundTrustStatusView::Trusted => ""@,
                InboundTrustStatusView::Untrusted => "[untrusted] "@,
                InboundTrustStatusView::KeyChanged { .. } => "[key-changed] "@,
            };
            let lines = message_lines(envelope, print, body, peer, status);
            exists|i: int|
                0 <= i < lines.len() && #[trigger] lines[i] == "["@ + envelope.room_id + "] "@ + mark
                    + envelope.sender_alias + " ["@ + print + "]: "@ + body && body.is_suffix_of(
                    lines[i],
                )
        }),
        status matches InboundTrustStatusView::KeyChanged { old_fingerprint, new_fingerprint } ==> {
            let lines = message_lines(envelope, print, body, peer, status);
            &&& exists|i: int|
                0 <= i < lines.len() && old_fingerprint.is_suffix_of(#[trigger] lines[i])
            &&& exists|i: int|
                0 <= i < lines.len() && new_fingerprint.is_suffix_of(#[trigger] lines[i])
        },
{
    reveal_strlit("");
    let lines = message_lines(envelope, print, body, peer, status);
    let said = envelope.sender_alias + " ["@ + print + "]: "@ + body;
    let room = "["@ + envelope.room_id + "] "@;
    match status {
        InboundTrustStatusView::Trusted => {
            assert(lines[1] =~= room + ""@ + envelope.sender_alias + " ["@ + print + "]: "@ + body);
            assert(body.is_suffix_of(lines[1]));
        },
        InboundTrustStatusView::Untrusted => {
            assert(lines[1] =~= room + "[untrusted] "@ + envelope.sender_alias + " ["@ + print
                + "]: "@ + body);
            assert(body.is_suffix_of(lines[1]));
        },
        InboundTrustStatusView::KeyChanged { old_fingerprint, new_fingerprint } => {
            assert(lines[4] =~= room + "[key-changed] "@ + envelope.sender_alias + " ["@ + print
                + "]: "@ + body);
            assert(body.is_suffix_of(lines[4]));
            assert(old_fingerprint.is_suffix_of(lines[2]));
            assert(new_fingerprint.is_suffix_of(lines[3]));
        },
    }
}

/// The preview of a history ends with its newest entries: the k-th line from the end is that of
/// the k-th newest entry, and no more entries are left out than do not fit.
pub proof fn law_preview_shows_the_newest(entries: Seq<RoomHistoryEntryView>, k: int)
    requires
        1 <= k <= entries.len(),
        k <= HISTORY_PREVIEW,
    ensures
        ({
            let lines = history_preview(entries);
            let newest = entries[entries.len() - k];
            &&& lines.len() > k
            &&& lines[lines.len() - k] == history_line(newest)
            &&& newest.body.is_suffix_of(lines[lines.len() - k])
            &&& lines.len() == 2 + if entries.len() < HISTORY_PREVIEW {
                entries.len() as int
            } else {
                HISTORY_PREVIEW as int
            }
        }),
        HISTORY_PREVIEW == 20,
{
    let lines = history_preview(entries);
    let newest = entries[entries.len() - k];
    assert(last_entries(entries)[last_entries(entries).len() - k] == newest);
    assert(newest.body.is_suffix_of(history_line(newest)));
}

/// A history line names the room, the sender, the message and the direction, and ends with the
/// text. What came in and what went out look different.
pub proof fn law_history_lines_tell_all(entry: RoomHistoryEntryView)
    ensures
        entry.body.is_suffix_of(history_line(entry)),
        entry.direction == RoomHistoryDirection::Inbound ==> history_line(entry) == "  ["@
            + entry.room_id + "] <- "@ + entry.alias + " ["@ + entry.message_id + "]: "@ + entry.body,
        entry.direction == RoomHistoryDirection::Outbound ==> history_line(entry) == "  ["@
            + entry.room_id + "] -> "@ + entry.alias + " ["@ + entry.message_id + "]: "@ + entry.body,
{
    reveal_strlit("] ");
    reveal_strlit(" ");
    reveal_strlit("<-");
    reveal_strlit("->");
    reveal_strlit("] <- ");
    reveal_strlit("] -> ");
    let tail = " "@ + entry.alias + " ["@ + entry.message_id + "]: "@ + entry.body;
    assert("] "@ + "<-"@ + " "@ =~= "] <- "@);
    assert("] "@ + "->"@ + " "@ =~= "] -> "@);
    let rest = entry.alias + " ["@ + entry.message_id + "]: "@ + entry.body;
    if entry.direction == RoomHistoryDirection::Inbound {
        assert(history_line(entry) =~= "  ["@ + entry.room_id + ("] "@ + "<-"@ + " "@) + rest);
        assert("  ["@ + entry.room_id + "] <- "@ + rest =~= "  ["@ + entry.room_id + "] <- "@
            + entry.alias + " ["@ + entry.message_id + "]: "@ + entry.body);
    } else {
        assert(history_line(entry) =~= "  ["@ + entry.room_id + ("] "@ + "->"@ + " "@) + rest);
        assert("  ["@ + entry.room_id + "] -> "@ + rest =~= "  ["@ + entry.room_id + "] -> "@
            + entry.alias + " ["@ + entry.message_id + "]: "@ + entry.body);
    }
    assert(entry.body.is_suffix_of(history_line(entry)));
}

/// A message is recorded exactly where the room keeps a history and is not ephemeral, and the
/// record holds what was said, by whom, when and in which direction.
pub proof fn law_history_records_what_was_said(
    room: RoomSessionView,
    direction: RoomHistoryDirection,
    message_id: Seq<char>,
    peer_id: Seq<char>,
    alias: Seq<char>,
    body: Seq<char>,
    timestamp_ms: u64,
)
    ensures
        ({
            let entry = history_entry(
                room,
                direction,
                message_id,
                peer_id,
                alias,
                body,
                timestamp_ms,
            );
            &&& entry is Some <==> room.history_enabled && !room.ephemeral
            &&& entry matches Some(e) ==> {
                &&& e.body == body
                &&& e.alias == alias
                &&& e.peer_id == peer_id
                &&& e.message_id == message_id
                &&& e.direction == direction
                &&& e.timestamp_ms == timestamp_ms
                &&& e.room_id == room.room_id
            }
        }),
{
}

/// What is said of a sent message begins with the room and ends with the text.
pub proof fn law_sent_lines_tell_the_text(room_id: Seq<char>, count: nat, text: Seq<char>)
    ensures
        ("["@ + room_id + "]"@).is_prefix_of(sent_line(room_id, count, text)),
        (text::decimal(count) + " peer(s): "@ + text).is_suffix_of(sent_line(room_id, count, text)),
{
    reveal_strlit("[");
    reveal_strlit("]");
    reveal_strlit("] you -> ");
    let line = sent_line(room_id, count, text);
    assert(line =~= ("["@ + room_id + "] you -> "@) + (text::decimal(count) + " peer(s): "@ + text));
    let head = "["@ + room_id + "]"@;
    assert(line.take(head.len() as int) =~= head);
    assert((text::decimal(count) + " peer(s): "@ + text).is_suffix_of(line));
}

/// A decrypted message is refused exactly where it speaks of another room than its envelope, its
/// id is not one, the room or the membership of the sender is gone, or it was remembered. An
/// accepted message changes only what its room remembers, and is remembered there.
pub proof fn law_when_messages_are_received(
    book: RoomBookView,
    peer: Seq<char>,
    envelope: SignedEncryptedEnvelopeView,
    plain: PlainMessageView,
)
    ensures
        receive_error(book, peer, envelope, plain) is None <==> {
            &&& plain.room_id == envelope.room_id
            &&& ids::message_id_valid(plain.message_id)
            &&& book.rooms.contains_key(envelope.room_id)
            &&& book.rooms[envelope.room_id].members.contains(peer)
            &&& !book.rooms[envelope.room_id].replay_cache.seen.contains(
                envelope.sender_peer_id + ":"@ + plain.message_id,
            )
        },
        receive_error(book, peer, envelope, plain) is None ==> {
            let after = received(book, peer, envelope, plain);
            let room = book.rooms[envelope.room_id];
            &&& after.active_room == book.active_room
            &&& after.rooms.dom() == book.rooms.dom()
            &&& forall|id: Seq<char>|
                book.rooms.contains_key(id) && id != envelope.room_id ==> #[trigger] after.rooms[id]
                    == book.rooms[id]
            &&& after.rooms[envelope.room_id] == (RoomSessionView {
                replay_cache: after.rooms[envelope.room_id].replay_cache,
                ..room
            })
        },
        receive_error(book, peer, envelope, plain) is Some ==> received(book, peer, envelope, plain)
            == book,
{
    if receive_error(book, peer, envelope, plain) is None {
        assert(received(book, peer, envelope, plain).rooms.dom() =~= book.rooms.dom());
    }
}

/// An envelope names its room, its sender and the time, and carries the sender's key.
pub proof fn law_envelopes_name_their_sender(
    identity: UnlockedIdentityView,
    room_id: Seq<char>,
    nonce: Seq<u8>,
    sealed: Seq<u8>,
    now_ms: u64,
)
    ensures
        ({
            let e = signed_envelope(identity, room_id, nonce, sealed, now_ms);
            &&& e.room_id == room_id
            &&& e.sender_alias == identity.alias
            &&& e.sender_peer_id == identity.peer_id
            &&& e.sender_signing_public_key_b64 == primitives::base64_text(primitives::ed25519_public(identity.signing_key))
            &&& e.timestamp_ms == now_ms
            &&& e.nonce_b64 == primitives::base64_text(nonce)
            &&& e.ciphertext_b64 == primitives::base64_text(sealed)
            &&& e.signature_b64 == primitives::base64_text(
                primitives::ed25519_signed(identity.signing_key, protocol::envelope_payload(e)),
            )
        }),
{
    let e = signed_envelope(identity, room_id, nonce, sealed, now_ms);
    let u = unsigned_envelope(identity, room_id, nonce, sealed, now_ms);
    assert(protocol::envelope_fields(e) =~= protocol::envelope_fields(u));
}

/// What an envelope holds is what its sender sealed with the key of the room: an envelope is
/// opened exactly where it speaks this protocol, comes from a member over its own connection, its
/// signature is good, and its ciphertext opens with the key of the room.
pub proof fn law_when_envelopes_are_opened(
    book: RoomBookView,
    peer: Seq<char>,
    envelope: SignedEncryptedEnvelopeView,
    plaintext: Seq<u8>,
)
    ensures
        inbound_plaintext(book, peer, envelope) == Outcome::Ok(plaintext) <==> {
            &&& envelope.version == PROTOCOL_VERSION
            &&& book.rooms.contains_key(envelope.room_id)
            &&& book.rooms[envelope.room_id].members.contains(peer)
            &&& envelope.sender_peer_id == peer
            &&& primitives::base64_bytes(envelope.sender_signing_public_key_b64) is Ok
            &&& primitives::base64_bytes(envelope.signature_b64) is Ok
            &&& crypto::signature_error(
                primitives::base64_bytes(envelope.sender_signing_public_key_b64)->Ok_0,
                protocol::envelope_payload(envelope),
                primitives::base64_bytes(envelope.signature_b64)->Ok_0,
            ) is None
            &&& primitives::base64_bytes(envelope.nonce_b64) is Ok
            &&& primitives::base64_bytes(envelope.ciphertext_b64) is Ok
            &&& crypto::opened_room_message(
                book.rooms[envelope.room_id].room_key,
                primitives::base64_bytes(envelope.nonce_b64)->Ok_0,
                primitives::base64_bytes(envelope.ciphertext_b64)->Ok_0,
            ) == CryptoOutcome::Ok(plaintext)
        },
{
}

/// The preview of a history tells how many entries are stored.
pub proof fn law_preview_counts_all(entries: Seq<RoomHistoryEntryView>)
    ensures
        history_preview(entries).len() >= 2,
        history_preview(entries)[0] == "stored history entries: "@ + text::decimal(entries.len()),
        entries.len() > 0 ==> history_preview(entries)[1] == "history entries: "@ + text::decimal(
            entries.len(),
        ),
        entries.len() == 0 ==> history_preview(entries).len() == 2 && history_preview(entries)[1]
            == "history: none"@,
{
    if entries.len() == 0 {
        reveal_strlit("stored history entries: ");
        reveal_strlit("stored history entries: 0");
        text::law_decimals_read_back(0);
        assert(text::decimal(0) =~= seq!['0']);
        assert("stored history entries: "@ + text::decimal(0) =~= "stored history entries: 0"@);
    }
}

/// A message of an unknown or a changed key says how to go on, or warns.
pub proof fn law_doubtful_senders_are_marked(
    envelope: SignedEncryptedEnvelopeView,
    print: Seq<char>,
    body: Seq<char>,
    peer: Seq<char>,
    status: InboundTrustStatusView,
)
    ensures
        status is Untrusted ==> message_lines(envelope, print, body, peer, status).contains(
            "hint: verify fingerprint out-of-band, then run /trust "@ + peer,
        ),
        status is KeyChanged ==> message_lines(envelope, print, body, peer, status).contains(
            "SECURITY WARNING: signing key changed for peer "@ + peer,
        ),
{
    let lines = message_lines(envelope, print, body, peer, status);
    if status is Untrusted {
        assert(lines[2] == "hint: verify fingerprint out-of-band, then run /trust "@ + peer);
    }
    if status is KeyChanged {
        assert(lines[1] == "SECURITY WARNING: signing key changed for peer "@ + peer);
    }
}

} // verus!
