//! The records that peers exchange, and the bytes that their signatures cover.

use crate::codec;
use crate::codec::Field;
use crate::codec::Record;
use crate::table;
use crate::table::TextSet;
use crate::text;
use crate::text::cat4;
use crate::text::copy_opt;
use crate::text::copy_strings;
use crate::text::decimal_text;
use vstd::prelude::*;

verus! {

/// The version of the wire protocol.
pub const PROTOCOL_VERSION: u32 = 1;

/// A chat message before encryption.
#[derive(Debug, Clone, PartialEq, Eq)]
pub struct PlainMessage {
    pub message_id: String,
    pub room_id: String,
    pub body: String,
    pub timestamp_ms: u64,
}

/// The plain values held by a [`PlainMessage`].
#[verifier::ext_equal]
pub struct PlainMessageView {
    pub message_id: Seq<char>,
    pub room_id: Seq<char>,
    pub body: Seq<char>,
    pub timestamp_ms: u64,
}

impl View for PlainMessage {
    type V = PlainMessageView;

    open spec fn view(&self) -> PlainMessageView {
        PlainMessageView {
            message_id: self.message_id@,
            room_id: self.room_id@,
            body: self.body@,
            timestamp_ms: self.timestamp_ms,
        }
    }
}

/// An encrypted chat message with the signature of its sender.
#[derive(Debug, Clone, PartialEq, Eq)]
pub struct SignedEncryptedEnvelope {
    pub version: u32,
    pub room_id: String,
    pub sender_alias: String,
    pub sender_peer_id: String,
    pub sender_signing_public_key_b64: String,
    pub timestamp_ms: u64,
    pub nonce_b64: String,
    pub ciphertext_b64: String,
    pub signature_b64: String,
}

/// The plain values held by a [`SignedEncryptedEnvelope`].
#[verifier::ext_equal]
pub struct SignedEncryptedEnvelopeView {
    pub version: u32,
    pub room_id: Seq<char>,
    pub sender_alias: Seq<char>,
    pub sender_peer_id: Seq<char>,
    pub sender_signing_public_key_b64: Seq<char>,
    pub timestamp_ms: u64,
    pub nonce_b64: Seq<char>,
    pub ciphertext_b64: Seq<char>,
    pub signature_b64: Seq<char>,
}

impl View for SignedEncryptedEnvelope {
    type V = SignedEncryptedEnvelopeView;

    open spec fn view(&self) -> SignedEncryptedEnvelopeView {
        SignedEncryptedEnvelopeView {
            version: self.version,
            room_id: self.room_id@,
            sender_alias: self.sender_alias@,
            sender_peer_id: self.sender_peer_id@,
            sender_signing_public_key_b64: self.sender_signing_public_key_b64@,
            timestamp_ms: self.timestamp_ms,
            nonce_b64: self.nonce_b64@,
            ciphertext_b64: self.ciphertext_b64@,
            signature_b64: self.signature_b64@,
        }
    }
}

/// The members of a room as its creator signed them.
#[derive(Debug, Clone, PartialEq, Eq)]
pub struct RoomMembershipState {
    pub version: u32,
    pub room_id: String,
    pub creator_peer_id: String,
    pub creator_signing_public_key_b64: String,
    pub peers: Vec<String>,
    pub membership_signature_b64: String,
}

/// The plain values held by a [`RoomMembershipState`].
#[verifier::ext_equal]
pub struct RoomMembershipStateView {
    pub version: u32,
    pub room_id: Seq<char>,
    pub creator_peer_id: Seq<char>,
    pub creator_signing_public_key_b64: Seq<char>,
    pub peers: Seq<Seq<char>>,
    pub membership_signature_b64: Seq<char>,
}

impl View for RoomMembershipState {
    type V = RoomMembershipStateView;

    open spec fn view(&self) -> RoomMembershipStateView {
        RoomMembershipStateView {
            version: self.version,
            room_id: self.room_id@,
            creator_peer_id: self.creator_peer_id@,
            creator_signing_public_key_b64: self.creator_signing_public_key_b64@,
            peers: text::texts(self.peers@),
            membership_signature_b64: self.membership_signature_b64@,
        }
    }
}

impl RoomMembershipState {
    /// Copy this value.
    pub fn duplicate(&self) -> (res: Self)
        ensures
            res@ == self@,
    {
        RoomMembershipState {
            version: self.version,
            room_id: self.room_id.clone(),
            creator_peer_id: self.creator_peer_id.clone(),
            creator_signing_public_key_b64: self.creator_signing_public_key_b64.clone(),
            peers: copy_strings(&self.peers),
            membership_signature_b64: self.membership_signature_b64.clone(),
        }
    }
}

/// An online invitation to a room.
#[derive(Debug, Clone, PartialEq, Eq)]
pub struct RoomInvite {
    pub version: u32,
    pub invite_id: String,
    pub room_id: String,
    pub room_key_b64: String,
    pub ephemeral: bool,
    pub membership: RoomMembershipState,
    pub sender_alias: String,
    pub sender_peer_id: String,
    pub sender_signing_public_key_b64: String,
    pub timestamp_ms: u64,
    pub signature_b64: String,
}

/// The plain values held by a [`RoomInvite`].
#[verifier::ext_equal]
pub struct RoomInviteView {
    pub version: u32,
    pub invite_id: Seq<char>,
    pub room_id: Seq<char>,
    pub room_key_b64: Seq<char>,
    pub ephemeral: bool,
    pub membership: RoomMembershipStateView,
    pub sender_alias: Seq<char>,
    pub sender_peer_id: Seq<char>,
    pub sender_signing_public_key_b64: Seq<char>,
    pub timestamp_ms: u64,
    pub signature_b64: Seq<char>,
}

impl View for RoomInvite {
    type V = RoomInviteView;

    open spec fn view(&self) -> RoomInviteView {
        RoomInviteView {
            version: self.version,
            invite_id: self.invite_id@,
            room_id: self.room_id@,
            room_key_b64: self.room_key_b64@,
            ephemeral: self.ephemeral,
            membership: self.membership@,
            sender_alias: self.sender_alias@,
            sender_peer_id: self.sender_peer_id@,
            sender_signing_public_key_b64: self.sender_signing_public_key_b64@,
            timestamp_ms: self.timestamp_ms,
            signature_b64: self.signature_b64@,
        }
    }
}

/// What a peer announces of itself in the discovery directory.
#[derive(Debug, Clone, PartialEq, Eq)]
pub struct PeerAdvertisement {
    pub peer_id: String,
    pub alias: Option<String>,
    pub direct_addrs: Vec<String>,
    pub relayed_addrs: Vec<String>,
    pub nat_status: String,
    pub observed_at_ms: u64,
    pub expires_at_ms: u64,
}

/// The plain values held by a [`PeerAdvertisement`].
#[verifier::ext_equal]
pub struct PeerAdvertisementView {
    pub peer_id: Seq<char>,
    pub alias: Option<Seq<char>>,
    pub direct_addrs: Seq<Seq<char>>,
    pub relayed_addrs: Seq<Seq<char>>,
    pub nat_status: Seq<char>,
    pub observed_at_ms: u64,
    pub expires_at_ms: u64,
}

impl View for PeerAdvertisement {
    type V = PeerAdvertisementView;

    open spec fn view(&self) -> PeerAdvertisementView {
        PeerAdvertisementView {
            peer_id: self.peer_id@,
            alias: text::opt_text(self.alias),
            direct_addrs: text::texts(self.direct_addrs@),
            relayed_addrs: text::texts(self.relayed_addrs@),
            nat_status: self.nat_status@,
            observed_at_ms: self.observed_at_ms,
            expires_at_ms: self.expires_at_ms,
        }
    }
}

impl PeerAdvertisement {
    /// Copy this value.
    pub fn duplicate(&self) -> (res: Self)
        ensures
            res@ == self@,
    {
        PeerAdvertisement {
            peer_id: self.peer_id.clone(),
            alias: copy_opt(&self.alias),
            direct_addrs: copy_strings(&self.direct_addrs),
            relayed_addrs: copy_strings(&self.relayed_addrs),
            nat_status: self.nat_status.clone(),
            observed_at_ms: self.observed_at_ms,
            expires_at_ms: self.expires_at_ms,
        }
    }

    /// Copy a list of values.
    pub fn duplicate_all(items: &Vec<PeerAdvertisement>) -> (res: Vec<PeerAdvertisement>)
        ensures
            res@.map_values(|x: PeerAdvertisement| x@) == items@.map_values(|x: PeerAdvertisement| x@),
    {
        let mut res: Vec<PeerAdvertisement> = Vec::new();
        let mut i: usize = 0;
        while i < items.len()
            invariant
                i <= items@.len(),
                res@.len() == i,
                forall|j: int| 0 <= j < i ==> (#[trigger] res@[j])@ == items@[j]@,
            decreases items.len() - i,
        {
            res.push(items[i].duplicate());
            i = i + 1;
        }
        assert(res@.map_values(|x: PeerAdvertisement| x@) =~= items@.map_values(|x: PeerAdvertisement| x@));
        res
    }
}

/// A question to the discovery directory.
#[derive(Debug, Clone, PartialEq, Eq)]
pub enum DiscoveryRequest {
    RegisterPeer(PeerAdvertisement),
    ResolvePeer { query: String },
    ListPeers,
}

/// The plain values held by a [`DiscoveryRequest`].
#[verifier::ext_equal]
pub enum DiscoveryRequestView {
    RegisterPeer(PeerAdvertisementView),
    ResolvePeer { query: Seq<char> },
    ListPeers,
}

impl View for DiscoveryRequest {
    type V = DiscoveryRequestView;

    open spec fn view(&self) -> DiscoveryRequestView {
        match *self {
            DiscoveryRequest::RegisterPeer(x0) => DiscoveryRequestView::RegisterPeer(x0@),
            DiscoveryRequest::ResolvePeer { query } => DiscoveryRequestView::ResolvePeer { query: query@ },
            DiscoveryRequest::ListPeers => DiscoveryRequestView::ListPeers,
        }
    }
}

/// An answer of the discovery directory.
#[derive(Debug, Clone, PartialEq, Eq)]
pub enum DiscoveryResponse {
    Ack { ok: bool, error: Option<String> },
    ResolvePeerResponse {
        found: bool,
        advertisement: Option<PeerAdvertisement>,
        reason: Option<String>,
    },
    ListPeersResponse { peers: Vec<PeerAdvertisement> },
}

/// The plain values held by a [`DiscoveryResponse`].
#[verifier::ext_equal]
pub enum DiscoveryResponseView {
    Ack { ok: bool, error: Option<Seq<char>> },
    ResolvePeerResponse { found: bool, advertisement: Option<PeerAdvertisementView>, reason: Option<Seq<char>> },
    ListPeersResponse { peers: Seq<PeerAdvertisementView> },
}

impl View for DiscoveryResponse {
    type V = DiscoveryResponseView;

    open spec fn view(&self) -> DiscoveryResponseView {
        match *self {
            DiscoveryResponse::Ack { ok, error } => DiscoveryResponseView::Ack { ok: ok, error: text::opt_text(error) },
            DiscoveryResponse::ResolvePeerResponse { found, advertisement, reason } => DiscoveryResponseView::ResolvePeerResponse { found: found, advertisement: (match advertisement { Some(x) => Some(x@), None => None }), reason: text::opt_text(reason) },
            DiscoveryResponse::ListPeersResponse { peers } => DiscoveryResponseView::ListPeersResponse { peers: peers@.map_values(|x: PeerAdvertisement| x@) },
        }
    }
}

/// A request on the messaging protocol.
#[derive(Debug, Clone, PartialEq, Eq)]
pub enum DogelRequest {
    Envelope(SignedEncryptedEnvelope),
    Invite(RoomInvite),
}

/// The plain values held by a [`DogelRequest`].
#[verifier::ext_equal]
pub enum DogelRequestView {
    Envelope(SignedEncryptedEnvelopeView),
    Invite(RoomInviteView),
}

impl View for DogelRequest {
    type V = DogelRequestView;

    open spec fn view(&self) -> DogelRequestView {
        match *self {
            DogelRequest::Envelope(x0) => DogelRequestView::Envelope(x0@),
            DogelRequest::Invite(x0) => DogelRequestView::Invite(x0@),
        }
    }
}

/// An answer on the messaging protocol.
#[derive(Debug, Clone, PartialEq, Eq)]
pub struct DogelResponse {
    pub ok: bool,
    pub error: Option<String>,
}

/// The plain values held by a [`DogelResponse`].
#[verifier::ext_equal]
pub struct DogelResponseView {
    pub ok: bool,
    pub error: Option<Seq<char>>,
}

impl View for DogelResponse {
    type V = DogelResponseView;

    open spec fn view(&self) -> DogelResponseView {
        DogelResponseView {
            ok: self.ok,
            error: text::opt_text(self.error),
        }
    }
}

impl DogelResponse {
    /// The answer that acknowledges a request.
    pub fn ok() -> (res: DogelResponse)
        ensures
            res@ == (DogelResponseView { ok: true, error: None }),
    {
        DogelResponse { ok: true, error: None }
    }
}

/// The error text for a protocol version that is not spoken here.
pub open spec fn version_error(version: u32) -> Seq<char> {
    "unsupported protocol version "@ + text::decimal(version as nat) + "; expected "@ + text::decimal(
        PROTOCOL_VERSION as nat,
    )
}

/// Refuse every protocol version but the one spoken here.
pub fn require_protocol_version(version: u32) -> (res: Result<(), String>)
    ensures
        match res {
            Ok(_) => version == PROTOCOL_VERSION,
            Err(e) => version != PROTOCOL_VERSION && e@ == version_error(version),
        },
{
    if version == PROTOCOL_VERSION {
        Ok(())
    } else {
        let got = decimal_text(version as u64);
        let want = decimal_text(PROTOCOL_VERSION as u64);
        Err(cat4("unsupported protocol version ", got.as_str(), "; expected ", want.as_str()))
    }
}

/// A peer list without repetitions, in ascending order.
pub open spec fn canonical_peers(peers: Seq<Seq<char>>) -> Seq<Seq<char>> {
    table::sorted_texts(peers.to_set())
}

/// Sort a peer list and remove repetitions.
pub fn canonical_peer_list(peers: &Vec<String>) -> (res: Vec<String>)
    ensures
        text::texts(res@) == canonical_peers(text::texts(peers@)),
{
    TextSet::from_list(peers).to_list()
}

/// A finite list has a canonical form: ascending, with the same members, and unchanged when it
/// is put in canonical form again.
pub proof fn law_canonical_peers(peers: Seq<Seq<char>>)
    ensures
        table::ascending(canonical_peers(peers)),
        canonical_peers(peers).to_set() == peers.to_set(),
        canonical_peers(canonical_peers(peers)) == canonical_peers(peers),
        canonical_peers(peers) == peers <==> table::ascending(peers),
{
    table::lemma_sorting(peers);
    table::lemma_sorted_is(canonical_peers(peers));
    if table::ascending(peers) {
        table::lemma_sorted_is(peers);
    }
}

/// The fields of a membership that its signature covers: all but the signature.
pub open spec fn membership_fields(m: RoomMembershipStateView) -> Seq<Field> {
    seq![
        Field::Text("DOGEL_MEMBERSHIP_V1"@),
        Field::Number(m.version),
        Field::Text(m.room_id),
        Field::Text(m.creator_peer_id),
        Field::Text(m.creator_signing_public_key_b64),
        Field::List(m.peers),
    ]
}

/// The fields of an envelope that its signature covers: all but the signature.
pub open spec fn envelope_fields(e: SignedEncryptedEnvelopeView) -> Seq<Field> {
    seq![
        Field::Text("DOGEL_ENVELOPE_V1"@),
        Field::Number(e.version),
        Field::Text(e.room_id),
        Field::Text(e.sender_alias),
        Field::Text(e.sender_peer_id),
        Field::Text(e.sender_signing_public_key_b64),
        Field::Time(e.timestamp_ms),
        Field::Text(e.nonce_b64),
        Field::Text(e.ciphertext_b64),
    ]
}

/// The fields of an invite that its signature covers: all but the signature, and among them all
/// fields of the membership with its own signature.
pub open spec fn invite_fields(i: RoomInviteView) -> Seq<Field> {
    seq![
        Field::Text("DOGEL_INVITE_V1"@),
        Field::Number(i.version),
        Field::Text(i.invite_id),
        Field::Text(i.room_id),
        Field::Text(i.room_key_b64),
        Field::Flag(i.ephemeral),
        Field::Number(i.membership.version),
        Field::Text(i.membership.room_id),
        Field::Text(i.membership.creator_peer_id),
        Field::Text(i.membership.creator_signing_public_key_b64),
        Field::List(i.membership.peers),
        Field::Text(i.membership.membership_signature_b64),
        Field::Text(i.sender_alias),
        Field::Text(i.sender_peer_id),
        Field::Text(i.sender_signing_public_key_b64),
        Field::Time(i.timestamp_ms),
    ]
}

/// The bytes that the signature of a membership covers.
pub open spec fn membership_payload(m: RoomMembershipStateView) -> Seq<u8> {
    codec::record_bytes(membership_fields(m))
}

/// The bytes that the signature of an envelope covers.
pub open spec fn envelope_payload(e: SignedEncryptedEnvelopeView) -> Seq<u8> {
    codec::record_bytes(envelope_fields(e))
}

/// The bytes that the signature of an invite covers.
pub open spec fn invite_payload(i: RoomInviteView) -> Seq<u8> {
    codec::record_bytes(invite_fields(i))
}

impl RoomMembershipState {
    /// The bytes that the signature covers.
    pub fn signing_payload(&self) -> (res: Vec<u8>)
        ensures
            res@ == membership_payload(self@),
    {
        let record = Record::new().put_text("DOGEL_MEMBERSHIP_V1").put_u32(self.version).put_text(
            self.room_id.as_str(),
        ).put_text(self.creator_peer_id.as_str()).put_text(
            self.creator_signing_public_key_b64.as_str(),
        ).put_list(&self.peers);
        assert(record@ =~= membership_fields(self@));
        record.into_bytes()
    }
}

impl SignedEncryptedEnvelope {
    /// The bytes that the signature covers.
    pub fn signing_payload(&self) -> (res: Vec<u8>)
        ensures
            res@ == envelope_payload(self@),
    {
        let record = Record::new().put_text("DOGEL_ENVELOPE_V1").put_u32(self.version).put_text(
            self.room_id.as_str(),
        ).put_text(self.sender_alias.as_str()).put_text(self.sender_peer_id.as_str()).put_text(
            self.sender_signing_public_key_b64.as_str(),
        ).put_u64(self.timestamp_ms).put_text(self.nonce_b64.as_str()).put_text(
            self.ciphertext_b64.as_str(),
        );
        assert(record@ =~= envelope_fields(self@));
        record.into_bytes()
    }
}

impl RoomInvite {
    /// The bytes that the signature covers.
    pub fn signing_payload(&self) -> (res: Vec<u8>)
        ensures
            res@ == invite_payload(self@),
    {
        let record = Record::new().put_text("DOGEL_INVITE_V1").put_u32(self.version).put_text(
            self.invite_id.as_str(),
        ).put_text(self.room_id.as_str()).put_text(self.room_key_b64.as_str()).put_flag(
            self.ephemeral,
        ).put_u32(self.membership.version).put_text(self.membership.room_id.as_str()).put_text(
            self.membership.creator_peer_id.as_str(),
        ).put_text(self.membership.creator_signing_public_key_b64.as_str()).put_list(
            &self.membership.peers,
        ).put_text(self.membership.membership_signature_b64.as_str()).put_text(
            self.sender_alias.as_str(),
        ).put_text(self.sender_peer_id.as_str()).put_text(
            self.sender_signing_public_key_b64.as_str(),
        ).put_u64(self.timestamp_ms);
        assert(record@ =~= invite_fields(self@));
        record.into_bytes()
    }
}

/// A membership signature covers every field but the signature itself: memberships with the same
/// signed bytes differ in nothing else.
pub proof fn law_membership_signature_covers_all(
    a: RoomMembershipStateView,
    b: RoomMembershipStateView,
)
    requires
        membership_payload(a) == membership_payload(b),
    ensures
        a == (RoomMembershipStateView {
            membership_signature_b64: a.membership_signature_b64,
            ..b
        }),
{
    let x = membership_fields(a);
    let y = membership_fields(b);
    codec::law_record_bytes_injective(x, y);
    assert(x[1] == y[1] && x[2] == y[2] && x[3] == y[3] && x[4] == y[4] && x[5] == y[5]);
}

/// An envelope signature covers every field but the signature itself: envelopes with the same
/// signed bytes differ in nothing else.
pub proof fn law_envelope_signature_covers_all(
    a: SignedEncryptedEnvelopeView,
    b: SignedEncryptedEnvelopeView,
)
    requires
        envelope_payload(a) == envelope_payload(b),
    ensures
        a == (SignedEncryptedEnvelopeView { signature_b64: a.signature_b64, ..b }),
{
    let x = envelope_fields(a);
    let y = envelope_fields(b);
    codec::law_record_bytes_injective(x, y);
    assert(x[1] == y[1] && x[2] == y[2] && x[3] == y[3] && x[4] == y[4] && x[5] == y[5]);
    assert(x[6] == y[6] && x[7] == y[7] && x[8] == y[8]);
}

/// An invite signature covers every field but the signature itself, the signed membership
/// included: invites with the same signed bytes differ in nothing else.
pub proof fn law_invite_signature_covers_all(a: RoomInviteView, b: RoomInviteView)
    requires
        invite_payload(a) == invite_payload(b),
    ensures
        a == (RoomInviteView { signature_b64: a.signature_b64, ..b }),
{
    let x = invite_fields(a);
    let y = invite_fields(b);
    codec::law_record_bytes_injective(x, y);
    assert(x[1] == y[1] && x[2] == y[2] && x[3] == y[3] && x[4] == y[4] && x[5] == y[5]);
    assert(x[6] == y[6] && x[7] == y[7] && x[8] == y[8] && x[9] == y[9] && x[10] == y[10]);
    assert(x[11] == y[11] && x[12] == y[12] && x[13] == y[13] && x[14] == y[14] && x[15] == y[15]);
}

/// What is signed as one kind of record is never the signed bytes of another kind.
pub proof fn law_signed_kinds_are_disjoint(
    e: SignedEncryptedEnvelopeView,
    i: RoomInviteView,
    m: RoomMembershipStateView,
)
    ensures
        envelope_payload(e) != invite_payload(i),
        envelope_payload(e) != membership_payload(m),
        invite_payload(i) != membership_payload(m),
{
    reveal_strlit("DOGEL_ENVELOPE_V1");
    reveal_strlit("DOGEL_INVITE_V1");
    reveal_strlit("DOGEL_MEMBERSHIP_V1");
    codec::lemma_record_tag(envelope_fields(e));
    codec::lemma_record_tag(invite_fields(i));
    codec::lemma_record_tag(membership_fields(m));
    let er = codec::record_bytes(envelope_fields(e).drop_first());
    let ir = codec::record_bytes(invite_fields(i).drop_first());
    let mr = codec::record_bytes(membership_fields(m).drop_first());
    let et = "DOGEL_ENVELOPE_V1"@;
    let it = "DOGEL_INVITE_V1"@;
    let mt = "DOGEL_MEMBERSHIP_V1"@;
    assert(et.len() != it.len() && et.len() != mt.len() && it.len() != mt.len());
    if envelope_payload(e) == invite_payload(i) {
        codec::lemma_text_field(et, it, er, ir);
    }
    if envelope_payload(e) == membership_payload(m) {
        codec::lemma_text_field(et, mt, er, mr);
    }
    if invite_payload(i) == membership_payload(m) {
        codec::lemma_text_field(it, mt, ir, mr);
    }
}

} // verus!
