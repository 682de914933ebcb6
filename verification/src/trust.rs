//! Which signing keys were seen, and which the user trusts.

use crate::peer::PeerId;
use crate::primitives;
use crate::reply;
use crate::reply::Reply;
use crate::reply::ReplyView;
use crate::storage;
use crate::storage::find_record;
use crate::storage::TrustedPeerRecord;
use crate::storage::TrustedPeerRecordView;
use crate::table::TextMap;
use crate::text;
use crate::text::cat2;
use crate::text::cat5;
use crate::text::copy_opt;
use crate::text::decimal_text;
use crate::text::Lines;
use crate::text::same_text;
use vstd::prelude::*;

verus! {

/// The signing key last seen from a peer.
pub struct ObservedPeer {
    pub peer_id: String,
    pub alias: String,
    pub signing_public_key_b64: String,
    pub fingerprint: String,
    pub last_seen_at_ms: u64,
}

/// The plain values held by a [`ObservedPeer`].
#[verifier::ext_equal]
pub struct ObservedPeerView {
    pub peer_id: Seq<char>,
    pub alias: Seq<char>,
    pub signing_public_key_b64: Seq<char>,
    pub fingerprint: Seq<char>,
    pub last_seen_at_ms: u64,
}

impl View for ObservedPeer {
    type V = ObservedPeerView;

    open spec fn view(&self) -> ObservedPeerView {
        ObservedPeerView {
            peer_id: self.peer_id@,
            alias: self.alias@,
            signing_public_key_b64: self.signing_public_key_b64@,
            fingerprint: self.fingerprint@,
            last_seen_at_ms: self.last_seen_at_ms,
        }
    }
}

impl ObservedPeer {
    /// Copy this value.
    pub fn duplicate(&self) -> (res: Self)
        ensures
            res@ == self@,
    {
        ObservedPeer {
            peer_id: self.peer_id.clone(),
            alias: self.alias.clone(),
            signing_public_key_b64: self.signing_public_key_b64.clone(),
            fingerprint: self.fingerprint.clone(),
            last_seen_at_ms: self.last_seen_at_ms,
        }
    }
}

/// What was seen since login, and whose trust store it is judged by.
pub struct TrustBook {
    pub identity_alias: Option<String>,
    pub observed: TextMap<ObservedPeer>,
}

/// The plain values held by a [`TrustBook`].
#[verifier::ext_equal]
pub struct TrustBookView {
    pub identity_alias: Option<Seq<char>>,
    pub observed: Map<Seq<char>, ObservedPeerView>,
}

impl View for TrustBook {
    type V = TrustBookView;

    open spec fn view(&self) -> TrustBookView {
        TrustBookView {
            identity_alias: text::opt_text(self.identity_alias),
            observed: self.observed@,
        }
    }
}

/// How far a sender is trusted.
#[derive(Debug, Clone, PartialEq, Eq)]
pub enum InboundTrustStatus {
    Trusted,
    Untrusted,
    KeyChanged { old_fingerprint: String, new_fingerprint: String },
}

/// The plain values held by a [`InboundTrustStatus`].
#[verifier::ext_equal]
pub enum InboundTrustStatusView {
    Trusted,
    Untrusted,
    KeyChanged { old_fingerprint: Seq<char>, new_fingerprint: Seq<char> },
}

impl View for InboundTrustStatus {
    type V = InboundTrustStatusView;

    open spec fn view(&self) -> InboundTrustStatusView {
        match *self {
            InboundTrustStatus::Trusted => InboundTrustStatusView::Trusted,
            InboundTrustStatus::Untrusted => InboundTrustStatusView::Untrusted,
            InboundTrustStatus::KeyChanged { old_fingerprint, new_fingerprint } => InboundTrustStatusView::KeyChanged { old_fingerprint: old_fingerprint@, new_fingerprint: new_fingerprint@ },
        }
    }
}

/// Nothing was seen, and nobody is logged in.
pub open spec fn empty_trust() -> TrustBookView {
    TrustBookView { identity_alias: None, observed: Map::empty() }
}

/// The state after login.
pub open spec fn trust_of(alias: Seq<char>) -> TrustBookView {
    TrustBookView { identity_alias: Some(alias), observed: Map::empty() }
}

impl TrustBook {
    /// Nothing was seen, and nobody is logged in.
    pub fn new() -> (res: TrustBook)
        ensures
            res@ == empty_trust(),
    {
        TrustBook { identity_alias: None, observed: TextMap::new() }
    }

    /// Start over for an identity.
    pub fn login(&mut self, alias: &str)
        ensures
            final(self)@ == trust_of(alias@),
    {
        self.identity_alias = Some(alias.to_owned());
        self.observed.clear();
    }
}

/// What is seen of a sender.
pub open spec fn observation(
    peer: Seq<char>,
    alias: Seq<char>,
    key_b64: Seq<char>,
    print: Seq<char>,
    now_ms: u64,
) -> ObservedPeerView {
    ObservedPeerView {
        peer_id: peer,
        alias,
        signing_public_key_b64: key_b64,
        fingerprint: print,
        last_seen_at_ms: now_ms,
    }
}

/// The state after a sender is seen.
pub open spec fn observed(book: TrustBookView, seen: ObservedPeerView) -> TrustBookView {
    TrustBookView { observed: book.observed.insert(seen.peer_id, seen), ..book }
}

/// Record the signing key of a sender; the result is the identity whose trust store judges it.
pub fn observe_peer(
    book: &mut TrustBook,
    peer: &PeerId,
    alias: &str,
    key_b64: &str,
    print: &str,
    now_ms: u64,
) -> (res: Option<String>)
    ensures
        final(book)@ == observed(
            old(book)@,
            observation(peer@, alias@, key_b64@, print@, now_ms),
        ),
        text::opt_text(res) == old(book)@.identity_alias,
{
    let seen = ObservedPeer {
        peer_id: peer.as_text().to_owned(),
        alias: alias.to_owned(),
        signing_public_key_b64: key_b64.to_owned(),
        fingerprint: print.to_owned(),
        last_seen_at_ms: now_ms,
    };
    book.observed.insert(peer.as_text(), seen);
    copy_opt(&book.identity_alias)
}

/// How far a sender is trusted; the pinned peers are absent where nobody is logged in.
pub open spec fn trust_status(
    pinned: Option<Seq<TrustedPeerRecordView>>,
    peer: Seq<char>,
    key_b64: Seq<char>,
    print: Seq<char>,
) -> InboundTrustStatusView {
    match pinned {
        None => InboundTrustStatusView::Untrusted,
        Some(pinned) => match storage::record_of(pinned, peer) {
            None => InboundTrustStatusView::Untrusted,
            Some(record) => if record.signing_public_key_b64 == key_b64 {
                InboundTrustStatusView::Trusted
            } else {
                InboundTrustStatusView::KeyChanged {
                    old_fingerprint: record.fingerprint,
                    new_fingerprint: print,
                }
            },
        },
    }
}

/// The views of optional pinned peers.
pub open spec fn pinned_view(pinned: Option<Vec<TrustedPeerRecord>>) -> Option<
    Seq<TrustedPeerRecordView>,
> {
    match pinned {
        Some(pinned) => Some(storage::record_views(pinned@)),
        None => None,
    }
}

/// Judge a sender by the pinned peers.
pub fn classify_peer(
    pinned: &Option<Vec<TrustedPeerRecord>>,
    peer: &PeerId,
    key_b64: &str,
    print: &str,
) -> (res: InboundTrustStatus)
    ensures
        res@ == trust_status(pinned_view(*pinned), peer@, key_b64@, print@),
{
    match pinned {
        None => InboundTrustStatus::Untrusted,
        Some(pinned) => match find_record(pinned, peer.as_text()) {
            None => InboundTrustStatus::Untrusted,
            Some(record) => if same_text(record.signing_public_key_b64.as_str(), key_b64) {
                InboundTrustStatus::Trusted
            } else {
                InboundTrustStatus::KeyChanged {
                    old_fingerprint: record.fingerprint.clone(),
                    new_fingerprint: print.to_owned(),
                }
            },
        },
    }
}

/// The record that pins what was seen of a peer.
pub open spec fn pin_of(seen: ObservedPeerView, now_ms: u64) -> TrustedPeerRecordView {
    TrustedPeerRecordView {
        peer_id: seen.peer_id,
        alias: seen.alias,
        signing_public_key_b64: seen.signing_public_key_b64,
        fingerprint: seen.fingerprint,
        trusted_at_ms: now_ms,
        last_seen_at_ms: seen.last_seen_at_ms,
    }
}

/// Pin what was seen of a peer.
pub fn pin_record(seen: &ObservedPeer, now_ms: u64) -> (res: TrustedPeerRecord)
    ensures
        res@ == pin_of(seen@, now_ms),
{
    TrustedPeerRecord {
        peer_id: seen.peer_id.clone(),
        alias: seen.alias.clone(),
        signing_public_key_b64: seen.signing_public_key_b64.clone(),
        fingerprint: seen.fingerprint.clone(),
        trusted_at_ms: now_ms,
        last_seen_at_ms: seen.last_seen_at_ms,
    }
}

/// Trust is explicit: a sender is trusted only with the key that was pinned for it. Pinning what
/// was seen makes exactly that key trusted, any other key is reported as changed, other peers
/// are judged as before, and unpinning ends the trust.
pub proof fn law_trust_follows_pins(
    pinned: Seq<TrustedPeerRecordView>,
    seen: ObservedPeerView,
    now_ms: u64,
    key_b64: Seq<char>,
    print: Seq<char>,
    other: Seq<char>,
)
    requires
        other != seen.peer_id,
    ensures
        ({
            let after = storage::peers_with(pinned, pin_of(seen, now_ms));
            let status = trust_status(Some(after), seen.peer_id, key_b64, print);
            &&& key_b64 == seen.signing_public_key_b64 ==> status
                == InboundTrustStatusView::Trusted
            &&& key_b64 != seen.signing_public_key_b64 ==> status
                == InboundTrustStatusView::KeyChanged {
                old_fingerprint: seen.fingerprint,
                new_fingerprint: print,
            }
            &&& trust_status(Some(after), other, key_b64, print) == trust_status(
                Some(pinned),
                other,
                key_b64,
                print,
            )
        }),
        trust_status(Some(storage::peers_without(pinned, seen.peer_id)), seen.peer_id, key_b64, print)
            == InboundTrustStatusView::Untrusted,
        trust_status(None, seen.peer_id, key_b64, print) == InboundTrustStatusView::Untrusted,
{
    storage::law_pin_is_found(pinned, pin_of(seen, now_ms), other);
    storage::law_unpin_forgets(pinned, seen.peer_id, other);
}

/// How a pinned peer is listed.
pub open spec fn pinned_peer_lines(record: TrustedPeerRecordView) -> Seq<Seq<char>> {
    seq![
        "  "@ + record.alias + " ["@ + record.fingerprint + "]"@,
        "    peer_id: "@ + record.peer_id,
        "    trusted_at_ms: "@ + text::decimal(record.trusted_at_ms as nat),
        "    last_seen_at_ms: "@ + text::decimal(record.last_seen_at_ms as nat),
    ]
}

/// How the first pinned peers are listed.
pub open spec fn pinned_peers_lines(pinned: Seq<TrustedPeerRecordView>) -> Seq<Seq<char>>
    decreases pinned.len(),
{
    if pinned.len() == 0 {
        Seq::empty()
    } else {
        pinned_peers_lines(pinned.drop_last()) + pinned_peer_lines(pinned.last())
    }
}

/// The answer to `/trust list`.
pub open spec fn trust_list_lines(pinned: Seq<TrustedPeerRecordView>) -> Seq<Seq<char>> {
    if pinned.len() == 0 {
        seq![
            "trusted peers:"@,
            "  none"@,
            ""@,
            "hint:"@,
            "  receive a message, verify its fingerprint, then run /trust <peer_id>"@,
        ]
    } else {
        seq!["trusted peers:"@] + pinned_peers_lines(pinned)
    }
}

/// List the pinned peers.
pub fn list_trusted(pinned: &Vec<TrustedPeerRecord>) -> (res: Lines)
    ensures
        res@ == trust_list_lines(storage::record_views(pinned@)),
{
    let mut lines = Lines::new();
    lines.say("trusted peers:");
    let ghost all = storage::record_views(pinned@);
    assert(all.len() == pinned@.len());
    if pinned.len() == 0 {
        lines.say("  none");
        lines.say("");
        lines.say("hint:");
        lines.say("  receive a message, verify its fingerprint, then run /trust <peer_id>");
        assert(lines@ =~= trust_list_lines(all));
        return lines;
    }
    let ghost head = lines@;
    assert(head =~= seq!["trusted peers:"@]);
    let mut i: usize = 0;
    assert(lines@ =~= head + pinned_peers_lines(all.take(0)));
    while i < pinned.len()
        invariant
            i <= pinned@.len(),
            all == storage::record_views(pinned@),
            lines@ == head + pinned_peers_lines(all.take(i as int)),
        decreases pinned.len() - i,
    {
        let record = &pinned[i];
        let ghost before = lines@;
        lines.add(
            cat5("  ", record.alias.as_str(), " [", record.fingerprint.as_str(), "]"),
        );
        lines.add(cat2("    peer_id: ", record.peer_id.as_str()));
        lines.add(cat2("    trusted_at_ms: ", decimal_text(record.trusted_at_ms).as_str()));
        lines.add(cat2("    last_seen_at_ms: ", decimal_text(record.last_seen_at_ms).as_str()));
        assert(lines@ =~= before + pinned_peer_lines(record@));
        i = i + 1;
        proof {
            assert(all.take(i as int).drop_last() =~= all.take(i - 1));
            assert(all.take(i as int).last() == record@);
            assert(lines@ =~= head + pinned_peers_lines(all.take(i as int)));
        }
    }
    assert(all.take(i as int) =~= all);
    lines
}

/// The answer where no key of a peer was seen.
pub open spec fn not_observed_reply(peer_id: Seq<char>) -> ReplyView {
    reply::printed(
        seq![
            "error: no observed signing key for peer "@ + peer_id,
            ""@,
            "hint:"@,
            "  wait for a signed message from that peer first"@,
            "  then compare the displayed fingerprint out-of-band"@,
            "  then run /trust "@ + peer_id,
        ],
    )
}

/// The error for a text that is not a peer id.
pub open spec fn bad_peer_id(text: Seq<char>) -> Seq<char> {
    "invalid peer id: "@ + text
}

/// Read a peer id, or give the error.
pub fn require_peer_id(text: &str) -> (res: Result<PeerId, String>)
    ensures
        match res {
            Ok(peer) => primitives::peer_id_text(text@) == Some(peer@),
            Err(e) => primitives::peer_id_text(text@) is None && e@ == bad_peer_id(text@),
        },
{
    match PeerId::parse(text) {
        Some(peer) => Ok(peer),
        None => Err(cat2("invalid peer id: ", text)),
    }
}

/// What was seen of the peer that is to be pinned, or the answer.
pub fn observed_for_pin(book: &TrustBook, peer_id: &str) -> (res: Result<ObservedPeer, Reply>)
    ensures
        match res {
            Ok(seen) => primitives::peer_id_text(peer_id@) is Some && book@.observed.contains_key(peer_id@)
                && seen@ == book@.observed[peer_id@],
            Err(reply) => if primitives::peer_id_text(peer_id@) is None {
                reply@ == reply::failed(bad_peer_id(peer_id@))
            } else {
                !book@.observed.contains_key(peer_id@) && reply@ == not_observed_reply(peer_id@)
            },
        },
{
    match require_peer_id(peer_id) {
        Ok(_) => {},
        Err(e) => return Err(Reply::fail(e)),
    }
    match book.observed.get(peer_id) {
        Some(seen) => Ok(seen.duplicate()),
        None => {
            let mut lines = Lines::new();
            lines.add(cat2("error: no observed signing key for peer ", peer_id));
            lines.say("");
            lines.say("hint:");
            lines.say("  wait for a signed message from that peer first");
            lines.say("  then compare the displayed fingerprint out-of-band");
            lines.add(cat2("  then run /trust ", peer_id));
            assert(lines@ =~= not_observed_reply(peer_id@).lines);
            Err(Reply::print(lines))
        },
    }
}

/// The warning where a pin replaces another key.
pub open spec fn pin_warning(
    pinned: Seq<TrustedPeerRecordView>,
    peer_id: Seq<char>,
    seen: ObservedPeerView,
) -> Seq<Seq<char>> {
    match storage::record_of(pinned, peer_id) {
        Some(record) => if record.signing_public_key_b64 != seen.signing_public_key_b64 {
            seq![
                "SECURITY WARNING: replacing trusted signing key for peer "@ + peer_id,
                "  old fingerprint: "@ + record.fingerprint,
                "  new fingerprint: "@ + seen.fingerprint,
                "  proceed only if you verified this change out-of-band"@,
            ]
        } else {
            Seq::empty()
        },
        None => Seq::empty(),
    }
}

/// Warn where a pin replaces another key.
pub fn warn_of_replacement(
    pinned: &Vec<TrustedPeerRecord>,
    peer_id: &str,
    seen: &ObservedPeer,
) -> (res: Lines)
    ensures
        res@ == pin_warning(storage::record_views(pinned@), peer_id@, seen@),
{
    let mut lines = Lines::new();
    if let Some(record) = find_record(pinned, peer_id) {
        if !same_text(
            record.signing_public_key_b64.as_str(),
            seen.signing_public_key_b64.as_str(),
        ) {
            lines.add(
                cat2("SECURITY WARNING: replacing trusted signing key for peer ", peer_id),
            );
            lines.add(cat2("  old fingerprint: ", record.fingerprint.as_str()));
            lines.add(cat2("  new fingerprint: ", seen.fingerprint.as_str()));
            lines.say("  proceed only if you verified this change out-of-band");
        }
    }
    assert(lines@ =~= pin_warning(storage::record_views(pinned@), peer_id@, seen@));
    lines
}

/// What is printed after a peer is pinned.
pub open spec fn pinned_lines(record: TrustedPeerRecordView, path: Seq<char>) -> Seq<Seq<char>> {
    seq![
        "trusted peer:"@,
        "  alias: "@ + record.alias,
        "  peer_id: "@ + record.peer_id,
        "  fingerprint: "@ + record.fingerprint,
        "  path: "@ + path,
    ]
}

/// Report that a peer was pinned.
pub fn report_pin(record: &TrustedPeerRecord, path: &str) -> (res: Lines)
    ensures
        res@ == pinned_lines(record@, path@),
{
    let mut lines = Lines::new();
    lines.say("trusted peer:");
    lines.add(cat2("  alias: ", record.alias.as_str()));
    lines.add(cat2("  peer_id: ", record.peer_id.as_str()));
    lines.add(cat2("  fingerprint: ", record.fingerprint.as_str()));
    lines.add(cat2("  path: ", path));
    assert(lines@ =~= pinned_lines(record@, path@));
    lines
}

/// What is printed after a peer is unpinned.
pub open spec fn unpinned_lines(removed: bool, peer_id: Seq<char>) -> Seq<Seq<char>> {
    if removed {
        seq!["removed trusted peer:"@, "  "@ + peer_id]
    } else {
        seq!["trusted peer not found:"@, "  "@ + peer_id]
    }
}

/// Report that a peer was unpinned.
pub fn report_unpin(removed: bool, peer_id: &str) -> (res: Lines)
    ensures
        res@ == unpinned_lines(removed, peer_id@),
{
    let mut lines = Lines::new();
    if removed {
        lines.say("removed trusted peer:");
    } else {
        lines.say("trusted peer not found:");
    }
    lines.add(cat2("  ", peer_id));
    assert(lines@ =~= unpinned_lines(removed, peer_id@));
    lines
}

/// Where the lines of a pinned peer stand.
proof fn lemma_pinned_place(pinned: Seq<TrustedPeerRecordView>, i: int)
    requires
        0 <= i < pinned.len(),
    ensures
        pinned_peers_lines(pinned).len() == 4 * pinned.len(),
        forall|k: int|
            0 <= k < 4 ==> pinned_peers_lines(pinned)[4 * i + k] == #[trigger] pinned_peer_lines(
                pinned[i],
            )[k],
    decreases pinned.len(),
{
    let init = pinned.drop_last();
    lemma_pinned_len(init);
    if i < init.len() {
        lemma_pinned_place(init, i);
        assert(init[i] == pinned[i]);
    }
}

/// Every pinned peer is listed in four lines.
proof fn lemma_pinned_len(pinned: Seq<TrustedPeerRecordView>)
    ensures
        pinned_peers_lines(pinned).len() == 4 * pinned.len(),
    decreases pinned.len(),
{
    if pinned.len() > 0 {
        lemma_pinned_len(pinned.drop_last());
    }
}

/// Every pinned peer is listed, in the order of the file: its name with the fingerprint of its key,
/// its id, and when it was pinned and seen.
pub proof fn law_every_pin_is_listed(pinned: Seq<TrustedPeerRecordView>, i: int)
    requires
        0 <= i < pinned.len(),
    ensures
        ({
            let lines = trust_list_lines(pinned);
            let record = pinned[i];
            &&& lines.len() == 1 + 4 * pinned.len()
            &&& lines[1 + 4 * i] == "  "@ + record.alias + " ["@ + record.fingerprint + "]"@
            &&& lines[2 + 4 * i] == "    peer_id: "@ + record.peer_id
            &&& lines[3 + 4 * i] == "    trusted_at_ms: "@ + text::decimal(record.trusted_at_ms as nat)
            &&& lines[4 + 4 * i] == "    last_seen_at_ms: "@ + text::decimal(
                record.last_seen_at_ms as nat,
            )
        }),
{
    lemma_pinned_place(pinned, i);
    let own = pinned_peer_lines(pinned[i]);
    let all = pinned_peers_lines(pinned);
    assert(all[4 * i + 0] == own[0]);
    assert(all[4 * i + 1] == own[1]);
    assert(all[4 * i + 2] == own[2]);
    assert(all[4 * i + 3] == own[3]);
}

/// A pin warns exactly where the key that it replaces is another one, and then shows the
/// fingerprints of both.
pub proof fn law_replaced_keys_are_warned_of(
    pinned: Seq<TrustedPeerRecordView>,
    peer_id: Seq<char>,
    seen: ObservedPeerView,
    i: int,
)
    requires
        0 <= i < pinned.len(),
        pinned[i].peer_id == peer_id,
        forall|j: int| 0 <= j < i ==> (#[trigger] pinned[j]).peer_id != peer_id,
    ensures
        ({
            let lines = pin_warning(pinned, peer_id, seen);
            &&& lines.len() > 0 <==> pinned[i].signing_public_key_b64 != seen.signing_public_key_b64
            &&& lines.len() > 0 ==> {
                &&& peer_id.is_suffix_of(lines[0])
                &&& lines.contains("  old fingerprint: "@ + pinned[i].fingerprint)
                &&& lines.contains("  new fingerprint: "@ + seen.fingerprint)
            }
        }),
        trust_status(
            Some(pinned),
            peer_id,
            pinned[i].signing_public_key_b64,
            seen.fingerprint,
        ) is Trusted,
{
    lemma_first_record(pinned, peer_id, i);
    let lines = pin_warning(pinned, peer_id, seen);
    if lines.len() > 0 {
        assert(lines[1] == "  old fingerprint: "@ + pinned[i].fingerprint);
        assert(lines[2] == "  new fingerprint: "@ + seen.fingerprint);
        let head = "SECURITY WARNING: replacing trusted signing key for peer "@;
        assert(lines[0] == head + peer_id);
        assert((head + peer_id).subrange(head.len() as int, (head + peer_id).len() as int)
            =~= peer_id);
    }
}

/// The record of a peer is the first that bears its id.
proof fn lemma_first_record(pinned: Seq<TrustedPeerRecordView>, peer_id: Seq<char>, i: int)
    requires
        0 <= i < pinned.len(),
        pinned[i].peer_id == peer_id,
        forall|j: int| 0 <= j < i ==> (#[trigger] pinned[j]).peer_id != peer_id,
    ensures
        storage::record_of(pinned, peer_id) == Some(pinned[i]),
    decreases pinned.len(),
{
    if i > 0 {
        assert(pinned[0].peer_id != peer_id);
        let rest = pinned.drop_first();
        assert forall|j: int| 0 <= j < i - 1 implies (#[trigger] rest[j]).peer_id != peer_id by {
            assert(rest[j] == pinned[j + 1]);
        }
        lemma_first_record(rest, peer_id, i - 1);
    }
}

/// A pin holds what was seen of the peer and the time of pinning. What is seen of a sender is kept
/// under its id, in place of what was seen before; what was seen of others stays.
pub proof fn law_pins_hold_what_was_seen(
    book: TrustBookView,
    seen: ObservedPeerView,
    other: Seq<char>,
    now_ms: u64,
)
    requires
        other != seen.peer_id,
    ensures
        ({
            let pin = pin_of(seen, now_ms);
            &&& pin.peer_id == seen.peer_id && pin.alias == seen.alias
            &&& pin.signing_public_key_b64 == seen.signing_public_key_b64
            &&& pin.fingerprint == seen.fingerprint
            &&& pin.trusted_at_ms == now_ms
            &&& pin.last_seen_at_ms == seen.last_seen_at_ms
        }),
        ({
            let after = observed(book, seen);
            &&& after.observed.contains_key(seen.peer_id)
            &&& after.observed[seen.peer_id] == seen
            &&& after.observed.contains_key(other) <==> book.observed.contains_key(other)
            &&& book.observed.contains_key(other) ==> after.observed[other] == book.observed[other]
            &&& after.identity_alias == book.identity_alias
        }),
{
}

/// What is said after a pin and after its end names the peer.
pub proof fn law_pins_are_told(record: TrustedPeerRecordView, path: Seq<char>, peer_id: Seq<char>)
    ensures
        pinned_lines(record, path).contains("  alias: "@ + record.alias),
        pinned_lines(record, path).contains("  peer_id: "@ + record.peer_id),
        pinned_lines(record, path).contains("  fingerprint: "@ + record.fingerprint),
        unpinned_lines(true, peer_id).contains("  "@ + peer_id),
        unpinned_lines(false, peer_id).contains("  "@ + peer_id),
        unpinned_lines(true, peer_id)[0] != unpinned_lines(false, peer_id)[0],
        not_observed_reply(peer_id).lines.contains("  then run /trust "@ + peer_id),
{
    let lines = pinned_lines(record, path);
    assert(lines[1] == "  alias: "@ + record.alias);
    assert(lines[2] == "  peer_id: "@ + record.peer_id);
    assert(lines[3] == "  fingerprint: "@ + record.fingerprint);
    assert(unpinned_lines(true, peer_id)[1] == "  "@ + peer_id);
    assert(unpinned_lines(false, peer_id)[1] == "  "@ + peer_id);
    assert(not_observed_reply(peer_id).lines[5] == "  then run /trust "@ + peer_id);
    reveal_strlit("removed trusted peer:");
    reveal_strlit("trusted peer not found:");
    assert("removed trusted peer:"@[0] == 'r');
    assert("trusted peer not found:"@[0] == 't');
}

} // verus!
