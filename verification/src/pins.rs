//! The `/trust` commands: reading, pinning and forgetting keys of peers.

use crate::reply;
use crate::reply::Reply;
use crate::reply::ReplyView;
use crate::storage;
use crate::storage::IdentityStore;
use crate::storage::TrustedPeerRecord;
use crate::storage::TrustedPeerRecordView;
use crate::storage::TrustedPeersFile;
use crate::storage::TrustedPeersFileView;
use crate::text;
use crate::text::Lines;
use crate::trust;
use crate::trust::InboundTrustStatusView;
use crate::trust::list_trusted;
use crate::trust::ObservedPeer;
use crate::trust::ObservedPeerView;
use crate::trust::pin_record;
use crate::trust::report_pin;
use crate::trust::report_unpin;
use crate::trust::warn_of_replacement;
use vstd::prelude::*;

verus! {

/// What was found where the pinned peers of an identity are kept.
pub enum PinsRead {
    /// The file is there and cannot be read.
    Unreadable,
    /// Whether the identity exists, and its file, if it has one.
    Read { found: bool, file: Option<TrustedPeersFile> },
}

/// The plain values held by a [`PinsRead`].
#[verifier::ext_equal]
pub enum PinsReadView {
    Unreadable,
    Read { found: bool, file: Option<TrustedPeersFileView> },
}

impl View for PinsRead {
    type V = PinsReadView;

    open spec fn view(&self) -> PinsReadView {
        match *self {
            PinsRead::Unreadable => PinsReadView::Unreadable,
            PinsRead::Read { found, file } => PinsReadView::Read { found: found, file: (match file { Some(x) => Some(x@), None => None }) },
        }
    }
}

/// The pinned peers, if they can be known.
pub open spec fn pins_of(alias: Seq<char>, read: PinsReadView) -> Option<
    Seq<TrustedPeerRecordView>,
> {
    match read {
        PinsReadView::Unreadable => None,
        PinsReadView::Read { found, file } => match storage::trusted_outcome(alias, found, file) {
            Ok(peers) => Some(peers),
            Err(_) => None,
        },
    }
}

/// The pinned peers, if they can be known.
pub fn read_pins(store: &IdentityStore, alias: &str, read: PinsRead) -> (res: Option<
    Vec<TrustedPeerRecord>,
>)
    ensures
        trust::pinned_view(res) == pins_of(alias@, read@),
{
    match read {
        PinsRead::Unreadable => None,
        PinsRead::Read { found, file } => match store.load_trusted_peers(alias, found, file) {
            Ok(peers) => Some(peers),
            Err(_) => None,
        },
    }
}

/// The answer to `/trust list`.
pub open spec fn pins_reply(pins: Option<Seq<TrustedPeerRecordView>>) -> ReplyView {
    match pins {
        Some(pinned) => reply::printed(trust::trust_list_lines(pinned)),
        None => reply::failed("failed to load trusted peers"@),
    }
}

/// Answer `/trust list`.
pub fn list_pins(store: &IdentityStore, alias: &str, read: PinsRead) -> (res: Reply)
    ensures
        res@ == pins_reply(pins_of(alias@, read@)),
{
    match read_pins(store, alias, read) {
        Some(pinned) => Reply::print(list_trusted(&pinned)),
        None => Reply::fail("failed to load trusted peers".to_owned()),
    }
}

/// What is to be done to pin a key.
pub enum PinStep {
    /// It is answered.
    Done(Reply),
    /// Write a file, behind a warning.
    Write { warning: Vec<String>, record: TrustedPeerRecord, file: TrustedPeersFile },
}

/// The plain values held by a [`PinStep`].
#[verifier::ext_equal]
pub enum PinStepView {
    Done(ReplyView),
    Write { warning: Seq<Seq<char>>, record: TrustedPeerRecordView, file: TrustedPeersFileView },
}

impl View for PinStep {
    type V = PinStepView;

    open spec fn view(&self) -> PinStepView {
        match *self {
            PinStep::Done(x0) => PinStepView::Done(x0@),
            PinStep::Write { warning, record, file } => PinStepView::Write { warning: text::texts(warning@), record: record@, file: file@ },
        }
    }
}

/// Pinning the key that was seen of a peer.
pub open spec fn pin_outcome(
    pins: Option<Seq<TrustedPeerRecordView>>,
    peer_id: Seq<char>,
    seen: ObservedPeerView,
    now_ms: u64,
) -> PinStepView {
    match pins {
        None => PinStepView::Done(reply::failed("failed to load trusted peers"@)),
        Some(pinned) => PinStepView::Write {
            warning: trust::pin_warning(pinned, peer_id, seen),
            record: trust::pin_of(seen, now_ms),
            file: TrustedPeersFileView { peers: storage::peers_with(pinned, trust::pin_of(seen, now_ms)) },
        },
    }
}

/// Pin the key that was seen of a peer.
pub fn pin_peer(
    store: &IdentityStore,
    alias: &str,
    peer_id: &str,
    seen: &ObservedPeer,
    read: PinsRead,
    now_ms: u64,
) -> (res: PinStep)
    ensures
        res@ == pin_outcome(pins_of(alias@, read@), peer_id@, seen@, now_ms),
{
    match read {
        PinsRead::Unreadable => PinStep::Done(
            Reply::fail("failed to load trusted peers".to_owned()),
        ),
        PinsRead::Read { found, file } => {
            let again = match &file {
                Some(file) => Some(file.duplicate()),
                None => None,
            };
            let pinned = match store.load_trusted_peers(alias, found, file) {
                Err(_) => {
                    return PinStep::Done(Reply::fail("failed to load trusted peers".to_owned()));
                },
                Ok(pinned) => pinned,
            };
            let warning = warn_of_replacement(&pinned, peer_id, seen).into_strings();
            let record = pin_record(seen, now_ms);
            match store.trust_peer(alias, record.duplicate(), found, again) {
                Err(_) => PinStep::Done(
                    Reply::fail("failed to write trusted peer record".to_owned()),
                ),
                Ok(file) => PinStep::Write { warning, record, file },
            }
        },
    }
}

/// The answer once the file was written, or could not be.
pub open spec fn pin_reply(
    warning: Seq<Seq<char>>,
    record: TrustedPeerRecordView,
    path: Seq<char>,
    written: bool,
) -> ReplyView {
    if written {
        reply::printed(warning + trust::pinned_lines(record, path))
    } else {
        ReplyView { lines: warning, error: Some("failed to write trusted peer record"@) }
    }
}

/// Answer `/trust <peer_id>`.
pub fn finish_pin(warning: Vec<String>, record: &TrustedPeerRecord, path: &str, written: bool) -> (res:
    Reply)
    ensures
        res@ == pin_reply(text::texts(warning@), record@, path@, written),
{
    let mut lines = Lines::of(warning);
    if written {
        lines.extend(&report_pin(record, path));
        Reply::print(lines)
    } else {
        Reply { lines, error: Some("failed to write trusted peer record".to_owned()) }
    }
}

/// What is to be done to forget a key.
pub enum UnpinStep {
    /// It is answered.
    Done(Reply),
    /// Write a file.
    Write { removed: bool, file: TrustedPeersFile },
}

/// The plain values held by a [`UnpinStep`].
#[verifier::ext_equal]
pub enum UnpinStepView {
    Done(ReplyView),
    Write { removed: bool, file: TrustedPeersFileView },
}

impl View for UnpinStep {
    type V = UnpinStepView;

    open spec fn view(&self) -> UnpinStepView {
        match *self {
            UnpinStep::Done(x0) => UnpinStepView::Done(x0@),
            UnpinStep::Write { removed, file } => UnpinStepView::Write { removed: removed, file: file@ },
        }
    }
}

/// Forgetting the pinned key of a peer.
pub open spec fn unpin_outcome(pins: Option<Seq<TrustedPeerRecordView>>, peer_id: Seq<char>) ->
    UnpinStepView {
    match pins {
        None => UnpinStepView::Done(reply::failed("failed to update trusted peers"@)),
        Some(pinned) => {
            let left = storage::peers_without(pinned, peer_id);
            UnpinStepView::Write {
                removed: left.len() != pinned.len(),
                file: TrustedPeersFileView { peers: left },
            }
        },
    }
}

/// Forget the pinned key of a peer.
pub fn unpin_peer(store: &IdentityStore, alias: &str, peer_id: &str, read: PinsRead) -> (res:
    UnpinStep)
    ensures
        res@ == unpin_outcome(pins_of(alias@, read@), peer_id@),
{
    match read {
        PinsRead::Unreadable => UnpinStep::Done(
            Reply::fail("failed to update trusted peers".to_owned()),
        ),
        PinsRead::Read { found, file } => match store.remove_trusted_peer(
            alias,
            peer_id,
            found,
            file,
        ) {
            Err(_) => UnpinStep::Done(Reply::fail("failed to update trusted peers".to_owned())),
            Ok((removed, file)) => UnpinStep::Write { removed, file },
        },
    }
}

/// The answer once the file was written, or could not be.
pub open spec fn unpin_reply(removed: bool, peer_id: Seq<char>, written: bool) -> ReplyView {
    if written {
        reply::printed(trust::unpinned_lines(removed, peer_id))
    } else {
        reply::failed("failed to update trusted peers"@)
    }
}

/// Answer `/trust remove <peer_id>`.
pub fn finish_unpin(removed: bool, peer_id: &str, written: bool) -> (res: Reply)
    ensures
        res@ == unpin_reply(removed, peer_id@, written),
{
    if written {
        Reply::print(report_unpin(removed, peer_id))
    } else {
        Reply::fail("failed to update trusted peers".to_owned())
    }
}

/// After a key was pinned and the file written, a message signed with that key is trusted, and
/// one signed with another key is flagged as a change. After it was forgotten, neither is.
pub proof fn law_pins_decide_trust(
    pinned: Seq<TrustedPeerRecordView>,
    seen: ObservedPeerView,
    now_ms: u64,
    key_b64: Seq<char>,
    print: Seq<char>,
)
    ensures
        match pin_outcome(Some(pinned), seen.peer_id, seen, now_ms) {
            PinStepView::Write { file, .. } => trust::trust_status(
                Some(file.peers),
                seen.peer_id,
                key_b64,
                print,
            ) == if key_b64 == seen.signing_public_key_b64 {
                InboundTrustStatusView::Trusted
            } else {
                InboundTrustStatusView::KeyChanged {
                    old_fingerprint: seen.fingerprint,
                    new_fingerprint: print,
                }
            },
            PinStepView::Done(_) => false,
        },
        match unpin_outcome(Some(pinned), seen.peer_id) {
            UnpinStepView::Write { file, .. } => trust::trust_status(
                Some(file.peers),
                seen.peer_id,
                key_b64,
                print,
            ) == InboundTrustStatusView::Untrusted,
            UnpinStepView::Done(_) => false,
        },
{
    storage::law_pin_is_found(pinned, trust::pin_of(seen, now_ms), seen.peer_id);
    storage::law_unpin_forgets(pinned, seen.peer_id, seen.peer_id);
}

/// The list that is written after a pin holds the new record and, unchanged, those of all other
/// peers; after the end of a pin it holds those alone. The user is told that a pin ended exactly
/// where there was one.
pub proof fn law_other_pins_stay(
    pinned: Seq<TrustedPeerRecordView>,
    seen: ObservedPeerView,
    now_ms: u64,
    other: Seq<char>,
)
    requires
        other != seen.peer_id,
    ensures
        match pin_outcome(Some(pinned), seen.peer_id, seen, now_ms) {
            PinStepView::Write { file, record, .. } => {
                &&& record == trust::pin_of(seen, now_ms)
                &&& storage::record_of(file.peers, seen.peer_id) == Some(record)
                &&& storage::record_of(file.peers, other) == storage::record_of(pinned, other)
            },
            PinStepView::Done(_) => false,
        },
        match unpin_outcome(Some(pinned), seen.peer_id) {
            UnpinStepView::Write { file, removed } => {
                &&& removed <==> storage::record_of(pinned, seen.peer_id) is Some
                &&& storage::record_of(file.peers, seen.peer_id) is None
                &&& storage::record_of(file.peers, other) == storage::record_of(pinned, other)
            },
            UnpinStepView::Done(_) => false,
        },
        pin_outcome(None, seen.peer_id, seen, now_ms) is Done,
        unpin_outcome(None, seen.peer_id) is Done,
{
    storage::law_pin_is_found(pinned, trust::pin_of(seen, now_ms), other);
    storage::law_unpin_forgets(pinned, seen.peer_id, other);
}

/// A pin that was written is told with its warning in front, and a file that could not be written
/// is an error.
pub proof fn law_written_pins_are_told(
    warning: Seq<Seq<char>>,
    record: TrustedPeerRecordView,
    path: Seq<char>,
    removed: bool,
    peer_id: Seq<char>,
)
    ensures
        ({
            let reply = pin_reply(warning, record, path, true);
            &&& reply.error is None
            &&& warning.is_prefix_of(reply.lines)
            &&& reply.lines.contains("  peer_id: "@ + record.peer_id)
            &&& reply.lines.contains("  fingerprint: "@ + record.fingerprint)
        }),
        pin_reply(warning, record, path, false).error is Some,
        pin_reply(warning, record, path, false).lines == warning,
        unpin_reply(removed, peer_id, true).error is None,
        unpin_reply(removed, peer_id, true).lines.contains("  "@ + peer_id),
        unpin_reply(removed, peer_id, false).error is Some,
{
    trust::law_pins_are_told(record, path, peer_id);
    let lines = trust::pinned_lines(record, path);
    let reply = pin_reply(warning, record, path, true);
    assert(reply.lines.subrange(0, warning.len() as int) =~= warning);
    assert(reply.lines[warning.len() as int + 2] == "  peer_id: "@ + record.peer_id);
    assert(reply.lines[warning.len() as int + 3] == "  fingerprint: "@ + record.fingerprint);
}

} // verus!
