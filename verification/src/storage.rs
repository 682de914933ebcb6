//! Local identities, trusted peers and encrypted room history.
//!
//! The functions here decide what is read and written; the caller does the reading and writing
//! and hands over what it found.

use crate::crypto;
use crate::crypto::CryptoError;
use crate::crypto::CryptoErrorView;
use crate::crypto::CryptoOutcome;
use crate::crypto::decrypt_private_key;
use crate::crypto::decrypt_room_message;
use crate::crypto::encrypt_private_key;
use crate::crypto::encrypt_room_message;
use crate::crypto::EncryptedPrivateKeyFile;
use crate::crypto::EncryptedPrivateKeyFileView;
use crate::crypto::fingerprint_from_public_key;
use crate::crypto::SigningKey;
use crate::crypto::SigningKeyView;
use crate::ids;
use crate::ids::alias_is_valid;
use crate::ids::room_id_is_valid;
use crate::primitives;
use crate::primitives::base64_decode;
use crate::primitives::base64_encode;
use crate::primitives::generate_network_key;
use crate::primitives::network_key_peer_id;
use crate::primitives::Outcome;
use crate::primitives::random_bytes;
use crate::primitives::SecretBytes;
use crate::text;
use crate::text::cat2;
use crate::text::cat3;
use crate::text::cat4;
use crate::text::cat5;
use crate::text::chars_of;
use crate::text::copy_strings;
use crate::text::count_text;
use crate::text::decimal_text;
use crate::text::Rank;
use crate::text::rank_texts;
use crate::text::same_text;
use crate::text::split_lines;
use crate::text::string_of;
use crate::text::trim;
use vstd::prelude::*;
use vstd::utf8::*;

verus! {

/// `std::path::PathBuf`, which is carried through unseen.
#[verifier::external_type_specification]
#[verifier::external_body]
pub struct ExPathBuf(std::path::PathBuf);

/// What can go wrong in the store.
#[derive(Debug, Clone, PartialEq, Eq)]
pub enum StorageError {
    NoConfigDirectory,
    InvalidAlias(String),
    InvalidRoomId(String),
    IdentityAlreadyExists(String),
    IdentityNotFound(String),
    IdentityAlreadyActive { alias: String, path: String },
    Io { path: String, source: String },
    TomlSerialize(String),
    TomlDeserialize(String),
    JsonSerialize(String),
    JsonDeserialize(String),
    Crypto(CryptoError),
    NetworkKeyEncoding(String),
    NetworkKeyDecoding(String),
    InvalidSigningKeyLength(usize),
    FingerprintMismatch,
}

/// The plain values held by a [`StorageError`].
#[verifier::ext_equal]
pub enum StorageErrorView {
    NoConfigDirectory,
    InvalidAlias(Seq<char>),
    InvalidRoomId(Seq<char>),
    IdentityAlreadyExists(Seq<char>),
    IdentityNotFound(Seq<char>),
    IdentityAlreadyActive { alias: Seq<char>, path: Seq<char> },
    Io { path: Seq<char>, source: Seq<char> },
    TomlSerialize(Seq<char>),
    TomlDeserialize(Seq<char>),
    JsonSerialize(Seq<char>),
    JsonDeserialize(Seq<char>),
    Crypto(CryptoErrorView),
    NetworkKeyEncoding(Seq<char>),
    NetworkKeyDecoding(Seq<char>),
    InvalidSigningKeyLength(usize),
    FingerprintMismatch,
}

impl View for StorageError {
    type V = StorageErrorView;

    open spec fn view(&self) -> StorageErrorView {
        match *self {
            StorageError::NoConfigDirectory => StorageErrorView::NoConfigDirectory,
            StorageError::InvalidAlias(x0) => StorageErrorView::InvalidAlias(x0@),
            StorageError::InvalidRoomId(x0) => StorageErrorView::InvalidRoomId(x0@),
            StorageError::IdentityAlreadyExists(x0) => StorageErrorView::IdentityAlreadyExists(x0@),
            StorageError::IdentityNotFound(x0) => StorageErrorView::IdentityNotFound(x0@),
            StorageError::IdentityAlreadyActive { alias, path } => StorageErrorView::IdentityAlreadyActive { alias: alias@, path: path@ },
            StorageError::Io { path, source } => StorageErrorView::Io { path: path@, source: source@ },
            StorageError::TomlSerialize(x0) => StorageErrorView::TomlSerialize(x0@),
            StorageError::TomlDeserialize(x0) => StorageErrorView::TomlDeserialize(x0@),
            StorageError::JsonSerialize(x0) => StorageErrorView::JsonSerialize(x0@),
            StorageError::JsonDeserialize(x0) => StorageErrorView::JsonDeserialize(x0@),
            StorageError::Crypto(x0) => StorageErrorView::Crypto(x0@),
            StorageError::NetworkKeyEncoding(x0) => StorageErrorView::NetworkKeyEncoding(x0@),
            StorageError::NetworkKeyDecoding(x0) => StorageErrorView::NetworkKeyDecoding(x0@),
            StorageError::InvalidSigningKeyLength(x0) => StorageErrorView::InvalidSigningKeyLength(x0),
            StorageError::FingerprintMismatch => StorageErrorView::FingerprintMismatch,
        }
    }
}

/// What a storage error says.
pub open spec fn storage_error_text(e: StorageErrorView) -> Seq<char> {
    match e {
        StorageErrorView::NoConfigDirectory => "could not locate user config directory"@,
        StorageErrorView::InvalidAlias(alias) => "invalid alias: "@ + alias,
        StorageErrorView::InvalidRoomId(room_id) => "invalid room id: "@ + room_id,
        StorageErrorView::IdentityAlreadyExists(alias) => "identity already exists: "@ + alias,
        StorageErrorView::IdentityNotFound(alias) => "identity not found: "@ + alias,
        StorageErrorView::IdentityAlreadyActive { alias, path } => "identity is already active: "@
            + alias + "; lock file exists at "@ + path,
        StorageErrorView::Io { path, source } => "io error at "@ + path + ": "@ + source,
        StorageErrorView::TomlSerialize(reason) => "toml serialization failed: "@ + reason,
        StorageErrorView::TomlDeserialize(reason) => "toml deserialization failed: "@ + reason,
        StorageErrorView::JsonSerialize(reason) => "json serialization failed: "@ + reason,
        StorageErrorView::JsonDeserialize(reason) => "json deserialization failed: "@ + reason,
        StorageErrorView::Crypto(e) => "crypto error: "@ + crypto::crypto_error_text(e),
        StorageErrorView::NetworkKeyEncoding(reason) => "network key encoding failed: "@ + reason,
        StorageErrorView::NetworkKeyDecoding(reason) => "network key decoding failed: "@ + reason,
        StorageErrorView::InvalidSigningKeyLength(n) =>
            "signing key has invalid length: expected 32 bytes, got "@ + text::decimal(n as nat),
        StorageErrorView::FingerprintMismatch =>
            "stored fingerprint does not match decrypted signing key"@,
    }
}

impl StorageError {
    /// What this error says.
    pub fn message(&self) -> (res: String)
        ensures
            res@ == storage_error_text(self@),
    {
        match self {
            StorageError::NoConfigDirectory => "could not locate user config directory".to_owned(),
            StorageError::InvalidAlias(alias) => cat2("invalid alias: ", alias.as_str()),
            StorageError::InvalidRoomId(room_id) => cat2("invalid room id: ", room_id.as_str()),
            StorageError::IdentityAlreadyExists(alias) => cat2(
                "identity already exists: ",
                alias.as_str(),
            ),
            StorageError::IdentityNotFound(alias) => cat2("identity not found: ", alias.as_str()),
            StorageError::IdentityAlreadyActive { alias, path } => cat4(
                "identity is already active: ",
                alias.as_str(),
                "; lock file exists at ",
                path.as_str(),
            ),
            StorageError::Io { path, source } => cat4(
                "io error at ",
                path.as_str(),
                ": ",
                source.as_str(),
            ),
            StorageError::TomlSerialize(reason) => cat2(
                "toml serialization failed: ",
                reason.as_str(),
            ),
            StorageError::TomlDeserialize(reason) => cat2(
                "toml deserialization failed: ",
                reason.as_str(),
            ),
            StorageError::JsonSerialize(reason) => cat2(
                "json serialization failed: ",
                reason.as_str(),
            ),
            StorageError::JsonDeserialize(reason) => cat2(
                "json deserialization failed: ",
                reason.as_str(),
            ),
            StorageError::Crypto(e) => cat2("crypto error: ", e.message().as_str()),
            StorageError::NetworkKeyEncoding(reason) => cat2(
                "network key encoding failed: ",
                reason.as_str(),
            ),
            StorageError::NetworkKeyDecoding(reason) => cat2(
                "network key decoding failed: ",
                reason.as_str(),
            ),
            StorageError::InvalidSigningKeyLength(n) => cat2(
                "signing key has invalid length: expected 32 bytes, got ",
                count_text(*n).as_str(),
            ),
            StorageError::FingerprintMismatch =>
                "stored fingerprint does not match decrypted signing key".to_owned(),
        }
    }
}

/// The public metadata of an identity, stored as `profile.toml`.
#[derive(Debug, Clone, PartialEq, Eq)]
pub struct IdentityProfile {
    pub alias: String,
    pub created_at_ms: u64,
    pub network: NetworkProfile,
    pub signing: SigningProfile,
}

/// The plain values held by a [`IdentityProfile`].
#[verifier::ext_equal]
pub struct IdentityProfileView {
    pub alias: Seq<char>,
    pub created_at_ms: u64,
    pub network: NetworkProfileView,
    pub signing: SigningProfileView,
}

impl View for IdentityProfile {
    type V = IdentityProfileView;

    open spec fn view(&self) -> IdentityProfileView {
        IdentityProfileView {
            alias: self.alias@,
            created_at_ms: self.created_at_ms,
            network: self.network@,
            signing: self.signing@,
        }
    }
}

/// The network half of a profile.
#[derive(Debug, Clone, PartialEq, Eq)]
pub struct NetworkProfile {
    pub peer_id: String,
}

/// The plain values held by a [`NetworkProfile`].
#[verifier::ext_equal]
pub struct NetworkProfileView {
    pub peer_id: Seq<char>,
}

impl View for NetworkProfile {
    type V = NetworkProfileView;

    open spec fn view(&self) -> NetworkProfileView {
        NetworkProfileView {
            peer_id: self.peer_id@,
        }
    }
}

/// The signing half of a profile.
#[derive(Debug, Clone, PartialEq, Eq)]
pub struct SigningProfile {
    pub fingerprint: String,
    pub public_key: String,
}

/// The plain values held by a [`SigningProfile`].
#[verifier::ext_equal]
pub struct SigningProfileView {
    pub fingerprint: Seq<char>,
    pub public_key: Seq<char>,
}

impl View for SigningProfile {
    type V = SigningProfileView;

    open spec fn view(&self) -> SigningProfileView {
        SigningProfileView {
            fingerprint: self.fingerprint@,
            public_key: self.public_key@,
        }
    }
}

/// A remote peer whose signing key the user pinned.
#[derive(Debug, Clone, PartialEq, Eq)]
pub struct TrustedPeerRecord {
    pub peer_id: String,
    pub alias: String,
    pub signing_public_key_b64: String,
    pub fingerprint: String,
    pub trusted_at_ms: u64,
    pub last_seen_at_ms: u64,
}

/// The plain values held by a [`TrustedPeerRecord`].
#[verifier::ext_equal]
pub struct TrustedPeerRecordView {
    pub peer_id: Seq<char>,
    pub alias: Seq<char>,
    pub signing_public_key_b64: Seq<char>,
    pub fingerprint: Seq<char>,
    pub trusted_at_ms: u64,
    pub last_seen_at_ms: u64,
}

impl View for TrustedPeerRecord {
    type V = TrustedPeerRecordView;

    open spec fn view(&self) -> TrustedPeerRecordView {
        TrustedPeerRecordView {
            peer_id: self.peer_id@,
            alias: self.alias@,
            signing_public_key_b64: self.signing_public_key_b64@,
            fingerprint: self.fingerprint@,
            trusted_at_ms: self.trusted_at_ms,
            last_seen_at_ms: self.last_seen_at_ms,
        }
    }
}

impl TrustedPeerRecord {
    /// Copy this value.
    pub fn duplicate(&self) -> (res: Self)
        ensures
            res@ == self@,
    {
        TrustedPeerRecord {
            peer_id: self.peer_id.clone(),
            alias: self.alias.clone(),
            signing_public_key_b64: self.signing_public_key_b64.clone(),
            fingerprint: self.fingerprint.clone(),
            trusted_at_ms: self.trusted_at_ms,
            last_seen_at_ms: self.last_seen_at_ms,
        }
    }

    /// Copy a list of values.
    pub fn duplicate_all(items: &Vec<TrustedPeerRecord>) -> (res: Vec<TrustedPeerRecord>)
        ensures
            res@.map_values(|x: TrustedPeerRecord| x@) == items@.map_values(|x: TrustedPeerRecord| x@),
    {
        let mut res: Vec<TrustedPeerRecord> = Vec::new();
        let mut i: usize = 0;
        while i < items.len()
            invariant
                i <= items@.len(),
                res@.len() == i,
                forall|j: int| 0 <= j < i ==> (#[trigger] res@[j])@ == items@[j]@,
            decreases items.len() - i,
        {
            res.push(items[i].duplicate());
            i = i + 1;
        }
        assert(res@.map_values(|x: TrustedPeerRecord| x@) =~= items@.map_values(|x: TrustedPeerRecord| x@));
        res
    }
}

/// The pinned peers of an identity, stored as `trusted_peers.toml`.
#[derive(Debug, Clone, PartialEq, Eq)]
pub struct TrustedPeersFile {
    pub peers: Vec<TrustedPeerRecord>,
}

/// The plain values held by a [`TrustedPeersFile`].
#[verifier::ext_equal]
pub struct TrustedPeersFileView {
    pub peers: Seq<TrustedPeerRecordView>,
}

impl View for TrustedPeersFile {
    type V = TrustedPeersFileView;

    open spec fn view(&self) -> TrustedPeersFileView {
        TrustedPeersFileView {
            peers: self.peers@.map_values(|x: TrustedPeerRecord| x@),
        }
    }
}

impl TrustedPeersFile {
    /// Copy this value.
    pub fn duplicate(&self) -> (res: Self)
        ensures
            res@ == self@,
    {
        TrustedPeersFile {
            peers: TrustedPeerRecord::duplicate_all(&self.peers),
        }
    }
}

/// Which way a message went.
#[derive(Debug, Clone, Copy, PartialEq, Eq, Structural)]
pub enum RoomHistoryDirection {
    Inbound,
    Outbound,
}

/// A message in the history of a room, before encryption.
#[derive(Debug, Clone, PartialEq, Eq)]
pub struct RoomHistoryEntry {
    pub version: u32,
    pub room_id: String,
    pub message_id: String,
    pub direction: RoomHistoryDirection,
    pub peer_id: String,
    pub alias: String,
    pub timestamp_ms: u64,
    pub body: String,
}

/// The plain values held by a [`RoomHistoryEntry`].
#[verifier::ext_equal]
pub struct RoomHistoryEntryView {
    pub version: u32,
    pub room_id: Seq<char>,
    pub message_id: Seq<char>,
    pub direction: RoomHistoryDirection,
    pub peer_id: Seq<char>,
    pub alias: Seq<char>,
    pub timestamp_ms: u64,
    pub body: Seq<char>,
}

impl View for RoomHistoryEntry {
    type V = RoomHistoryEntryView;

    open spec fn view(&self) -> RoomHistoryEntryView {
        RoomHistoryEntryView {
            version: self.version,
            room_id: self.room_id@,
            message_id: self.message_id@,
            direction: self.direction,
            peer_id: self.peer_id@,
            alias: self.alias@,
            timestamp_ms: self.timestamp_ms,
            body: self.body@,
        }
    }
}

impl RoomHistoryEntry {
    /// Copy this value.
    pub fn duplicate(&self) -> (res: Self)
        ensures
            res@ == self@,
    {
        RoomHistoryEntry {
            version: self.version,
            room_id: self.room_id.clone(),
            message_id: self.message_id.clone(),
            direction: self.direction,
            peer_id: self.peer_id.clone(),
            alias: self.alias.clone(),
            timestamp_ms: self.timestamp_ms,
            body: self.body.clone(),
        }
    }

    /// Copy a list of values.
    pub fn duplicate_all(items: &Vec<RoomHistoryEntry>) -> (res: Vec<RoomHistoryEntry>)
        ensures
            res@.map_values(|x: RoomHistoryEntry| x@) == items@.map_values(|x: RoomHistoryEntry| x@),
    {
        let mut res: Vec<RoomHistoryEntry> = Vec::new();
        let mut i: usize = 0;
        while i < items.len()
            invariant
                i <= items@.len(),
                res@.len() == i,
                forall|j: int| 0 <= j < i ==> (#[trigger] res@[j])@ == items@[j]@,
            decreases items.len() - i,
        {
            res.push(items[i].duplicate());
            i = i + 1;
        }
        assert(res@.map_values(|x: RoomHistoryEntry| x@) =~= items@.map_values(|x: RoomHistoryEntry| x@));
        res
    }
}

/// A message in the history of a room as it is stored.
#[derive(Debug, Clone, PartialEq, Eq)]
pub struct EncryptedRoomHistoryEntry {
    pub version: u32,
    pub nonce_b64: String,
    pub ciphertext_b64: String,
}

/// The plain values held by a [`EncryptedRoomHistoryEntry`].
#[verifier::ext_equal]
pub struct EncryptedRoomHistoryEntryView {
    pub version: u32,
    pub nonce_b64: Seq<char>,
    pub ciphertext_b64: Seq<char>,
}

impl View for EncryptedRoomHistoryEntry {
    type V = EncryptedRoomHistoryEntryView;

    open spec fn view(&self) -> EncryptedRoomHistoryEntryView {
        EncryptedRoomHistoryEntryView {
            version: self.version,
            nonce_b64: self.nonce_b64@,
            ciphertext_b64: self.ciphertext_b64@,
        }
    }
}

/// A place below the root of a store, given by its components.
#[derive(Debug, Clone, PartialEq, Eq)]
pub struct StorePath {
    pub parts: Vec<String>,
}

/// The components of a [`StorePath`].
pub type StorePathView = Seq<Seq<char>>;

impl View for StorePath {
    type V = StorePathView;

    open spec fn view(&self) -> StorePathView {
        text::texts(self.parts@)
    }
}

impl StorePath {
    /// The root itself.
    fn root() -> (res: StorePath)
        ensures
            res@ == Seq::<Seq<char>>::empty(),
    {
        let res = StorePath { parts: Vec::new() };
        assert(res@ =~= Seq::<Seq<char>>::empty());
        res
    }

    /// A place directly below this one.
    fn join(self, part: &str) -> (res: StorePath)
        ensures
            res@ == self@.push(part@),
    {
        let mut parts = self.parts;
        parts.push(part.to_owned());
        let res = StorePath { parts };
        assert(res@ =~= self@.push(part@));
        res
    }

    /// Copy this place.
    pub fn duplicate(&self) -> (res: StorePath)
        ensures
            res@ == self@,
    {
        StorePath { parts: copy_strings(&self.parts) }
    }
}

/// What was made when an identity was created.
#[derive(Debug, Clone, PartialEq, Eq)]
pub struct CreatedIdentity {
    pub alias: String,
    pub peer_id: String,
    pub fingerprint: String,
    pub identity_dir: StorePath,
}

/// The plain values held by a [`CreatedIdentity`].
#[verifier::ext_equal]
pub struct CreatedIdentityView {
    pub alias: Seq<char>,
    pub peer_id: Seq<char>,
    pub fingerprint: Seq<char>,
    pub identity_dir: StorePathView,
}

impl View for CreatedIdentity {
    type V = CreatedIdentityView;

    open spec fn view(&self) -> CreatedIdentityView {
        CreatedIdentityView {
            alias: self.alias@,
            peer_id: self.peer_id@,
            fingerprint: self.fingerprint@,
            identity_dir: self.identity_dir@,
        }
    }
}

/// The files of an identity.
#[derive(Debug, Clone, PartialEq, Eq)]
pub struct IdentityFiles {
    pub profile: IdentityProfile,
    pub network_key: EncryptedPrivateKeyFile,
    pub signing_key: EncryptedPrivateKeyFile,
}

/// The plain values held by a [`IdentityFiles`].
#[verifier::ext_equal]
pub struct IdentityFilesView {
    pub profile: IdentityProfileView,
    pub network_key: EncryptedPrivateKeyFileView,
    pub signing_key: EncryptedPrivateKeyFileView,
}

impl View for IdentityFiles {
    type V = IdentityFilesView;

    open spec fn view(&self) -> IdentityFilesView {
        IdentityFilesView {
            profile: self.profile@,
            network_key: self.network_key@,
            signing_key: self.signing_key@,
        }
    }
}

/// The key material of an identity after login.
pub struct UnlockedIdentity {
    pub alias: String,
    pub peer_id: String,
    pub fingerprint: String,
    pub network_key: SecretBytes,
    pub signing_key: SigningKey,
}

/// The plain values held by a [`UnlockedIdentity`].
#[verifier::ext_equal]
pub struct UnlockedIdentityView {
    pub alias: Seq<char>,
    pub peer_id: Seq<char>,
    pub fingerprint: Seq<char>,
    pub network_key: Seq<u8>,
    pub signing_key: SigningKeyView,
}

impl View for UnlockedIdentity {
    type V = UnlockedIdentityView;

    open spec fn view(&self) -> UnlockedIdentityView {
        UnlockedIdentityView {
            alias: self.alias@,
            peer_id: self.peer_id@,
            fingerprint: self.fingerprint@,
            network_key: self.network_key@,
            signing_key: self.signing_key@,
        }
    }
}

/// The directory of an identity.
pub open spec fn identity_place(alias: Seq<char>) -> StorePathView {
    seq!["identities"@, alias]
}

/// The history directory of an identity.
pub open spec fn history_place(alias: Seq<char>) -> StorePathView {
    seq!["identities"@, alias, "history"@]
}

/// The root of the local storage.
pub struct IdentityStore {
    root: std::path::PathBuf,
}

/// What a storage operation gives, or the error.
pub type Stored<T> = Result<T, StorageErrorView>;

/// Refuse aliases that are not valid.
pub fn validate_alias(alias: &str) -> (res: Result<(), StorageError>)
    ensures
        match res {
            Ok(_) => ids::alias_valid(alias@),
            Err(e) => !ids::alias_valid(alias@) && e@ == StorageErrorView::InvalidAlias(alias@),
        },
{
    if alias_is_valid(alias) {
        Ok(())
    } else {
        Err(StorageError::InvalidAlias(alias.to_owned()))
    }
}

/// Refuse room ids that are not valid.
pub fn validate_history_room_id(room_id: &str) -> (res: Result<(), StorageError>)
    ensures
        match res {
            Ok(_) => ids::room_id_valid(room_id@),
            Err(e) => !ids::room_id_valid(room_id@) && e@ == StorageErrorView::InvalidRoomId(room_id@),
        },
{
    if room_id_is_valid(room_id) {
        Ok(())
    } else {
        Err(StorageError::InvalidRoomId(room_id.to_owned()))
    }
}

/// Why an identity cannot be used, if it cannot: its alias is refused, or it does not exist.
pub open spec fn identity_error(alias: Seq<char>, found: bool) -> Option<StorageErrorView> {
    if !ids::alias_valid(alias) {
        Some(StorageErrorView::InvalidAlias(alias))
    } else if !found {
        Some(StorageErrorView::IdentityNotFound(alias))
    } else {
        None
    }
}

/// Require that an identity can be used.
pub fn require_identity(alias: &str, found: bool) -> (res: Result<(), StorageError>)
    ensures
        match res {
            Ok(_) => identity_error(alias@, found) is None,
            Err(e) => identity_error(alias@, found) == Some(e@),
        },
{
    match validate_alias(alias) {
        Ok(_) => {},
        Err(e) => return Err(e),
    }
    if !found {
        return Err(StorageError::IdentityNotFound(alias.to_owned()));
    }
    Ok(())
}

/// Why an identity cannot be created, if it cannot.
pub open spec fn creation_error(alias: Seq<char>, found: bool) -> Option<StorageErrorView> {
    if !ids::alias_valid(alias) {
        Some(StorageErrorView::InvalidAlias(alias))
    } else if found {
        Some(StorageErrorView::IdentityAlreadyExists(alias))
    } else {
        None
    }
}

/// The pinned peers without those of a peer id.
pub open spec fn peers_without(peers: Seq<TrustedPeerRecordView>, peer_id: Seq<char>) -> Seq<
    TrustedPeerRecordView,
>
    decreases peers.len(),
{
    if peers.len() == 0 {
        Seq::empty()
    } else {
        let rest = peers_without(peers.drop_last(), peer_id);
        if peers.last().peer_id == peer_id {
            rest
        } else {
            rest.push(peers.last())
        }
    }
}

/// Where a record is put behind all records of peer ids that do not come after its own.
pub open spec fn record_place(peers: Seq<TrustedPeerRecordView>, peer_id: Seq<char>) -> nat
    decreases peers.len(),
{
    if peers.len() > 0 && text::text_before(peer_id, peers.last().peer_id) {
        record_place(peers.drop_last(), peer_id)
    } else {
        peers.len()
    }
}

/// Records in the order of their peer ids; records of one peer id keep their order.
pub open spec fn peers_sorted(peers: Seq<TrustedPeerRecordView>) -> Seq<TrustedPeerRecordView>
    decreases peers.len(),
{
    if peers.len() == 0 {
        Seq::empty()
    } else {
        let rest = peers_sorted(peers.drop_last());
        rest.insert(record_place(rest, peers.last().peer_id) as int, peers.last())
    }
}

/// The pinned peers after a record is pinned.
pub open spec fn peers_with(
    peers: Seq<TrustedPeerRecordView>,
    record: TrustedPeerRecordView,
) -> Seq<TrustedPeerRecordView> {
    peers_sorted(peers_without(peers, record.peer_id).push(record))
}

/// The first record of a peer id.
pub open spec fn record_of(peers: Seq<TrustedPeerRecordView>, peer_id: Seq<char>) -> Option<
    TrustedPeerRecordView,
>
    decreases peers.len(),
{
    if peers.len() == 0 {
        None
    } else if peers[0].peer_id == peer_id {
        Some(peers[0])
    } else {
        record_of(peers.drop_first(), peer_id)
    }
}

/// The views of a list of records.
pub open spec fn record_views(peers: Seq<TrustedPeerRecord>) -> Seq<TrustedPeerRecordView> {
    peers.map_values(|x: TrustedPeerRecord| x@)
}

/// Find the first record of a peer id.
pub fn find_record<'a>(peers: &'a Vec<TrustedPeerRecord>, peer_id: &str) -> (res: Option<
    &'a TrustedPeerRecord,
>)
    ensures
        match res {
            Some(record) => record_of(record_views(peers@), peer_id@) == Some(record@),
            None => record_of(record_views(peers@), peer_id@) is None,
        },
{
    let ghost all = record_views(peers@);
    let n: usize = peers.len();
    let mut i: usize = 0;
    assert(all.subrange(0, n as int) =~= all);
    while i < n
        invariant
            i <= n == peers@.len(),
            all == record_views(peers@),
            record_of(all.subrange(i as int, n as int), peer_id@) == record_of(all, peer_id@),
        decreases n - i,
    {
        let ghost rest = all.subrange(i as int, n as int);
        assert(rest[0] == peers@[i as int]@);
        if same_text(peers[i].peer_id.as_str(), peer_id) {
            return Some(&peers[i]);
        }
        assert(rest.drop_first() =~= all.subrange(i + 1, n as int));
        i = i + 1;
    }
    None
}

/// Remove the records of a peer id.
fn retain_others(peers: Vec<TrustedPeerRecord>, peer_id: &str) -> (res: Vec<TrustedPeerRecord>)
    ensures
        record_views(res@) == peers_without(record_views(peers@), peer_id@),
{
    let ghost all = record_views(peers@);
    let mut res: Vec<TrustedPeerRecord> = Vec::new();
    let n: usize = peers.len();
    let mut i: usize = 0;
    assert(record_views(res@) =~= peers_without(all.take(0), peer_id@));
    while i < n
        invariant
            i <= n == peers@.len(),
            all == record_views(peers@),
            record_views(res@) == peers_without(all.take(i as int), peer_id@),
        decreases n - i,
    {
        let ghost before = res@;
        assert(all.take(i + 1).drop_last() =~= all.take(i as int));
        assert(all.take(i + 1).last() == peers@[i as int]@);
        if !same_text(peers[i].peer_id.as_str(), peer_id) {
            let record = peers[i].duplicate();
            res.push(record);
            assert(record_views(res@) =~= record_views(before).push(record@));
        }
        i = i + 1;
    }
    assert(all.take(i as int) =~= all);
    res
}

/// Sort records by peer id.
fn sort_records(peers: Vec<TrustedPeerRecord>) -> (res: Vec<TrustedPeerRecord>)
    ensures
        record_views(res@) == peers_sorted(record_views(peers@)),
{
    let ghost all = record_views(peers@);
    let mut res: Vec<TrustedPeerRecord> = Vec::new();
    let n: usize = peers.len();
    let mut i: usize = 0;
    assert(record_views(res@) =~= peers_sorted(all.take(0)));
    while i < n
        invariant
            i <= n == peers@.len(),
            all == record_views(peers@),
            record_views(res@) == peers_sorted(all.take(i as int)),
        decreases n - i,
    {
        let ghost rest = record_views(res@);
        let record = peers[i].duplicate();
        let mut at: usize = res.len();
        assert(rest.take(at as int) =~= rest);
        while at > 0 && matches!(
            rank_texts(record.peer_id.as_str(), res[at - 1].peer_id.as_str()),
            Rank::Before
        )
            invariant
                at <= res@.len(),
                rest == record_views(res@),
                record_place(rest.take(at as int), record@.peer_id) == record_place(
                    rest,
                    record@.peer_id,
                ),
            decreases at,
        {
            assert(rest.take(at as int).drop_last() =~= rest.take(at - 1));
            at = at - 1;
        }
        assert(at == record_place(rest, record@.peer_id)) by {
            if at > 0 {
                assert(rest.take(at as int).last() == res@[at - 1]@);
            }
        }
        let ghost before = res@;
        res.insert(at, record);
        proof {
            assert(record_views(res@) =~= record_views(before).insert(at as int, record@));
            assert(all.take(i + 1).drop_last() =~= all.take(i as int));
            assert(all.take(i + 1).last() == peers@[i as int]@);
        }
        i = i + 1;
    }
    assert(all.take(i as int) =~= all);
    res
}

/// What loading the pinned peers gives; `file` is absent where there is no file.
pub open spec fn trusted_outcome(
    alias: Seq<char>,
    found: bool,
    file: Option<TrustedPeersFileView>,
) -> Stored<Seq<TrustedPeerRecordView>> {
    match identity_error(alias, found) {
        Some(e) => Err(e),
        None => match file {
            Some(file) => Ok(file.peers),
            None => Ok(Seq::empty()),
        },
    }
}

/// The view of an optional file of pinned peers.
pub open spec fn file_view(file: Option<TrustedPeersFile>) -> Option<TrustedPeersFileView> {
    match file {
        Some(file) => Some(file@),
        None => None,
    }
}

impl IdentityStore {
    /// The root directory.
    pub closed spec fn root_path(&self) -> std::path::PathBuf {
        self.root
    }

    /// A store at a directory.
    pub fn at(root: std::path::PathBuf) -> (res: IdentityStore)
        ensures
            res.root_path() == root,
    {
        IdentityStore { root }
    }

    /// The root directory.
    pub fn root(&self) -> (res: &std::path::PathBuf)
        ensures
            *res == self.root_path(),
    {
        &self.root
    }

    /// The directory of an identity.
    pub fn identity_dir(&self, alias: &str) -> (res: StorePath)
        ensures
            res@ == identity_place(alias@),
    {
        let res = StorePath::root().join("identities").join(alias);
        assert(res@ =~= identity_place(alias@));
        res
    }

    /// The file of the pinned peers of an identity.
    pub fn trusted_peers_path(&self, alias: &str) -> (res: StorePath)
        ensures
            res@ == identity_place(alias@).push("trusted_peers.toml"@),
    {
        self.identity_dir(alias).join("trusted_peers.toml")
    }

    /// The directory of the room histories of an identity.
    pub fn history_dir(&self, alias: &str) -> (res: StorePath)
        ensures
            res@ == history_place(alias@),
    {
        let res = self.identity_dir(alias).join("history");
        assert(res@ =~= history_place(alias@));
        res
    }

    /// The history file of a room.
    pub fn room_history_path(&self, alias: &str, room_id: &str) -> (res: StorePath)
        ensures
            res@ == history_place(alias@).push(room_id@ + ".jsonl"@),
    {
        let name = cat2(room_id, ".jsonl");
        self.history_dir(alias).join(name.as_str())
    }

    /// The lock file of an identity.
    pub fn identity_lock_path(&self, alias: &str) -> (res: StorePath)
        ensures
            res@ == identity_place(alias@).push("session.lock"@),
    {
        self.identity_dir(alias).join("session.lock")
    }

    /// Load the pinned peers of an identity.
    ///
    /// `found` tells whether the directory of the identity exists; `file` is absent where
    /// nobody was pinned yet.
    pub fn load_trusted_peers(
        &self,
        alias: &str,
        found: bool,
        file: Option<TrustedPeersFile>,
    ) -> (res: Result<Vec<TrustedPeerRecord>, StorageError>)
        ensures
            match res {
                Ok(peers) => trusted_outcome(alias@, found, file_view(file)) == Stored::Ok(
                    record_views(peers@),
                ),
                Err(e) => trusted_outcome(alias@, found, file_view(file)) == Stored::<
                    Seq<TrustedPeerRecordView>,
                >::Err(e@),
            },
    {
        match require_identity(alias, found) {
            Ok(_) => {},
            Err(e) => return Err(e),
        }
        match file {
            Some(file) => Ok(file.peers),
            None => {
                let none: Vec<TrustedPeerRecord> = Vec::new();
                assert(record_views(none@) =~= Seq::empty());
                Ok(none)
            },
        }
    }

    /// Pin a peer: the file to be written.
    ///
    /// An earlier pin of the same peer is replaced.
    pub fn trust_peer(
        &self,
        alias: &str,
        record: TrustedPeerRecord,
        found: bool,
        file: Option<TrustedPeersFile>,
    ) -> (res: Result<TrustedPeersFile, StorageError>)
        ensures
            match res {
                Ok(written) => trusted_outcome(alias@, found, file_view(file)) is Ok && written@.peers
                    == peers_with(
                    trusted_outcome(alias@, found, file_view(file))->Ok_0,
                    record@,
                ),
                Err(e) => trusted_outcome(alias@, found, file_view(file)) == Stored::<
                    Seq<TrustedPeerRecordView>,
                >::Err(e@),
            },
    {
        let peers = match self.load_trusted_peers(alias, found, file) {
            Ok(peers) => peers,
            Err(e) => return Err(e),
        };
        let mut others = retain_others(peers, record.peer_id.as_str());
        let ghost before = others@;
        others.push(record);
        assert(record_views(others@) =~= record_views(before).push(record@));
        Ok(TrustedPeersFile { peers: sort_records(others) })
    }

    /// Unpin a peer: whether it was pinned, and the file to be written.
    pub fn remove_trusted_peer(
        &self,
        alias: &str,
        peer_id: &str,
        found: bool,
        file: Option<TrustedPeersFile>,
    ) -> (res: Result<(bool, TrustedPeersFile), StorageError>)
        ensures
            match res {
                Ok((removed, written)) => trusted_outcome(alias@, found, file_view(file)) is Ok && {
                    let peers = trusted_outcome(alias@, found, file_view(file))->Ok_0;
                    &&& written@.peers == peers_without(peers, peer_id@)
                    &&& removed == (peers_without(peers, peer_id@).len() != peers.len())
                },
                Err(e) => trusted_outcome(alias@, found, file_view(file)) == Stored::<
                    Seq<TrustedPeerRecordView>,
                >::Err(e@),
            },
    {
        let peers = match self.load_trusted_peers(alias, found, file) {
            Ok(peers) => peers,
            Err(e) => return Err(e),
        };
        let before: usize = peers.len();
        let others = retain_others(peers, peer_id);
        assert(record_views(others@).len() == others@.len());
        let removed = others.len() != before;
        Ok((removed, TrustedPeersFile { peers: others }))
    }
}

/// The members of a list of records stay the same when a record of a peer id is inserted, and
/// the first record of another peer id stays the first.
proof fn lemma_record_of_insert(
    peers: Seq<TrustedPeerRecordView>,
    at: int,
    record: TrustedPeerRecordView,
    peer_id: Seq<char>,
)
    requires
        0 <= at <= peers.len(),
    ensures
        record.peer_id != peer_id ==> record_of(peers.insert(at, record), peer_id) == record_of(
            peers,
            peer_id,
        ),
        record.peer_id == peer_id && record_of(peers, peer_id) is None ==> record_of(
            peers.insert(at, record),
            peer_id,
        ) == Some(record),
        record.peer_id == peer_id && record_of(peers.take(at), peer_id) is Some ==> record_of(
            peers.insert(at, record),
            peer_id,
        ) == record_of(peers, peer_id),
    decreases peers.len(),
{
    let longer = peers.insert(at, record);
    if at == 0 {
        assert(longer.drop_first() =~= peers);
        assert(peers.take(0).len() == 0);
    } else {
        lemma_record_of_insert(peers.drop_first(), at - 1, record, peer_id);
        assert(longer.drop_first() =~= peers.drop_first().insert(at - 1, record));
        assert(longer[0] == peers[0]);
        assert(peers.take(at).drop_first() =~= peers.drop_first().take(at - 1));
        assert(peers.take(at)[0] == peers[0]);
    }
}

/// Removing the records of a peer id leaves none of it and keeps the others.
proof fn lemma_record_of_without(
    peers: Seq<TrustedPeerRecordView>,
    removed: Seq<char>,
    peer_id: Seq<char>,
)
    ensures
        record_of(peers_without(peers, removed), removed) is None,
        peer_id != removed ==> record_of(peers_without(peers, removed), peer_id) == record_of(
            peers,
            peer_id,
        ),
    decreases peers.len(),
{
    if peers.len() > 0 {
        let head = peers.drop_last();
        lemma_record_of_without(head, removed, peer_id);
        let rest = peers_without(head, removed);
        assert(peers =~= head.push(peers.last()));
        lemma_record_of_push(head, peers.last(), peer_id);
        lemma_record_of_push(rest, peers.last(), peer_id);
        lemma_record_of_push(rest, peers.last(), removed);
    }
}

/// A record at the end is found only if none is found in front of it.
proof fn lemma_record_of_push(
    peers: Seq<TrustedPeerRecordView>,
    record: TrustedPeerRecordView,
    peer_id: Seq<char>,
)
    ensures
        record_of(peers.push(record), peer_id) == match record_of(peers, peer_id) {
            Some(found) => Some(found),
            None => if record.peer_id == peer_id {
                Some(record)
            } else {
                None
            },
        },
    decreases peers.len(),
{
    let longer = peers.push(record);
    if peers.len() == 0 {
        assert(longer.drop_first() =~= peers);
        assert(record_of(longer.drop_first(), peer_id) is None);
    } else {
        lemma_record_of_push(peers.drop_first(), record, peer_id);
        assert(longer.drop_first() =~= peers.drop_first().push(record));
    }
}

/// Records are in the order of their peer ids.
pub open spec fn in_order(peers: Seq<TrustedPeerRecordView>) -> bool {
    forall|i: int, j: int|
        0 <= i < j < peers.len() ==> !text::text_before(
            (#[trigger] peers[j]).peer_id,
            (#[trigger] peers[i]).peer_id,
        )
}

proof fn lemma_record_place(peers: Seq<TrustedPeerRecordView>, peer_id: Seq<char>)
    ensures
        record_place(peers, peer_id) <= peers.len(),
        forall|i: int|
            record_place(peers, peer_id) <= i < peers.len() ==> text::text_before(
                peer_id,
                (#[trigger] peers[i]).peer_id,
            ),
        record_place(peers, peer_id) > 0 ==> !text::text_before(
            peer_id,
            peers[record_place(peers, peer_id) - 1].peer_id,
        ),
    decreases peers.len(),
{
    if peers.len() > 0 && text::text_before(peer_id, peers.last().peer_id) {
        lemma_record_place(peers.drop_last(), peer_id);
        assert forall|i: int| record_place(peers, peer_id) <= i < peers.len() implies text::text_before(
            peer_id,
            (#[trigger] peers[i]).peer_id,
        ) by {
            if i < peers.len() - 1 {
                assert(peers.drop_last()[i] == peers[i]);
            }
        }
    }
}

/// Not coming after is transitive.
proof fn lemma_not_after(a: Seq<char>, b: Seq<char>, c: Seq<char>)
    requires
        !text::text_before(b, a),
        !text::text_before(c, b),
    ensures
        !text::text_before(c, a),
{
    text::lemma_text_before_total(a, b);
    text::lemma_text_before_total(b, c);
    if text::text_before(c, a) {
        if a != b {
            text::lemma_text_before_transitive(c, a, b);
        }
    }
}

/// Sorting orders the records and keeps for each peer id which record is found first.
proof fn lemma_peers_sorted(peers: Seq<TrustedPeerRecordView>, peer_id: Seq<char>)
    ensures
        in_order(peers_sorted(peers)),
        record_of(peers_sorted(peers), peer_id) == record_of(peers, peer_id),
        peers_sorted(peers).len() == peers.len(),
        peers_sorted(peers).to_multiset() == peers.to_multiset(),
    decreases peers.len(),
{
    broadcast use vstd::seq_lib::group_to_multiset_ensures;

    if peers.len() > 0 {
        let head = peers.drop_last();
        let last = peers.last();
        lemma_peers_sorted(head, peer_id);
        let rest = peers_sorted(head);
        let at = record_place(rest, last.peer_id) as int;
        lemma_record_place(rest, last.peer_id);
        let longer = rest.insert(at, last);
        assert(peers =~= head.push(last));
        lemma_record_of_push(head, last, peer_id);
        lemma_record_of_insert(rest, at, last, peer_id);
        assert forall|i: int, j: int| 0 <= i < j < longer.len() implies !text::text_before(
            (#[trigger] longer[j]).peer_id,
            (#[trigger] longer[i]).peer_id,
        ) by {
            if j < at {
                assert(longer[i] == rest[i] && longer[j] == rest[j]);
            } else if j == at {
                assert(longer[i] == rest[i]);
                if i < at - 1 {
                    lemma_not_after(rest[i].peer_id, rest[at - 1].peer_id, last.peer_id);
                }
            } else if i < at {
                assert(longer[i] == rest[i] && longer[j] == rest[j - 1]);
            } else if i == at {
                assert(longer[j] == rest[j - 1]);
                if text::text_before(rest[j - 1].peer_id, last.peer_id) {
                    text::lemma_text_before_transitive(
                        last.peer_id,
                        rest[j - 1].peer_id,
                        last.peer_id,
                    );
                    text::lemma_text_before_irreflexive(last.peer_id);
                }
            } else {
                assert(longer[i] == rest[i - 1] && longer[j] == rest[j - 1]);
            }
        }
        if last.peer_id == peer_id && record_of(rest, peer_id) is Some {
            lemma_found_in_front(rest, at, peer_id);
        }
    }
}

/// A record that is found stands in front of the place for another of its peer id.
proof fn lemma_found_in_front(peers: Seq<TrustedPeerRecordView>, at: int, peer_id: Seq<char>)
    requires
        0 <= at <= peers.len(),
        forall|i: int| at <= i < peers.len() ==> text::text_before(peer_id, (#[trigger] peers[i]).peer_id),
        record_of(peers, peer_id) is Some,
    ensures
        record_of(peers.take(at), peer_id) is Some,
    decreases peers.len(),
{
    text::lemma_text_before_irreflexive(peer_id);
    if at == 0 {
        lemma_all_differ(peers, peer_id);
    } else if peers[0].peer_id == peer_id {
        assert(peers.take(at)[0] == peers[0]);
    } else {
        assert forall|i: int| at - 1 <= i < peers.drop_first().len() implies text::text_before(
            peer_id,
            (#[trigger] peers.drop_first()[i]).peer_id,
        ) by {
            assert(peers.drop_first()[i] == peers[i + 1]);
        }
        lemma_found_in_front(peers.drop_first(), at - 1, peer_id);
        assert(peers.take(at).drop_first() =~= peers.drop_first().take(at - 1));
        assert(peers.take(at)[0] == peers[0]);
    }
}

proof fn lemma_all_differ(peers: Seq<TrustedPeerRecordView>, peer_id: Seq<char>)
    requires
        forall|i: int| 0 <= i < peers.len() ==> (#[trigger] peers[i]).peer_id != peer_id,
    ensures
        record_of(peers, peer_id) is None,
    decreases peers.len(),
{
    if peers.len() > 0 {
        assert(peers[0].peer_id != peer_id);
        lemma_all_differ(peers.drop_first(), peer_id);
    }
}

/// After a peer is pinned its record is the one that is found, the records of all other peers
/// are found as before, and the list is in the order of peer ids.
pub proof fn law_pin_is_found(
    peers: Seq<TrustedPeerRecordView>,
    record: TrustedPeerRecordView,
    other: Seq<char>,
)
    ensures
        record_of(peers_with(peers, record), record.peer_id) == Some(record),
        other != record.peer_id ==> record_of(peers_with(peers, record), other) == record_of(
            peers,
            other,
        ),
        in_order(peers_with(peers, record)),
{
    let others = peers_without(peers, record.peer_id);
    lemma_record_of_without(peers, record.peer_id, other);
    lemma_record_of_push(others, record, record.peer_id);
    lemma_record_of_push(others, record, other);
    lemma_peers_sorted(others.push(record), record.peer_id);
    lemma_peers_sorted(others.push(record), other);
}

/// After a peer is unpinned no record of it is found, and the records of all other peers are
/// found as before. The list gets shorter exactly if a record of the peer was found.
pub proof fn law_unpin_forgets(
    peers: Seq<TrustedPeerRecordView>,
    removed: Seq<char>,
    other: Seq<char>,
)
    ensures
        record_of(peers_without(peers, removed), removed) is None,
        other != removed ==> record_of(peers_without(peers, removed), other) == record_of(
            peers,
            other,
        ),
        peers_without(peers, removed).len() != peers.len() <==> record_of(peers, removed) is Some,
{
    lemma_record_of_without(peers, removed, other);
    lemma_without_len(peers, removed);
}

proof fn lemma_without_len(peers: Seq<TrustedPeerRecordView>, removed: Seq<char>)
    ensures
        peers_without(peers, removed).len() <= peers.len(),
        peers_without(peers, removed).len() != peers.len() <==> record_of(peers, removed) is Some,
    decreases peers.len(),
{
    if peers.len() > 0 {
        lemma_without_len(peers.drop_last(), removed);
        assert(peers =~= peers.drop_last().push(peers.last()));
        lemma_record_of_push(peers.drop_last(), peers.last(), removed);
    }
}

/// What unlocking an identity gives; the files are absent where the identity does not exist.
pub open spec fn unlock_outcome(
    alias: Seq<char>,
    files: Option<IdentityFilesView>,
    password: Seq<char>,
) -> Stored<UnlockedIdentityView> {
    match identity_error(alias, files is Some) {
        Some(e) => Err(e),
        None => {
            let profile = files->0.profile;
            match crypto::opened_private_key(files->0.network_key, password) {
                Err(e) => Err(StorageErrorView::Crypto(e)),
                Ok(network_key) => match crypto::opened_private_key(files->0.signing_key, password) {
                    Err(e) => Err(StorageErrorView::Crypto(e)),
                    Ok(seed) => match primitives::network_peer_id(network_key) {
                        Err(reason) => Err(StorageErrorView::NetworkKeyDecoding(reason)),
                        Ok(peer_id) => if peer_id != profile.network.peer_id {
                            Err(
                                StorageErrorView::NetworkKeyDecoding(
                                    "decrypted network key does not match profile peer_id"@,
                                ),
                            )
                        } else if seed.len() != 32 {
                            Err(StorageErrorView::InvalidSigningKeyLength(seed.len() as usize))
                        } else if crypto::fingerprint(primitives::ed25519_public(seed)) != profile.signing.fingerprint {
                            Err(StorageErrorView::FingerprintMismatch)
                        } else {
                            Ok(
                                UnlockedIdentityView {
                                    alias: profile.alias,
                                    peer_id,
                                    fingerprint: profile.signing.fingerprint,
                                    network_key,
                                    signing_key: seed,
                                },
                            )
                        },
                    },
                },
            }
        },
    }
}

/// The view of optional identity files.
pub open spec fn files_view(files: Option<IdentityFiles>) -> Option<IdentityFilesView> {
    match files {
        Some(files) => Some(files@),
        None => None,
    }
}

/// The profile of a new identity.
pub open spec fn new_profile(
    alias: Seq<char>,
    now_ms: u64,
    peer_id: Seq<char>,
    seed: Seq<u8>,
) -> IdentityProfileView {
    IdentityProfileView {
        alias,
        created_at_ms: now_ms,
        network: NetworkProfileView { peer_id },
        signing: SigningProfileView {
            fingerprint: crypto::fingerprint(primitives::ed25519_public(seed)),
            public_key: primitives::base64_text(primitives::ed25519_public(seed)),
        },
    }
}

/// Why the files of a new identity cannot be made, if they cannot.
pub open spec fn assembly_error(
    password: Seq<char>,
    network_key: Seq<u8>,
    seed: Seq<u8>,
) -> Option<StorageErrorView> {
    match primitives::network_peer_id(network_key) {
        Err(reason) => Some(StorageErrorView::NetworkKeyDecoding(reason)),
        Ok(_) => match crypto::sealing_error(network_key, password) {
            Some(e) => Some(StorageErrorView::Crypto(e)),
            None => match crypto::sealing_error(seed, password) {
                Some(e) => Some(StorageErrorView::Crypto(e)),
                None => None,
            },
        },
    }
}

/// Why an identity cannot be created under a password, if it cannot.
pub open spec fn creation_refused(alias: Seq<char>, found: bool, password: Seq<char>) -> Option<
    StorageErrorView,
> {
    match creation_error(alias, found) {
        Some(e) => Some(e),
        None => if encode_utf8(password).len() > 0xFFFF_FFFF {
            Some(StorageErrorView::Crypto(CryptoErrorView::Argon2("password is too long"@)))
        } else {
            None
        },
    }
}

/// Make the files of an identity from its key material.
///
/// Unlocking the files with the same password gives the key material back.
pub fn assemble_identity(
    alias: &str,
    password: &str,
    now_ms: u64,
    network_key: &[u8],
    seed: &SigningKey,
) -> (res: Result<IdentityFiles, StorageError>)
    ensures
        match res {
            Ok(files) => assembly_error(password@, network_key@, seed@) is None && files@.profile
                == new_profile(alias@, now_ms, primitives::network_peer_id(network_key@)->Ok_0, seed@) && (
            ids::alias_valid(alias@) ==> unlock_outcome(
                alias@,
                Some(files@),
                password@,
            ) == Stored::Ok(
                UnlockedIdentityView {
                    alias: alias@,
                    peer_id: primitives::network_peer_id(network_key@)->Ok_0,
                    fingerprint: crypto::fingerprint(primitives::ed25519_public(seed@)),
                    network_key: network_key@,
                    signing_key: seed@,
                },
            )),
            Err(e) => assembly_error(password@, network_key@, seed@) == Some(e@),
        },
{
    let peer_id = match network_key_peer_id(network_key) {
        Ok(peer_id) => peer_id,
        Err(reason) => return Err(StorageError::NetworkKeyDecoding(reason)),
    };
    let public_key = seed.public_key();
    let profile = IdentityProfile {
        alias: alias.to_owned(),
        created_at_ms: now_ms,
        network: NetworkProfile { peer_id },
        signing: SigningProfile {
            fingerprint: fingerprint_from_public_key(public_key.as_slice()),
            public_key: base64_encode(public_key.as_slice()),
        },
    };
    let network = match encrypt_private_key(network_key, password) {
        Ok(file) => file,
        Err(e) => return Err(StorageError::Crypto(e)),
    };
    let signing = match seed.sealed(password) {
        Ok(file) => file,
        Err(e) => return Err(StorageError::Crypto(e)),
    };
    Ok(IdentityFiles { profile, network_key: network, signing_key: signing })
}

impl IdentityStore {
    /// Allow the creation of an identity; `found` tells whether its directory exists.
    pub fn admit_new_identity(&self, alias: &str, found: bool) -> (res: Result<
        StorePath,
        StorageError,
    >)
        ensures
            match res {
                Ok(dir) => creation_error(alias@, found) is None && dir@ == identity_place(alias@),
                Err(e) => creation_error(alias@, found) == Some(e@),
            },
    {
        match validate_alias(alias) {
            Ok(_) => {},
            Err(e) => return Err(e),
        }
        if found {
            return Err(StorageError::IdentityAlreadyExists(alias.to_owned()));
        }
        Ok(self.identity_dir(alias))
    }

    /// Create an identity with fresh keys: a summary, and the files to be written.
    ///
    /// Unlocking the files with the same password gives the identity of the summary.
    pub fn create_identity(&self, alias: &str, password: &str, found: bool, now_ms: u64) -> (res:
        Result<(CreatedIdentity, IdentityFiles), StorageError>)
        ensures
            match res {
                Ok((created, files)) => {
                    &&& creation_refused(alias@, found, password@) is None
                    &&& created@.alias == alias@
                    &&& created@.identity_dir == identity_place(alias@)
                    &&& files@.profile.alias == alias@
                    &&& files@.profile.created_at_ms == now_ms
                    &&& files@.profile.network.peer_id == created@.peer_id
                    &&& files@.profile.signing.fingerprint == created@.fingerprint
                    &&& unlock_outcome(alias@, Some(files@), password@) is Ok
                    &&& unlock_outcome(alias@, Some(files@), password@)->Ok_0.alias == alias@
                    &&& unlock_outcome(alias@, Some(files@), password@)->Ok_0.peer_id
                        == created@.peer_id
                    &&& unlock_outcome(alias@, Some(files@), password@)->Ok_0.fingerprint
                        == created@.fingerprint
                    &&& files@.profile.signing.public_key == primitives::base64_text(
                        primitives::ed25519_public(
                            unlock_outcome(alias@, Some(files@), password@)->Ok_0.signing_key,
                        ),
                    )
                    &&& created@.fingerprint == crypto::fingerprint(
                        primitives::ed25519_public(
                            unlock_outcome(alias@, Some(files@), password@)->Ok_0.signing_key,
                        ),
                    )
                },
                Err(e) => creation_refused(alias@, found, password@) == Some(e@),
            },
    {
        let identity_dir = match self.admit_new_identity(alias, found) {
            Ok(dir) => dir,
            Err(e) => return Err(e),
        };
        let network_key = match generate_network_key() {
            Ok(key) => SecretBytes::new(key),
            Err(reason) => return Err(StorageError::NetworkKeyEncoding(reason)),
        };
        let seed = SigningKey::from_seed(SecretBytes::new(random_bytes(32)));
        match assemble_identity(alias, password, now_ms, network_key.as_slice(), &seed) {
            Ok(files) => {
                let created = CreatedIdentity {
                    alias: files.profile.alias.clone(),
                    peer_id: files.profile.network.peer_id.clone(),
                    fingerprint: files.profile.signing.fingerprint.clone(),
                    identity_dir,
                };
                Ok((created, files))
            },
            Err(e) => Err(e),
        }
    }

    /// Unlock an identity; the files are absent where the identity does not exist.
    pub fn unlock_identity(&self, alias: &str, password: &str, files: Option<IdentityFiles>) -> (res:
        Result<UnlockedIdentity, StorageError>)
        ensures
            match res {
                Ok(identity) => unlock_outcome(alias@, files_view(files), password@) == Stored::Ok(
                    identity@,
                ),
                Err(e) => unlock_outcome(alias@, files_view(files), password@) == Stored::<
                    UnlockedIdentityView,
                >::Err(e@),
            },
    {
        match require_identity(alias, files.is_some()) {
            Ok(_) => {},
            Err(e) => return Err(e),
        }
        let files = files.unwrap();
        let network_key = match decrypt_private_key(&files.network_key, password) {
            Ok(key) => key,
            Err(e) => return Err(StorageError::Crypto(e)),
        };
        let seed = match decrypt_private_key(&files.signing_key, password) {
            Ok(seed) => seed,
            Err(e) => return Err(StorageError::Crypto(e)),
        };
        let peer_id = match network_key_peer_id(network_key.as_slice()) {
            Ok(peer_id) => peer_id,
            Err(reason) => return Err(StorageError::NetworkKeyDecoding(reason)),
        };
        if !same_text(peer_id.as_str(), files.profile.network.peer_id.as_str()) {
            return Err(
                StorageError::NetworkKeyDecoding(
                    "decrypted network key does not match profile peer_id".to_owned(),
                ),
            );
        }
        if seed.len() != 32 {
            return Err(StorageError::InvalidSigningKeyLength(seed.len()));
        }
        let signing_key = SigningKey::from_seed(seed);
        let fingerprint = fingerprint_from_public_key(signing_key.public_key().as_slice());
        if !same_text(fingerprint.as_str(), files.profile.signing.fingerprint.as_str()) {
            return Err(StorageError::FingerprintMismatch);
        }
        Ok(
            UnlockedIdentity {
                alias: files.profile.alias,
                peer_id,
                fingerprint,
                network_key,
                signing_key,
            },
        )
    }

    /// Why a history entry cannot be stored, if it cannot.
    pub open spec fn history_entry_error(
        alias: Seq<char>,
        room_id: Seq<char>,
        found: bool,
        entry_room_id: Seq<char>,
    ) -> Option<StorageErrorView> {
        if !ids::alias_valid(alias) {
            Some(StorageErrorView::InvalidAlias(alias))
        } else if !ids::room_id_valid(room_id) {
            Some(StorageErrorView::InvalidRoomId(room_id))
        } else if !found {
            Some(StorageErrorView::IdentityNotFound(alias))
        } else if entry_room_id != room_id {
            Some(StorageErrorView::InvalidRoomId(entry_room_id))
        } else {
            None
        }
    }

    /// Allow a history entry to be stored: the directory that has to exist.
    pub fn admit_history_entry(
        &self,
        alias: &str,
        room_id: &str,
        found: bool,
        entry: &RoomHistoryEntry,
    ) -> (res: Result<StorePath, StorageError>)
        ensures
            match res {
                Ok(dir) => Self::history_entry_error(alias@, room_id@, found, entry.room_id@) is None
                    && dir@ == history_place(alias@),
                Err(e) => Self::history_entry_error(alias@, room_id@, found, entry.room_id@)
                    == Some(e@),
            },
    {
        match validate_alias(alias) {
            Ok(_) => {},
            Err(e) => return Err(e),
        }
        match validate_history_room_id(room_id) {
            Ok(_) => {},
            Err(e) => return Err(e),
        }
        if !found {
            return Err(StorageError::IdentityNotFound(alias.to_owned()));
        }
        if !same_text(entry.room_id.as_str(), room_id) {
            return Err(StorageError::InvalidRoomId(entry.room_id.clone()));
        }
        Ok(self.history_dir(alias))
    }

    /// Encrypt a history entry for storage; `plaintext` is the serialised entry.
    ///
    /// Opening the result with the same room key gives the serialised entry back.
    pub fn append_room_history(
        &self,
        alias: &str,
        room_id: &str,
        room_key: &[u8; 32],
        entry: &RoomHistoryEntry,
        plaintext: &[u8],
        found: bool,
    ) -> (res: Result<EncryptedRoomHistoryEntry, StorageError>)
        ensures
            match res {
                Ok(envelope) => {
                    &&& Self::history_entry_error(alias@, room_id@, found, entry.room_id@) is None
                    &&& !primitives::exceeds_stream(plaintext@.len())
                    &&& envelope@.version == 1
                    &&& forall|line: usize| #[trigger]
                        opened_history_line(room_key@, line, envelope@) == Stored::Ok(plaintext@)
                },
                Err(e) => match Self::history_entry_error(alias@, room_id@, found, entry.room_id@) {
                    Some(refusal) => e@ == refusal,
                    None => primitives::exceeds_stream(plaintext@.len()) && e@ == StorageErrorView::Crypto(
                        CryptoErrorView::Encrypt,
                    ),
                },
            },
    {
        match self.admit_history_entry(alias, room_id, found, entry) {
            Ok(_) => {},
            Err(e) => return Err(e),
        }
        match encrypt_room_message(room_key, plaintext) {
            Ok((nonce, sealed)) => Ok(
                EncryptedRoomHistoryEntry {
                    version: 1,
                    nonce_b64: base64_encode(nonce.as_slice()),
                    ciphertext_b64: base64_encode(sealed.as_slice()),
                },
            ),
            Err(e) => Err(StorageError::Crypto(e)),
        }
    }

    /// Why a room history cannot be read, if it cannot.
    pub open spec fn history_error(alias: Seq<char>, room_id: Seq<char>, found: bool) -> Option<
        StorageErrorView,
    > {
        if !ids::alias_valid(alias) {
            Some(StorageErrorView::InvalidAlias(alias))
        } else if !ids::room_id_valid(room_id) {
            Some(StorageErrorView::InvalidRoomId(room_id))
        } else if !found {
            Some(StorageErrorView::IdentityNotFound(alias))
        } else {
            None
        }
    }

    /// Allow a room history to be read: the file to read.
    pub fn admit_room_history(&self, alias: &str, room_id: &str, found: bool) -> (res: Result<
        StorePath,
        StorageError,
    >)
        ensures
            match res {
                Ok(path) => Self::history_error(alias@, room_id@, found) is None && path@
                    == history_place(alias@).push(room_id@ + ".jsonl"@),
                Err(e) => Self::history_error(alias@, room_id@, found) == Some(e@),
            },
    {
        match validate_alias(alias) {
            Ok(_) => {},
            Err(e) => return Err(e),
        }
        match validate_history_room_id(room_id) {
            Ok(_) => {},
            Err(e) => return Err(e),
        }
        if !found {
            return Err(StorageError::IdentityNotFound(alias.to_owned()));
        }
        Ok(self.room_history_path(alias, room_id))
    }

    /// Allow the lock of an identity to be taken: the file to create.
    pub fn acquire_identity_lock(&self, alias: &str, found: bool) -> (res: Result<
        StorePath,
        StorageError,
    >)
        ensures
            match res {
                Ok(path) => identity_error(alias@, found) is None && path@ == identity_place(
                    alias@,
                ).push("session.lock"@),
                Err(e) => identity_error(alias@, found) == Some(e@),
            },
    {
        match require_identity(alias, found) {
            Ok(_) => Ok(self.identity_lock_path(alias)),
            Err(e) => Err(e),
        }
    }

    /// Allow the lock of an identity to be released: the file to remove.
    pub fn release_identity_lock(&self, alias: &str) -> (res: Result<StorePath, StorageError>)
        ensures
            match res {
                Ok(path) => ids::alias_valid(alias@) && path@ == identity_place(alias@).push(
                    "session.lock"@,
                ),
                Err(e) => !ids::alias_valid(alias@) && e@ == StorageErrorView::InvalidAlias(alias@),
            },
    {
        match validate_alias(alias) {
            Ok(_) => Ok(self.identity_lock_path(alias)),
            Err(e) => Err(e),
        }
    }
}

/// What a lock file holds.
pub open spec fn lock_text(pid: u32, now_ms: u64) -> Seq<char> {
    "pid="@ + text::decimal(pid as nat) + "\ncreated_at_ms="@ + text::decimal(now_ms as nat) + "\n"@
}

/// Write what a lock file holds.
pub fn lock_file_content(pid: u32, now_ms: u64) -> (res: String)
    ensures
        res@ == lock_text(pid, now_ms),
{
    cat5(
        "pid=",
        decimal_text(pid as u64).as_str(),
        "\ncreated_at_ms=",
        decimal_text(now_ms).as_str(),
        "\n",
    )
}

/// How an attempt on a file ended.
#[derive(Debug, Clone, PartialEq, Eq)]
pub enum FileAttempt {
    /// It was done.
    Done,
    /// A file that had to be absent was there, or one that had to be there was absent.
    Unexpected,
    /// It failed for another reason.
    Failed(String),
}

/// The plain values held by a [`FileAttempt`].
#[verifier::ext_equal]
pub enum FileAttemptView {
    Done,
    Unexpected,
    Failed(Seq<char>),
}

impl View for FileAttempt {
    type V = FileAttemptView;

    open spec fn view(&self) -> FileAttemptView {
        match *self {
            FileAttempt::Done => FileAttemptView::Done,
            FileAttempt::Unexpected => FileAttemptView::Unexpected,
            FileAttempt::Failed(x0) => FileAttemptView::Failed(x0@),
        }
    }
}

/// The outcome of taking a lock.
pub open spec fn lock_error(alias: Seq<char>, path: Seq<char>, attempt: FileAttemptView) -> Option<
    StorageErrorView,
> {
    match attempt {
        FileAttemptView::Done => None,
        FileAttemptView::Unexpected => Some(
            StorageErrorView::IdentityAlreadyActive { alias, path },
        ),
        FileAttemptView::Failed(source) => Some(StorageErrorView::Io { path, source }),
    }
}

/// Judge an attempt to create a lock file; an existing file means an active session.
pub fn settle_lock(alias: &str, path: &str, attempt: FileAttempt) -> (res: Result<(), StorageError>)
    ensures
        match res {
            Ok(_) => lock_error(alias@, path@, attempt@) is None,
            Err(e) => lock_error(alias@, path@, attempt@) == Some(e@),
        },
{
    match attempt {
        FileAttempt::Done => Ok(()),
        FileAttempt::Unexpected => Err(
            StorageError::IdentityAlreadyActive { alias: alias.to_owned(), path: path.to_owned() },
        ),
        FileAttempt::Failed(source) => Err(StorageError::Io { path: path.to_owned(), source }),
    }
}

/// The outcome of releasing a lock.
pub open spec fn unlock_error(path: Seq<char>, attempt: FileAttemptView) -> Option<
    StorageErrorView,
> {
    match attempt {
        FileAttemptView::Failed(source) => Some(StorageErrorView::Io { path, source }),
        _ => None,
    }
}

/// Judge an attempt to remove a lock file; a missing file is not an error.
pub fn settle_unlock(path: &str, attempt: FileAttempt) -> (res: Result<(), StorageError>)
    ensures
        match res {
            Ok(_) => unlock_error(path@, attempt@) is None,
            Err(e) => unlock_error(path@, attempt@) == Some(e@),
        },
{
    match attempt {
        FileAttempt::Failed(source) => Err(StorageError::Io { path: path.to_owned(), source }),
        _ => Ok(()),
    }
}

/// A call on the lock of an identity.
#[verifier::ext_equal]
pub enum LockCall {
    /// Take the lock, and write a content into its file.
    Acquire { content: Seq<char> },
    Release,
}

/// How the creation of a lock file ends where files can be created: it may not be there.
pub open spec fn creation_attempt(file: Option<Seq<char>>) -> FileAttemptView {
    if file is Some {
        FileAttemptView::Unexpected
    } else {
        FileAttemptView::Done
    }
}

/// How the removal of a lock file ends where files can be removed.
pub open spec fn removal_attempt(file: Option<Seq<char>>) -> FileAttemptView {
    if file is Some {
        FileAttemptView::Done
    } else {
        FileAttemptView::Unexpected
    }
}

/// The lock file of an existing identity after a call, and the error of the call, if there is one.
pub open spec fn lock_step(
    alias: Seq<char>,
    path: Seq<char>,
    file: Option<Seq<char>>,
    call: LockCall,
) -> (Option<Seq<char>>, Option<StorageErrorView>) {
    match call {
        LockCall::Acquire { content } => match identity_error(alias, true) {
            Some(e) => (file, Some(e)),
            None => (
                if file is Some {
                    file
                } else {
                    Some(content)
                },
                lock_error(alias, path, creation_attempt(file)),
            ),
        },
        LockCall::Release => if !ids::alias_valid(alias) {
            (file, Some(StorageErrorView::InvalidAlias(alias)))
        } else {
            (None, unlock_error(path, removal_attempt(file)))
        },
    }
}

/// The lock file of an existing identity after some calls, where there was none before.
pub open spec fn lock_after(alias: Seq<char>, path: Seq<char>, calls: Seq<LockCall>) -> Option<
    Seq<char>,
>
    decreases calls.len(),
{
    if calls.len() == 0 {
        None
    } else {
        lock_step(alias, path, lock_after(alias, path, calls.drop_last()), calls.last()).0
    }
}

/// One holds the lock of an identity at a time, whatever calls came before: taking it succeeds
/// exactly where it was never taken or was released since, and is refused otherwise with the name
/// of the identity and of the lock file, which stays as it was. Releasing always succeeds, and the
/// lock can be taken again then.
pub proof fn law_lock_is_exclusive(
    alias: Seq<char>,
    path: Seq<char>,
    calls: Seq<LockCall>,
    content: Seq<char>,
)
    requires
        ids::alias_valid(alias),
    ensures
        ({
            let file = lock_after(alias, path, calls);
            let held = calls.len() > 0 && calls.last() is Acquire;
            &&& file is Some <==> held
            &&& lock_step(alias, path, file, LockCall::Acquire { content }) == if held {
                (
                    file,
                    Some(StorageErrorView::IdentityAlreadyActive { alias, path }),
                )
            } else {
                (Some(content), None)
            }
            &&& lock_step(alias, path, file, LockCall::Release) == (
                None::<Seq<char>>,
                None::<StorageErrorView>,
            )
        }),
    decreases calls.len(),
{
    if calls.len() > 0 {
        law_lock_is_exclusive(alias, path, calls.drop_last(), content);
    }
}

/// The lines of a text: what line feeds end, without a carriage return in front of the line
/// feed, and what follows the last line feed, if anything does.
pub open spec fn content_lines(content: Seq<char>) -> Seq<Seq<char>> {
    let pieces = text::split_on(content, '\n');
    let ended = pieces.drop_last().map_values(|piece: Seq<char>| without_return(piece));
    if pieces.last().len() == 0 {
        ended
    } else {
        ended.push(pieces.last())
    }
}

/// A piece of text without a carriage return at its end.
pub open spec fn without_return(piece: Seq<char>) -> Seq<char> {
    if piece.len() > 0 && piece.last() == '\r' {
        piece.drop_last()
    } else {
        piece
    }
}

/// A line of a history file with its number, counted from one.
#[derive(Debug, Clone, PartialEq, Eq)]
pub struct HistoryLine {
    pub number: usize,
    pub text: String,
}

/// The lines that are not blank, with their numbers, among the first `n`.
pub open spec fn numbered_lines(lines: Seq<Seq<char>>, n: int) -> Seq<(int, Seq<char>)>
    decreases n,
{
    if n <= 0 {
        Seq::empty()
    } else {
        let rest = numbered_lines(lines, n - 1);
        if text::trimmed(lines[n - 1]).len() == 0 {
            rest
        } else {
            rest.push((n, lines[n - 1]))
        }
    }
}

/// The plain values of a list of history lines.
pub open spec fn line_views(lines: Seq<HistoryLine>) -> Seq<(int, Seq<char>)> {
    lines.map_values(|line: HistoryLine| (line.number as int, line.text@))
}

/// Remove a carriage return at the end.
fn strip_return(piece: &str) -> (res: String)
    ensures
        res@ == without_return(piece@),
{
    let chars = chars_of(piece);
    let n: usize = chars.len();
    if n > 0 && chars[n - 1] == '\r' {
        string_of(&chars, 0, n - 1)
    } else {
        piece.to_owned()
    }
}

/// The lines of a text.
fn lines_of(content: &str) -> (res: Vec<String>)
    ensures
        text::texts(res@) == content_lines(content@),
{
    let pieces = split_lines(content);
    proof {
        text::lemma_split_nonempty(content@, '\n');
        assert(text::texts(pieces@).len() == pieces@.len());
    }
    let last: usize = pieces.len() - 1;
    let ghost all = text::texts(pieces@);
    let mut res: Vec<String> = Vec::new();
    let mut i: usize = 0;
    while i < last
        invariant
            i <= last < pieces@.len(),
            all == text::texts(pieces@),
            text::texts(res@).len() == i,
            forall|j: int| 0 <= j < i ==> #[trigger] text::texts(res@)[j] == without_return(all[j]),
        decreases last - i,
    {
        let ghost before = res@;
        let line = strip_return(pieces[i].as_str());
        res.push(line);
        assert(text::texts(res@) =~= text::texts(before).push(line@));
        i = i + 1;
    }
    let ghost ended = all.drop_last().map_values(|piece: Seq<char>| without_return(piece));
    assert(text::texts(res@) =~= ended);
    assert(all.last() == pieces@[last as int]@);
    if chars_of(pieces[last].as_str()).len() > 0 {
        let ghost before = res@;
        res.push(pieces[last].clone());
        assert(text::texts(res@) =~= text::texts(before).push(all.last()));
    }
    res
}

/// The lines of a history file that hold an entry, with their numbers.
pub fn history_lines(content: &str) -> (res: Vec<HistoryLine>)
    ensures
        line_views(res@) == numbered_lines(
            content_lines(content@),
            content_lines(content@).len() as int,
        ),
{
    let lines = lines_of(content);
    let ghost all = text::texts(lines@);
    assert(all.len() == lines@.len());
    let mut res: Vec<HistoryLine> = Vec::new();
    let mut i: usize = 0;
    assert(line_views(res@) =~= numbered_lines(all, 0));
    while i < lines.len()
        invariant
            i <= lines@.len(),
            all == text::texts(lines@),
            line_views(res@) == numbered_lines(all, i as int),
        decreases lines.len() - i,
    {
        let ghost before = res@;
        assert(all[i as int] == lines@[i as int]@);
        let blank = chars_of(trim(lines[i].as_str()).as_str()).len() == 0;
        i = i + 1;
        if !blank {
            let line = HistoryLine { number: i, text: lines[i - 1].clone() };
            res.push(line);
            assert(line_views(res@) =~= line_views(before).push((i as int, line.text@)));
        }
    }
    res
}

/// What opening one line of a history file gives.
pub open spec fn opened_history_line(
    room_key: Seq<u8>,
    line: usize,
    envelope: EncryptedRoomHistoryEntryView,
) -> Stored<Seq<u8>> {
    let at = "line "@ + text::decimal(line as nat);
    if envelope.version != 1 {
        Err(
            StorageErrorView::JsonDeserialize(
                at + ": unsupported history version "@ + text::decimal(envelope.version as nat),
            ),
        )
    } else {
        match primitives::base64_bytes(envelope.nonce_b64) {
            Err(reason) => Err(
                StorageErrorView::JsonDeserialize(at + ": invalid nonce base64: "@ + reason),
            ),
            Ok(nonce) => match primitives::base64_bytes(envelope.ciphertext_b64) {
                Err(reason) => Err(
                    StorageErrorView::JsonDeserialize(
                        at + ": invalid ciphertext base64: "@ + reason,
                    ),
                ),
                Ok(sealed) => match crypto::opened_room_message(room_key, nonce, sealed) {
                    Err(e) => Err(StorageErrorView::Crypto(e)),
                    Ok(plaintext) => Ok(plaintext),
                },
            },
        }
    }
}

/// Open one line of a history file: the serialised entry.
pub fn open_history_line(
    room_key: &[u8; 32],
    line: usize,
    envelope: &EncryptedRoomHistoryEntry,
) -> (res: Result<Vec<u8>, StorageError>)
    ensures
        match res {
            Ok(plaintext) => opened_history_line(room_key@, line, envelope@) == Stored::Ok(
                plaintext@,
            ),
            Err(e) => opened_history_line(room_key@, line, envelope@) == Stored::<Seq<u8>>::Err(e@),
        },
{
    let at = cat2("line ", count_text(line).as_str());
    if envelope.version != 1 {
        return Err(
            StorageError::JsonDeserialize(
                cat3(
                    at.as_str(),
                    ": unsupported history version ",
                    decimal_text(envelope.version as u64).as_str(),
                ),
            ),
        );
    }
    let nonce = match base64_decode(envelope.nonce_b64.as_str()) {
        Ok(nonce) => nonce,
        Err(reason) => return Err(
            StorageError::JsonDeserialize(
                cat3(at.as_str(), ": invalid nonce base64: ", reason.as_str()),
            ),
        ),
    };
    let sealed = match base64_decode(envelope.ciphertext_b64.as_str()) {
        Ok(sealed) => sealed,
        Err(reason) => return Err(
            StorageError::JsonDeserialize(
                cat3(at.as_str(), ": invalid ciphertext base64: ", reason.as_str()),
            ),
        ),
    };
    match decrypt_room_message(room_key, nonce.as_slice(), sealed.as_slice()) {
        Ok(plaintext) => Ok(plaintext),
        Err(e) => Err(StorageError::Crypto(e)),
    }
}

/// The error for a line of a history file that cannot be deserialised.
pub fn history_line_error(line: usize, reason: &str) -> (res: StorageError)
    ensures
        res@ == StorageErrorView::JsonDeserialize(
            "line "@ + text::decimal(line as nat) + ": "@ + reason@,
        ),
{
    StorageError::JsonDeserialize(cat4("line ", count_text(line).as_str(), ": ", reason))
}

/// Refuse a history entry that belongs to another room.
pub fn check_history_room(room_id: &str, entry: &RoomHistoryEntry) -> (res: Result<
    (),
    StorageError,
>)
    ensures
        match res {
            Ok(_) => entry.room_id@ == room_id@,
            Err(e) => entry.room_id@ != room_id@ && e@ == StorageErrorView::InvalidRoomId(
                entry.room_id@,
            ),
        },
{
    if same_text(entry.room_id.as_str(), room_id) {
        Ok(())
    } else {
        Err(StorageError::InvalidRoomId(entry.room_id.clone()))
    }
}

/// A line of a history file that was opened and deserialised, or why it could not be.
pub enum ReadLine {
    Failed(StorageError),
    Entry(RoomHistoryEntry),
}

/// The plain values held by a [`ReadLine`].
#[verifier::ext_equal]
pub enum ReadLineView {
    Failed(StorageErrorView),
    Entry(RoomHistoryEntryView),
}

impl View for ReadLine {
    type V = ReadLineView;

    open spec fn view(&self) -> ReadLineView {
        match *self {
            ReadLine::Failed(x0) => ReadLineView::Failed(x0@),
            ReadLine::Entry(x0) => ReadLineView::Entry(x0@),
        }
    }
}

/// The views of a list of lines that were read.
pub open spec fn read_views(lines: Seq<ReadLine>) -> Seq<ReadLineView> {
    lines.map_values(|x: ReadLine| x@)
}

/// The entries of a history file, or the error of the first line that is not an entry of the
/// room.
pub open spec fn loaded_history(room_id: Seq<char>, lines: Seq<ReadLineView>) -> Stored<
    Seq<RoomHistoryEntryView>,
>
    decreases lines.len(),
{
    if lines.len() == 0 {
        Ok(Seq::empty())
    } else {
        match loaded_history(room_id, lines.drop_last()) {
            Err(e) => Err(e),
            Ok(entries) => match lines.last() {
                ReadLineView::Failed(e) => Err(e),
                ReadLineView::Entry(entry) => if entry.room_id != room_id {
                    Err(StorageErrorView::InvalidRoomId(entry.room_id))
                } else {
                    Ok(entries.push(entry))
                },
            },
        }
    }
}

/// An error in a line is the error of the file.
proof fn lemma_first_error(room_id: Seq<char>, lines: Seq<ReadLineView>, n: int)
    requires
        0 <= n <= lines.len(),
        loaded_history(room_id, lines.take(n)) is Err,
    ensures
        loaded_history(room_id, lines) == loaded_history(room_id, lines.take(n)),
    decreases lines.len(),
{
    if n < lines.len() {
        assert(lines.drop_last().take(n) =~= lines.take(n));
        lemma_first_error(room_id, lines.drop_last(), n);
    } else {
        assert(lines.take(n) =~= lines);
    }
}

impl IdentityStore {
    /// The history of a room, from the lines of its file. A room without a file has no lines.
    pub fn load_room_history(
        &self,
        alias: &str,
        room_id: &str,
        found: bool,
        lines: Vec<ReadLine>,
    ) -> (res: Result<Vec<RoomHistoryEntry>, StorageError>)
        ensures
            match Self::history_error(alias@, room_id@, found) {
                Some(e) => match res {
                    Ok(_) => false,
                    Err(err) => err@ == e,
                },
                None => match res {
                    Ok(entries) => loaded_history(room_id@, read_views(lines@)) == Stored::Ok(
                        entries@.map_values(|x: RoomHistoryEntry| x@),
                    ),
                    Err(err) => loaded_history(room_id@, read_views(lines@)) == Stored::<
                        Seq<RoomHistoryEntryView>,
                    >::Err(err@),
                },
            },
    {
        match self.admit_room_history(alias, room_id, found) {
            Ok(_) => {},
            Err(e) => return Err(e),
        }
        let ghost all = read_views(lines@);
        let total: usize = lines.len();
        let mut left = lines;
        let mut entries: Vec<RoomHistoryEntry> = Vec::new();
        let mut i: usize = 0;
        proof {
            assert(left@ =~= lines@.skip(0));
            assert(entries@.map_values(|x: RoomHistoryEntry| x@) =~= Seq::empty());
        }
        while i < total
            invariant
                i <= total == lines@.len(),
                all == read_views(lines@),
                left@ == lines@.skip(i as int),
                Self::history_error(alias@, room_id@, found) is None,
                loaded_history(room_id@, all.take(i as int)) == Stored::Ok(
                    entries@.map_values(|x: RoomHistoryEntry| x@),
                ),
            decreases total - i,
        {
            let line = left.remove(0);
            assert(left@ =~= lines@.skip(i + 1));
            proof {
                assert(all.take(i + 1).drop_last() =~= all.take(i as int));
                assert(all.take(i + 1).last() == line@);
            }
            match line {
                ReadLine::Failed(e) => {
                    proof {
                        lemma_first_error(room_id@, all, i + 1);
                    }
                    return Err(e);
                },
                ReadLine::Entry(entry) => {
                    if let Err(e) = check_history_room(room_id, &entry) {
                        proof {
                            lemma_first_error(room_id@, all, i + 1);
                        }
                        return Err(e);
                    }
                    let ghost before = entries@;
                    entries.push(entry);
                    assert(entries@.map_values(|x: RoomHistoryEntry| x@)
                        =~= before.map_values(|x: RoomHistoryEntry| x@).push(entry@));
                },
            }
            i = i + 1;
        }
        assert(all.take(i as int) =~= all);
        Ok(entries)
    }
}

/// A history is read exactly where every line is an entry of the room, and then holds the entries
/// of all lines in their order.
pub proof fn law_histories_are_read_in_order(room_id: Seq<char>, lines: Seq<ReadLineView>)
    ensures
        loaded_history(room_id, lines) is Ok <==> forall|i: int|
            0 <= i < lines.len() ==> {
                &&& (#[trigger] lines[i]) is Entry
                &&& lines[i]->Entry_0.room_id == room_id
            },
        loaded_history(room_id, lines) matches Ok(entries) ==> entries.len() == lines.len()
            && forall|i: int|
            0 <= i < lines.len() ==> #[trigger] entries[i] == lines[i]->Entry_0,
    decreases lines.len(),
{
    if lines.len() > 0 {
        let init = lines.drop_last();
        law_histories_are_read_in_order(room_id, init);
        assert(forall|i: int| 0 <= i < init.len() ==> init[i] == lines[i]);
        if loaded_history(room_id, init) is Ok {
            assert forall|i: int| 0 <= i < init.len() implies {
                &&& (#[trigger] lines[i]) is Entry
                &&& lines[i]->Entry_0.room_id == room_id
            } by {
                assert(init[i] is Entry);
            }
            assert(lines[lines.len() - 1] == lines.last());
        } else if forall|i: int|
            0 <= i < lines.len() ==> {
                &&& (#[trigger] lines[i]) is Entry
                &&& lines[i]->Entry_0.room_id == room_id
            } {
            assert forall|i: int| 0 <= i < init.len() implies {
                &&& (#[trigger] init[i]) is Entry
                &&& init[i]->Entry_0.room_id == room_id
            } by {
                assert(lines[i] is Entry);
            }
        }
    }
}

/// The lines of a history file keep their order and their numbers, counted from one, and only
/// blank lines are left out.
pub proof fn law_lines_keep_their_numbers(lines: Seq<Seq<char>>, n: int)
    requires
        0 <= n <= lines.len(),
    ensures
        ({
            let kept = numbered_lines(lines, n);
            &&& forall|i: int|
                0 <= i < kept.len() ==> {
                    &&& 1 <= (#[trigger] kept[i]).0 <= n
                    &&& kept[i].1 == lines[kept[i].0 - 1]
                    &&& text::trimmed(kept[i].1).len() > 0
                }
            &&& forall|i: int, j: int|
                0 <= i < j < kept.len() ==> (#[trigger] kept[i]).0 < (#[trigger] kept[j]).0
            &&& forall|k: int|
                0 <= k < n && text::trimmed(#[trigger] lines[k]).len() > 0 ==> kept.contains(
                    (k + 1, lines[k]),
                )
        }),
    decreases n,
{
    if n > 0 {
        law_lines_keep_their_numbers(lines, n - 1);
        let rest = numbered_lines(lines, n - 1);
        let kept = numbered_lines(lines, n);
        assert forall|k: int| 0 <= k < n && text::trimmed(#[trigger] lines[k]).len() > 0 implies kept.contains(
            (k + 1, lines[k]),
        ) by {
            if k < n - 1 {
                assert(rest.contains((k + 1, lines[k])));
                let i = choose|i: int| 0 <= i < rest.len() && rest[i] == (k + 1, lines[k]);
                assert(kept[i] == (k + 1, lines[k]));
            } else {
                assert(kept[kept.len() - 1] == (n, lines[n - 1]));
            }
        }
    }
}

/// A history line is opened with the key of its room: what is inside is the plaintext that was
/// sealed, and it is refused exactly where it has another version, is not well written, or does
/// not open.
pub proof fn law_when_history_lines_open(
    room_key: Seq<u8>,
    line: usize,
    envelope: EncryptedRoomHistoryEntryView,
    plaintext: Seq<u8>,
)
    ensures
        opened_history_line(room_key, line, envelope) == Stored::Ok(plaintext) <==> {
            &&& envelope.version == 1
            &&& primitives::base64_bytes(envelope.nonce_b64) is Ok
            &&& primitives::base64_bytes(envelope.ciphertext_b64) is Ok
            &&& crypto::opened_room_message(
                room_key,
                primitives::base64_bytes(envelope.nonce_b64)->Ok_0,
                primitives::base64_bytes(envelope.ciphertext_b64)->Ok_0,
            ) == CryptoOutcome::Ok(plaintext)
        },
{
}

/// Files of different identities, and histories of different rooms, are kept in different places.
pub proof fn law_places_differ(a: Seq<char>, b: Seq<char>, room: Seq<char>, other: Seq<char>)
    ensures
        identity_place(a) == identity_place(b) ==> a == b,
        history_place(a) == history_place(b) ==> a == b,
        history_place(a).push(room + ".jsonl"@) == history_place(a).push(other + ".jsonl"@) ==> room
            == other,
        identity_place(a).is_prefix_of(history_place(a)),
{
    if identity_place(a) == identity_place(b) {
        assert(identity_place(a)[1] == identity_place(b)[1]);
    }
    if history_place(a) == history_place(b) {
        assert(history_place(a)[1] == history_place(b)[1]);
    }
    let x = history_place(a).push(room + ".jsonl"@);
    let y = history_place(a).push(other + ".jsonl"@);
    if x == y {
        assert(x.last() == y.last());
        assert(x.last() == room + ".jsonl"@);
        assert((room + ".jsonl"@).len() == (other + ".jsonl"@).len());
        assert(room =~= (room + ".jsonl"@).take(room.len() as int));
        assert(other =~= (other + ".jsonl"@).take(other.len() as int));
    }
    assert(history_place(a).subrange(0, identity_place(a).len() as int) =~= identity_place(a));
}

/// An identity exists, is created and is used only under a valid alias.
pub proof fn law_aliases_decide(alias: Seq<char>, found: bool, password: Seq<char>)
    ensures
        identity_error(alias, found) is None <==> ids::alias_valid(alias) && found,
        creation_error(alias, found) is None <==> ids::alias_valid(alias) && !found,
        creation_refused(alias, found, password) is None <==> ids::alias_valid(alias) && !found
            && encode_utf8(password).len() <= 0xFFFF_FFFF,
        ids::alias_valid(alias) && found ==> creation_error(alias, found) == Some(
            StorageErrorView::IdentityAlreadyExists(alias),
        ),
        ids::alias_valid(alias) && !found ==> identity_error(alias, found) == Some(
            StorageErrorView::IdentityNotFound(alias),
        ),
{
}

/// An identity is unlocked exactly if its alias is one, both keys open with the password, and they
/// fit what the profile says of them. It is the one that the profile names, with those keys.
pub proof fn law_when_identities_are_unlocked(
    alias: Seq<char>,
    files: IdentityFilesView,
    password: Seq<char>,
    identity: UnlockedIdentityView,
)
    ensures
        unlock_outcome(alias, Some(files), password) == Stored::Ok(identity) <==> {
            &&& ids::alias_valid(alias)
            &&& crypto::opened_private_key(files.network_key, password) == CryptoOutcome::Ok(
                identity.network_key,
            )
            &&& crypto::opened_private_key(files.signing_key, password) == CryptoOutcome::Ok(
                identity.signing_key,
            )
            &&& identity.signing_key.len() == 32
            &&& primitives::network_peer_id(identity.network_key) == Outcome::Ok(identity.peer_id)
            &&& identity.peer_id == files.profile.network.peer_id
            &&& identity.fingerprint == files.profile.signing.fingerprint
            &&& identity.fingerprint == crypto::fingerprint(primitives::ed25519_public(identity.signing_key))
            &&& identity.alias == files.profile.alias
        },
        unlock_outcome(alias, None, password) is Err,
{
}

/// The profile of a new identity names its alias, its peer id, its key with the fingerprint of that
/// key, and when it was made.
pub proof fn law_new_profiles_fit_their_keys(
    alias: Seq<char>,
    now_ms: u64,
    peer_id: Seq<char>,
    seed: Seq<u8>,
)
    ensures
        ({
            let profile = new_profile(alias, now_ms, peer_id, seed);
            &&& profile.alias == alias
            &&& profile.created_at_ms == now_ms
            &&& profile.network.peer_id == peer_id
            &&& profile.signing.fingerprint == crypto::fingerprint(primitives::ed25519_public(seed))
            &&& profile.signing.public_key == primitives::base64_text(primitives::ed25519_public(seed))
        }),
{
}

/// A line at the end of a file is read as it was written: where a line feed ends it, without a
/// carriage return in front, and also where nothing ends it. Nothing is left out and nothing added.
pub proof fn law_no_line_is_lost(content: Seq<char>, line: Seq<char>)
    requires
        content.len() == 0 || content.last() == '\n',
        !line.contains('\n'),
    ensures
        content_lines(Seq::empty()).len() == 0,
        line.len() > 0 ==> content_lines(content + line) == content_lines(content).push(line),
        line.len() == 0 || line.last() != '\r' ==> content_lines((content + line).push('\n'))
            == content_lines(content).push(line),
        content_lines((content + line).push('\r').push('\n')) == content_lines(content).push(line),
{
    let pieces = text::split_on(content, '\n');
    text::lemma_split_more(content, line, '\n');
    assert(pieces.last().len() == 0) by {
        if content.len() > 0 {
            let rest = text::split_on(content.drop_last(), '\n');
            assert(pieces == rest.push(Seq::empty()));
        }
    }
    let before = pieces.drop_last().map_values(|piece: Seq<char>| without_return(piece));
    assert(content_lines(content) == before);
    let more = text::split_on(content + line, '\n');
    assert(pieces.last() + line =~= line);
    assert(more == pieces.drop_last().push(line));
    assert(more.drop_last() =~= pieces.drop_last());
    let ended = text::split_on((content + line).push('\n'), '\n');
    assert((content + line).push('\n').drop_last() =~= content + line);
    assert(ended == more.push(Seq::empty()));
    assert(ended.drop_last() =~= more);
    assert(more.map_values(|piece: Seq<char>| without_return(piece)) =~= before.push(
        without_return(line),
    ));
    let returned = line.push('\r');
    assert(!returned.contains('\n')) by {
        if returned.contains('\n') {
            let k = choose|k: int| 0 <= k < returned.len() && returned[k] == '\n';
            assert(line[k] == '\n');
        }
    }
    text::lemma_split_more(content, returned, '\n');
    assert((content + line).push('\r') =~= content + returned);
    let with_return = text::split_on(content + returned, '\n');
    assert(pieces.last() + returned =~= returned);
    assert(with_return == pieces.drop_last().push(returned));
    assert((content + returned).push('\n').drop_last() =~= content + returned);
    let both = text::split_on((content + returned).push('\n'), '\n');
    assert(both == with_return.push(Seq::empty()));
    assert(both.drop_last() =~= with_return);
    assert(returned.drop_last() =~= line);
    assert(with_return.map_values(|piece: Seq<char>| without_return(piece)) =~= before.push(line));
    let empty = Seq::<char>::empty();
    let none = text::split_on(empty, '\n');
    assert(none.drop_last().map_values(|piece: Seq<char>| without_return(piece)) =~= Seq::empty());
    assert(none.last().len() == 0);
}

/// The pinned peers of an identity are those of its file, and none where there is no file; they are
/// read exactly if the identity exists.
pub proof fn law_when_pins_are_read(
    alias: Seq<char>,
    found: bool,
    file: Option<TrustedPeersFileView>,
)
    ensures
        trusted_outcome(alias, found, file) is Ok <==> ids::alias_valid(alias) && found,
        trusted_outcome(alias, found, file) matches Ok(peers) ==> {
            &&& file matches Some(f) ==> peers == f.peers
            &&& file is None ==> peers.len() == 0
        },
{
}

/// The history of a room is read exactly if the identity exists and both names are valid, and an
/// entry is stored exactly if, besides, it belongs to that room.
pub proof fn law_when_histories_are_used(
    alias: Seq<char>,
    room_id: Seq<char>,
    found: bool,
    entry_room_id: Seq<char>,
)
    ensures
        IdentityStore::history_error(alias, room_id, found) is None <==> ids::alias_valid(alias)
            && ids::room_id_valid(room_id) && found,
        IdentityStore::history_entry_error(alias, room_id, found, entry_room_id) is None
            <==> ids::alias_valid(alias) && ids::room_id_valid(room_id) && found && entry_room_id == room_id,
{
}

/// The files of an identity can be made exactly if its network key is one and both keys can be
/// sealed under the password.
pub proof fn law_when_identities_can_be_made(
    password: Seq<char>,
    network_key: Seq<u8>,
    seed: Seq<u8>,
)
    ensures
        assembly_error(password, network_key, seed) is None <==> {
            &&& primitives::network_peer_id(network_key) is Ok
            &&& encode_utf8(password).len() <= 0xFFFF_FFFF
            &&& !primitives::exceeds_stream(network_key.len())
            &&& !primitives::exceeds_stream(seed.len())
        },
{
}

/// A text at the end of a message.
proof fn lemma_storage_end(head: Seq<char>, text: Seq<char>)
    ensures
        text.is_suffix_of(head + text),
{
    let line = head + text;
    assert(line.subrange(line.len() - text.len(), line.len() as int) =~= text);
}

/// What a storage error says ends with what it concerns.
pub proof fn law_storage_errors_name_their_cause(text: Seq<char>, path: Seq<char>, e: CryptoErrorView)
    ensures
        text.is_suffix_of(storage_error_text(StorageErrorView::InvalidAlias(text))),
        text.is_suffix_of(storage_error_text(StorageErrorView::InvalidRoomId(text))),
        text.is_suffix_of(storage_error_text(StorageErrorView::IdentityAlreadyExists(text))),
        text.is_suffix_of(storage_error_text(StorageErrorView::IdentityNotFound(text))),
        text.is_suffix_of(storage_error_text(StorageErrorView::TomlSerialize(text))),
        text.is_suffix_of(storage_error_text(StorageErrorView::TomlDeserialize(text))),
        text.is_suffix_of(storage_error_text(StorageErrorView::JsonSerialize(text))),
        text.is_suffix_of(storage_error_text(StorageErrorView::JsonDeserialize(text))),
        text.is_suffix_of(storage_error_text(StorageErrorView::NetworkKeyEncoding(text))),
        text.is_suffix_of(storage_error_text(StorageErrorView::NetworkKeyDecoding(text))),
        text.is_suffix_of(storage_error_text(StorageErrorView::Io { path, source: text })),
        path.is_suffix_of(
            storage_error_text(StorageErrorView::IdentityAlreadyActive { alias: text, path }),
        ),
        crypto::crypto_error_text(e).is_suffix_of(storage_error_text(StorageErrorView::Crypto(e))),
{
    lemma_storage_end("invalid alias: "@, text);
    lemma_storage_end("invalid room id: "@, text);
    lemma_storage_end("identity already exists: "@, text);
    lemma_storage_end("identity not found: "@, text);
    lemma_storage_end("toml serialization failed: "@, text);
    lemma_storage_end("toml deserialization failed: "@, text);
    lemma_storage_end("json serialization failed: "@, text);
    lemma_storage_end("json deserialization failed: "@, text);
    lemma_storage_end("network key encoding failed: "@, text);
    lemma_storage_end("network key decoding failed: "@, text);
    lemma_storage_end("io error at "@ + path + ": "@, text);
    lemma_storage_end("identity is already active: "@ + text + "; lock file exists at "@, path);
    lemma_storage_end("crypto error: "@, crypto::crypto_error_text(e));
}

/// A lock file tells which process holds the lock, and since when.
pub proof fn law_lock_files_tell_their_holder(pid: u32, now_ms: u64)
    ensures
        ({
            let lines = content_lines(lock_text(pid, now_ms));
            &&& lines.len() == 2
            &&& lines[0] == "pid="@ + text::decimal(pid as nat)
            &&& lines[1] == "created_at_ms="@ + text::decimal(now_ms as nat)
        }),
{
    reveal_strlit("pid=");
    reveal_strlit("\ncreated_at_ms=");
    reveal_strlit("created_at_ms=");
    reveal_strlit("\n");
    let first = "pid="@ + text::decimal(pid as nat);
    let second = "created_at_ms="@ + text::decimal(now_ms as nat);
    lemma_digits(pid as nat);
    lemma_digits(now_ms as nat);
    assert forall|k: int| 0 <= k < first.len() implies #[trigger] first[k] != '\n' && first[k]
        != '\r' by {
        if k >= 4 {
            assert(first[k] == text::decimal(pid as nat)[k - 4]);
        }
    }
    assert forall|k: int| 0 <= k < second.len() implies #[trigger] second[k] != '\n' && second[k]
        != '\r' by {
        if k >= 14 {
            assert(second[k] == text::decimal(now_ms as nat)[k - 14]);
        }
    }
    let empty = Seq::<char>::empty();
    law_no_line_is_lost(empty, first);
    let top = (empty + first).push('\n');
    assert(first.last() == first[first.len() - 1]);
    law_no_line_is_lost(top, second);
    assert(second.last() == second[second.len() - 1]);
    assert((top + second).push('\n') =~= lock_text(pid, now_ms));
    assert(content_lines(lock_text(pid, now_ms)) =~= seq![first, second]);
}

/// A number is written in digits.
proof fn lemma_digits(n: nat)
    ensures
        text::decimal(n).len() > 0,
        forall|k: int| 0 <= k < text::decimal(n).len() ==> '0' <= #[trigger] text::decimal(n)[k] <= '9',
    decreases n,
{
    if n >= 10 {
        lemma_digits(n / 10);
    }
}

} // verus!
