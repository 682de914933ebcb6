//! The calls into other crates, each with what is relied upon of it.
//!
//! The contracts of the functions marked as external are believed, not proved.

use crate::text;
use crate::text::copy_bytes;
use base64::Engine as _;
use chacha20poly1305::aead::Aead as _;
use chacha20poly1305::aead::KeyInit as _;
use ed25519_dalek::Signer as _;
use ed25519_dalek::Verifier as _;
use rand_core::RngCore as _;
use vstd::prelude::*;

verus! {

/// What a conversion of a text gives, or the text of its error.
pub type Outcome<T> = Result<T, Seq<char>>;

/// The words of a line under shell quoting, unless a quote is left open.
pub uninterp spec fn shell_words(line: Seq<char>) -> Option<Seq<Seq<char>>>;

/// Calls `shell_words::split`. The words are a function of the line, and the only
/// failure is a quote that is never closed.
#[verifier::external_body]
pub(crate) fn split_words(line: &str) -> (res: Result<Vec<String>, String>)
    ensures
        match res {
            Ok(words) => shell_words(line@) == Some(text::texts(words@)),
            Err(reason) => shell_words(line@) is None && reason@ == "missing closing quote"@,
        },
{
    shell_words::split(line).map_err(|err| err.to_string())
}

/// Bytes that are wiped from memory when they are dropped.
///
/// Holds a `zeroize::Zeroizing<Vec<u8>>`.
#[verifier::external_body]
pub struct SecretBytes {
    inner: zeroize::Zeroizing<Vec<u8>>,
}

/// The bytes that a [`SecretBytes`] holds.
pub uninterp spec fn secret_bytes(secret: SecretBytes) -> Seq<u8>;

impl View for SecretBytes {
    type V = Seq<u8>;

    open spec fn view(&self) -> Seq<u8> {
        secret_bytes(*self)
    }
}

impl SecretBytes {
    /// Calls `zeroize::Zeroizing::new`, which holds the given bytes.
    #[verifier::external_body]
    pub(crate) fn new(bytes: Vec<u8>) -> (res: SecretBytes)
        ensures
            secret_bytes(res) == bytes@,
    {
        SecretBytes { inner: zeroize::Zeroizing::new(bytes) }
    }

    /// Calls `Deref::deref` of `zeroize::Zeroizing`, which gives the bytes that are held.
    #[verifier::external_body]
    pub(crate) fn as_slice(&self) -> (res: &[u8])
        ensures
            res@ == secret_bytes(*self),
    {
        self.inner.as_slice()
    }

    /// Hold some bytes.
    pub fn holding(bytes: Vec<u8>) -> (res: SecretBytes)
        ensures
            res@ == bytes@,
    {
        SecretBytes::new(bytes)
    }

    /// Look at the bytes.
    pub fn expose(&self) -> (res: &[u8])
        ensures
            res@ == self@,
    {
        self.as_slice()
    }

    /// The number of bytes.
    pub fn len(&self) -> (res: usize)
        ensures
            res == self@.len(),
    {
        self.as_slice().len()
    }

    /// Copy the bytes into another wiped buffer.
    pub fn duplicate(&self) -> (res: SecretBytes)
        ensures
            res@ == self@,
    {
        SecretBytes::new(copy_bytes(self.as_slice()))
    }
}

/// The key that Argon2id version 0x13 derives.
pub uninterp spec fn argon2id_key(
    password: Seq<u8>,
    salt: Seq<u8>,
    memory_kib: u32,
    passes: u32,
    lanes: u32,
    len: usize,
) -> Seq<u8>;

/// Why a key could not be derived.
pub enum KdfFailure {
    /// The cost parameters were refused.
    Params(String),
    /// The password or the salt was refused.
    Hash(String),
}

/// The plain values held by a [`KdfFailure`].
#[verifier::ext_equal]
pub enum KdfFailureView {
    Params(Seq<char>),
    Hash(Seq<char>),
}

impl View for KdfFailure {
    type V = KdfFailureView;

    open spec fn view(&self) -> KdfFailureView {
        match *self {
            KdfFailure::Params(x0) => KdfFailureView::Params(x0@),
            KdfFailure::Hash(x0) => KdfFailureView::Hash(x0@),
        }
    }
}

/// Why Argon2id refuses to derive a key, if it does.
pub open spec fn kdf_refusal(
    password: Seq<u8>,
    salt: Seq<u8>,
    memory_kib: u32,
    lanes: u32,
) -> Option<KdfFailureView> {
    if memory_kib < 8 || memory_kib < 8 * lanes {
        Some(KdfFailureView::Params("memory cost is too small"@))
    } else if password.len() > 0xFFFF_FFFF {
        Some(KdfFailureView::Hash("password is too long"@))
    } else if salt.len() < 8 {
        Some(KdfFailureView::Hash("salt is too short"@))
    } else if salt.len() > 0xFFFF_FFFF {
        Some(KdfFailureView::Hash("salt is too long"@))
    } else {
        None
    }
}

/// Calls `argon2::Params::new` and `argon2::Argon2::hash_password_into`. The former refuses
/// less memory than eight blocks or than eight blocks a lane, the latter refuses a password or
/// salt of more than `2^32 - 1` bytes and a salt of fewer than eight. Otherwise the key is a
/// function of the arguments and has the length asked for.
#[verifier::external_body]
pub(crate) fn argon2id(
    password: &[u8],
    salt: &[u8],
    memory_kib: u32,
    passes: u32,
    lanes: u32,
    len: usize,
) -> (res: Result<Vec<u8>, KdfFailure>)
    requires
        passes >= 1,
        1 <= lanes <= 0xFF_FFFF,
        4 <= len <= 0xFFFF_FFFF,
    ensures
        match res {
            Ok(key) => kdf_refusal(password@, salt@, memory_kib, lanes) is None && key@
                == argon2id_key(password@, salt@, memory_kib, passes, lanes, len) && key@.len()
                == len,
            Err(failure) => kdf_refusal(password@, salt@, memory_kib, lanes) == Some(failure@),
        },
{
    let params = argon2::Params::new(memory_kib, passes, lanes, Some(len)).map_err(
        |err| KdfFailure::Params(err.to_string()),
    )?;
    let argon = argon2::Argon2::new(argon2::Algorithm::Argon2id, argon2::Version::V0x13, params);
    let mut key = vec![0u8; len];
    argon.hash_password_into(password, salt, &mut key).map_err(
        |err| KdfFailure::Hash(err.to_string()),
    )?;
    Ok(key)
}

/// The key that BLAKE3 derives from key material in a context.
pub uninterp spec fn blake3_derived(context: Seq<char>, material: Seq<u8>) -> Seq<u8>;

/// Calls `blake3::derive_key`, whose 32 bytes are a function of context and material.
#[verifier::external_body]
pub(crate) fn blake3_derive_key(context: &str, material: &[u8]) -> (res: [u8; 32])
    ensures
        res@ == blake3_derived(context@, material@),
{
    blake3::derive_key(context, material)
}

/// The BLAKE3 hash of a byte string.
pub uninterp spec fn blake3_hashed(bytes: Seq<u8>) -> Seq<u8>;

/// Calls `blake3::hash`, whose 32 bytes are a function of the input.
#[verifier::external_body]
pub(crate) fn blake3_hash(bytes: &[u8]) -> (res: [u8; 32])
    ensures
        res@ == blake3_hashed(bytes@),
{
    *blake3::hash(bytes).as_bytes()
}

/// How many bytes the stream ciphers encrypt at most: after the block that authenticates,
/// `2^32 - 2` blocks of 64 bytes are left.
pub const STREAM_MAX: u64 = 0x3F_FFFF_FF80;

/// How many bytes a ciphertext is longer than its message.
pub const TAG_LEN: u64 = 16;

/// A message of this many bytes is too long for the stream ciphers.
pub open spec fn exceeds_stream(len: nat) -> bool {
    len > STREAM_MAX
}

/// A ciphertext of this many bytes holds no message of the stream ciphers.
pub open spec fn exceeds_sealed(len: nat) -> bool {
    len > STREAM_MAX + TAG_LEN
}

/// The XChaCha20-Poly1305 ciphertext of a message.
pub uninterp spec fn xchacha_sealed(key: Seq<u8>, nonce: Seq<u8>, message: Seq<u8>) -> Seq<u8>;

/// The message in an XChaCha20-Poly1305 ciphertext, if it is authentic.
pub uninterp spec fn xchacha_opened(key: Seq<u8>, nonce: Seq<u8>, sealed: Seq<u8>) -> Option<
    Seq<u8>,
>;

/// Calls `Aead::encrypt` of `chacha20poly1305::XChaCha20Poly1305`. It fails or panics only on
/// messages that the key stream does not cover. The ciphertext is a function of the arguments, is
/// longer than the message by its tag, and opening it with the same key and nonce gives the
/// message back.
#[verifier::external_body]
pub(crate) fn xchacha_seal(key: &[u8], nonce: &[u8], message: &[u8]) -> (res: Option<Vec<u8>>)
    requires
        key@.len() == 32,
        nonce@.len() == 24,
        !exceeds_stream(message@.len()),
    ensures
        match res {
            Some(sealed) => sealed@ == xchacha_sealed(key@, nonce@, message@) && sealed@.len()
                == message@.len() + TAG_LEN && xchacha_opened(key@, nonce@, sealed@) == Some(
                message@,
            ),
            None => false,
        },
{
    let cipher = chacha20poly1305::XChaCha20Poly1305::new_from_slice(key).ok()?;
    cipher.encrypt(chacha20poly1305::XNonce::from_slice(nonce), message).ok()
}

/// Calls `Aead::decrypt` of `chacha20poly1305::XChaCha20Poly1305`, whose result is a function of
/// the arguments. It panics only on messages that the key stream does not cover.
#[verifier::external_body]
pub(crate) fn xchacha_open(key: &[u8], nonce: &[u8], sealed: &[u8]) -> (res: Option<Vec<u8>>)
    requires
        key@.len() == 32,
        nonce@.len() == 24,
        !exceeds_sealed(sealed@.len()),
    ensures
        match res {
            Some(message) => xchacha_opened(key@, nonce@, sealed@) == Some(message@),
            None => xchacha_opened(key@, nonce@, sealed@) is None,
        },
{
    let cipher = chacha20poly1305::XChaCha20Poly1305::new_from_slice(key).ok()?;
    cipher.decrypt(chacha20poly1305::XNonce::from_slice(nonce), sealed).ok()
}

/// The ChaCha20-Poly1305 ciphertext of a message.
pub uninterp spec fn chacha_sealed(key: Seq<u8>, nonce: Seq<u8>, message: Seq<u8>) -> Seq<u8>;

/// The message in a ChaCha20-Poly1305 ciphertext, if it is authentic.
pub uninterp spec fn chacha_opened(key: Seq<u8>, nonce: Seq<u8>, sealed: Seq<u8>) -> Option<
    Seq<u8>,
>;

/// Calls `Aead::encrypt` of `chacha20poly1305::ChaCha20Poly1305`. It fails or panics only on
/// messages that the key stream does not cover. The ciphertext is a function of the arguments, is
/// longer than the message by its tag, and opening it with the same key and nonce gives the
/// message back.
#[verifier::external_body]
pub(crate) fn chacha_seal(key: &[u8; 32], nonce: &[u8], message: &[u8]) -> (res: Option<Vec<u8>>)
    requires
        nonce@.len() == 12,
        !exceeds_stream(message@.len()),
    ensures
        match res {
            Some(sealed) => sealed@ == chacha_sealed(key@, nonce@, message@) && sealed@.len()
                == message@.len() + TAG_LEN && chacha_opened(key@, nonce@, sealed@) == Some(
                message@,
            ),
            None => false,
        },
{
    let cipher = chacha20poly1305::ChaCha20Poly1305::new(
        chacha20poly1305::Key::from_slice(key),
    );
    cipher.encrypt(chacha20poly1305::Nonce::from_slice(nonce), message).ok()
}

/// Calls `Aead::decrypt` of `chacha20poly1305::ChaCha20Poly1305`, whose result is a function of
/// the arguments. It panics only on messages that the key stream does not cover.
#[verifier::external_body]
pub(crate) fn chacha_open(key: &[u8; 32], nonce: &[u8], sealed: &[u8]) -> (res: Option<Vec<u8>>)
    requires
        nonce@.len() == 12,
        !exceeds_sealed(sealed@.len()),
    ensures
        match res {
            Some(message) => chacha_opened(key@, nonce@, sealed@) == Some(message@),
            None => chacha_opened(key@, nonce@, sealed@) is None,
        },
{
    let cipher = chacha20poly1305::ChaCha20Poly1305::new(
        chacha20poly1305::Key::from_slice(key),
    );
    cipher.decrypt(chacha20poly1305::Nonce::from_slice(nonce), sealed).ok()
}

/// The standard base64 text of a byte string.
pub uninterp spec fn base64_text(bytes: Seq<u8>) -> Seq<char>;

/// The bytes of a standard base64 text, or why it is not one.
pub uninterp spec fn base64_bytes(text: Seq<char>) -> Outcome<Seq<u8>>;

/// Calls `Engine::encode` of `base64` with the standard alphabet and padding. The text is a
/// function of the bytes, and decoding it gives the bytes back. It panics only on inputs whose
/// text would exceed the address space, which no slice can be.
#[verifier::external_body]
pub(crate) fn base64_encode(bytes: &[u8]) -> (res: String)
    ensures
        res@ == base64_text(bytes@),
        base64_bytes(res@) == Outcome::Ok(bytes@),
{
    base64::engine::general_purpose::STANDARD.encode(bytes)
}

/// Calls `Engine::decode` of `base64` with the standard alphabet and padding. The bytes, or the
/// text of the error, are a function of the input.
#[verifier::external_body]
pub(crate) fn base64_decode(text: &str) -> (res: Result<Vec<u8>, String>)
    ensures
        match res {
            Ok(bytes) => base64_bytes(text@) == Outcome::Ok(bytes@),
            Err(reason) => base64_bytes(text@) == Outcome::<Seq<u8>>::Err(reason@),
        },
{
    base64::engine::general_purpose::STANDARD.decode(text).map_err(|err| err.to_string())
}

/// The Ed25519 public key of a secret seed.
pub uninterp spec fn ed25519_public(seed: Seq<u8>) -> Seq<u8>;

/// Whether a byte string encodes an Ed25519 public key.
pub uninterp spec fn ed25519_is_key(public: Seq<u8>) -> bool;

/// The Ed25519 signature of a payload under a secret seed.
pub uninterp spec fn ed25519_signed(seed: Seq<u8>, payload: Seq<u8>) -> Seq<u8>;

/// Whether an Ed25519 signature over a payload is accepted under a public key.
pub uninterp spec fn ed25519_accepts(
    public: Seq<u8>,
    payload: Seq<u8>,
    signature: Seq<u8>,
) -> bool;

/// Calls `ed25519_dalek::SigningKey::from_bytes` and `verifying_key`. The public key is a
/// function of the seed and is a valid encoding.
#[verifier::external_body]
pub(crate) fn ed25519_public_key(seed: &[u8]) -> (res: [u8; 32])
    requires
        seed@.len() == 32,
    ensures
        res@ == ed25519_public(seed@),
        ed25519_is_key(res@),
{
    let mut key = [0u8; 32];
    key.copy_from_slice(seed);
    ed25519_dalek::SigningKey::from_bytes(&key).verifying_key().to_bytes()
}

/// Calls `Signer::sign` of `ed25519_dalek::SigningKey`. The 64 bytes are a function of seed and
/// payload, and the signature is accepted under the public key of the seed.
#[verifier::external_body]
pub(crate) fn ed25519_sign(seed: &[u8], payload: &[u8]) -> (res: [u8; 64])
    requires
        seed@.len() == 32,
    ensures
        res@ == ed25519_signed(seed@, payload@),
        ed25519_accepts(ed25519_public(seed@), payload@, res@),
{
    let mut key = [0u8; 32];
    key.copy_from_slice(seed);
    ed25519_dalek::SigningKey::from_bytes(&key).sign(payload).to_bytes()
}

/// Calls `ed25519_dalek::VerifyingKey::from_bytes`, which succeeds or not as a function of the
/// bytes.
#[verifier::external_body]
pub(crate) fn ed25519_key_is_valid(public: &[u8; 32]) -> (res: bool)
    ensures
        res == ed25519_is_key(public@),
{
    ed25519_dalek::VerifyingKey::from_bytes(public).is_ok()
}

/// Calls `Verifier::verify` of `ed25519_dalek::VerifyingKey`, whose verdict is a function of
/// key, payload and signature.
#[verifier::external_body]
pub(crate) fn ed25519_verify(public: &[u8; 32], payload: &[u8], signature: &[u8; 64]) -> (res: bool)
    requires
        ed25519_is_key(public@),
    ensures
        res == ed25519_accepts(public@, payload@, signature@),
{
    let signature = ed25519_dalek::Signature::from_bytes(signature);
    match ed25519_dalek::VerifyingKey::from_bytes(public) {
        Ok(key) => key.verify(payload, &signature).is_ok(),
        Err(_) => false,
    }
}

/// Calls `RngCore::fill_bytes` of `rand_core::OsRng`, which fills the buffer with random bytes.
/// Nothing is claimed of their values. It panics where the system has no randomness to give.
#[verifier::external_body]
pub(crate) fn random_bytes(len: usize) -> (res: Vec<u8>)
    ensures
        res@.len() == len,
{
    let mut bytes = vec![0u8; len];
    rand_core::OsRng.fill_bytes(&mut bytes);
    bytes
}

/// The canonical text of the peer id that a text denotes, if it denotes one.
pub uninterp spec fn peer_id_text(text: Seq<char>) -> Option<Seq<char>>;

/// Calls `FromStr::from_str` and `Display` of `libp2p_identity::PeerId`. Whether a text denotes
/// a peer id, and which, is a function of the text, and a canonical text denotes itself.
#[verifier::external_body]
pub(crate) fn parse_peer_id(text: &str) -> (res: Option<String>)
    ensures
        match res {
            Some(canonical) => peer_id_text(text@) == Some(canonical@) && peer_id_text(canonical@)
                == Some(canonical@),
            None => peer_id_text(text@) is None,
        },
{
    text.parse::<libp2p_identity::PeerId>().ok().map(|peer| peer.to_string())
}

/// The peer id of an encoded network key, or why the bytes are not a key.
pub uninterp spec fn network_peer_id(key: Seq<u8>) -> Outcome<Seq<char>>;

/// Calls `libp2p_identity::Keypair::generate_ed25519` and `to_protobuf_encoding`. The encoding
/// of a fresh key succeeds, has two fields (a number of one byte and the 64 bytes of the key pair,
/// each behind its header), and decodes to a key with a peer id. Nothing else is claimed of the
/// bytes, which are random.
#[verifier::external_body]
pub(crate) fn generate_network_key() -> (res: Result<Vec<u8>, String>)
    ensures
        match res {
            Ok(key) => key@.len() == 68 && network_peer_id(key@) is Ok,
            Err(_) => false,
        },
{
    libp2p_identity::Keypair::generate_ed25519().to_protobuf_encoding().map_err(
        |err| err.to_string(),
    )
}

/// Calls `libp2p_identity::Keypair::from_protobuf_encoding` and `PeerId::from`. The peer id, or
/// the text of the error, is a function of the bytes, and the peer id is given canonically.
#[verifier::external_body]
pub(crate) fn network_key_peer_id(key: &[u8]) -> (res: Result<String, String>)
    ensures
        match res {
            Ok(peer) => network_peer_id(key@) == Outcome::Ok(peer@) && peer_id_text(
                peer@,
            ) == Some(peer@),
            Err(reason) => network_peer_id(key@) == Outcome::<Seq<char>>::Err(reason@),
        },
{
    match libp2p_identity::Keypair::from_protobuf_encoding(key) {
        Ok(pair) => Ok(libp2p_identity::PeerId::from(pair.public()).to_string()),
        Err(err) => Err(err.to_string()),
    }
}

/// The parts of the multiaddress that a text denotes, if it denotes one: for each protocol its
/// text, and its peer id where the protocol is `/p2p`.
pub uninterp spec fn multiaddr_parts(text: Seq<char>) -> Option<
    Seq<(Seq<char>, Option<Seq<char>>)>,
>;

/// One protocol of a multiaddress.
pub struct AddrPart {
    /// The protocol as it is written, with its leading slash.
    pub text: String,
    /// The peer id of a `/p2p` protocol.
    pub peer: Option<String>,
}

impl View for AddrPart {
    type V = (Seq<char>, Option<Seq<char>>);

    open spec fn view(&self) -> (Seq<char>, Option<Seq<char>>) {
        (self.text@, text::opt_text(self.peer))
    }
}

/// Calls `FromStr::from_str` and `iter` of `libp2p::Multiaddr`, and `Display` of each protocol.
/// Whether a text denotes a multiaddress, and of which parts, is a function of the text; a
/// `/p2p` part is written as `/p2p/` and its canonical peer id.
#[verifier::external_body]
pub(crate) fn parse_multiaddr(text: &str) -> (res: Option<Vec<AddrPart>>)
    ensures
        match res {
            Some(parts) => multiaddr_parts(text@) == Some(
                parts@.map_values(|part: AddrPart| part@),
            ) && forall|i: int|
                0 <= i < parts@.len() ==> match (#[trigger] parts@[i])@.1 {
                    Some(peer) => peer_id_text(peer) == Some(peer) && parts@[i]@.0 == "/p2p/"@
                        + peer,
                    None => true,
                },
            None => multiaddr_parts(text@) is None,
        },
{
    let addr = text.parse::<libp2p::Multiaddr>().ok()?;
    let part = |protocol: libp2p::multiaddr::Protocol| AddrPart {
        text: protocol.to_string(),
        peer: match protocol {
            libp2p::multiaddr::Protocol::P2p(peer) => Some(peer.to_string()),
            _ => None,
        },
    };
    Some(addr.iter().map(part).collect())
}

/// The debug rendering of an optional text.
pub uninterp spec fn debug_text(text: Option<Seq<char>>) -> Seq<char>;

/// Formats with `Debug` of `Option<String>`, whose text is a function of the value.
#[verifier::external_body]
pub(crate) fn debug_opt(text: &Option<String>) -> (res: String)
    ensures
        res@ == debug_text(text::opt_text(*text)),
{
    format!("{text:?}")
}

} // verus!
