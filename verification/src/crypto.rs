//! Key derivation, encrypted files and messages, fingerprints and signatures.

use crate::codec;
use crate::codec::Field;
use crate::codec::Record;
use crate::primitives;
use crate::primitives::argon2id;
use crate::primitives::base64_decode;
use crate::primitives::base64_encode;
use crate::primitives::blake3_derive_key;
use crate::primitives::blake3_hash;
use crate::primitives::chacha_open;
use crate::primitives::chacha_seal;
use crate::primitives::ed25519_key_is_valid;
use crate::primitives::ed25519_public_key;
use crate::primitives::ed25519_sign;
use crate::primitives::ed25519_verify;
use crate::primitives::KdfFailure;
use crate::primitives::KdfFailureView;
use crate::primitives::Outcome;
use crate::primitives::random_bytes;
use crate::primitives::SecretBytes;
use crate::primitives::STREAM_MAX;
use crate::primitives::TAG_LEN;
use crate::primitives::xchacha_open;
use crate::primitives::xchacha_seal;
use crate::text;
use crate::text::cat2;
use crate::text::cat4;
use crate::text::colon_hex_text;
use crate::text::copy_bytes;
use crate::text::count_text;
use crate::text::decimal_text;
use vstd::prelude::*;
use vstd::utf8::*;

verus! {

/// The largest Argon2id memory cost that is accepted from a key file.
pub const MAX_ARGON2_MEMORY_COST_KIB: u32 = 262_144;

/// The largest Argon2id time cost that is accepted from a key file.
pub const MAX_ARGON2_TIME_COST: u32 = 10;

/// The largest Argon2id parallelism that is accepted from a key file.
pub const MAX_ARGON2_PARALLELISM: u32 = 8;

/// The length of every derived key.
pub const EXPECTED_KEY_OUTPUT_LEN: usize = 32;

/// The memory cost for room passphrases.
pub const ROOM_ARGON2_MEMORY_COST_KIB: u32 = 65_536;

/// The time cost for room passphrases.
pub const ROOM_ARGON2_TIME_COST: u32 = 3;

/// The parallelism for room passphrases.
pub const ROOM_ARGON2_PARALLELISM: u32 = 1;

/// A private key encrypted under a password.
#[derive(Debug, Clone, PartialEq, Eq)]
pub struct EncryptedPrivateKeyFile {
    pub version: u32,
    pub kdf: String,
    pub kdf_params: Argon2idParams,
    pub salt_b64: String,
    pub nonce_b64: String,
    pub ciphertext_b64: String,
}

/// The plain values held by a [`EncryptedPrivateKeyFile`].
#[verifier::ext_equal]
pub struct EncryptedPrivateKeyFileView {
    pub version: u32,
    pub kdf: Seq<char>,
    pub kdf_params: Argon2idParamsView,
    pub salt_b64: Seq<char>,
    pub nonce_b64: Seq<char>,
    pub ciphertext_b64: Seq<char>,
}

impl View for EncryptedPrivateKeyFile {
    type V = EncryptedPrivateKeyFileView;

    open spec fn view(&self) -> EncryptedPrivateKeyFileView {
        EncryptedPrivateKeyFileView {
            version: self.version,
            kdf: self.kdf@,
            kdf_params: self.kdf_params@,
            salt_b64: self.salt_b64@,
            nonce_b64: self.nonce_b64@,
            ciphertext_b64: self.ciphertext_b64@,
        }
    }
}

/// The Argon2id settings of an encrypted file.
#[derive(Debug, Clone, PartialEq, Eq)]
pub struct Argon2idParams {
    /// Memory cost in KiB.
    pub memory_cost_kib: u32,
    /// Number of iterations.
    pub time_cost: u32,
    /// Degree of parallelism.
    pub parallelism: u32,
    /// Output key length in bytes.
    pub output_len: usize,
}

/// The plain values held by a [`Argon2idParams`].
#[verifier::ext_equal]
pub struct Argon2idParamsView {
    pub memory_cost_kib: u32,
    pub time_cost: u32,
    pub parallelism: u32,
    pub output_len: usize,
}

impl View for Argon2idParams {
    type V = Argon2idParamsView;

    open spec fn view(&self) -> Argon2idParamsView {
        Argon2idParamsView {
            memory_cost_kib: self.memory_cost_kib,
            time_cost: self.time_cost,
            parallelism: self.parallelism,
            output_len: self.output_len,
        }
    }
}

/// The settings for new files.
pub open spec fn default_params() -> Argon2idParamsView {
    Argon2idParamsView {
        memory_cost_kib: 65_536,
        time_cost: 3,
        parallelism: 1,
        output_len: 32,
    }
}

/// The settings for room passphrases.
pub open spec fn room_params() -> Argon2idParamsView {
    Argon2idParamsView {
        memory_cost_kib: ROOM_ARGON2_MEMORY_COST_KIB,
        time_cost: ROOM_ARGON2_TIME_COST,
        parallelism: ROOM_ARGON2_PARALLELISM,
        output_len: EXPECTED_KEY_OUTPUT_LEN,
    }
}

impl Default for Argon2idParams {
    /// The settings for new files.
    fn default() -> (res: Self)
        ensures
            res@ == default_params(),
    {
        Argon2idParams { memory_cost_kib: 65_536, time_cost: 3, parallelism: 1, output_len: 32 }
    }
}

/// What can go wrong in this module.
#[derive(Debug, Clone, PartialEq, Eq)]
pub enum CryptoError {
    InvalidArgon2Params(String),
    Argon2(String),
    Encrypt,
    Decrypt,
    Base64 { field: &'static str, source: String },
    InvalidNonceLength { expected: usize, actual: usize },
    InvalidSaltLength(usize),
    InvalidRoomKeyLength(usize),
    InvalidPublicKeyLength(usize),
    InvalidSignatureLength(usize),
    SignatureVerification,
}

/// The plain values held by a [`CryptoError`].
#[verifier::ext_equal]
pub enum CryptoErrorView {
    InvalidArgon2Params(Seq<char>),
    Argon2(Seq<char>),
    Encrypt,
    Decrypt,
    Base64 { field: Seq<char>, source: Seq<char> },
    InvalidNonceLength { expected: usize, actual: usize },
    InvalidSaltLength(usize),
    InvalidRoomKeyLength(usize),
    InvalidPublicKeyLength(usize),
    InvalidSignatureLength(usize),
    SignatureVerification,
}

impl View for CryptoError {
    type V = CryptoErrorView;

    open spec fn view(&self) -> CryptoErrorView {
        match *self {
            CryptoError::InvalidArgon2Params(x0) => CryptoErrorView::InvalidArgon2Params(x0@),
            CryptoError::Argon2(x0) => CryptoErrorView::Argon2(x0@),
            CryptoError::Encrypt => CryptoErrorView::Encrypt,
            CryptoError::Decrypt => CryptoErrorView::Decrypt,
            CryptoError::Base64 { field, source } => CryptoErrorView::Base64 { field: field@, source: source@ },
            CryptoError::InvalidNonceLength { expected, actual } => CryptoErrorView::InvalidNonceLength { expected: expected, actual: actual },
            CryptoError::InvalidSaltLength(x0) => CryptoErrorView::InvalidSaltLength(x0),
            CryptoError::InvalidRoomKeyLength(x0) => CryptoErrorView::InvalidRoomKeyLength(x0),
            CryptoError::InvalidPublicKeyLength(x0) => CryptoErrorView::InvalidPublicKeyLength(x0),
            CryptoError::InvalidSignatureLength(x0) => CryptoErrorView::InvalidSignatureLength(x0),
            CryptoError::SignatureVerification => CryptoErrorView::SignatureVerification,
        }
    }
}

/// What a cryptographic error says.
pub open spec fn crypto_error_text(e: CryptoErrorView) -> Seq<char> {
    match e {
        CryptoErrorView::InvalidArgon2Params(reason) => "invalid argon2 parameters: "@ + reason,
        CryptoErrorView::Argon2(reason) => "argon2 key derivation failed: "@ + reason,
        CryptoErrorView::Encrypt => "encryption failed"@,
        CryptoErrorView::Decrypt =>
            "decryption failed; wrong password or corrupted key file/message"@,
        CryptoErrorView::Base64 { field, source } => "invalid base64 field "@ + field + ": "@
            + source,
        CryptoErrorView::InvalidNonceLength { expected, actual } =>
            "invalid nonce length: expected "@ + text::decimal(expected as nat) + " bytes, got "@
            + text::decimal(actual as nat),
        CryptoErrorView::InvalidSaltLength(n) => "invalid salt length: expected 16 bytes, got "@
            + text::decimal(n as nat),
        CryptoErrorView::InvalidRoomKeyLength(n) =>
            "invalid room key length: expected 32 bytes, got "@ + text::decimal(n as nat),
        CryptoErrorView::InvalidPublicKeyLength(n) =>
            "invalid Ed25519 public key length: expected 32 bytes, got "@ + text::decimal(n as nat),
        CryptoErrorView::InvalidSignatureLength(n) =>
            "invalid Ed25519 signature length: expected 64 bytes, got "@ + text::decimal(n as nat),
        CryptoErrorView::SignatureVerification => "Ed25519 signature verification failed"@,
    }
}

impl CryptoError {
    /// What this error says.
    pub fn message(&self) -> (res: String)
        ensures
            res@ == crypto_error_text(self@),
    {
        match self {
            CryptoError::InvalidArgon2Params(reason) => cat2(
                "invalid argon2 parameters: ",
                reason.as_str(),
            ),
            CryptoError::Argon2(reason) => cat2("argon2 key derivation failed: ", reason.as_str()),
            CryptoError::Encrypt => "encryption failed".to_owned(),
            CryptoError::Decrypt =>
                "decryption failed; wrong password or corrupted key file/message".to_owned(),
            CryptoError::Base64 { field, source } => cat4(
                "invalid base64 field ",
                field,
                ": ",
                source.as_str(),
            ),
            CryptoError::InvalidNonceLength { expected, actual } => cat4(
                "invalid nonce length: expected ",
                count_text(*expected).as_str(),
                " bytes, got ",
                count_text(*actual).as_str(),
            ),
            CryptoError::InvalidSaltLength(n) => cat2(
                "invalid salt length: expected 16 bytes, got ",
                count_text(*n).as_str(),
            ),
            CryptoError::InvalidRoomKeyLength(n) => cat2(
                "invalid room key length: expected 32 bytes, got ",
                count_text(*n).as_str(),
            ),
            CryptoError::InvalidPublicKeyLength(n) => cat2(
                "invalid Ed25519 public key length: expected 32 bytes, got ",
                count_text(*n).as_str(),
            ),
            CryptoError::InvalidSignatureLength(n) => cat2(
                "invalid Ed25519 signature length: expected 64 bytes, got ",
                count_text(*n).as_str(),
            ),
            CryptoError::SignatureVerification =>
                "Ed25519 signature verification failed".to_owned(),
        }
    }
}

/// What the outcome of a fallible operation is in terms of plain values.
pub type CryptoOutcome = Result<Seq<u8>, CryptoErrorView>;

/// Why KDF settings are refused before any memory is allocated, if they are.
pub open spec fn params_error(p: Argon2idParamsView) -> Option<Seq<char>> {
    if p.output_len != EXPECTED_KEY_OUTPUT_LEN {
        Some("output_len must be 32, got "@ + text::decimal(p.output_len as nat))
    } else if p.memory_cost_kib == 0 || p.memory_cost_kib > MAX_ARGON2_MEMORY_COST_KIB {
        Some(
            "memory_cost_kib must be between 1 and 262144, got "@ + text::decimal(
                p.memory_cost_kib as nat,
            ),
        )
    } else if p.time_cost == 0 || p.time_cost > MAX_ARGON2_TIME_COST {
        Some("time_cost must be between 1 and 10, got "@ + text::decimal(p.time_cost as nat))
    } else if p.parallelism == 0 || p.parallelism > MAX_ARGON2_PARALLELISM {
        Some("parallelism must be between 1 and 8, got "@ + text::decimal(p.parallelism as nat))
    } else {
        None
    }
}

/// Refuse KDF settings that ask for too much or for nothing.
pub fn validate_argon2id_params(params: &Argon2idParams) -> (res: Result<(), CryptoError>)
    ensures
        match res {
            Ok(_) => params_error(params@) is None,
            Err(e) => params_error(params@) is Some && e@ == CryptoErrorView::InvalidArgon2Params(
                params_error(params@)->0,
            ),
        },
{
    if params.output_len != EXPECTED_KEY_OUTPUT_LEN {
        return Err(
            CryptoError::InvalidArgon2Params(
                cat2("output_len must be 32, got ", count_text(params.output_len).as_str()),
            ),
        );
    }
    if params.memory_cost_kib == 0 || params.memory_cost_kib > MAX_ARGON2_MEMORY_COST_KIB {
        return Err(
            CryptoError::InvalidArgon2Params(
                cat2(
                    "memory_cost_kib must be between 1 and 262144, got ",
                    decimal_text(params.memory_cost_kib as u64).as_str(),
                ),
            ),
        );
    }
    if params.time_cost == 0 || params.time_cost > MAX_ARGON2_TIME_COST {
        return Err(
            CryptoError::InvalidArgon2Params(
                cat2(
                    "time_cost must be between 1 and 10, got ",
                    decimal_text(params.time_cost as u64).as_str(),
                ),
            ),
        );
    }
    if params.parallelism == 0 || params.parallelism > MAX_ARGON2_PARALLELISM {
        return Err(
            CryptoError::InvalidArgon2Params(
                cat2(
                    "parallelism must be between 1 and 8, got ",
                    decimal_text(params.parallelism as u64).as_str(),
                ),
            ),
        );
    }
    Ok(())
}

/// Accepted KDF settings stay within the caps on memory, time and parallelism.
pub proof fn law_kdf_caps(p: Argon2idParamsView)
    requires
        params_error(p) is None,
    ensures
        1 <= p.memory_cost_kib <= 262_144,
        1 <= p.time_cost <= 10,
        1 <= p.parallelism <= 8,
        p.output_len == 32,
{
}

/// The key that a password and a salt give under some settings, or why they give none.
pub open spec fn derived_key(
    password: Seq<char>,
    salt: Seq<u8>,
    p: Argon2idParamsView,
) -> CryptoOutcome {
    match params_error(p) {
        Some(reason) => Err(CryptoErrorView::InvalidArgon2Params(reason)),
        None => match primitives::kdf_refusal(encode_utf8(password), salt, p.memory_cost_kib, p.parallelism) {
            Some(KdfFailureView::Params(reason)) => Err(
                CryptoErrorView::InvalidArgon2Params(reason),
            ),
            Some(KdfFailureView::Hash(reason)) => Err(CryptoErrorView::Argon2(reason)),
            None => Ok(
                primitives::argon2id_key(
                    encode_utf8(password),
                    salt,
                    p.memory_cost_kib,
                    p.time_cost,
                    p.parallelism,
                    p.output_len,
                ),
            ),
        },
    }
}

/// Derive a key from a password and a salt.
pub fn derive_key(password: &str, salt: &[u8], params: &Argon2idParams) -> (res: Result<
    SecretBytes,
    CryptoError,
>)
    ensures
        match res {
            Ok(key) => derived_key(password@, salt@, params@) == CryptoOutcome::Ok(key@)
                && key@.len() == 32,
            Err(e) => derived_key(password@, salt@, params@) == CryptoOutcome::Err(e@),
        },
{
    match validate_argon2id_params(params) {
        Ok(_) => {},
        Err(e) => return Err(e),
    }
    match argon2id(
        password.as_bytes(),
        salt,
        params.memory_cost_kib,
        params.time_cost,
        params.parallelism,
        params.output_len,
    ) {
        Ok(key) => Ok(SecretBytes::new(key)),
        Err(KdfFailure::Params(reason)) => Err(CryptoError::InvalidArgon2Params(reason)),
        Err(KdfFailure::Hash(reason)) => Err(CryptoError::Argon2(reason)),
    }
}

/// Why a private key cannot be encrypted under a password, if it cannot.
pub open spec fn sealing_error(plaintext: Seq<u8>, password: Seq<char>) -> Option<
    CryptoErrorView,
> {
    if encode_utf8(password).len() > 0xFFFF_FFFF {
        Some(CryptoErrorView::Argon2("password is too long"@))
    } else if primitives::exceeds_stream(plaintext.len()) {
        Some(CryptoErrorView::Encrypt)
    } else {
        None
    }
}

/// The encrypted file of a private key for a given salt and nonce.
pub open spec fn sealed_private_key(
    plaintext: Seq<u8>,
    password: Seq<char>,
    salt: Seq<u8>,
    nonce: Seq<u8>,
) -> EncryptedPrivateKeyFileView {
    EncryptedPrivateKeyFileView {
        version: 1,
        kdf: "argon2id"@,
        kdf_params: default_params(),
        salt_b64: primitives::base64_text(salt),
        nonce_b64: primitives::base64_text(nonce),
        ciphertext_b64: primitives::base64_text(
            primitives::xchacha_sealed(
                primitives::argon2id_key(encode_utf8(password), salt, 65_536, 3, 1, 32),
                nonce,
                plaintext,
            ),
        ),
    }
}

/// Encrypt private key bytes under a password with a given salt and nonce.
pub fn seal_private_key(plaintext: &[u8], password: &str, salt: &[u8], nonce: &[u8]) -> (res: Result<
    EncryptedPrivateKeyFile,
    CryptoError,
>)
    requires
        salt@.len() == 16,
        nonce@.len() == 24,
    ensures
        match res {
            Ok(file) => sealing_error(plaintext@, password@) is None && file@
                == sealed_private_key(plaintext@, password@, salt@, nonce@) && opened_private_key(
                file@,
                password@,
            ) == CryptoOutcome::Ok(plaintext@),
            Err(e) => sealing_error(plaintext@, password@) == Some(e@),
        },
{
    let params = Argon2idParams::default();
    let key = match derive_key(password, salt, &params) {
        Ok(key) => key,
        Err(e) => return Err(e),
    };
    if plaintext.len() as u64 > STREAM_MAX {
        return Err(CryptoError::Encrypt);
    }
    match xchacha_seal(key.as_slice(), nonce, plaintext) {
        Some(sealed) => Ok(
            EncryptedPrivateKeyFile {
                version: 1,
                kdf: "argon2id".to_owned(),
                kdf_params: params,
                salt_b64: base64_encode(salt),
                nonce_b64: base64_encode(nonce),
                ciphertext_b64: base64_encode(sealed.as_slice()),
            },
        ),
        None => Err(CryptoError::Encrypt),
    }
}

/// Encrypt private key bytes with Argon2id and XChaCha20-Poly1305 under a fresh salt and nonce.
///
/// Decrypting the file under the same password gives the bytes back.
pub fn encrypt_private_key(plaintext: &[u8], password: &str) -> (res: Result<
    EncryptedPrivateKeyFile,
    CryptoError,
>)
    ensures
        match res {
            Ok(file) => sealing_error(plaintext@, password@) is None && (exists|
                salt: Seq<u8>,
                nonce: Seq<u8>,
            |
                salt.len() == 16 && nonce.len() == 24 && file@ == #[trigger] sealed_private_key(
                    plaintext@,
                    password@,
                    salt,
                    nonce,
                )) && opened_private_key(file@, password@) == CryptoOutcome::Ok(plaintext@),
            Err(e) => sealing_error(plaintext@, password@) == Some(e@),
        },
{
    let salt = random_bytes(16);
    let nonce = random_bytes(24);
    seal_private_key(plaintext, password, salt.as_slice(), nonce.as_slice())
}

/// What decrypting a private key file under a password gives.
pub open spec fn opened_private_key(
    file: EncryptedPrivateKeyFileView,
    password: Seq<char>,
) -> CryptoOutcome {
    match primitives::base64_bytes(file.salt_b64) {
        Err(source) => Err(CryptoErrorView::Base64 { field: "salt_b64"@, source }),
        Ok(salt) => if salt.len() != 16 {
            Err(CryptoErrorView::InvalidSaltLength(salt.len() as usize))
        } else {
            match primitives::base64_bytes(file.nonce_b64) {
                Err(source) => Err(CryptoErrorView::Base64 { field: "nonce_b64"@, source }),
                Ok(nonce) => if nonce.len() != 24 {
                    Err(
                        CryptoErrorView::InvalidNonceLength {
                            expected: 24,
                            actual: nonce.len() as usize,
                        },
                    )
                } else {
                    match primitives::base64_bytes(file.ciphertext_b64) {
                        Err(source) => Err(
                            CryptoErrorView::Base64 { field: "ciphertext_b64"@, source },
                        ),
                        Ok(sealed) => match derived_key(password, salt, file.kdf_params) {
                            Err(e) => Err(e),
                            Ok(key) => if primitives::exceeds_sealed(sealed.len()) {
                                Err(CryptoErrorView::Decrypt)
                            } else {
                                match primitives::xchacha_opened(key, nonce, sealed) {
                                    Some(plaintext) => Ok(plaintext),
                                    None => Err(CryptoErrorView::Decrypt),
                                }
                            },
                        },
                    }
                },
            }
        },
    }
}

/// Decrypt private key bytes.
pub fn decrypt_private_key(file: &EncryptedPrivateKeyFile, password: &str) -> (res: Result<
    SecretBytes,
    CryptoError,
>)
    ensures
        match res {
            Ok(plaintext) => opened_private_key(file@, password@) == CryptoOutcome::Ok(plaintext@),
            Err(e) => opened_private_key(file@, password@) == CryptoOutcome::Err(e@),
        },
{
    let salt = match base64_decode(file.salt_b64.as_str()) {
        Ok(salt) => salt,
        Err(source) => return Err(CryptoError::Base64 { field: "salt_b64", source }),
    };
    if salt.len() != 16 {
        return Err(CryptoError::InvalidSaltLength(salt.len()));
    }
    let nonce = match base64_decode(file.nonce_b64.as_str()) {
        Ok(nonce) => nonce,
        Err(source) => return Err(CryptoError::Base64 { field: "nonce_b64", source }),
    };
    if nonce.len() != 24 {
        return Err(CryptoError::InvalidNonceLength { expected: 24, actual: nonce.len() });
    }
    let sealed = match base64_decode(file.ciphertext_b64.as_str()) {
        Ok(sealed) => sealed,
        Err(source) => return Err(CryptoError::Base64 { field: "ciphertext_b64", source }),
    };
    let key = match derive_key(password, salt.as_slice(), &file.kdf_params) {
        Ok(key) => key,
        Err(e) => return Err(e),
    };
    if sealed.len() as u64 > STREAM_MAX + TAG_LEN {
        return Err(CryptoError::Decrypt);
    }
    match xchacha_open(key.as_slice(), nonce.as_slice(), sealed.as_slice()) {
        Some(plaintext) => Ok(SecretBytes::new(plaintext)),
        None => Err(CryptoError::Decrypt),
    }
}

/// Copy 32 bytes into an array.
pub fn to_array32(bytes: &[u8]) -> (res: [u8; 32])
    requires
        bytes@.len() == 32,
    ensures
        res@ == bytes@,
{
    let mut res = [0u8; 32];
    let mut i: usize = 0;
    while i < 32
        invariant
            i <= 32,
            bytes@.len() == 32,
            forall|j: int| 0 <= j < i ==> res@[j] == bytes@[j],
        decreases 32 - i,
    {
        res[i] = bytes[i];
        i = i + 1;
    }
    assert(res@ =~= bytes@);
    res
}

/// Copy 64 bytes into an array.
fn to_array64(bytes: &[u8]) -> (res: [u8; 64])
    requires
        bytes@.len() == 64,
    ensures
        res@ == bytes@,
{
    let mut res = [0u8; 64];
    let mut i: usize = 0;
    while i < 64
        invariant
            i <= 64,
            bytes@.len() == 64,
            forall|j: int| 0 <= j < i ==> res@[j] == bytes@[j],
        decreases 64 - i,
    {
        res[i] = bytes[i];
        i = i + 1;
    }
    assert(res@ =~= bytes@);
    res
}

/// Copy 12 bytes into an array.
fn to_array12(bytes: &[u8]) -> (res: [u8; 12])
    requires
        bytes@.len() == 12,
    ensures
        res@ == bytes@,
{
    let mut res = [0u8; 12];
    let mut i: usize = 0;
    while i < 12
        invariant
            i <= 12,
            bytes@.len() == 12,
            forall|j: int| 0 <= j < i ==> res@[j] == bytes@[j],
        decreases 12 - i,
    {
        res[i] = bytes[i];
        i = i + 1;
    }
    assert(res@ =~= bytes@);
    res
}

/// The salt for the passphrase of a room.
pub open spec fn room_salt(room_id: Seq<char>) -> Seq<u8> {
    primitives::blake3_derived("DOGEL_ROOM_ARGON2_SALT_V1"@, encode_utf8(room_id)).subrange(0, 16)
}

/// The key of a room that is joined by passphrase.
pub open spec fn passphrase_room_key(room_id: Seq<char>, passphrase: Seq<char>) -> CryptoOutcome {
    derived_key(passphrase, room_salt(room_id), room_params())
}

/// Derive the key of a room from its id and a shared passphrase.
///
/// Both peers derive the same key, because the salt is a function of the room id.
pub fn derive_room_key(room_id: &str, passphrase: &str) -> (res: Result<[u8; 32], CryptoError>)
    ensures
        match res {
            Ok(key) => passphrase_room_key(room_id@, passphrase@) == CryptoOutcome::Ok(key@),
            Err(e) => passphrase_room_key(room_id@, passphrase@) == CryptoOutcome::Err(e@),
        },
        res is Err <==> encode_utf8(passphrase@).len() > 0xFFFF_FFFF,
{
    let hash = blake3_derive_key("DOGEL_ROOM_ARGON2_SALT_V1", room_id.as_bytes());
    let salt = vstd::slice::slice_subrange(hash.as_slice(), 0, 16);
    let params = Argon2idParams {
        memory_cost_kib: ROOM_ARGON2_MEMORY_COST_KIB,
        time_cost: ROOM_ARGON2_TIME_COST,
        parallelism: ROOM_ARGON2_PARALLELISM,
        output_len: EXPECTED_KEY_OUTPUT_LEN,
    };
    match derive_key(passphrase, salt, &params) {
        Ok(key) => Ok(to_array32(key.as_slice())),
        Err(e) => Err(e),
    }
}

/// Generate a random 256-bit room key. Nothing is claimed of its value.
pub fn generate_random_room_key() -> (res: [u8; 32])
    ensures
        res@.len() == 32,
{
    let bytes = random_bytes(32);
    to_array32(bytes.as_slice())
}

/// The fields that a bound room key depends on, besides the seed.
pub open spec fn bound_key_fields(
    room_id: Seq<char>,
    peers: Seq<Seq<char>>,
    version: u32,
) -> Seq<Field> {
    seq![Field::Text(room_id), Field::List(peers), Field::Number(version)]
}

/// The material of a bound room key.
pub open spec fn bound_key_material(
    room_id: Seq<char>,
    peers: Seq<Seq<char>>,
    seed: Seq<u8>,
    version: u32,
) -> Seq<u8> {
    seed + codec::record_bytes(bound_key_fields(room_id, peers, version))
}

/// The key of an invite-created room.
pub open spec fn bound_room_key(
    room_id: Seq<char>,
    peers: Seq<Seq<char>>,
    seed: Seq<u8>,
    version: u32,
) -> Seq<u8> {
    primitives::blake3_derived(
        "DOGEL_BOUND_ROOM_KEY_V1"@,
        bound_key_material(room_id, peers, seed, version),
    )
}

/// Derive the key of an invite-created room from its id, its signed peer list, its seed and the
/// protocol version.
pub fn derive_bound_room_key(
    room_id: &str,
    peers: &Vec<String>,
    seed: &[u8; 32],
    version: u32,
) -> (res: [u8; 32])
    ensures
        res@ == bound_room_key(room_id@, text::texts(peers@), seed@, version),
{
    let record = Record::new().put_text(room_id).put_list(peers).put_u32(version);
    assert(record@ =~= bound_key_fields(room_id@, text::texts(peers@), version));
    let fields = record.into_bytes();
    let mut material = copy_bytes(seed.as_slice());
    material.extend_from_slice(fields.as_slice());
    assert(material@ =~= bound_key_material(room_id@, text::texts(peers@), seed@, version));
    blake3_derive_key("DOGEL_BOUND_ROOM_KEY_V1", material.as_slice())
}

/// The key of an invite-created room is bound to room id, peer list, seed and protocol version:
/// two choices of them give the same key material only if they are the same.
pub proof fn law_bound_key_material_injective(
    room_a: Seq<char>,
    peers_a: Seq<Seq<char>>,
    seed_a: Seq<u8>,
    version_a: u32,
    room_b: Seq<char>,
    peers_b: Seq<Seq<char>>,
    seed_b: Seq<u8>,
    version_b: u32,
)
    requires
        seed_a.len() == 32,
        seed_b.len() == 32,
        bound_key_material(room_a, peers_a, seed_a, version_a) == bound_key_material(
            room_b,
            peers_b,
            seed_b,
            version_b,
        ),
    ensures
        room_a == room_b,
        peers_a == peers_b,
        seed_a == seed_b,
        version_a == version_b,
{
    let x = bound_key_fields(room_a, peers_a, version_a);
    let y = bound_key_fields(room_b, peers_b, version_b);
    codec::lemma_same_front(seed_a, seed_b, codec::record_bytes(x), codec::record_bytes(y));
    codec::law_record_bytes_injective(x, y);
    assert(x[0] == y[0] && x[1] == y[1] && x[2] == y[2]);
}

/// A display fingerprint: the first eight bytes of the BLAKE3 hash.
pub open spec fn fingerprint(bytes: Seq<u8>) -> Seq<char> {
    text::colon_hex(primitives::blake3_hashed(bytes).subrange(0, 8))
}

/// The display fingerprint of a signing public key.
pub fn fingerprint_from_public_key(public_key: &[u8]) -> (res: String)
    ensures
        res@ == fingerprint(public_key@),
{
    let hash = blake3_hash(public_key);
    colon_hex_text(vstd::slice::slice_subrange(hash.as_slice(), 0, 8))
}

/// The display fingerprint of a room key.
pub fn room_key_fingerprint(room_key: &[u8; 32]) -> (res: String)
    ensures
        res@ == fingerprint(room_key@),
{
    fingerprint_from_public_key(room_key.as_slice())
}

/// Encrypt a room message under a given nonce.
pub fn seal_room_message(room_key: &[u8; 32], nonce: &[u8], plaintext: &[u8]) -> (res: Result<
    Vec<u8>,
    CryptoError,
>)
    requires
        nonce@.len() == 12,
    ensures
        match res {
            Ok(sealed) => !primitives::exceeds_stream(plaintext@.len()) && sealed@ == primitives::chacha_sealed(
                room_key@,
                nonce@,
                plaintext@,
            ) && opened_room_message(room_key@, nonce@, sealed@) == CryptoOutcome::Ok(plaintext@),
            Err(e) => primitives::exceeds_stream(plaintext@.len()) && e@ == CryptoErrorView::Encrypt,
        },
{
    if plaintext.len() as u64 > STREAM_MAX {
        return Err(CryptoError::Encrypt);
    }
    match chacha_seal(room_key, nonce, plaintext) {
        Some(sealed) => Ok(sealed),
        None => Err(CryptoError::Encrypt),
    }
}

/// Encrypt a room message with ChaCha20-Poly1305 under a fresh nonce.
///
/// Decrypting the result under the same key gives the message back.
pub fn encrypt_room_message(room_key: &[u8; 32], plaintext: &[u8]) -> (res: Result<
    ([u8; 12], Vec<u8>),
    CryptoError,
>)
    ensures
        match res {
            Ok((nonce, sealed)) => !primitives::exceeds_stream(plaintext@.len()) && sealed@ == primitives::chacha_sealed(room_key@, nonce@, plaintext@) && opened_room_message(
                room_key@,
                nonce@,
                sealed@,
            ) == CryptoOutcome::Ok(plaintext@),
            Err(e) => primitives::exceeds_stream(plaintext@.len()) && e@ == CryptoErrorView::Encrypt,
        },
{
    let nonce = random_bytes(12);
    match seal_room_message(room_key, nonce.as_slice(), plaintext) {
        Ok(sealed) => Ok((to_array12(nonce.as_slice()), sealed)),
        Err(e) => Err(e),
    }
}

/// What decrypting a room message gives.
pub open spec fn opened_room_message(
    room_key: Seq<u8>,
    nonce: Seq<u8>,
    sealed: Seq<u8>,
) -> CryptoOutcome {
    if nonce.len() != 12 {
        Err(CryptoErrorView::InvalidNonceLength { expected: 12, actual: nonce.len() as usize })
    } else if primitives::exceeds_sealed(sealed.len()) {
        Err(CryptoErrorView::Decrypt)
    } else {
        match primitives::chacha_opened(room_key, nonce, sealed) {
            Some(plaintext) => Ok(plaintext),
            None => Err(CryptoErrorView::Decrypt),
        }
    }
}

/// Decrypt a room message.
pub fn decrypt_room_message(room_key: &[u8; 32], nonce: &[u8], sealed: &[u8]) -> (res: Result<
    Vec<u8>,
    CryptoError,
>)
    ensures
        match res {
            Ok(plaintext) => opened_room_message(room_key@, nonce@, sealed@) == CryptoOutcome::Ok(
                plaintext@,
            ),
            Err(e) => opened_room_message(room_key@, nonce@, sealed@) == CryptoOutcome::Err(e@),
        },
{
    if nonce.len() != 12 {
        return Err(CryptoError::InvalidNonceLength { expected: 12, actual: nonce.len() });
    }
    if sealed.len() as u64 > STREAM_MAX + TAG_LEN {
        return Err(CryptoError::Decrypt);
    }
    match chacha_open(room_key, nonce, sealed) {
        Some(plaintext) => Ok(plaintext),
        None => Err(CryptoError::Decrypt),
    }
}

/// The seed of a signing key.
pub type SigningKeyView = Seq<u8>;

/// An Ed25519 signing key, held as its seed.
pub struct SigningKey {
    seed: SecretBytes,
}

impl View for SigningKey {
    type V = SigningKeyView;

    closed spec fn view(&self) -> SigningKeyView {
        self.seed@
    }
}

impl SigningKey {
    #[verifier::type_invariant]
    spec fn sized(self) -> bool {
        self.seed@.len() == 32
    }

    /// The key with a given seed.
    pub fn from_seed(seed: SecretBytes) -> (res: SigningKey)
        requires
            seed@.len() == 32,
        ensures
            res@ == seed@,
    {
        SigningKey { seed }
    }

    /// The public key that verifies signatures of this key.
    pub fn public_key(&self) -> (res: [u8; 32])
        ensures
            res@ == primitives::ed25519_public(self@),
            primitives::ed25519_is_key(res@),
    {
        proof {
            use_type_invariant(self);
        }
        ed25519_public_key(self.seed.as_slice())
    }

    /// Encrypt the seed of this key under a password.
    pub fn sealed(&self, password: &str) -> (res: Result<EncryptedPrivateKeyFile, CryptoError>)
        ensures
            match res {
                Ok(file) => sealing_error(self@, password@) is None && opened_private_key(
                    file@,
                    password@,
                ) == CryptoOutcome::Ok(self@),
                Err(e) => sealing_error(self@, password@) == Some(e@),
            },
            self@.len() == 32,
    {
        proof {
            use_type_invariant(self);
        }
        encrypt_private_key(self.seed.as_slice(), password)
    }

    /// Copy this key.
    pub fn duplicate(&self) -> (res: SigningKey)
        ensures
            res@ == self@,
    {
        proof {
            use_type_invariant(self);
        }
        SigningKey { seed: self.seed.duplicate() }
    }
}

/// Sign a payload.
///
/// The signature is accepted under the public key of the signing key.
pub fn sign_bytes(key: &SigningKey, payload: &[u8]) -> (res: Vec<u8>)
    ensures
        res@ == primitives::ed25519_signed(key@, payload@),
        res@.len() == 64,
        primitives::ed25519_accepts(primitives::ed25519_public(key@), payload@, res@),
{
    proof {
        use_type_invariant(key);
    }
    let signature = ed25519_sign(key.seed.as_slice(), payload);
    copy_bytes(signature.as_slice())
}

/// Why a signature is refused, if it is.
pub open spec fn signature_error(
    public_key: Seq<u8>,
    payload: Seq<u8>,
    signature: Seq<u8>,
) -> Option<CryptoErrorView> {
    if public_key.len() != 32 {
        Some(CryptoErrorView::InvalidPublicKeyLength(public_key.len() as usize))
    } else if signature.len() != 64 {
        Some(CryptoErrorView::InvalidSignatureLength(signature.len() as usize))
    } else if !primitives::ed25519_is_key(public_key) {
        Some(CryptoErrorView::InvalidPublicKeyLength(32))
    } else if !primitives::ed25519_accepts(public_key, payload, signature) {
        Some(CryptoErrorView::SignatureVerification)
    } else {
        None
    }
}

/// Verify a signature over a payload.
pub fn verify_signature(public_key: &[u8], payload: &[u8], signature: &[u8]) -> (res: Result<
    (),
    CryptoError,
>)
    ensures
        match res {
            Ok(_) => signature_error(public_key@, payload@, signature@) is None,
            Err(e) => signature_error(public_key@, payload@, signature@) == Some(e@),
        },
{
    if public_key.len() != 32 {
        return Err(CryptoError::InvalidPublicKeyLength(public_key.len()));
    }
    if signature.len() != 64 {
        return Err(CryptoError::InvalidSignatureLength(signature.len()));
    }
    let public = to_array32(public_key);
    let signature = to_array64(signature);
    if !ed25519_key_is_valid(&public) {
        return Err(CryptoError::InvalidPublicKeyLength(32));
    }
    if ed25519_verify(&public, payload, &signature) {
        Ok(())
    } else {
        Err(CryptoError::SignatureVerification)
    }
}

/// KDF settings are accepted exactly within the caps on memory, time and parallelism, for keys of
/// 32 bytes. The settings for new files and for rooms are accepted.
pub proof fn law_when_kdf_settings_are_accepted(p: Argon2idParamsView)
    ensures
        params_error(p) is None <==> {
            &&& 1 <= p.memory_cost_kib <= 262_144
            &&& 1 <= p.time_cost <= 10
            &&& 1 <= p.parallelism <= 8
            &&& p.output_len == 32
        },
        params_error(default_params()) is None,
        params_error(room_params()) is None,
        default_params() == room_params(),
        default_params().memory_cost_kib == 65_536,
        default_params().time_cost == 3,
        default_params().parallelism == 1,
{
}

/// A signature is accepted exactly if the key has 32 bytes and is one, the signature has 64 bytes,
/// and Ed25519 accepts it for the payload.
pub proof fn law_when_signatures_are_accepted(
    public_key: Seq<u8>,
    payload: Seq<u8>,
    signature: Seq<u8>,
)
    ensures
        signature_error(public_key, payload, signature) is None <==> {
            &&& public_key.len() == 32
            &&& signature.len() == 64
            &&& primitives::ed25519_is_key(public_key)
            &&& primitives::ed25519_accepts(public_key, payload, signature)
        },
{
}

/// A key is derived of the password, the salt and the settings exactly where the settings are
/// accepted and Argon2id can use them, and it is what Argon2id gives for all of them.
pub proof fn law_when_keys_are_derived(password: Seq<char>, salt: Seq<u8>, p: Argon2idParamsView)
    ensures
        ({
            let outcome = derived_key(password, salt, p);
            let secret = encode_utf8(password);
            &&& outcome is Ok <==> params_error(p) is None && primitives::kdf_refusal(
                secret,
                salt,
                p.memory_cost_kib,
                p.parallelism,
            ) is None
            &&& outcome is Ok ==> outcome->Ok_0 == primitives::argon2id_key(
                secret,
                salt,
                p.memory_cost_kib,
                p.time_cost,
                p.parallelism,
                32,
            )
        }),
{
}

/// A room message is opened exactly if its nonce has 12 bytes, it is not too long, and the cipher
/// opens it with the key of the room.
pub proof fn law_when_room_messages_open(
    room_key: Seq<u8>,
    nonce: Seq<u8>,
    sealed: Seq<u8>,
    plaintext: Seq<u8>,
)
    ensures
        opened_room_message(room_key, nonce, sealed) == CryptoOutcome::Ok(plaintext) <==> {
            &&& nonce.len() == 12
            &&& !primitives::exceeds_sealed(sealed.len())
            &&& primitives::chacha_opened(room_key, nonce, sealed) == Some(plaintext)
        },
{
}

/// A private key file is opened exactly if its salt has 16 bytes and its nonce 24, the password
/// gives a key under the settings of the file, and the cipher opens what the file holds with it.
pub proof fn law_when_private_keys_open(
    file: EncryptedPrivateKeyFileView,
    password: Seq<char>,
    salt: Seq<u8>,
    nonce: Seq<u8>,
    sealed: Seq<u8>,
    plaintext: Seq<u8>,
)
    ensures
        ({
            &&& primitives::base64_bytes(file.salt_b64) == Outcome::<Seq<u8>>::Ok(salt)
            &&& primitives::base64_bytes(file.nonce_b64) == Outcome::<Seq<u8>>::Ok(nonce)
            &&& primitives::base64_bytes(file.ciphertext_b64) == Outcome::<Seq<u8>>::Ok(sealed)
        }) ==> (opened_private_key(file, password) == CryptoOutcome::Ok(plaintext) <==> {
            let key = derived_key(password, salt, file.kdf_params);
            &&& salt.len() == 16
            &&& nonce.len() == 24
            &&& key is Ok
            &&& !primitives::exceeds_sealed(sealed.len())
            &&& primitives::xchacha_opened(key->Ok_0, nonce, sealed) == Some(plaintext)
        }),
        opened_private_key(file, password) is Ok ==> {
            &&& primitives::base64_bytes(file.salt_b64) is Ok
            &&& primitives::base64_bytes(file.nonce_b64) is Ok
            &&& primitives::base64_bytes(file.ciphertext_b64) is Ok
        },
{
}

/// A private key that was sealed under a password is opened with it, where the ciphers and the
/// encoding give back what they were given.
pub proof fn law_sealed_keys_open_again(
    plaintext: Seq<u8>,
    password: Seq<char>,
    salt: Seq<u8>,
    nonce: Seq<u8>,
)
    requires
        salt.len() == 16,
        nonce.len() == 24,
        sealing_error(plaintext, password) is None,
    ensures
        ({
            let key = primitives::argon2id_key(encode_utf8(password), salt, 65_536, 3, 1, 32);
            let sealed = primitives::xchacha_sealed(key, nonce, plaintext);
            &&& sealed.len() == plaintext.len() + TAG_LEN
            &&& primitives::xchacha_opened(key, nonce, sealed) == Some(plaintext)
            &&& primitives::base64_bytes(primitives::base64_text(salt)) == Outcome::<Seq<u8>>::Ok(salt)
            &&& primitives::base64_bytes(primitives::base64_text(nonce)) == Outcome::<Seq<u8>>::Ok(nonce)
            &&& primitives::base64_bytes(primitives::base64_text(sealed)) == Outcome::<Seq<u8>>::Ok(sealed)
        }) ==> opened_private_key(sealed_private_key(plaintext, password, salt, nonce), password)
            == CryptoOutcome::Ok(plaintext),
        sealing_error(plaintext, password) is None <==> encode_utf8(password).len() <= 0xFFFF_FFFF
            && !primitives::exceeds_stream(plaintext.len()),
{
}

/// The key of a room that is joined by passphrase comes of the passphrase by Argon2id, under a salt
/// of 16 bytes that belongs to the room id.
pub proof fn law_passphrase_keys(room_id: Seq<char>, passphrase: Seq<char>)
    ensures
        ({
            let salt = primitives::blake3_derived(
                "DOGEL_ROOM_ARGON2_SALT_V1"@,
                encode_utf8(room_id),
            ).subrange(0, 16);
            let secret = encode_utf8(passphrase);
            &&& passphrase_room_key(room_id, passphrase) is Ok <==> primitives::kdf_refusal(
                secret,
                salt,
                65_536,
                1,
            ) is None
            &&& passphrase_room_key(room_id, passphrase) matches Ok(key) ==> key == primitives::argon2id_key(
                secret,
                salt,
                65_536,
                3,
                1,
                32,
            )
        }),
{
}

/// A fingerprint shows the first eight bytes of the BLAKE3 hash, each as two digits, with colons
/// between.
pub proof fn law_fingerprints_show_the_hash(bytes: Seq<u8>, i: int)
    requires
        0 <= i < 8,
    ensures
        primitives::blake3_hashed(bytes).len() >= 8 ==> {
            let print = fingerprint(bytes);
            &&& print.len() == 23
            &&& 16 * text::hex_digit_value(print[3 * i]) + text::hex_digit_value(print[3 * i + 1])
                == primitives::blake3_hashed(bytes)[i]
            &&& i < 7 ==> print[3 * i + 2] == ':'
        },
{
    if primitives::blake3_hashed(bytes).len() >= 8 {
        text::law_colon_hex_digits(primitives::blake3_hashed(bytes).subrange(0, 8), i);
    }
}

/// The key of an invite-created room is derived of all that it is bound to.
pub proof fn law_bound_keys_come_of_their_material(
    room_id: Seq<char>,
    peers: Seq<Seq<char>>,
    seed: Seq<u8>,
    version: u32,
)
    ensures
        bound_room_key(room_id, peers, seed, version) == primitives::blake3_derived(
            "DOGEL_BOUND_ROOM_KEY_V1"@,
            bound_key_material(room_id, peers, seed, version),
        ),
        seed.is_prefix_of(bound_key_material(room_id, peers, seed, version)),
{
    let material = bound_key_material(room_id, peers, seed, version);
    assert(material.subrange(0, seed.len() as int) =~= seed);
}

/// What a cryptographic error says ends with the reason, or with the length that was found.
pub proof fn law_crypto_errors_name_their_cause(text: Seq<char>, field: Seq<char>, n: usize)
    ensures
        text.is_suffix_of(crypto_error_text(CryptoErrorView::InvalidArgon2Params(text))),
        text.is_suffix_of(crypto_error_text(CryptoErrorView::Argon2(text))),
        text.is_suffix_of(crypto_error_text(CryptoErrorView::Base64 { field, source: text })),
        text::decimal(n as nat).is_suffix_of(
            crypto_error_text(CryptoErrorView::InvalidNonceLength { expected: 12, actual: n }),
        ),
        text::decimal(n as nat).is_suffix_of(crypto_error_text(CryptoErrorView::InvalidSaltLength(n))),
        text::decimal(n as nat).is_suffix_of(
            crypto_error_text(CryptoErrorView::InvalidRoomKeyLength(n)),
        ),
        text::decimal(n as nat).is_suffix_of(
            crypto_error_text(CryptoErrorView::InvalidPublicKeyLength(n)),
        ),
        text::decimal(n as nat).is_suffix_of(
            crypto_error_text(CryptoErrorView::InvalidSignatureLength(n)),
        ),
{
    lemma_error_end("invalid argon2 parameters: "@, text);
    lemma_error_end("argon2 key derivation failed: "@, text);
    lemma_error_end("invalid base64 field "@ + field + ": "@, text);
    let count = text::decimal(n as nat);
    lemma_error_end(
        "invalid nonce length: expected "@ + text::decimal(12) + " bytes, got "@,
        count,
    );
    lemma_error_end("invalid salt length: expected 16 bytes, got "@, count);
    lemma_error_end("invalid room key length: expected 32 bytes, got "@, count);
    lemma_error_end("invalid Ed25519 public key length: expected 32 bytes, got "@, count);
    lemma_error_end("invalid Ed25519 signature length: expected 64 bytes, got "@, count);
}

/// A text at the end of a message.
pub proof fn lemma_error_end(head: Seq<char>, text: Seq<char>)
    ensures
        text.is_suffix_of(head + text),
{
    let line = head + text;
    assert(line.subrange(line.len() - text.len(), line.len() as int) =~= text);
}

} // verus!
