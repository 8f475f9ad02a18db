//! The portable encrypted vault envelope: PBKDF2-SHA256 key derivation,
//! AES-256-GCM encryption, and base64 text fields.
use vstd::prelude::*;
use aes_gcm::aead::{Aead, KeyInit, OsRng};
use aes_gcm::{Aes256Gcm, Key, Nonce};
use rand::RngCore;
use crate::encoding::{base64_decoded, base64_encode, base64_encode_bytes, decode_base64, lemma_base64_roundtrip};
use crate::text::str_eq;
use vstd::utf8::encode_utf8;

verus! {

pub const FORMAT_VERSION: u8 = 1;
pub const SALT_LEN: usize = 16;
pub const NONCE_LEN: usize = 12;
pub const KEY_LEN: usize = 32;
/// Bytes of the GCM authentication tag appended to every ciphertext.
pub const TAG_LEN: usize = 16;
/// The largest plaintext, in bytes, that AES-GCM accepts (2^36).
pub const MAX_PLAINTEXT_LEN: u64 = 0x10_0000_0000;
pub const KDF_ITERATIONS: u32 = 310_000;
pub const KDF_NAME: &'static str = "pbkdf2-sha256";
pub const CIPHER_NAME: &'static str = "aes-256-gcm";

/// `aes_gcm::Error`, the opaque error of an AEAD operation.
#[verifier::external_type_specification]
#[verifier::external_body]
pub struct ExAeadError(aes_gcm::Error);

/// What `pbkdf2::pbkdf2_hmac::<sha2::Sha256>` writes into a 32-byte output
/// buffer for the given password, salt and round count.
pub uninterp spec fn pbkdf2_hmac_sha256_32(password: Seq<u8>, salt: Seq<u8>, rounds: u32) -> Seq<u8>;

/// What `Aes256Gcm::encrypt` returns (ciphertext with the tag appended, or
/// `None` for the error) for a 32-byte key, a 12-byte nonce, no associated data.
pub uninterp spec fn aes256gcm_seal(key: Seq<u8>, nonce: Seq<u8>, plaintext: Seq<u8>) -> Option<Seq<u8>>;

/// What `Aes256Gcm::decrypt` returns (the plaintext, or `None` for the error)
/// for a 32-byte key, a 12-byte nonce, no associated data.
pub uninterp spec fn aes256gcm_open(key: Seq<u8>, nonce: Seq<u8>, ciphertext: Seq<u8>) -> Option<Seq<u8>>;

/// `pbkdf2::pbkdf2_hmac::<sha2::Sha256>` with a 32-byte output buffer. It does
/// not fail or panic for any password, salt or round count.
#[verifier::external_body]
fn pbkdf2_sha256(password: &[u8], salt: &[u8], rounds: u32) -> (key: [u8; KEY_LEN])
    ensures
        key@ == pbkdf2_hmac_sha256_32(password@, salt@, rounds),
{
    let mut key = [0u8; KEY_LEN];
    pbkdf2::pbkdf2_hmac::<sha2::Sha256>(password, salt, rounds, &mut key);
    key
}

/// `Aes256Gcm::encrypt` (through `KeyInit::new` on the key and
/// `Nonce::from_slice` on the nonce, which panics unless it has 12 bytes).
/// Besides naming the result, this states what the crate's source fixes: the
/// only error is a plaintext longer than `P_MAX` (2^36 bytes), and the
/// ciphertext is the plaintext's length followed by the 16-byte tag; and the
/// AEAD correctness fact that `decrypt` with the same key and nonce gives the
/// plaintext back.
#[verifier::external_body]
fn aes256gcm_encrypt(key: &[u8; KEY_LEN], nonce: &[u8], plaintext: &[u8]) -> (res: Result<Vec<u8>, aes_gcm::Error>)
    requires
        nonce@.len() == 12,
    ensures
        plaintext@.len() <= MAX_PLAINTEXT_LEN ==> res is Ok,
        match res {
            Ok(c) => aes256gcm_seal(key@, nonce@, plaintext@) == Some(c@)
                && c@.len() == plaintext@.len() + TAG_LEN
                && aes256gcm_open(key@, nonce@, c@) == Some(plaintext@),
            Err(_) => aes256gcm_seal(key@, nonce@, plaintext@) is None,
        },
{
    let cipher = Aes256Gcm::new(Key::<Aes256Gcm>::from_slice(key));
    cipher.encrypt(Nonce::from_slice(nonce), plaintext)
}

/// `Aes256Gcm::decrypt` (through `KeyInit::new` on the key and
/// `Nonce::from_slice` on the nonce, which panics unless it has 12 bytes).
#[verifier::external_body]
fn aes256gcm_decrypt(key: &[u8; KEY_LEN], nonce: &[u8], ciphertext: &[u8]) -> (res: Result<Vec<u8>, aes_gcm::Error>)
    requires
        nonce@.len() == 12,
    ensures
        match res {
            Ok(p) => aes256gcm_open(key@, nonce@, ciphertext@) == Some(p@),
            Err(_) => aes256gcm_open(key@, nonce@, ciphertext@) is None,
        },
{
    let cipher = Aes256Gcm::new(Key::<Aes256Gcm>::from_slice(key));
    cipher.decrypt(Nonce::from_slice(nonce), ciphertext)
}

/// `RngCore::fill_bytes` on `aes_gcm::aead::OsRng` over a fresh buffer of
/// `len` bytes. Nothing is stated of the bytes: they come from the system's
/// random source.
#[verifier::external_body]
fn os_random_bytes(len: usize) -> (out: Vec<u8>)
    ensures
        out@.len() == len,
{
    let mut out = vec![0u8; len];
    OsRng.fill_bytes(&mut out);
    out
}

/// The kinds of vault error, without their payloads.
#[derive(PartialEq, Eq, Structural, Clone, Copy, Debug)]
pub enum ErrorKind {
    InvalidPassphrase,
    EncryptionFailed,
    DecryptionFailed,
    Base64,
    InvalidPayload,
}

/// Errors of sealing and opening a vault envelope.
#[derive(Debug)]
pub enum VaultError {
    InvalidPassphrase,
    EncryptionFailed,
    DecryptionFailed,
    Base64(base64::DecodeError),
    InvalidPayload,
}

impl VaultError {
    pub open spec fn kind(&self) -> ErrorKind {
        match self {
            VaultError::InvalidPassphrase => ErrorKind::InvalidPassphrase,
            VaultError::EncryptionFailed => ErrorKind::EncryptionFailed,
            VaultError::DecryptionFailed => ErrorKind::DecryptionFailed,
            VaultError::Base64(_) => ErrorKind::Base64,
            VaultError::InvalidPayload => ErrorKind::InvalidPayload,
        }
    }
}

/// The encrypted vault as it is written to disk.
pub struct EncryptedVault {
    pub version: u8,
    pub kdf: String,
    pub iterations: u32,
    pub cipher: String,
    pub salt: String,
    pub nonce: String,
    pub ciphertext: String,
}

/// An envelope as the contracts see it.
pub struct EnvelopeView {
    pub version: u8,
    pub kdf: Seq<char>,
    pub iterations: u32,
    pub cipher: Seq<char>,
    pub salt: Seq<char>,
    pub nonce: Seq<char>,
    pub ciphertext: Seq<char>,
}

impl View for EncryptedVault {
    type V = EnvelopeView;

    open spec fn view(&self) -> EnvelopeView {
        EnvelopeView {
            version: self.version,
            kdf: self.kdf@,
            iterations: self.iterations,
            cipher: self.cipher@,
            salt: self.salt@,
            nonce: self.nonce@,
            ciphertext: self.ciphertext@,
        }
    }
}

/// The key that the passphrase (as UTF-8 bytes) derives with `salt`.
pub open spec fn derived_key(passphrase: Seq<char>, salt: Seq<u8>, iterations: u32) -> Seq<u8> {
    pbkdf2_hmac_sha256_32(encode_utf8(passphrase), salt, iterations)
}

/// The single KDF and cipher profile of format version 1.
pub open spec fn supported_header(e: EnvelopeView) -> bool {
    &&& e.version == FORMAT_VERSION
    &&& e.kdf == KDF_NAME@
    &&& e.iterations == KDF_ITERATIONS
    &&& e.cipher == CIPHER_NAME@
}

/// The envelope of the supported profile carrying the given salt, nonce and
/// ciphertext, each in base64.
pub open spec fn envelope_of(salt: Seq<u8>, nonce: Seq<u8>, ciphertext: Seq<u8>) -> EnvelopeView {
    EnvelopeView {
        version: FORMAT_VERSION,
        kdf: KDF_NAME@,
        iterations: KDF_ITERATIONS,
        cipher: CIPHER_NAME@,
        salt: base64_encode(salt),
        nonce: base64_encode(nonce),
        ciphertext: base64_encode(ciphertext),
    }
}

/// The envelope that sealing `plaintext` under `passphrase` with the given salt
/// and nonce produces, or the error it stops with.
pub open spec fn seal_envelope(
    plaintext: Seq<u8>,
    passphrase: Seq<char>,
    salt: Seq<u8>,
    nonce: Seq<u8>,
) -> Result<EnvelopeView, ErrorKind> {
    if passphrase.len() == 0 {
        Err(ErrorKind::InvalidPassphrase)
    } else {
        match aes256gcm_seal(derived_key(passphrase, salt, KDF_ITERATIONS), nonce, plaintext) {
            None => Err(ErrorKind::EncryptionFailed),
            Some(ct) => Ok(envelope_of(salt, nonce, ct)),
        }
    }
}

/// The salt, nonce and ciphertext that envelope `e` carries, or the first
/// error met, in the order header, salt, nonce, ciphertext, lengths.
pub open spec fn envelope_parts(e: EnvelopeView) -> Result<(Seq<u8>, Seq<u8>, Seq<u8>), ErrorKind> {
    if !supported_header(e) {
        Err(ErrorKind::InvalidPayload)
    } else if base64_decoded(e.salt) is None || base64_decoded(e.nonce) is None
        || base64_decoded(e.ciphertext) is None {
        Err(ErrorKind::Base64)
    } else {
        let salt = base64_decoded(e.salt)->0;
        let nonce = base64_decoded(e.nonce)->0;
        let ct = base64_decoded(e.ciphertext)->0;
        if salt.len() != SALT_LEN || nonce.len() != NONCE_LEN {
            Err(ErrorKind::InvalidPayload)
        } else {
            Ok((salt, nonce, ct))
        }
    }
}

/// What opening envelope `e` with `passphrase` gives: the plaintext, or the
/// first error met; authentication comes after all the checks of
/// `envelope_parts`.
pub open spec fn open_envelope(e: EnvelopeView, passphrase: Seq<char>) -> Result<Seq<u8>, ErrorKind> {
    match envelope_parts(e) {
        Err(k) => Err(k),
        Ok(parts) => match aes256gcm_open(derived_key(passphrase, parts.0, e.iterations), parts.1, parts.2) {
            Some(p) => Ok(p),
            None => Err(ErrorKind::DecryptionFailed),
        },
    }
}

/// Envelope `e` decodes to exactly `salt` and `nonce`, and to a ciphertext of
/// `plaintext_len` bytes followed by the tag.
pub open spec fn sealed_parts(e: EnvelopeView, salt: Seq<u8>, nonce: Seq<u8>, plaintext_len: nat) -> bool {
    match envelope_parts(e) {
        Ok((s, n, c)) => s == salt && n == nonce && c.len() == plaintext_len + TAG_LEN,
        Err(_) => false,
    }
}

pub open spec fn envelope_outcome(res: Result<EncryptedVault, VaultError>) -> Result<EnvelopeView, ErrorKind> {
    match res {
        Ok(e) => Ok(e@),
        Err(e) => Err(e.kind()),
    }
}

pub open spec fn plaintext_outcome(res: Result<Vec<u8>, VaultError>) -> Result<Seq<u8>, ErrorKind> {
    match res {
        Ok(p) => Ok(p@),
        Err(e) => Err(e.kind()),
    }
}

/// The envelope of the supported profile carrying the given salt, nonce and
/// ciphertext.
pub fn envelope_from_parts(salt: &[u8], nonce: &[u8], ciphertext: &[u8]) -> (e: EncryptedVault)
    ensures
        e@ == envelope_of(salt@, nonce@, ciphertext@),
{
    EncryptedVault {
        version: FORMAT_VERSION,
        kdf: KDF_NAME.to_owned(),
        iterations: KDF_ITERATIONS,
        cipher: CIPHER_NAME.to_owned(),
        salt: base64_encode_bytes(salt),
        nonce: base64_encode_bytes(nonce),
        ciphertext: base64_encode_bytes(ciphertext),
    }
}

/// The decoded salt, nonce and ciphertext of an envelope.
pub struct EnvelopeParts {
    pub salt: Vec<u8>,
    pub nonce: Vec<u8>,
    pub ciphertext: Vec<u8>,
}

pub open spec fn parts_outcome(res: Result<EnvelopeParts, VaultError>) -> Result<(Seq<u8>, Seq<u8>, Seq<u8>), ErrorKind> {
    match res {
        Ok(p) => Ok((p.salt@, p.nonce@, p.ciphertext@)),
        Err(e) => Err(e.kind()),
    }
}

/// Checks the header of an envelope and decodes its salt, nonce and
/// ciphertext. Any version, KDF, iteration count or cipher other than the
/// single supported profile is refused.
pub fn decode_envelope(encrypted: &EncryptedVault) -> (res: Result<EnvelopeParts, VaultError>)
    ensures
        parts_outcome(res) == envelope_parts(encrypted@),
{
    if encrypted.version != FORMAT_VERSION || !str_eq(encrypted.kdf.as_str(), KDF_NAME)
        || encrypted.iterations != KDF_ITERATIONS || !str_eq(encrypted.cipher.as_str(), CIPHER_NAME) {
        return Err(VaultError::InvalidPayload);
    }
    let salt = match decode_base64(encrypted.salt.as_str()) {
        Ok(v) => v,
        Err(e) => return Err(VaultError::Base64(e)),
    };
    let nonce = match decode_base64(encrypted.nonce.as_str()) {
        Ok(v) => v,
        Err(e) => return Err(VaultError::Base64(e)),
    };
    let ciphertext = match decode_base64(encrypted.ciphertext.as_str()) {
        Ok(v) => v,
        Err(e) => return Err(VaultError::Base64(e)),
    };
    if salt.len() != SALT_LEN || nonce.len() != NONCE_LEN {
        return Err(VaultError::InvalidPayload);
    }
    Ok(EnvelopeParts { salt, nonce, ciphertext })
}

/// Derives the 32-byte vault key; a round count of zero is refused.
pub fn derive_key(passphrase: &str, salt: &[u8], iterations: u32) -> (res: Result<[u8; KEY_LEN], VaultError>)
    ensures
        iterations == 0 ==> res matches Err(VaultError::InvalidPayload),
        iterations != 0 ==> (res matches Ok(k) && k@ == derived_key(passphrase@, salt@, iterations)),
{
    if iterations == 0 {
        return Err(VaultError::InvalidPayload);
    }
    Ok(pbkdf2_sha256(passphrase.as_bytes(), salt, iterations))
}

/// Seals `plaintext` under `passphrase` with the given salt and nonce. Whatever
/// it returns opens again, with the same passphrase, to `plaintext`.
pub fn encrypt_vault_with(plaintext: &[u8], passphrase: &str, salt: &[u8], nonce: &[u8]) -> (res: Result<EncryptedVault, VaultError>)
    requires
        salt@.len() == SALT_LEN,
        nonce@.len() == NONCE_LEN,
    ensures
        envelope_outcome(res) == seal_envelope(plaintext@, passphrase@, salt@, nonce@),
        passphrase@.len() > 0 && plaintext@.len() <= MAX_PLAINTEXT_LEN ==> res is Ok,
        res matches Ok(e) ==> sealed_parts(e@, salt@, nonce@, plaintext@.len()),
        res matches Ok(e) ==> open_envelope(e@, passphrase@) == Ok::<Seq<u8>, ErrorKind>(plaintext@),
{
    if passphrase.is_empty() {
        return Err(VaultError::InvalidPassphrase);
    }
    let key = match derive_key(passphrase, salt, KDF_ITERATIONS) {
        Ok(k) => k,
        Err(e) => return Err(e),
    };
    let ciphertext = match aes256gcm_encrypt(&key, nonce, plaintext) {
        Ok(c) => c,
        Err(_) => return Err(VaultError::EncryptionFailed),
    };
    let sealed = envelope_from_parts(salt, nonce, ciphertext.as_slice());
    proof {
        lemma_base64_roundtrip(salt@);
        lemma_base64_roundtrip(nonce@);
        lemma_base64_roundtrip(ciphertext@);
    }
    Ok(sealed)
}

/// Seals `plaintext` under `passphrase` with a fresh random salt and nonce.
pub fn encrypt_vault(plaintext: &[u8], passphrase: &str) -> (res: Result<EncryptedVault, VaultError>)
    ensures
        exists|salt: Seq<u8>, nonce: Seq<u8>|
            salt.len() == SALT_LEN && nonce.len() == NONCE_LEN
                && envelope_outcome(res) == #[trigger] seal_envelope(plaintext@, passphrase@, salt, nonce),
        passphrase@.len() == 0 <==> res matches Err(VaultError::InvalidPassphrase),
        passphrase@.len() > 0 && plaintext@.len() <= MAX_PLAINTEXT_LEN ==> res is Ok,
        res matches Ok(e) ==> exists|salt: Seq<u8>, nonce: Seq<u8>|
            salt.len() == SALT_LEN && nonce.len() == NONCE_LEN
                && #[trigger] sealed_parts(e@, salt, nonce, plaintext@.len()),
        res matches Ok(e) ==> open_envelope(e@, passphrase@) == Ok::<Seq<u8>, ErrorKind>(plaintext@),
{
    if passphrase.is_empty() {
        proof {
            let w = Seq::new(SALT_LEN as nat, |i: int| 0u8);
            let n = Seq::new(NONCE_LEN as nat, |i: int| 0u8);
            assert(envelope_outcome(Err::<EncryptedVault, VaultError>(VaultError::InvalidPassphrase)) == seal_envelope(plaintext@, passphrase@, w, n));
        }
        return Err(VaultError::InvalidPassphrase);
    }
    let salt = os_random_bytes(SALT_LEN);
    let nonce = os_random_bytes(NONCE_LEN);
    encrypt_vault_with(plaintext, passphrase, salt.as_slice(), nonce.as_slice())
}

/// Opens an envelope with `passphrase`. Any version, KDF, iteration count or
/// cipher other than the single supported profile is refused before a key is
/// derived.
pub fn decrypt_vault(encrypted: &EncryptedVault, passphrase: &str) -> (res: Result<Vec<u8>, VaultError>)
    ensures
        plaintext_outcome(res) == open_envelope(encrypted@, passphrase@),
{
    let parts = match decode_envelope(encrypted) {
        Ok(p) => p,
        Err(e) => return Err(e),
    };
    let key = match derive_key(passphrase, parts.salt.as_slice(), encrypted.iterations) {
        Ok(k) => k,
        Err(e) => return Err(e),
    };
    match aes256gcm_decrypt(&key, parts.nonce.as_slice(), parts.ciphertext.as_slice()) {
        Ok(p) => Ok(p),
        Err(_) => Err(VaultError::DecryptionFailed),
    }
}

/// An envelope outside the single supported profile is refused as an invalid
/// payload whatever the passphrase, before any key is derived from it.
pub proof fn law_unsupported_header_refused(e: EnvelopeView, passphrase: Seq<char>)
    requires
        !supported_header(e),
    ensures
        open_envelope(e, passphrase) == Err::<Seq<u8>, ErrorKind>(ErrorKind::InvalidPayload),
{
}

} // verus!
