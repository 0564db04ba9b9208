//! The cryptographic primitives that this library takes from outside crates,
//! each behind a small trusted wrapper. Functions of bytes whose result
//! depends on the arguments alone are named by uninterpreted spec functions;
//! the facts stated beside them are those that the crates' documentation
//! gives.

use aes_gcm::aead::{Aead, KeyInit};
use ed25519_dalek::{Signer, Verifier};
use hmac::Mac;
use vstd::prelude::*;
use vstd::utf8::*;

verus! {

/// HMAC-SHA256 of `data` under `key` (`hmac::Hmac<sha2::Sha256>`).
pub uninterp spec fn hmac_sha256(key: Seq<u8>, data: Seq<u8>) -> Seq<u8>;

/// The 32 output bytes of HKDF-SHA256 (`hkdf::Hkdf<sha2::Sha256>`) with no
/// salt, input keying material `ikm` and context `info`.
pub uninterp spec fn hkdf_sha256(ikm: Seq<u8>, info: Seq<u8>) -> Seq<u8>;

/// What `Aead::encrypt` of `aes_gcm::Aes256Gcm` returns for a key, a nonce
/// and a plaintext with no associated data: the ciphertext followed by the
/// tag, or `None` where it fails.
pub uninterp spec fn aes256gcm_seal(key: Seq<u8>, nonce: Seq<u8>, plaintext: Seq<u8>) -> Option<Seq<u8>>;

/// What `Aead::decrypt` of `aes_gcm::Aes256Gcm` returns for a key, a nonce
/// and a ciphertext with no associated data: the plaintext, or `None` where
/// authentication fails.
pub uninterp spec fn aes256gcm_open(key: Seq<u8>, nonce: Seq<u8>, ciphertext: Seq<u8>) -> Option<Seq<u8>>;

/// The X25519 public key of a 32-byte secret (`x25519_dalek::PublicKey::from`).
pub uninterp spec fn x25519_public(secret: Seq<u8>) -> Seq<u8>;

/// The X25519 shared secret of a secret key and a peer's public key
/// (`x25519_dalek::StaticSecret::diffie_hellman`).
pub uninterp spec fn x25519_dh(secret: Seq<u8>, public: Seq<u8>) -> Seq<u8>;

/// The Ed25519 verifying key of a 32-byte signing-key seed
/// (`ed25519_dalek::SigningKey::verifying_key`).
pub uninterp spec fn ed25519_public(seed: Seq<u8>) -> Seq<u8>;

/// The 64-byte Ed25519 signature of `message` under the signing key with
/// this seed (`ed25519_dalek::SigningKey::sign`).
pub uninterp spec fn ed25519_signature(seed: Seq<u8>, message: Seq<u8>) -> Seq<u8>;

/// Whether `ed25519_dalek::VerifyingKey::from_bytes` accepts these 32 bytes
/// (they decompress to a curve point).
pub uninterp spec fn ed25519_key_valid(public: Seq<u8>) -> bool;

/// Whether these public-key bytes decode and `Verifier::verify` accepts the
/// signature over the message.
pub uninterp spec fn ed25519_verifies(public: Seq<u8>, message: Seq<u8>, signature: Seq<u8>) -> bool;

/// Whether these public-key bytes decode and `VerifyingKey::verify_strict`
/// accepts the signature over the message.
pub uninterp spec fn ed25519_verifies_strict(public: Seq<u8>, message: Seq<u8>, signature: Seq<u8>) -> bool;

/// A 32-byte X25519 secret whose public key has been computed: the public
/// key is 32 bytes, and Diffie-Hellman agrees between this secret and any
/// 32-byte peer secret (each one's shared secret with the other's public key
/// is the same).
pub open spec fn x25519_key_pair_ok(secret: Seq<u8>) -> bool {
    &&& secret.len() == 32
    &&& x25519_public(secret).len() == 32
    &&& forall|peer: Seq<u8>|
        peer.len() == 32 ==> #[trigger] x25519_dh(peer, x25519_public(secret)) == x25519_dh(secret, x25519_public(peer))
}

/// The largest plaintext, in bytes, that AES-GCM encrypts (`aes_gcm::P_MAX`).
pub open spec fn aes_gcm_max_plaintext() -> int {
    0x10_0000_0000
}

#[verifier::external_type_specification]
#[verifier::external_body]
pub struct ExMacKeyLength(hmac::digest::InvalidLength);

#[verifier::external_type_specification]
#[verifier::external_body]
pub struct ExHkdfLength(hkdf::InvalidLength);

#[verifier::external_type_specification]
#[verifier::external_body]
pub struct ExAeadError(aes_gcm::Error);

#[verifier::external_type_specification]
#[verifier::external_body]
pub struct ExSignatureError(ed25519_dalek::SignatureError);

#[verifier::external_type_specification]
#[verifier::external_body]
pub struct ExFromUtf8Error(std::string::FromUtf8Error);

/// Computes HMAC-SHA256 with `Mac::new_from_slice`, `update` and `finalize`.
/// HMAC takes keys of any length, and the crate's `new_from_slice` for it
/// always returns `Ok`; that is stated.
#[verifier::external_body]
pub(crate) fn hmac_sha256_tag(key: &[u8], data: &[u8]) -> (tag: Result<[u8; 32], hmac::digest::InvalidLength>)
    ensures
        tag is Ok,
        tag matches Ok(t) ==> t@ == hmac_sha256(key@, data@),
{
    let mut mac = <hmac::Hmac<sha2::Sha256> as Mac>::new_from_slice(key)?;
    mac.update(data);
    Ok(mac.finalize().into_bytes().into())
}

/// Computes `Hkdf::<Sha256>::new(None, ikm)` and `expand(info, ..)` into 32
/// bytes. `expand` fails only for outputs longer than 255 hash lengths, so it
/// is stated to succeed here.
#[verifier::external_body]
pub(crate) fn hkdf_sha256_expand(ikm: &[u8], info: &[u8]) -> (okm: Result<[u8; 32], hkdf::InvalidLength>)
    ensures
        okm is Ok,
        okm matches Ok(k) ==> k@ == hkdf_sha256(ikm@, info@),
{
    let hk = hkdf::Hkdf::<sha2::Sha256>::new(None, ikm);
    let mut out = [0u8; 32];
    hk.expand(info, &mut out)?;
    Ok(out)
}

/// Calls `Aead::encrypt` of `Aes256Gcm` keyed with `key`. It fails exactly for
/// plaintexts longer than `P_MAX` bytes. Its ciphertext is the encrypted
/// plaintext followed by the 16-byte tag, and decrypting it with the same key
/// and nonce gives back the plaintext, as the crate's documentation shows.
#[verifier::external_body]
pub(crate) fn aes256gcm_encrypt(key: &[u8; 32], nonce: &[u8; 12], plaintext: &[u8]) -> (sealed: Result<Vec<u8>, aes_gcm::Error>)
    ensures
        sealed is Ok <==> plaintext@.len() <= aes_gcm_max_plaintext(),
        match sealed {
            Ok(c) => aes256gcm_seal(key@, nonce@, plaintext@) == Some(c@)
                && aes256gcm_open(key@, nonce@, c@) == Some(plaintext@)
                && c@.len() == plaintext@.len() + 16,
            Err(_) => aes256gcm_seal(key@, nonce@, plaintext@) is None,
        },
{
    aes_gcm::Aes256Gcm::new(key.into()).encrypt(aes_gcm::Nonce::from_slice(nonce), plaintext)
}

/// Calls `Aead::decrypt` of `Aes256Gcm` keyed with `key`.
#[verifier::external_body]
pub(crate) fn aes256gcm_decrypt(key: &[u8; 32], nonce: &[u8; 12], ciphertext: &[u8]) -> (opened: Result<Vec<u8>, aes_gcm::Error>)
    ensures
        match opened {
            Ok(p) => aes256gcm_open(key@, nonce@, ciphertext@) == Some(p@),
            Err(_) => aes256gcm_open(key@, nonce@, ciphertext@) is None,
        },
{
    aes_gcm::Aes256Gcm::new(key.into()).decrypt(aes_gcm::Nonce::from_slice(nonce), ciphertext)
}

/// 32 bytes from `StaticSecret::random_from_rng(OsRng)`: a fresh random
/// X25519 secret. Nothing is stated of its value.
#[verifier::external_body]
pub(crate) fn x25519_random_secret() -> (secret: [u8; 32]) {
    x25519_dalek::StaticSecret::random_from_rng(rand_core::OsRng).to_bytes()
}

/// Computes `PublicKey::from(&StaticSecret::from(secret))`. As the crate's
/// documentation shows, Diffie-Hellman agrees: a peer's shared secret with
/// this public key equals this secret's shared secret with the peer's public
/// key.
#[verifier::external_body]
pub(crate) fn x25519_public_key(secret: &[u8; 32]) -> (public: [u8; 32])
    ensures
        public@ == x25519_public(secret@),
        forall|peer: Seq<u8>|
            peer.len() == 32 ==> #[trigger] x25519_dh(peer, public@) == x25519_dh(secret@, x25519_public(peer)),
{
    x25519_dalek::PublicKey::from(&x25519_dalek::StaticSecret::from(*secret)).to_bytes()
}

/// Computes `StaticSecret::from(secret).diffie_hellman(&PublicKey::from(public))`.
#[verifier::external_body]
pub(crate) fn x25519_shared_secret(secret: &[u8; 32], public: &[u8; 32]) -> (shared: [u8; 32])
    ensures
        shared@ == x25519_dh(secret@, public@),
{
    x25519_dalek::StaticSecret::from(*secret).diffie_hellman(&x25519_dalek::PublicKey::from(*public)).to_bytes()
}

/// The seed of `SigningKey::generate(&mut OsRng)`: a fresh random Ed25519
/// signing key. Nothing is stated of its value.
#[verifier::external_body]
pub(crate) fn ed25519_random_seed() -> (seed: [u8; 32]) {
    ed25519_dalek::SigningKey::generate(&mut rand_core::OsRng).to_bytes()
}

/// Computes `SigningKey::from_bytes(seed).verifying_key().to_bytes()`. The
/// bytes are the compression of a curve point, so `VerifyingKey::from_bytes`
/// accepts them.
#[verifier::external_body]
pub(crate) fn ed25519_public_key(seed: &[u8; 32]) -> (public: [u8; 32])
    ensures
        public@ == ed25519_public(seed@),
        ed25519_key_valid(public@),
{
    ed25519_dalek::SigningKey::from_bytes(seed).verifying_key().to_bytes()
}

/// Computes `SigningKey::from_bytes(seed).sign(message).to_bytes()`. As the
/// crate's documentation shows, the signature verifies (non-strictly) under
/// the key's verifying key.
#[verifier::external_body]
pub(crate) fn ed25519_sign(seed: &[u8; 32], message: &[u8]) -> (signature: [u8; 64])
    ensures
        signature@ == ed25519_signature(seed@, message@),
        ed25519_verifies(ed25519_public(seed@), message@, signature@),
{
    ed25519_dalek::SigningKey::from_bytes(seed).sign(message).to_bytes()
}

/// Calls `VerifyingKey::from_bytes` and keeps only whether it succeeded.
#[verifier::external_body]
pub(crate) fn ed25519_check_public_key(public: &[u8; 32]) -> (checked: Result<(), ed25519_dalek::SignatureError>)
    ensures
        checked is Ok <==> ed25519_key_valid(public@),
{
    match ed25519_dalek::VerifyingKey::from_bytes(public) {
        Ok(_) => Ok(()),
        Err(e) => Err(e),
    }
}

/// Converts the bytes with `VerifyingKey::from_bytes` and
/// `Signature::from_bytes`, then calls `VerifyingKey::verify_strict`.
#[verifier::external_body]
pub(crate) fn ed25519_verify_strict(public: &[u8; 32], message: &[u8], signature: &[u8; 64]) -> (verified: Result<(), ed25519_dalek::SignatureError>)
    ensures
        verified is Ok <==> ed25519_verifies_strict(public@, message@, signature@),
{
    match ed25519_dalek::VerifyingKey::from_bytes(public) {
        Ok(key) => key.verify_strict(message, &ed25519_dalek::Signature::from_bytes(signature)),
        Err(e) => Err(e),
    }
}

/// Converts the bytes with `VerifyingKey::from_bytes` and
/// `Signature::from_bytes`, then calls `Verifier::verify`.
#[verifier::external_body]
pub(crate) fn ed25519_verify(public: &[u8; 32], message: &[u8], signature: &[u8; 64]) -> (verified: Result<(), ed25519_dalek::SignatureError>)
    ensures
        verified is Ok <==> ed25519_verifies(public@, message@, signature@),
{
    match ed25519_dalek::VerifyingKey::from_bytes(public) {
        Ok(key) => key.verify(message, &ed25519_dalek::Signature::from_bytes(signature)),
        Err(e) => Err(e),
    }
}

/// Calls `String::from_utf8`: it succeeds exactly on valid UTF-8, and the
/// string it returns holds those same bytes.
#[verifier::external_body]
pub(crate) fn string_from_utf8(bytes: Vec<u8>) -> (text: Result<String, std::string::FromUtf8Error>)
    ensures
        match text {
            Ok(s) => encode_utf8(s@) == bytes@,
            Err(_) => !valid_utf8(bytes@),
        },
{
    String::from_utf8(bytes)
}

} // verus!
