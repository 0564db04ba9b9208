//! Generation of identities and prekeys, and Ed25519 signature checks.

use vstd::prelude::*;
use vstd::utf8::*;
use crate::b64::{
    base64_bytes, base64_decode, base64_encode, decode_exact, decode_key, decode_signature_bytes, encode_base64,
    key_result, lemma_base64_encode_injective, lemma_base64_round_trip, signature_result,
};
use crate::error::{CryptoError, Failure};
use crate::keys::{IdentityBundle, KeyPair, NativeIdentityBundle, OneTimePreKey, SignedPreKey};
use crate::primitives::{
    ed25519_check_public_key, ed25519_key_valid, ed25519_public, ed25519_public_key, ed25519_random_seed,
    ed25519_sign, ed25519_signature, ed25519_verifies, ed25519_verifies_strict, ed25519_verify,
    ed25519_verify_strict, x25519_key_pair_ok, x25519_public, x25519_public_key, x25519_random_secret,
};

verus! {

/// `b` holds, in base64, the X25519 identity key pair of `identity_secret`
/// and the Ed25519 signing key pair of `signing_seed`.
pub open spec fn identity_bundle_of(b: IdentityBundle, identity_secret: Seq<u8>, signing_seed: Seq<u8>) -> bool {
    &&& b.identity_private_key@ == base64_encode(identity_secret)
    &&& b.identity_public_key@ == base64_encode(x25519_public(identity_secret))
    &&& b.signing_private_key@ == base64_encode(signing_seed)
    &&& b.signing_public_key@ == base64_encode(ed25519_public(signing_seed))
}

/// The same content as `identity_bundle_of`, in key pairs.
pub open spec fn native_bundle_of(b: NativeIdentityBundle, identity_secret: Seq<u8>, signing_seed: Seq<u8>) -> bool {
    &&& b.identity.private_key@ == base64_encode(identity_secret)
    &&& b.identity.public_key@ == base64_encode(x25519_public(identity_secret))
    &&& b.signing.private_key@ == base64_encode(signing_seed)
    &&& b.signing.public_key@ == base64_encode(ed25519_public(signing_seed))
}

/// `k` is the prekey numbered `id` with X25519 secret `prekey_secret`, its
/// public key signed with the signing key of `signing_seed`.
pub open spec fn signed_prekey_of(k: SignedPreKey, id: u32, signing_seed: Seq<u8>, prekey_secret: Seq<u8>) -> bool {
    &&& k.id == id
    &&& k.public_key@ == base64_encode(x25519_public(prekey_secret))
    &&& k.signature@ == base64_encode(ed25519_signature(signing_seed, x25519_public(prekey_secret)))
    &&& k.private_key@ == base64_encode(prekey_secret)
}

/// `k` is the one-time prekey numbered `id` with X25519 secret `secret`.
pub open spec fn one_time_prekey_of(k: OneTimePreKey, id: u32, secret: Seq<u8>) -> bool {
    &&& k.id == id
    &&& k.public_key@ == base64_encode(x25519_public(secret))
    &&& k.private_key@ == base64_encode(secret)
}

/// Decoding an Ed25519 verifying key: 32 bytes that decompress to a point.
pub open spec fn signing_key_outcome(text: Seq<char>) -> Result<Seq<u8>, Failure> {
    match decode_exact(text, 32, "signing_public_key"@) {
        Err(f) => Err(f),
        Ok(k) => if ed25519_key_valid(k) {
            Ok(k)
        } else {
            Err(Failure::InvalidKeyMaterial("signing_public_key"@))
        },
    }
}

/// Checking a signed prekey: the signing key, then the signature, then the
/// prekey must decode, and the signature must verify strictly over the
/// prekey's bytes.
pub open spec fn prekey_signature_outcome(signing_public: Seq<char>, prekey_public: Seq<char>, signature: Seq<char>) -> Result<(), Failure> {
    match signing_key_outcome(signing_public) {
        Err(f) => Err(f),
        Ok(key) => match decode_exact(signature, 64, "signature"@) {
            Err(f) => Err(f),
            Ok(sig) => match base64_decode(prekey_public) {
                None => Err(Failure::InvalidBase64("signed_prekey_public"@)),
                Some(prekey) => if ed25519_verifies_strict(key, prekey, sig) {
                    Ok(())
                } else {
                    Err(Failure::SignatureVerificationFailed)
                },
            },
        },
    }
}

/// Whether `signature` (base64) is an Ed25519 signature by the key
/// `signing_public` (base64), checked non-strictly, over the UTF-8 bytes of
/// `message` or, where `message` is base64 text such as a signed prekey's
/// public key, over the bytes that it encodes.
pub open spec fn identity_signature_valid(signing_public: Seq<char>, message: Seq<char>, signature: Seq<char>) -> bool {
    match base64_decode(signing_public) {
        None => false,
        Some(key) => key.len() == 32 && ed25519_key_valid(key) && match decode_exact(signature, 64, "signature"@) {
            Ok(sig) => ed25519_verifies(key, encode_utf8(message), sig) || match base64_decode(message) {
                Some(bytes) => ed25519_verifies(key, bytes, sig),
                None => false,
            },
            Err(_) => false,
        },
    }
}

/// The mathematical content of a result holding nothing.
pub open spec fn unit_result(r: Result<(), CryptoError>) -> Result<(), Failure> {
    match r {
        Ok(()) => Ok(()),
        Err(e) => Err(e@),
    }
}

/// The identity bundle of the given secrets.
pub fn identity_bundle_from_secrets(identity_secret: &[u8; 32], signing_seed: &[u8; 32]) -> (b: IdentityBundle)
    ensures
        identity_bundle_of(b, identity_secret@, signing_seed@),
        x25519_key_pair_ok(identity_secret@),
        ed25519_public(signing_seed@).len() == 32,
        ed25519_key_valid(ed25519_public(signing_seed@)),
{
    let identity_public = x25519_public_key(identity_secret);
    let signing_public = ed25519_public_key(signing_seed);
    IdentityBundle {
        identity_private_key: encode_base64(identity_secret.as_slice()),
        identity_public_key: encode_base64(identity_public.as_slice()),
        signing_private_key: encode_base64(signing_seed.as_slice()),
        signing_public_key: encode_base64(signing_public.as_slice()),
    }
}

/// The native identity bundle of the given secrets.
pub fn native_identity_from_secrets(identity_secret: &[u8; 32], signing_seed: &[u8; 32]) -> (b: NativeIdentityBundle)
    ensures
        native_bundle_of(b, identity_secret@, signing_seed@),
        x25519_key_pair_ok(identity_secret@),
        ed25519_public(signing_seed@).len() == 32,
        ed25519_key_valid(ed25519_public(signing_seed@)),
{
    let identity_public = x25519_public_key(identity_secret);
    let signing_public = ed25519_public_key(signing_seed);
    NativeIdentityBundle {
        identity: KeyPair {
            public_key: encode_base64(identity_public.as_slice()),
            private_key: encode_base64(identity_secret.as_slice()),
        },
        signing: KeyPair {
            public_key: encode_base64(signing_public.as_slice()),
            private_key: encode_base64(signing_seed.as_slice()),
        },
    }
}

/// `b` is the identity bundle of some 32-byte X25519 secret and some 32-byte
/// signing-key seed.
pub open spec fn is_identity_bundle(b: IdentityBundle) -> bool {
    exists|sk: Seq<u8>, seed: Seq<u8>|
        sk.len() == 32 && seed.len() == 32 && #[trigger] identity_bundle_of(b, sk, seed) && x25519_key_pair_ok(sk)
            && ed25519_public(seed).len() == 32 && ed25519_key_valid(ed25519_public(seed))
}

/// `b` is the native identity bundle of some 32-byte X25519 secret and some
/// 32-byte signing-key seed.
pub open spec fn is_native_bundle(b: NativeIdentityBundle) -> bool {
    exists|sk: Seq<u8>, seed: Seq<u8>|
        sk.len() == 32 && seed.len() == 32 && #[trigger] native_bundle_of(b, sk, seed) && x25519_key_pair_ok(sk)
            && ed25519_public(seed).len() == 32 && ed25519_key_valid(ed25519_public(seed))
}

/// `k` is the signed prekey numbered `id`, signed with the key of
/// `signing_seed`, of some 32-byte X25519 secret; its signature verifies
/// under that key's verifying key.
pub open spec fn is_signed_prekey(k: SignedPreKey, id: u32, signing_seed: Seq<u8>) -> bool {
    exists|sk: Seq<u8>|
        sk.len() == 32 && #[trigger] signed_prekey_of(k, id, signing_seed, sk) && ed25519_verifies(
            ed25519_public(signing_seed),
            x25519_public(sk),
            ed25519_signature(signing_seed, x25519_public(sk)),
        ) && x25519_key_pair_ok(sk) && ed25519_signature(signing_seed, x25519_public(sk)).len() == 64
}

/// `k` is the one-time prekey numbered `id` of some 32-byte X25519 secret.
pub open spec fn is_one_time_prekey(k: OneTimePreKey, id: u32) -> bool {
    exists|sk: Seq<u8>| sk.len() == 32 && #[trigger] one_time_prekey_of(k, id, sk) && x25519_key_pair_ok(sk)
}

/// Generates a fresh identity bundle from the operating system's randomness.
pub fn generate_identity_internal() -> (res: Result<IdentityBundle, CryptoError>)
    ensures
        res matches Ok(b) && is_identity_bundle(b),
{
    let identity_secret = x25519_random_secret();
    let signing_seed = ed25519_random_seed();
    let b = identity_bundle_from_secrets(&identity_secret, &signing_seed);
    assert(identity_secret@.len() == 32 && signing_seed@.len() == 32);
    assert(identity_bundle_of(b, identity_secret@, signing_seed@));
    Ok(b)
}

/// Generates a fresh native identity bundle from the operating system's randomness.
pub fn generate_identity_native_internal() -> (res: Result<NativeIdentityBundle, CryptoError>)
    ensures
        res matches Ok(b) && is_native_bundle(b),
{
    let identity_secret = x25519_random_secret();
    let signing_seed = ed25519_random_seed();
    let b = native_identity_from_secrets(&identity_secret, &signing_seed);
    assert(identity_secret@.len() == 32 && signing_seed@.len() == 32);
    assert(native_bundle_of(b, identity_secret@, signing_seed@));
    Ok(b)
}

/// The signed prekey numbered `prekey_id` with secret `prekey_secret`,
/// signed with the signing key of `signing_seed`. Its signature verifies
/// under that signing key's verifying key.
pub fn signed_prekey_from_secret(signing_seed: &[u8; 32], prekey_id: u32, prekey_secret: &[u8; 32]) -> (k: SignedPreKey)
    ensures
        signed_prekey_of(k, prekey_id, signing_seed@, prekey_secret@),
        ed25519_verifies(
            ed25519_public(signing_seed@),
            x25519_public(prekey_secret@),
            ed25519_signature(signing_seed@, x25519_public(prekey_secret@)),
        ),
        x25519_key_pair_ok(prekey_secret@),
        ed25519_signature(signing_seed@, x25519_public(prekey_secret@)).len() == 64,
{
    let prekey_public = x25519_public_key(prekey_secret);
    let signature = ed25519_sign(signing_seed, prekey_public.as_slice());
    SignedPreKey {
        id: prekey_id,
        public_key: encode_base64(prekey_public.as_slice()),
        signature: encode_base64(signature.as_slice()),
        private_key: encode_base64(prekey_secret.as_slice()),
    }
}

/// Generate a signed prekey using the Ed25519 signing private key.
pub fn generate_signed_prekey_internal(signing_private_b64: &str, prekey_id: u32) -> (res: Result<SignedPreKey, CryptoError>)
    ensures
        match decode_exact(signing_private_b64@, 32, "signing_private"@) {
            Err(f) => res matches Err(e) && e@ == f,
            Ok(seed) => res matches Ok(k) && is_signed_prekey(k, prekey_id, seed),
        },
{
    let seed = match decode_key(signing_private_b64, "signing_private") {
        Ok(s) => s,
        Err(e) => {
            return Err(e);
        },
    };
    let prekey_secret = x25519_random_secret();
    let k = signed_prekey_from_secret(&seed, prekey_id, &prekey_secret);
    assert(prekey_secret@.len() == 32);
    assert(signed_prekey_of(k, prekey_id, seed@, prekey_secret@));
    Ok(k)
}

/// The one-time prekey numbered `id` with secret `secret`.
pub fn one_time_prekey_from_secret(id: u32, secret: &[u8; 32]) -> (k: OneTimePreKey)
    ensures
        one_time_prekey_of(k, id, secret@),
        x25519_key_pair_ok(secret@),
{
    let public = x25519_public_key(secret);
    OneTimePreKey {
        id,
        public_key: encode_base64(public.as_slice()),
        private_key: encode_base64(secret.as_slice()),
    }
}

/// Generate a batch of one-time prekeys (X25519 DH pairs).
pub fn generate_one_time_prekeys_internal(start_id: u32, count: u32) -> (res: Result<Vec<OneTimePreKey>, CryptoError>)
    requires
        start_id + count <= u32::MAX + 1,
    ensures
        res matches Ok(keys) && keys@.len() == count && forall|i: int|
            0 <= i < count ==> is_one_time_prekey(#[trigger] keys@[i], (start_id + i) as u32),
{
    let mut out: Vec<OneTimePreKey> = Vec::with_capacity(count as usize);
    let mut i: u32 = 0;
    while i < count
        invariant
            i <= count,
            start_id + count <= u32::MAX + 1,
            out@.len() == i,
            forall|j: int| 0 <= j < i ==> is_one_time_prekey(#[trigger] out@[j], (start_id + j) as u32),
        decreases count - i,
    {
        let fresh = x25519_random_secret();
        let key = one_time_prekey_from_secret(start_id + i, &fresh);
        let ghost before = out@;
        out.push(key);
        proof {
            assert(fresh@.len() == 32);
            assert(one_time_prekey_of(out@[i as int], (start_id + i) as u32, fresh@));
            assert forall|j: int| 0 <= j < i + 1 implies is_one_time_prekey(#[trigger] out@[j], (start_id + j) as u32) by {
                if j < i {
                    assert(out@[j] == before[j]);
                }
            }
        }
        i = i + 1;
    }
    Ok(out)
}

/// Decode an Ed25519 verifying key from base64: 32 bytes that decompress to
/// a curve point.
pub fn decode_signing_public_key(b64: &str) -> (key: Result<[u8; 32], CryptoError>)
    ensures
        key_result(key) == signing_key_outcome(b64@),
{
    let key = match decode_key(b64, "signing_public_key") {
        Ok(k) => k,
        Err(e) => {
            return Err(e);
        },
    };
    match ed25519_check_public_key(&key) {
        Ok(()) => Ok(key),
        Err(_) => Err(CryptoError::InvalidKeyMaterial("signing_public_key")),
    }
}

/// Decode an Ed25519 signature from base64: exactly 64 bytes.
pub fn decode_signature(b64: &str) -> (sig: Result<[u8; 64], CryptoError>)
    ensures
        signature_result(sig) == decode_exact(b64@, 64, "signature"@),
{
    decode_signature_bytes(b64, "signature")
}

/// Verify an Ed25519 signature over a prekey using the signing public key.
pub fn verify_signed_prekey_signature(signing_public_b64: &str, prekey_public_b64: &str, signature_b64: &str) -> (res:
    Result<(), CryptoError>)
    ensures
        unit_result(res) == prekey_signature_outcome(signing_public_b64@, prekey_public_b64@, signature_b64@),
{
    let verifying_key = match decode_signing_public_key(signing_public_b64) {
        Ok(k) => k,
        Err(e) => {
            return Err(e);
        },
    };
    let signature = match decode_signature(signature_b64) {
        Ok(s) => s,
        Err(e) => {
            return Err(e);
        },
    };
    let prekey_bytes = match base64_bytes(prekey_public_b64) {
        Some(b) => b,
        None => {
            return Err(CryptoError::InvalidBase64("signed_prekey_public"));
        },
    };
    match ed25519_verify_strict(&verifying_key, prekey_bytes.as_slice(), &signature) {
        Ok(()) => Ok(()),
        Err(_) => Err(CryptoError::SignatureVerificationFailed),
    }
}

/// Whether `signature` is a valid Ed25519 signature by `signing_public` over
/// the UTF-8 bytes of `message`, or over the bytes that `message` encodes in
/// base64 (so that a signed prekey's public key and signature can be checked
/// as they are published); any decoding failure of the key or the signature
/// gives `false`.
pub fn verify_identity_signature(signing_public: &str, message: &str, signature: &str) -> (valid: bool)
    ensures
        valid == identity_signature_valid(signing_public@, message@, signature@),
{
    let key_bytes = match base64_bytes(signing_public) {
        Some(b) => b,
        None => {
            return false;
        },
    };
    if key_bytes.len() != 32 {
        return false;
    }
    let mut key = [0u8; 32];
    let mut j: usize = 0;
    while j < 32
        invariant
            0 <= j <= 32,
            key_bytes@.len() == 32,
            forall|i: int| 0 <= i < j ==> key@[i] == key_bytes@[i],
        decreases 32 - j,
    {
        key[j] = key_bytes[j];
        j = j + 1;
    }
    assert(key@ =~= key_bytes@);
    if ed25519_check_public_key(&key).is_err() {
        return false;
    }
    let sig = match decode_signature(signature) {
        Ok(s) => s,
        Err(_) => {
            return false;
        },
    };
    if ed25519_verify(&key, message.as_bytes(), &sig).is_ok() {
        return true;
    }
    match base64_bytes(message) {
        Some(bytes) => ed25519_verify(&key, bytes.as_slice(), &sig).is_ok(),
        None => false,
    }
}

/// A signed prekey made by this library passes `verify_identity_signature`:
/// its base64 public key and signature check out under the base64 verifying
/// key of the identity whose signing key signed it.
pub proof fn lemma_generated_prekey_signature_valid(bob: IdentityBundle, bob_seed: Seq<u8>, spk: SignedPreKey, id: u32)
    requires
        is_identity_bundle(bob),
        bob.signing_private_key@ == base64_encode(bob_seed),
        is_signed_prekey(spk, id, bob_seed),
    ensures
        identity_signature_valid(bob.signing_public_key@, spk.public_key@, spk.signature@),
{
    let (ik_b, seed_b) = choose|sk: Seq<u8>, seed: Seq<u8>|
        sk.len() == 32 && seed.len() == 32 && #[trigger] identity_bundle_of(bob, sk, seed) && x25519_key_pair_ok(sk)
            && ed25519_public(seed).len() == 32 && ed25519_key_valid(ed25519_public(seed));
    lemma_base64_encode_injective(seed_b, bob_seed);
    let spk_sk = choose|sk: Seq<u8>|
        sk.len() == 32 && #[trigger] signed_prekey_of(spk, id, bob_seed, sk) && ed25519_verifies(
            ed25519_public(bob_seed),
            x25519_public(sk),
            ed25519_signature(bob_seed, x25519_public(sk)),
        ) && x25519_key_pair_ok(sk) && ed25519_signature(bob_seed, x25519_public(sk)).len() == 64;
    lemma_base64_round_trip(ed25519_public(bob_seed));
    lemma_base64_round_trip(x25519_public(spk_sk));
    lemma_base64_round_trip(ed25519_signature(bob_seed, x25519_public(spk_sk)));
}

/// A signature that Ed25519 accepts over the UTF-8 bytes of a message
/// passes `verify_identity_signature`: for a valid 32-byte verifying key and
/// a 64-byte signature given in base64, the check is true whatever else the
/// message might decode to.
pub proof fn lemma_identity_signature_accepts_text(key: Seq<u8>, message: Seq<char>, signature: Seq<u8>)
    requires
        key.len() == 32,
        ed25519_key_valid(key),
        signature.len() == 64,
        ed25519_verifies(key, encode_utf8(message), signature),
    ensures
        identity_signature_valid(base64_encode(key), message, base64_encode(signature)),
{
    lemma_base64_round_trip(key);
    lemma_base64_round_trip(signature);
}

/// The check is false unless the key is the base64 of a valid 32-byte
/// verifying key and the signature the base64 of 64 bytes.
pub proof fn lemma_identity_signature_needs_key_and_signature(signing_public: Seq<char>, message: Seq<char>, signature: Seq<char>)
    requires
        identity_signature_valid(signing_public, message, signature),
    ensures
        exists|key: Seq<u8>| key.len() == 32 && ed25519_key_valid(key) && base64_encode(key) == signing_public,
        exists|sig: Seq<u8>| sig.len() == 64 && base64_encode(sig) == signature,
{
    let key = base64_decode(signing_public)->Some_0;
    let sig = base64_decode(signature)->Some_0;
    assert(base64_encode(key) == signing_public);
    assert(base64_encode(sig) == signature);
}

} // verus!
