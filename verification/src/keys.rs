//! The key material and results that the public API hands out. Keys are
//! carried as standard base64 text.

use vstd::prelude::*;
use crate::error::CryptoError;
use crate::identity::{
    generate_identity_internal, generate_one_time_prekeys_internal, generate_signed_prekey_internal,
    is_identity_bundle, is_one_time_prekey, is_signed_prekey,
};
use crate::b64::decode_exact;

verus! {

/// Flat identity bundle returned by generate_identity() and IdentityBundle::generate().
#[derive(Clone, Debug)]
pub struct IdentityBundle {
    pub identity_private_key: String,
    pub identity_public_key: String,
    pub signing_private_key: String,
    pub signing_public_key: String,
}

impl IdentityBundle {
    /// Generates a fresh identity: an X25519 key pair and an Ed25519 signing key.
    pub fn generate() -> (res: Result<Self, CryptoError>)
        ensures
            res matches Ok(b) && is_identity_bundle(b),
    {
        generate_identity_internal()
    }
}

/// A signed prekey with both public and private halves.
#[derive(Clone, Debug)]
pub struct SignedPreKey {
    pub id: u32,
    pub public_key: String,
    pub signature: String,
    pub private_key: String,
}

/// A one-time prekey with both public and private halves.
#[derive(Clone, Debug)]
pub struct OneTimePreKey {
    pub id: u32,
    pub public_key: String,
    pub private_key: String,
}

/// Result of x3dh_initiate: session state + X3DH handshake metadata.
#[derive(Clone, Debug)]
pub struct X3dhInitiateResult {
    /// Base64-encoded serialized RatchetSessionState for the initiator.
    pub session_state: String,
    /// Base64-encoded ephemeral X25519 public key sent to the responder.
    pub ephemeral_public: String,
    /// ID of the one-time prekey consumed, if any.
    pub used_one_time_pre_key_id: Option<u32>,
}

/// Result of x3dh_respond: session state for the responder.
#[derive(Clone, Debug)]
pub struct X3dhRespondResult {
    /// Base64-encoded serialized RatchetSessionState for the responder.
    pub session_state: String,
}

/// X3DH initiate result that also exposes the raw root key.
#[derive(Clone, Debug)]
pub struct X3dhNativeInitiateResult {
    pub session_state: String,
    pub ephemeral_public: String,
    pub used_one_time_pre_key_id: Option<u32>,
    /// Base64-encoded X3DH master secret.
    pub root_key: String,
}

/// X3DH respond result that also exposes the raw root key.
#[derive(Clone, Debug)]
pub struct X3dhNativeRespondResult {
    pub session_state: String,
    /// Base64-encoded X3DH master secret.
    pub root_key: String,
}

/// Ratchet message (header + ciphertext, both base64-encoded).
#[derive(Clone, Debug)]
pub struct RatchetMessage {
    pub header: String,
    pub ciphertext: String,
}

/// Result of ratchet_encrypt.
#[derive(Clone, Debug)]
pub struct RatchetEncryptResult {
    pub updated_session_state: String,
    pub message: RatchetMessage,
}

/// Result of ratchet_decrypt.
#[derive(Clone, Debug)]
pub struct RatchetDecryptResult {
    pub updated_session_state: String,
    pub plaintext: String,
}

/// Key pair used in NativeIdentityBundle.
#[derive(Clone, Debug)]
pub struct KeyPair {
    pub public_key: String,
    pub private_key: String,
}

/// Full identity bundle, with methods for generating prekeys using this
/// identity's signing key.
#[derive(Clone, Debug)]
pub struct NativeIdentityBundle {
    pub identity: KeyPair,
    pub signing: KeyPair,
}

impl NativeIdentityBundle {
    /// A signed prekey, signed with this identity's signing key.
    pub fn generate_signed_prekey(&self, prekey_id: u32) -> (res: Result<SignedPreKey, CryptoError>)
        ensures
            match decode_exact(self.signing.private_key@, 32, "signing_private"@) {
                Err(f) => res matches Err(e) && e@ == f,
                Ok(seed) => res matches Ok(k) && is_signed_prekey(k, prekey_id, seed),
            },
    {
        generate_signed_prekey_internal(self.signing.private_key.as_str(), prekey_id)
    }

    /// A batch of `count` one-time prekeys numbered from `start_id`.
    pub fn generate_one_time_prekeys(&self, start_id: u32, count: u32) -> (res: Result<Vec<OneTimePreKey>, CryptoError>)
        requires
            start_id + count <= u32::MAX + 1,
        ensures
            res matches Ok(keys) && keys@.len() == count && forall|i: int|
                0 <= i < count ==> is_one_time_prekey(#[trigger] keys@[i], (start_id + i) as u32),
    {
        generate_one_time_prekeys_internal(start_id, count)
    }
}

} // verus!
