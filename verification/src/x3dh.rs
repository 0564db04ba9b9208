//! X3DH key agreement: the initiator and the responder each combine three or
//! four X25519 shared secrets into a master secret, from which their ratchet
//! sessions are derived.

use vstd::prelude::*;
use vstd::utf8::*;
use crate::b64::{base64_encode, decode_exact, decode_key, encode_base64, key_result, lemma_base64_round_trip};
use crate::error::{CryptoError, Failure};
use crate::identity::{prekey_signature_outcome, unit_result, verify_signed_prekey_signature};
use crate::keys::{
    OneTimePreKey, X3dhInitiateResult, X3dhNativeInitiateResult, X3dhNativeRespondResult, X3dhRespondResult,
};
use crate::primitives::{hkdf_sha256, x25519_dh, x25519_key_pair_ok, x25519_public, x25519_public_key, x25519_random_secret, x25519_shared_secret};
use crate::session::{decodes_session, hkdf_expand, session_from_secret, RatchetSessionState, SessionModel};
use crate::wire::session_json;

verus! {

/// HKDF context of the X3DH master secret.
pub open spec fn x3dh_info() -> Seq<u8> {
    encode_utf8("messenger-x3dh-v1"@)
}

/// The input keying material of the initiator: DH(IK_A, SPK_B) ‖
/// DH(EK_A, IK_B) ‖ DH(EK_A, SPK_B), then DH(EK_A, OPK_B) when there is a
/// one-time prekey.
pub open spec fn initiator_key_material(
    my_identity: Seq<u8>,
    their_identity_public: Seq<u8>,
    their_signed_prekey: Seq<u8>,
    their_one_time_prekey: Option<Seq<u8>>,
    my_ephemeral: Seq<u8>,
) -> Seq<u8> {
    let dh = x25519_dh(my_identity, their_signed_prekey) + x25519_dh(my_ephemeral, their_identity_public) + x25519_dh(
        my_ephemeral,
        their_signed_prekey,
    );
    match their_one_time_prekey {
        Some(opk) => dh + x25519_dh(my_ephemeral, opk),
        None => dh,
    }
}

/// The input keying material of the responder: DH(SPK_B, IK_A) ‖
/// DH(IK_B, EK_A) ‖ DH(SPK_B, EK_A), then DH(OPK_B, EK_A) when a one-time
/// prekey was used.
pub open spec fn responder_key_material(
    my_identity: Seq<u8>,
    my_signed_prekey: Seq<u8>,
    my_one_time_prekey: Option<Seq<u8>>,
    their_identity_public: Seq<u8>,
    their_ephemeral_public: Seq<u8>,
) -> Seq<u8> {
    let dh = x25519_dh(my_signed_prekey, their_identity_public) + x25519_dh(my_identity, their_ephemeral_public)
        + x25519_dh(my_signed_prekey, their_ephemeral_public);
    match my_one_time_prekey {
        Some(opk) => dh + x25519_dh(opk, their_ephemeral_public),
        None => dh,
    }
}

/// The initiator's master secret.
pub open spec fn initiator_secret(
    my_identity: Seq<u8>,
    their_identity_public: Seq<u8>,
    their_signed_prekey: Seq<u8>,
    their_one_time_prekey: Option<Seq<u8>>,
    my_ephemeral: Seq<u8>,
) -> Seq<u8> {
    hkdf_sha256(
        initiator_key_material(my_identity, their_identity_public, their_signed_prekey, their_one_time_prekey, my_ephemeral),
        x3dh_info(),
    )
}

/// The responder's master secret.
pub open spec fn responder_secret(
    my_identity: Seq<u8>,
    my_signed_prekey: Seq<u8>,
    my_one_time_prekey: Option<Seq<u8>>,
    their_identity_public: Seq<u8>,
    their_ephemeral_public: Seq<u8>,
) -> Seq<u8> {
    hkdf_sha256(
        responder_key_material(my_identity, my_signed_prekey, my_one_time_prekey, their_identity_public, their_ephemeral_public),
        x3dh_info(),
    )
}

/// Decoding the optional one-time prekey of the initiator.
pub open spec fn optional_key(text: Option<Seq<char>>, field: Seq<char>) -> Result<Option<Seq<u8>>, Failure> {
    match text {
        None => Ok(None),
        Some(t) => match decode_exact(t, 32, field) {
            Err(f) => Err(f),
            Ok(k) => Ok(Some(k)),
        },
    }
}

/// The initiator's side of X3DH on base64 inputs: when a signing key is
/// given, the signed prekey's signature is checked first; then the keys are
/// decoded in order; the result is the master secret with ephemeral secret
/// `my_ephemeral`.
pub open spec fn x3dh_initiate_outcome(
    my_identity: Seq<char>,
    their_identity_public: Seq<char>,
    their_signing_public: Option<Seq<char>>,
    their_signed_prekey: Seq<char>,
    their_signature: Seq<char>,
    their_one_time_prekey: Option<Seq<char>>,
    my_ephemeral: Seq<u8>,
) -> Result<Seq<u8>, Failure> {
    let checked = match their_signing_public {
        Some(s) => prekey_signature_outcome(s, their_signed_prekey, their_signature),
        None => Ok(()),
    };
    match checked {
        Err(f) => Err(f),
        Ok(()) => match decode_exact(my_identity, 32, "my_identity_private"@) {
            Err(f) => Err(f),
            Ok(ik) => match decode_exact(their_identity_public, 32, "their_identity_public"@) {
                Err(f) => Err(f),
                Ok(tik) => match decode_exact(their_signed_prekey, 32, "their_signed_prekey"@) {
                    Err(f) => Err(f),
                    Ok(tspk) => match optional_key(their_one_time_prekey, "their_one_time_prekey"@) {
                        Err(f) => Err(f),
                        Ok(opk) => Ok(initiator_secret(ik, tik, tspk, opk, my_ephemeral)),
                    },
                },
            },
        },
    }
}

/// The responder's side of X3DH on base64 inputs: the keys are decoded in
/// order; the result is the master secret.
pub open spec fn x3dh_respond_outcome(
    my_identity: Seq<char>,
    my_signed_prekey: Seq<char>,
    my_one_time_prekey: Option<Seq<char>>,
    their_identity_public: Seq<char>,
    their_ephemeral_public: Seq<char>,
) -> Result<Seq<u8>, Failure> {
    match decode_exact(my_identity, 32, "my_identity_private"@) {
        Err(f) => Err(f),
        Ok(ik) => match decode_exact(my_signed_prekey, 32, "my_signed_prekey_private"@) {
            Err(f) => Err(f),
            Ok(spk) => match decode_exact(their_identity_public, 32, "their_identity_public"@) {
                Err(f) => Err(f),
                Ok(tik) => match decode_exact(their_ephemeral_public, 32, "their_ephemeral_public"@) {
                    Err(f) => Err(f),
                    Ok(tek) => match optional_key(my_one_time_prekey, "my_one_time_prekey_private"@) {
                        Err(f) => Err(f),
                        Ok(opk) => Ok(responder_secret(ik, spk, opk, tik, tek)),
                    },
                },
            },
        },
    }
}

/// The serialized session state that a party derives from a master secret.
pub open spec fn session_text(master_secret: Seq<u8>, is_initiator: bool) -> Seq<char> {
    base64_encode(session_json(session_from_secret(master_secret, is_initiator)))
}

/// The public part of a one-time prekey, as the initiator receives it.
pub open spec fn prekey_public_text(k: Option<OneTimePreKey>) -> Option<Seq<char>> {
    match k {
        Some(k) => Some(k.public_key@),
        None => None,
    }
}

/// The id of a one-time prekey, if there is one.
pub open spec fn prekey_id(k: Option<OneTimePreKey>) -> Option<u32> {
    match k {
        Some(k) => Some(k.id),
        None => None,
    }
}

/// A master secret from which both parties derive well-formed sessions: 32
/// bytes, and 32-byte root and chain keys.
pub open spec fn master_secret_ok(ms: Seq<u8>) -> bool {
    &&& ms.len() == 32
    &&& session_from_secret(ms, true).well_formed()
    &&& session_from_secret(ms, false).well_formed()
}

/// `r` is the initiator's result for master secret `ms` and ephemeral secret `ek`.
pub open spec fn initiate_result_of(r: X3dhInitiateResult, ms: Seq<u8>, ek: Seq<u8>, used: Option<u32>) -> bool {
    &&& master_secret_ok(ms)
    &&& x25519_key_pair_ok(ek)
    &&& r.session_state@ == session_text(ms, true)
    &&& r.ephemeral_public@ == base64_encode(x25519_public(ek))
    &&& r.used_one_time_pre_key_id == used
}

/// `r` is the initiator's result, with root key, for master secret `ms` and
/// ephemeral secret `ek`.
pub open spec fn native_initiate_result_of(r: X3dhNativeInitiateResult, ms: Seq<u8>, ek: Seq<u8>, used: Option<u32>) -> bool {
    &&& master_secret_ok(ms)
    &&& x25519_key_pair_ok(ek)
    &&& r.session_state@ == session_text(ms, true)
    &&& r.ephemeral_public@ == base64_encode(x25519_public(ek))
    &&& r.used_one_time_pre_key_id == used
    &&& r.root_key@ == base64_encode(ms)
}

/// Decodes a base64 X25519 secret key.
fn decode_x25519_private(b64: &str, field: &'static str) -> (key: Result<[u8; 32], CryptoError>)
    ensures
        key_result(key) == decode_exact(b64@, 32, field@),
{
    decode_key(b64, field)
}

/// Decodes a base64 X25519 public key.
fn decode_x25519_public(b64: &str, field: &'static str) -> (key: Result<[u8; 32], CryptoError>)
    ensures
        key_result(key) == decode_exact(b64@, 32, field@),
{
    decode_key(b64, field)
}

/// The mathematical content of an optional key.
pub open spec fn key_option(k: Option<[u8; 32]>) -> Option<Seq<u8>> {
    match k {
        Some(k) => Some(k@),
        None => None,
    }
}

/// Decodes an optional base64 X25519 key.
fn decode_optional_key(b64: Option<&str>, field: &'static str) -> (key: Result<Option<[u8; 32]>, CryptoError>)
    ensures
        match optional_key(
            match b64 {
                Some(t) => Some(t@),
                None => None,
            },
            field@,
        ) {
            Ok(k) => key matches Ok(d) && key_option(d) == k,
            Err(f) => key matches Err(e) && e@ == f,
        },
{
    match b64 {
        None => Ok(None),
        Some(t) => match decode_key(t, field) {
            Ok(k) => Ok(Some(k)),
            Err(e) => Err(e),
        },
    }
}

/// Run the X3DH key agreement as the initiator.
fn x3dh_initiator_secret(
    my_identity_private: &[u8; 32],
    their_identity_public: &[u8; 32],
    their_signed_prekey: &[u8; 32],
    their_one_time_prekey: Option<[u8; 32]>,
    my_ephemeral_private: &[u8; 32],
) -> (secret: [u8; 32])
    ensures
        secret@ == initiator_secret(
            my_identity_private@,
            their_identity_public@,
            their_signed_prekey@,
            key_option(their_one_time_prekey),
            my_ephemeral_private@,
        ),
{
    let dh1 = x25519_shared_secret(my_identity_private, their_signed_prekey);
    let dh2 = x25519_shared_secret(my_ephemeral_private, their_identity_public);
    let dh3 = x25519_shared_secret(my_ephemeral_private, their_signed_prekey);
    let mut ikm: Vec<u8> = Vec::with_capacity(128);
    ikm.extend_from_slice(dh1.as_slice());
    ikm.extend_from_slice(dh2.as_slice());
    ikm.extend_from_slice(dh3.as_slice());
    if let Some(opk) = their_one_time_prekey {
        let dh4 = x25519_shared_secret(my_ephemeral_private, &opk);
        ikm.extend_from_slice(dh4.as_slice());
    }
    assert(ikm@ =~= initiator_key_material(
        my_identity_private@,
        their_identity_public@,
        their_signed_prekey@,
        key_option(their_one_time_prekey),
        my_ephemeral_private@,
    ));
    hkdf_expand(ikm.as_slice(), "messenger-x3dh-v1".as_bytes())
}

/// Run the X3DH key agreement as the responder.
fn x3dh_responder_secret(
    my_identity_private: &[u8; 32],
    my_signed_prekey_private: &[u8; 32],
    my_one_time_prekey_private: Option<[u8; 32]>,
    their_identity_public: &[u8; 32],
    their_ephemeral_public: &[u8; 32],
) -> (secret: [u8; 32])
    ensures
        secret@ == responder_secret(
            my_identity_private@,
            my_signed_prekey_private@,
            key_option(my_one_time_prekey_private),
            their_identity_public@,
            their_ephemeral_public@,
        ),
{
    let dh1 = x25519_shared_secret(my_signed_prekey_private, their_identity_public);
    let dh2 = x25519_shared_secret(my_identity_private, their_ephemeral_public);
    let dh3 = x25519_shared_secret(my_signed_prekey_private, their_ephemeral_public);
    let mut ikm: Vec<u8> = Vec::with_capacity(128);
    ikm.extend_from_slice(dh1.as_slice());
    ikm.extend_from_slice(dh2.as_slice());
    ikm.extend_from_slice(dh3.as_slice());
    if let Some(opk) = my_one_time_prekey_private {
        let dh4 = x25519_shared_secret(&opk, their_ephemeral_public);
        ikm.extend_from_slice(dh4.as_slice());
    }
    assert(ikm@ =~= responder_key_material(
        my_identity_private@,
        my_signed_prekey_private@,
        key_option(my_one_time_prekey_private),
        their_identity_public@,
        their_ephemeral_public@,
    ));
    hkdf_expand(ikm.as_slice(), "messenger-x3dh-v1".as_bytes())
}

/// The master secret of the responder's side on base64 inputs.
fn x3dh_respond_secret(
    my_identity_private_b64: &str,
    my_signed_prekey_private_b64: &str,
    my_one_time_prekey_private_b64: Option<&str>,
    their_identity_public_b64: &str,
    their_ephemeral_public_b64: &str,
) -> (secret: Result<[u8; 32], CryptoError>)
    ensures
        key_result(secret) == x3dh_respond_outcome(
            my_identity_private_b64@,
            my_signed_prekey_private_b64@,
            match my_one_time_prekey_private_b64 {
                Some(t) => Some(t@),
                None => None,
            },
            their_identity_public_b64@,
            their_ephemeral_public_b64@,
        ),
{
    let my_identity = match decode_x25519_private(my_identity_private_b64, "my_identity_private") {
        Ok(k) => k,
        Err(e) => {
            return Err(e);
        },
    };
    let my_spk = match decode_x25519_private(my_signed_prekey_private_b64, "my_signed_prekey_private") {
        Ok(k) => k,
        Err(e) => {
            return Err(e);
        },
    };
    let their_identity = match decode_x25519_public(their_identity_public_b64, "their_identity_public") {
        Ok(k) => k,
        Err(e) => {
            return Err(e);
        },
    };
    let their_ephemeral = match decode_x25519_public(their_ephemeral_public_b64, "their_ephemeral_public") {
        Ok(k) => k,
        Err(e) => {
            return Err(e);
        },
    };
    let my_opk = match decode_optional_key(my_one_time_prekey_private_b64, "my_one_time_prekey_private") {
        Ok(k) => k,
        Err(e) => {
            return Err(e);
        },
    };
    Ok(x3dh_responder_secret(&my_identity, &my_spk, my_opk, &their_identity, &their_ephemeral))
}

/// The master secret of the initiator's side on base64 inputs, with the
/// given ephemeral secret.
fn x3dh_initiate_secret(
    my_identity_private_b64: &str,
    their_identity_public_b64: &str,
    their_signing_public_b64: Option<&str>,
    their_signed_prekey_b64: &str,
    their_signed_prekey_signature_b64: &str,
    their_one_time_prekey_b64: Option<&str>,
    ephemeral_private: &[u8; 32],
) -> (secret: Result<[u8; 32], CryptoError>)
    ensures
        key_result(secret) == x3dh_initiate_outcome(
            my_identity_private_b64@,
            their_identity_public_b64@,
            match their_signing_public_b64 {
                Some(t) => Some(t@),
                None => None,
            },
            their_signed_prekey_b64@,
            their_signed_prekey_signature_b64@,
            match their_one_time_prekey_b64 {
                Some(t) => Some(t@),
                None => None,
            },
            ephemeral_private@,
        ),
{
    if let Some(spub) = their_signing_public_b64 {
        match verify_signed_prekey_signature(spub, their_signed_prekey_b64, their_signed_prekey_signature_b64) {
            Ok(()) => {},
            Err(e) => {
                return Err(e);
            },
        }
    }
    let my_identity = match decode_x25519_private(my_identity_private_b64, "my_identity_private") {
        Ok(k) => k,
        Err(e) => {
            return Err(e);
        },
    };
    let their_identity = match decode_x25519_public(their_identity_public_b64, "their_identity_public") {
        Ok(k) => k,
        Err(e) => {
            return Err(e);
        },
    };
    let their_spk = match decode_x25519_public(their_signed_prekey_b64, "their_signed_prekey") {
        Ok(k) => k,
        Err(e) => {
            return Err(e);
        },
    };
    let their_opk = match decode_optional_key(their_one_time_prekey_b64, "their_one_time_prekey") {
        Ok(k) => k,
        Err(e) => {
            return Err(e);
        },
    };
    Ok(x3dh_initiator_secret(&my_identity, &their_identity, &their_spk, their_opk, ephemeral_private))
}

/// The text of an optional key.
pub open spec fn text_option(t: Option<&str>) -> Option<Seq<char>> {
    match t {
        Some(t) => Some(t@),
        None => None,
    }
}

/// The text of an optional owned key.
pub open spec fn string_option(t: Option<String>) -> Option<Seq<char>> {
    match t {
        Some(t) => Some(t@),
        None => None,
    }
}

/// `r` is what the initiator returns for ephemeral secret `ek`.
pub open spec fn initiated_with(
    r: X3dhInitiateResult,
    my_identity: Seq<char>,
    their_identity_public: Seq<char>,
    their_signing_public: Seq<char>,
    their_signed_prekey: Seq<char>,
    their_signature: Seq<char>,
    one_time_prekey: Option<OneTimePreKey>,
    ek: Seq<u8>,
) -> bool {
    &&& ek.len() == 32
    &&& x3dh_initiate_outcome(
        my_identity,
        their_identity_public,
        Some(their_signing_public),
        their_signed_prekey,
        their_signature,
        prekey_public_text(one_time_prekey),
        ek,
    ) matches Ok(ms) && initiate_result_of(r, ms, ek, prekey_id(one_time_prekey))
}

/// `r` is what the initiator returns, with root key, for ephemeral secret `ek`.
pub open spec fn initiated_native_with(
    r: X3dhNativeInitiateResult,
    my_identity: Seq<char>,
    their_identity_public: Seq<char>,
    their_signed_prekey: Seq<char>,
    their_signature: Seq<char>,
    their_signing_public: Option<Seq<char>>,
    their_one_time_prekey: Option<Seq<char>>,
    their_one_time_prekey_id: Option<u32>,
    ek: Seq<u8>,
) -> bool {
    &&& ek.len() == 32
    &&& x3dh_initiate_outcome(
        my_identity,
        their_identity_public,
        their_signing_public,
        their_signed_prekey,
        their_signature,
        their_one_time_prekey,
        ek,
    ) matches Ok(ms) && native_initiate_result_of(r, ms, ek, their_one_time_prekey_id)
}

/// The initiator's failures do not depend on the ephemeral secret.
pub proof fn lemma_initiate_failure_independent(
    my_identity: Seq<char>,
    their_identity_public: Seq<char>,
    their_signing_public: Option<Seq<char>>,
    their_signed_prekey: Seq<char>,
    their_signature: Seq<char>,
    their_one_time_prekey: Option<Seq<char>>,
    ek1: Seq<u8>,
    ek2: Seq<u8>,
)
    requires
        x3dh_initiate_outcome(my_identity, their_identity_public, their_signing_public, their_signed_prekey, their_signature, their_one_time_prekey, ek1) is Err,
    ensures
        x3dh_initiate_outcome(my_identity, their_identity_public, their_signing_public, their_signed_prekey, their_signature, their_one_time_prekey, ek2)
            == x3dh_initiate_outcome(my_identity, their_identity_public, their_signing_public, their_signed_prekey, their_signature, their_one_time_prekey, ek1),
{
}

/// Initiate an X3DH session with the given ephemeral secret.
pub fn x3dh_initiate_with_ephemeral(
    my_identity_private_b64: &str,
    their_identity_public_b64: &str,
    their_signing_public_b64: &str,
    their_signed_prekey_b64: &str,
    their_signed_prekey_signature_b64: &str,
    one_time_prekey: Option<OneTimePreKey>,
    ephemeral_private: &[u8; 32],
) -> (res: Result<X3dhInitiateResult, CryptoError>)
    ensures
        match x3dh_initiate_outcome(
            my_identity_private_b64@,
            their_identity_public_b64@,
            Some(their_signing_public_b64@),
            their_signed_prekey_b64@,
            their_signed_prekey_signature_b64@,
            prekey_public_text(one_time_prekey),
            ephemeral_private@,
        ) {
            Ok(ms) => res matches Ok(r) && initiate_result_of(r, ms, ephemeral_private@, prekey_id(one_time_prekey)),
            Err(f) => res matches Err(e) && e@ == f,
        },
{
    let opk_text: Option<&str> = match &one_time_prekey {
        Some(k) => Some(k.public_key.as_str()),
        None => None,
    };
    let secret = match x3dh_initiate_secret(
        my_identity_private_b64,
        their_identity_public_b64,
        Some(their_signing_public_b64),
        their_signed_prekey_b64,
        their_signed_prekey_signature_b64,
        opk_text,
        ephemeral_private,
    ) {
        Ok(s) => s,
        Err(e) => {
            return Err(e);
        },
    };
    let session = RatchetSessionState::from_shared_secret(&secret, true);
    let session_state = match session.encode() {
        Ok(s) => s,
        Err(e) => {
            return Err(e);
        },
    };
    let ephemeral_public = x25519_public_key(ephemeral_private);
    let used = match &one_time_prekey {
        Some(k) => Some(k.id),
        None => None,
    };
    Ok(
        X3dhInitiateResult {
            session_state,
            ephemeral_public: encode_base64(ephemeral_public.as_slice()),
            used_one_time_pre_key_id: used,
        },
    )
}

/// Initiate an X3DH session. Returns a session result including serialized
/// RatchetSessionState for the initiator and the ephemeral public key to send.
/// The ephemeral secret is fresh randomness.
pub fn x3dh_initiate(
    my_identity_private_b64: &str,
    their_identity_public_b64: &str,
    their_signing_public_b64: &str,
    their_signed_prekey_b64: &str,
    their_signed_prekey_signature_b64: &str,
    one_time_prekey: Option<OneTimePreKey>,
) -> (res: Result<X3dhInitiateResult, CryptoError>)
    ensures
        match res {
            Ok(r) => exists|ek: Seq<u8>|
                #[trigger] initiated_with(
                    r,
                    my_identity_private_b64@,
                    their_identity_public_b64@,
                    their_signing_public_b64@,
                    their_signed_prekey_b64@,
                    their_signed_prekey_signature_b64@,
                    one_time_prekey,
                    ek,
                ),
            Err(e) => forall|ek: Seq<u8>|
                #[trigger] x3dh_initiate_outcome(
                    my_identity_private_b64@,
                    their_identity_public_b64@,
                    Some(their_signing_public_b64@),
                    their_signed_prekey_b64@,
                    their_signed_prekey_signature_b64@,
                    prekey_public_text(one_time_prekey),
                    ek,
                ) == Err::<Seq<u8>, Failure>(e@),
        },
{
    let ephemeral_private = x25519_random_secret();
    let ghost opk_text = prekey_public_text(one_time_prekey);
    let ghost id = prekey_id(one_time_prekey);
    let res = x3dh_initiate_with_ephemeral(
        my_identity_private_b64,
        their_identity_public_b64,
        their_signing_public_b64,
        their_signed_prekey_b64,
        their_signed_prekey_signature_b64,
        one_time_prekey,
        &ephemeral_private,
    );
    proof {
        let outcome = x3dh_initiate_outcome(
            my_identity_private_b64@,
            their_identity_public_b64@,
            Some(their_signing_public_b64@),
            their_signed_prekey_b64@,
            their_signed_prekey_signature_b64@,
            opk_text,
            ephemeral_private@,
        );
        assert(ephemeral_private@.len() == 32);
        if outcome is Err {
            assert forall|ek: Seq<u8>| #[trigger] x3dh_initiate_outcome(
                my_identity_private_b64@,
                their_identity_public_b64@,
                Some(their_signing_public_b64@),
                their_signed_prekey_b64@,
                their_signed_prekey_signature_b64@,
                opk_text,
                ek,
            ) == outcome by {
                lemma_initiate_failure_independent(
                    my_identity_private_b64@,
                    their_identity_public_b64@,
                    Some(their_signing_public_b64@),
                    their_signed_prekey_b64@,
                    their_signed_prekey_signature_b64@,
                    opk_text,
                    ephemeral_private@,
                    ek,
                );
            }
        } else {
            assert(res matches Ok(r) && initiated_with(
                r,
                my_identity_private_b64@,
                their_identity_public_b64@,
                their_signing_public_b64@,
                their_signed_prekey_b64@,
                their_signed_prekey_signature_b64@,
                one_time_prekey,
                ephemeral_private@,
            ));
        }
    }
    res
}

/// Respond to an X3DH initiation. Returns a session result including
/// serialized RatchetSessionState for the responder.
pub fn x3dh_respond(
    my_identity_private_b64: &str,
    my_signed_prekey_private_b64: &str,
    my_one_time_prekey_private_b64: Option<&str>,
    their_identity_public_b64: &str,
    their_ephemeral_public_b64: &str,
) -> (res: Result<X3dhRespondResult, CryptoError>)
    ensures
        match x3dh_respond_outcome(
            my_identity_private_b64@,
            my_signed_prekey_private_b64@,
            text_option(my_one_time_prekey_private_b64),
            their_identity_public_b64@,
            their_ephemeral_public_b64@,
        ) {
            Ok(ms) => res matches Ok(r) && r.session_state@ == session_text(ms, false) && master_secret_ok(ms),
            Err(f) => res matches Err(e) && e@ == f,
        },
{
    let secret = match x3dh_respond_secret(
        my_identity_private_b64,
        my_signed_prekey_private_b64,
        my_one_time_prekey_private_b64,
        their_identity_public_b64,
        their_ephemeral_public_b64,
    ) {
        Ok(s) => s,
        Err(e) => {
            return Err(e);
        },
    };
    let session = RatchetSessionState::from_shared_secret(&secret, false);
    let session_state = match session.encode() {
        Ok(s) => s,
        Err(e) => {
            return Err(e);
        },
    };
    Ok(X3dhRespondResult { session_state })
}

/// Initiate with the given ephemeral secret; the signature is checked only
/// when a signing key is given, and the result also holds the master secret.
pub fn x3dh_initiate_native_with_ephemeral(
    my_identity_private_b64: &str,
    their_identity_public_b64: &str,
    their_signed_prekey_b64: &str,
    their_signed_prekey_signature_b64: &str,
    their_signing_public_b64: Option<&str>,
    their_one_time_prekey_public: Option<String>,
    their_one_time_prekey_id: Option<u32>,
    ephemeral_private: &[u8; 32],
) -> (res: Result<X3dhNativeInitiateResult, CryptoError>)
    ensures
        match x3dh_initiate_outcome(
            my_identity_private_b64@,
            their_identity_public_b64@,
            text_option(their_signing_public_b64),
            their_signed_prekey_b64@,
            their_signed_prekey_signature_b64@,
            string_option(their_one_time_prekey_public),
            ephemeral_private@,
        ) {
            Ok(ms) => res matches Ok(r) && native_initiate_result_of(r, ms, ephemeral_private@, their_one_time_prekey_id),
            Err(f) => res matches Err(e) && e@ == f,
        },
{
    let opk_text: Option<&str> = match &their_one_time_prekey_public {
        Some(k) => Some(k.as_str()),
        None => None,
    };
    let secret = match x3dh_initiate_secret(
        my_identity_private_b64,
        their_identity_public_b64,
        their_signing_public_b64,
        their_signed_prekey_b64,
        their_signed_prekey_signature_b64,
        opk_text,
        ephemeral_private,
    ) {
        Ok(s) => s,
        Err(e) => {
            return Err(e);
        },
    };
    let session = RatchetSessionState::from_shared_secret(&secret, true);
    let session_state = match session.encode() {
        Ok(s) => s,
        Err(e) => {
            return Err(e);
        },
    };
    let ephemeral_public = x25519_public_key(ephemeral_private);
    Ok(
        X3dhNativeInitiateResult {
            session_state,
            ephemeral_public: encode_base64(ephemeral_public.as_slice()),
            used_one_time_pre_key_id: their_one_time_prekey_id,
            root_key: encode_base64(secret.as_slice()),
        },
    )
}

/// Native initiate: returns the root key in addition to session state. The
/// ephemeral secret is fresh randomness.
pub fn x3dh_initiate_native(
    my_identity_private_b64: &str,
    their_identity_public_b64: &str,
    their_signed_prekey_b64: &str,
    their_signed_prekey_signature_b64: &str,
    their_signing_public_b64: Option<&str>,
    their_one_time_prekey_public: Option<String>,
    their_one_time_prekey_id: Option<u32>,
) -> (res: Result<X3dhNativeInitiateResult, CryptoError>)
    ensures
        match res {
            Ok(r) => exists|ek: Seq<u8>|
                #[trigger] initiated_native_with(
                    r,
                    my_identity_private_b64@,
                    their_identity_public_b64@,
                    their_signed_prekey_b64@,
                    their_signed_prekey_signature_b64@,
                    text_option(their_signing_public_b64),
                    string_option(their_one_time_prekey_public),
                    their_one_time_prekey_id,
                    ek,
                ),
            Err(e) => forall|ek: Seq<u8>|
                #[trigger] x3dh_initiate_outcome(
                    my_identity_private_b64@,
                    their_identity_public_b64@,
                    text_option(their_signing_public_b64),
                    their_signed_prekey_b64@,
                    their_signed_prekey_signature_b64@,
                    string_option(their_one_time_prekey_public),
                    ek,
                ) == Err::<Seq<u8>, Failure>(e@),
        },
{
    let ephemeral_private = x25519_random_secret();
    let ghost opk_text = string_option(their_one_time_prekey_public);
    let res = x3dh_initiate_native_with_ephemeral(
        my_identity_private_b64,
        their_identity_public_b64,
        their_signed_prekey_b64,
        their_signed_prekey_signature_b64,
        their_signing_public_b64,
        their_one_time_prekey_public,
        their_one_time_prekey_id,
        &ephemeral_private,
    );
    proof {
        let outcome = x3dh_initiate_outcome(
            my_identity_private_b64@,
            their_identity_public_b64@,
            text_option(their_signing_public_b64),
            their_signed_prekey_b64@,
            their_signed_prekey_signature_b64@,
            opk_text,
            ephemeral_private@,
        );
        assert(ephemeral_private@.len() == 32);
        if outcome is Err {
            assert forall|ek: Seq<u8>| #[trigger] x3dh_initiate_outcome(
                my_identity_private_b64@,
                their_identity_public_b64@,
                text_option(their_signing_public_b64),
                their_signed_prekey_b64@,
                their_signed_prekey_signature_b64@,
                opk_text,
                ek,
            ) == outcome by {
                lemma_initiate_failure_independent(
                    my_identity_private_b64@,
                    their_identity_public_b64@,
                    text_option(their_signing_public_b64),
                    their_signed_prekey_b64@,
                    their_signed_prekey_signature_b64@,
                    opk_text,
                    ephemeral_private@,
                    ek,
                );
            }
        } else {
            assert(res matches Ok(r) && initiated_native_with(
                r,
                my_identity_private_b64@,
                their_identity_public_b64@,
                their_signed_prekey_b64@,
                their_signed_prekey_signature_b64@,
                text_option(their_signing_public_b64),
                opk_text,
                their_one_time_prekey_id,
                ephemeral_private@,
            ));
        }
    }
    res
}

/// Native respond: returns the root key in addition to session state.
pub fn x3dh_respond_native(
    my_identity_private_b64: &str,
    my_signed_prekey_private_b64: &str,
    my_one_time_prekey_private: Option<String>,
    their_identity_public_b64: &str,
    their_ephemeral_public_b64: &str,
) -> (res: Result<X3dhNativeRespondResult, CryptoError>)
    ensures
        match x3dh_respond_outcome(
            my_identity_private_b64@,
            my_signed_prekey_private_b64@,
            string_option(my_one_time_prekey_private),
            their_identity_public_b64@,
            their_ephemeral_public_b64@,
        ) {
            Ok(ms) => res matches Ok(r) && r.session_state@ == session_text(ms, false) && r.root_key@
                == base64_encode(ms) && master_secret_ok(ms),
            Err(f) => res matches Err(e) && e@ == f,
        },
{
    let opk_text: Option<&str> = match &my_one_time_prekey_private {
        Some(k) => Some(k.as_str()),
        None => None,
    };
    let secret = match x3dh_respond_secret(
        my_identity_private_b64,
        my_signed_prekey_private_b64,
        opk_text,
        their_identity_public_b64,
        their_ephemeral_public_b64,
    ) {
        Ok(s) => s,
        Err(e) => {
            return Err(e);
        },
    };
    let session = RatchetSessionState::from_shared_secret(&secret, false);
    let session_state = match session.encode() {
        Ok(s) => s,
        Err(e) => {
            return Err(e);
        },
    };
    Ok(X3dhNativeRespondResult { session_state, root_key: encode_base64(secret.as_slice()) })
}

/// X25519 agrees between the secrets `a` and `b`: each one's shared secret
/// with the other's public key is the same.
pub open spec fn x25519_agree(a: Seq<u8>, b: Seq<u8>) -> bool {
    x25519_dh(a, x25519_public(b)) == x25519_dh(b, x25519_public(a))
}

/// The public key of an optional secret.
pub open spec fn public_option(k: Option<Seq<u8>>) -> Option<Seq<u8>> {
    match k {
        Some(k) => Some(x25519_public(k)),
        None => None,
    }
}

/// The base64 text of an optional secret.
pub open spec fn secret_text_option(k: Option<Seq<u8>>) -> Option<Seq<char>> {
    match k {
        Some(k) => Some(base64_encode(k)),
        None => None,
    }
}

/// The base64 text of the public key of an optional secret.
pub open spec fn public_text_option(k: Option<Seq<u8>>) -> Option<Seq<char>> {
    match k {
        Some(k) => Some(base64_encode(x25519_public(k))),
        None => None,
    }
}

/// X3DH agrees: where X25519 agrees between the key pairs involved, the
/// initiator (identity `ik_a`, ephemeral `ek_a`) and the responder (identity
/// `ik_b`, signed prekey `spk_b`, one-time prekey `opk_b`) derive the same
/// master secret from each other's public keys.
pub proof fn lemma_x3dh_agreement(
    ik_a: Seq<u8>,
    ek_a: Seq<u8>,
    ik_b: Seq<u8>,
    spk_b: Seq<u8>,
    opk_b: Option<Seq<u8>>,
)
    requires
        x25519_agree(ik_a, spk_b),
        x25519_agree(ek_a, ik_b),
        x25519_agree(ek_a, spk_b),
        opk_b matches Some(o) ==> x25519_agree(ek_a, o),
    ensures
        initiator_secret(ik_a, x25519_public(ik_b), x25519_public(spk_b), public_option(opk_b), ek_a)
            == responder_secret(ik_b, spk_b, opk_b, x25519_public(ik_a), x25519_public(ek_a)),
{
    assert(initiator_key_material(ik_a, x25519_public(ik_b), x25519_public(spk_b), public_option(opk_b), ek_a)
        =~= responder_key_material(ik_b, spk_b, opk_b, x25519_public(ik_a), x25519_public(ek_a)));
}

/// X3DH agrees on base64 keys: when the initiator succeeds with the base64
/// public keys of the responder's secrets, the responder, given its base64
/// secrets and the initiator's base64 public keys, derives the same master
/// secret.
pub proof fn lemma_x3dh_texts_agree(
    ik_a: Seq<u8>,
    ek_a: Seq<u8>,
    ik_b: Seq<u8>,
    spk_b: Seq<u8>,
    opk_b: Option<Seq<u8>>,
    their_signing_public: Option<Seq<char>>,
    their_signature: Seq<char>,
)
    requires
        ik_a.len() == 32,
        ek_a.len() == 32,
        ik_b.len() == 32,
        spk_b.len() == 32,
        opk_b matches Some(o) ==> o.len() == 32 && x25519_public(o).len() == 32 && x25519_agree(ek_a, o),
        x25519_public(ik_a).len() == 32,
        x25519_public(ek_a).len() == 32,
        x25519_public(ik_b).len() == 32,
        x25519_public(spk_b).len() == 32,
        x25519_agree(ik_a, spk_b),
        x25519_agree(ek_a, ik_b),
        x25519_agree(ek_a, spk_b),
        x3dh_initiate_outcome(
            base64_encode(ik_a),
            base64_encode(x25519_public(ik_b)),
            their_signing_public,
            base64_encode(x25519_public(spk_b)),
            their_signature,
            public_text_option(opk_b),
            ek_a,
        ) is Ok,
    ensures
        x3dh_respond_outcome(
            base64_encode(ik_b),
            base64_encode(spk_b),
            secret_text_option(opk_b),
            base64_encode(x25519_public(ik_a)),
            base64_encode(x25519_public(ek_a)),
        ) == x3dh_initiate_outcome(
            base64_encode(ik_a),
            base64_encode(x25519_public(ik_b)),
            their_signing_public,
            base64_encode(x25519_public(spk_b)),
            their_signature,
            public_text_option(opk_b),
            ek_a,
        ),
{
    lemma_base64_round_trip(ik_a);
    lemma_base64_round_trip(ik_b);
    lemma_base64_round_trip(spk_b);
    lemma_base64_round_trip(x25519_public(ik_a));
    lemma_base64_round_trip(x25519_public(ek_a));
    lemma_base64_round_trip(x25519_public(ik_b));
    lemma_base64_round_trip(x25519_public(spk_b));
    if let Some(o) = opk_b {
        lemma_base64_round_trip(o);
        lemma_base64_round_trip(x25519_public(o));
    }
    lemma_x3dh_agreement(ik_a, ek_a, ik_b, spk_b, opk_b);
}

/// The responder's master secret is fixed by the X3DH layout: for base64
/// 32-byte keys, it is HKDF-SHA256, with context `messenger-x3dh-v1`, of
/// DH(SPK_B, IK_A) ‖ DH(IK_B, EK_A) ‖ DH(SPK_B, EK_A), followed by
/// DH(OPK_B, EK_A) when a one-time prekey is used.
pub proof fn lemma_responder_key_material(
    my_identity: Seq<u8>,
    my_signed_prekey: Seq<u8>,
    my_one_time_prekey: Option<Seq<u8>>,
    their_identity_public: Seq<u8>,
    their_ephemeral_public: Seq<u8>,
)
    requires
        my_identity.len() == 32,
        my_signed_prekey.len() == 32,
        my_one_time_prekey matches Some(o) ==> o.len() == 32,
        their_identity_public.len() == 32,
        their_ephemeral_public.len() == 32,
    ensures
        x3dh_respond_outcome(
            base64_encode(my_identity),
            base64_encode(my_signed_prekey),
            secret_text_option(my_one_time_prekey),
            base64_encode(their_identity_public),
            base64_encode(their_ephemeral_public),
        ) == Ok::<Seq<u8>, Failure>(
            hkdf_sha256(
                x25519_dh(my_signed_prekey, their_identity_public) + x25519_dh(my_identity, their_ephemeral_public)
                    + x25519_dh(my_signed_prekey, their_ephemeral_public) + match my_one_time_prekey {
                    Some(o) => x25519_dh(o, their_ephemeral_public),
                    None => Seq::empty(),
                },
                encode_utf8("messenger-x3dh-v1"@),
            ),
        ),
{
    lemma_base64_round_trip(my_identity);
    lemma_base64_round_trip(my_signed_prekey);
    lemma_base64_round_trip(their_identity_public);
    lemma_base64_round_trip(their_ephemeral_public);
    let dh = x25519_dh(my_signed_prekey, their_identity_public) + x25519_dh(my_identity, their_ephemeral_public)
        + x25519_dh(my_signed_prekey, their_ephemeral_public);
    match my_one_time_prekey {
        Some(o) => {
            lemma_base64_round_trip(o);
        },
        None => {
            assert(dh + Seq::<u8>::empty() =~= dh);
        },
    }
}

/// The initiator's master secret is fixed by the X3DH layout: for base64
/// 32-byte keys, once the signed prekey's signature is checked (or no
/// signing key is given), it is HKDF-SHA256, with context
/// `messenger-x3dh-v1`, of DH(IK_A, SPK_B) ‖ DH(EK_A, IK_B) ‖ DH(EK_A, SPK_B),
/// followed by DH(EK_A, OPK_B) when a one-time prekey is given.
pub proof fn lemma_initiator_key_material(
    my_identity: Seq<u8>,
    their_identity_public: Seq<u8>,
    their_signing_public: Option<Seq<char>>,
    their_signed_prekey: Seq<u8>,
    their_signature: Seq<char>,
    their_one_time_prekey: Option<Seq<u8>>,
    my_ephemeral: Seq<u8>,
)
    requires
        my_identity.len() == 32,
        their_identity_public.len() == 32,
        their_signed_prekey.len() == 32,
        their_one_time_prekey matches Some(o) ==> o.len() == 32,
        their_signing_public matches Some(sp) ==> prekey_signature_outcome(
            sp,
            base64_encode(their_signed_prekey),
            their_signature,
        ) is Ok,
    ensures
        x3dh_initiate_outcome(
            base64_encode(my_identity),
            base64_encode(their_identity_public),
            their_signing_public,
            base64_encode(their_signed_prekey),
            their_signature,
            secret_text_option(their_one_time_prekey),
            my_ephemeral,
        ) == Ok::<Seq<u8>, Failure>(
            hkdf_sha256(
                x25519_dh(my_identity, their_signed_prekey) + x25519_dh(my_ephemeral, their_identity_public)
                    + x25519_dh(my_ephemeral, their_signed_prekey) + match their_one_time_prekey {
                    Some(o) => x25519_dh(my_ephemeral, o),
                    None => Seq::empty(),
                },
                encode_utf8("messenger-x3dh-v1"@),
            ),
        ),
{
    lemma_base64_round_trip(my_identity);
    lemma_base64_round_trip(their_identity_public);
    lemma_base64_round_trip(their_signed_prekey);
    let dh = x25519_dh(my_identity, their_signed_prekey) + x25519_dh(my_ephemeral, their_identity_public)
        + x25519_dh(my_ephemeral, their_signed_prekey);
    match their_one_time_prekey {
        Some(o) => {
            lemma_base64_round_trip(o);
        },
        None => {
            assert(dh + Seq::<u8>::empty() =~= dh);
        },
    }
}

/// The initiator's serialized session is the one of the initiating side:
/// it decodes to a state whose root key is HKDF-SHA256 of the master secret
/// with context `messenger:root`, which sends on the chain with context
/// `messenger:chain:1` and receives on the one with `messenger:chain:2`, and
/// whose counters are zero.
pub proof fn lemma_initiator_session_role(r: X3dhInitiateResult, ms: Seq<u8>, ek: Seq<u8>, used: Option<u32>)
    requires
        initiate_result_of(r, ms, ek, used),
    ensures
        exists|m: SessionModel|
            #[trigger] decodes_session(r.session_state@, m) && m.root_key == hkdf_sha256(ms, encode_utf8("messenger:root"@))
                && m.send_chain_key == hkdf_sha256(m.root_key, encode_utf8("messenger:chain:1"@)) && m.recv_chain_key
                == hkdf_sha256(m.root_key, encode_utf8("messenger:chain:2"@)) && m.message_number == 0
                && m.previous_chain_length == 0,
{
    let m = session_from_secret(ms, true);
    assert(decodes_session(r.session_state@, m));
}

/// The same for the initiator's result that also holds the master secret.
pub proof fn lemma_native_initiator_session_role(r: X3dhNativeInitiateResult, ms: Seq<u8>, ek: Seq<u8>, used: Option<u32>)
    requires
        native_initiate_result_of(r, ms, ek, used),
    ensures
        exists|m: SessionModel|
            #[trigger] decodes_session(r.session_state@, m) && m.root_key == hkdf_sha256(ms, encode_utf8("messenger:root"@))
                && m.send_chain_key == hkdf_sha256(m.root_key, encode_utf8("messenger:chain:1"@)) && m.recv_chain_key
                == hkdf_sha256(m.root_key, encode_utf8("messenger:chain:2"@)) && m.message_number == 0
                && m.previous_chain_length == 0,
{
    let m = session_from_secret(ms, true);
    assert(decodes_session(r.session_state@, m));
}

} // verus!
