//! End-to-end encryption for a messenger: identities and prekeys, X3DH
//! session agreement, and a symmetric ratchet that encrypts each message
//! under a fresh key. All key material and session state travel as base64
//! text.

pub mod b64;
pub mod double_ratchet;
pub mod error;
pub mod identity;
pub mod json;
pub mod keys;
pub mod primitives;
pub mod session;
pub mod wire;
pub mod x3dh;

use vstd::prelude::*;
use crate::b64::{base64_decode, base64_encode, decode_exact, lemma_base64_encode_injective, lemma_base64_round_trip};
use crate::double_ratchet::{
    lemma_receiving_keeps_sending_chain, lemma_sending_keeps_receiving_chain,
    decrypt_outcome, encrypt_outcome, lemma_ratchet_round_trip, ratchet_decrypt_internal, ratchet_encrypt_internal,
};
use crate::error::{CryptoError, Failure};
use crate::primitives::{
    ed25519_key_valid, ed25519_public, ed25519_signature, ed25519_verifies, ed25519_verifies_strict, x25519_key_pair_ok,
    x25519_public,
};
use crate::identity::{
    generate_identity_internal, generate_identity_native_internal, generate_one_time_prekeys_internal,
    generate_signed_prekey_internal, identity_bundle_of, is_identity_bundle, is_native_bundle, is_one_time_prekey,
    is_signed_prekey, native_bundle_of, one_time_prekey_of, signed_prekey_of,
};
use crate::keys::{
    OneTimePreKey, RatchetDecryptResult, RatchetEncryptResult, RatchetMessage, X3dhInitiateResult,
    X3dhNativeInitiateResult, X3dhNativeRespondResult, X3dhRespondResult,
};
use crate::session::{decodes_session, session_from_secret, session_decode_outcome, session_result, RatchetSessionState, SessionModel};
use crate::wire::session_json;
use crate::x3dh::{
    initiate_result_of, initiated_native_with, initiated_with, lemma_x3dh_texts_agree, master_secret_ok,
    native_initiate_result_of, prekey_id, public_text_option, secret_text_option, x25519_agree, prekey_public_text, session_text, string_option, text_option,
    x3dh_initiate_outcome, x3dh_respond_outcome,
};

pub use crate::keys::{IdentityBundle, KeyPair, NativeIdentityBundle, SignedPreKey};

verus! {

/// Generate a new identity bundle (X25519 identity keys + Ed25519 signing keys).
pub fn generate_identity() -> (res: Result<IdentityBundle, CryptoError>)
    ensures
        res matches Ok(b) && is_identity_bundle(b),
{
    generate_identity_internal()
}

/// Generate a native identity bundle, with key pairs.
pub fn generate_identity_native() -> (res: Result<NativeIdentityBundle, CryptoError>)
    ensures
        res matches Ok(b) && is_native_bundle(b),
{
    generate_identity_native_internal()
}

/// Generate a signed prekey. `signing_private_b64` must be the Ed25519 signing
/// private key (the `signing_private_key` field of an `IdentityBundle`).
pub fn generate_signed_prekey(signing_private_b64: &str, prekey_id: u32) -> (res: Result<SignedPreKey, CryptoError>)
    ensures
        match decode_exact(signing_private_b64@, 32, "signing_private"@) {
            Err(f) => res matches Err(e) && e@ == f,
            Ok(seed) => res matches Ok(k) && is_signed_prekey(k, prekey_id, seed),
        },
{
    generate_signed_prekey_internal(signing_private_b64, prekey_id)
}

/// Generate a batch of one-time prekeys.
pub fn generate_one_time_prekeys(start_id: u32, count: u32) -> (res: Result<Vec<OneTimePreKey>, CryptoError>)
    requires
        start_id + count <= u32::MAX + 1,
    ensures
        res matches Ok(keys) && keys@.len() == count && forall|i: int|
            0 <= i < count ==> is_one_time_prekey(#[trigger] keys@[i], (start_id + i) as u32),
{
    generate_one_time_prekeys_internal(start_id, count)
}

/// Initiate an X3DH session as the sender.
pub fn x3dh_initiate_session(
    my_identity_private_b64: &str,
    their_identity_public_b64: &str,
    their_signing_public_b64: &str,
    their_signed_prekey_b64: &str,
    their_signed_prekey_signature_b64: &str,
    one_time_prekey: Option<OneTimePreKey>,
) -> (res: Result<X3dhInitiateResult, CryptoError>)
    ensures
        match res {
            Ok(r) => exists|ek: Seq<u8>|
                #[trigger] initiated_with(
                    r,
                    my_identity_private_b64@,
                    their_identity_public_b64@,
                    their_signing_public_b64@,
                    their_signed_prekey_b64@,
                    their_signed_prekey_signature_b64@,
                    one_time_prekey,
                    ek,
                ),
            Err(e) => forall|ek: Seq<u8>|
                #[trigger] x3dh_initiate_outcome(
                    my_identity_private_b64@,
                    their_identity_public_b64@,
                    Some(their_signing_public_b64@),
                    their_signed_prekey_b64@,
                    their_signed_prekey_signature_b64@,
                    prekey_public_text(one_time_prekey),
                    ek,
                ) == Err::<Seq<u8>, Failure>(e@),
        },
{
    crate::x3dh::x3dh_initiate(
        my_identity_private_b64,
        their_identity_public_b64,
        their_signing_public_b64,
        their_signed_prekey_b64,
        their_signed_prekey_signature_b64,
        one_time_prekey,
    )
}

/// Respond to an X3DH initiation as the recipient.
pub fn x3dh_respond_session(
    my_identity_private_b64: &str,
    my_signed_prekey_private_b64: &str,
    my_one_time_prekey_private_b64: Option<String>,
    their_identity_public_b64: &str,
    their_ephemeral_public_b64: &str,
) -> (res: Result<X3dhRespondResult, CryptoError>)
    ensures
        match x3dh_respond_outcome(
            my_identity_private_b64@,
            my_signed_prekey_private_b64@,
            string_option(my_one_time_prekey_private_b64),
            their_identity_public_b64@,
            their_ephemeral_public_b64@,
        ) {
            Ok(ms) => res matches Ok(r) && r.session_state@ == session_text(ms, false) && master_secret_ok(ms),
            Err(f) => res matches Err(e) && e@ == f,
        },
{
    let opk: Option<&str> = match &my_one_time_prekey_private_b64 {
        Some(k) => Some(k.as_str()),
        None => None,
    };
    crate::x3dh::x3dh_respond(
        my_identity_private_b64,
        my_signed_prekey_private_b64,
        opk,
        their_identity_public_b64,
        their_ephemeral_public_b64,
    )
}

/// Initiate an X3DH session, also returning the raw root key.
pub fn x3dh_initiate_native(
    my_identity_private: &str,
    their_identity_public: &str,
    their_signed_prekey: &str,
    their_signed_prekey_signature: &str,
    their_signing_public: Option<&str>,
    their_one_time_prekey_public: Option<String>,
    their_one_time_prekey_id: Option<u32>,
) -> (res: Result<X3dhNativeInitiateResult, CryptoError>)
    ensures
        match res {
            Ok(r) => exists|ek: Seq<u8>|
                #[trigger] initiated_native_with(
                    r,
                    my_identity_private@,
                    their_identity_public@,
                    their_signed_prekey@,
                    their_signed_prekey_signature@,
                    text_option(their_signing_public),
                    string_option(their_one_time_prekey_public),
                    their_one_time_prekey_id,
                    ek,
                ),
            Err(e) => forall|ek: Seq<u8>|
                #[trigger] x3dh_initiate_outcome(
                    my_identity_private@,
                    their_identity_public@,
                    text_option(their_signing_public),
                    their_signed_prekey@,
                    their_signed_prekey_signature@,
                    string_option(their_one_time_prekey_public),
                    ek,
                ) == Err::<Seq<u8>, Failure>(e@),
        },
{
    crate::x3dh::x3dh_initiate_native(
        my_identity_private,
        their_identity_public,
        their_signed_prekey,
        their_signed_prekey_signature,
        their_signing_public,
        their_one_time_prekey_public,
        their_one_time_prekey_id,
    )
}

/// Respond to an X3DH initiation, also returning the raw root key.
pub fn x3dh_respond_native(
    my_identity_private: &str,
    my_signed_prekey_private: &str,
    my_one_time_prekey_private: Option<String>,
    their_identity_public: &str,
    their_ephemeral_public: &str,
) -> (res: Result<X3dhNativeRespondResult, CryptoError>)
    ensures
        match x3dh_respond_outcome(
            my_identity_private@,
            my_signed_prekey_private@,
            string_option(my_one_time_prekey_private),
            their_identity_public@,
            their_ephemeral_public@,
        ) {
            Ok(ms) => res matches Ok(r) && r.session_state@ == session_text(ms, false) && r.root_key@
                == base64_encode(ms) && master_secret_ok(ms),
            Err(f) => res matches Err(e) && e@ == f,
        },
{
    crate::x3dh::x3dh_respond_native(
        my_identity_private,
        my_signed_prekey_private,
        my_one_time_prekey_private,
        their_identity_public,
        their_ephemeral_public,
    )
}

/// The outcomes of `ratchet_encrypt` on a serialized state: the state is
/// decoded, a message is encrypted from it, and the advanced state is
/// serialized; a failure of either step is the result.
pub open spec fn ratchet_encrypt_outcome(
    state_text: Seq<char>,
    plaintext: Seq<char>,
    out: Result<(Seq<char>, Seq<char>, Seq<char>), Failure>,
) -> bool {
    exists|decoded: Result<SessionModel, Failure>|
        #[trigger] session_decode_outcome(state_text, decoded) && match decoded {
            Err(f) => out == Err::<(Seq<char>, Seq<char>, Seq<char>), Failure>(f),
            Ok(m) => exists|m2: SessionModel, enc: Result<(Seq<char>, Seq<char>), Failure>|
                #[trigger] encrypt_outcome(m, plaintext, m2, enc) && m2.well_formed() && match enc {
                    Ok((h, c)) => out == Ok::<(Seq<char>, Seq<char>, Seq<char>), Failure>(
                        (base64_encode(session_json(m2)), h, c),
                    ),
                    Err(f) => out == Err::<(Seq<char>, Seq<char>, Seq<char>), Failure>(f),
                },
        }
}

/// The outcomes of `ratchet_decrypt` on a serialized state: the state is
/// decoded, the message is decrypted with it, and the advanced state is
/// serialized; a failure of either step is the result.
pub open spec fn ratchet_decrypt_outcome(
    state_text: Seq<char>,
    header: Seq<char>,
    ciphertext: Seq<char>,
    out: Result<(Seq<char>, Seq<char>), Failure>,
) -> bool {
    exists|decoded: Result<SessionModel, Failure>|
        #[trigger] session_decode_outcome(state_text, decoded) && match decoded {
            Err(f) => out == Err::<(Seq<char>, Seq<char>), Failure>(f),
            Ok(m) => exists|m2: SessionModel, dec: Result<Seq<char>, Failure>|
                #[trigger] decrypt_outcome(m, header, ciphertext, m2, dec) && m2.well_formed() && match dec {
                    Ok(p) => out == Ok::<(Seq<char>, Seq<char>), Failure>((base64_encode(session_json(m2)), p)),
                    Err(f) => out == Err::<(Seq<char>, Seq<char>), Failure>(f),
                },
        }
}

/// The mathematical content of the result of `ratchet_encrypt`.
pub open spec fn encrypt_api_result(r: Result<RatchetEncryptResult, CryptoError>) -> Result<
    (Seq<char>, Seq<char>, Seq<char>),
    Failure,
> {
    match r {
        Ok(r) => Ok((r.updated_session_state@, r.message.header@, r.message.ciphertext@)),
        Err(e) => Err(e@),
    }
}

/// The mathematical content of the result of `ratchet_decrypt`.
pub open spec fn decrypt_api_result(r: Result<RatchetDecryptResult, CryptoError>) -> Result<(Seq<char>, Seq<char>), Failure> {
    match r {
        Ok(r) => Ok((r.updated_session_state@, r.plaintext@)),
        Err(e) => Err(e@),
    }
}

/// Encrypt a message using the ratchet.
/// `session_state` is the base64-encoded serialized `RatchetSessionState`.
/// Returns an updated session state and the encrypted message.
pub fn ratchet_encrypt(session_state: &str, plaintext: &str) -> (res: Result<RatchetEncryptResult, CryptoError>)
    ensures
        ratchet_encrypt_outcome(session_state@, plaintext@, encrypt_api_result(res)),
{
    let decoded = RatchetSessionState::decode(session_state);
    let mut state = match decoded {
        Ok(s) => s,
        Err(e) => {
            proof {
                assert(session_decode_outcome(session_state@, session_result(decoded)));
            }
            return Err(e);
        },
    };
    let ghost before = state@;
    assert(session_decode_outcome(session_state@, Ok::<SessionModel, Failure>(before)));
    let msg = ratchet_encrypt_internal(&mut state, plaintext);
    let msg = match msg {
        Ok(m) => m,
        Err(e) => {
            proof {
                assert(encrypt_outcome(before, plaintext@, state@, Err::<(Seq<char>, Seq<char>), Failure>(e@)));
            }
            return Err(e);
        },
    };
    assert(encrypt_outcome(before, plaintext@, state@, Ok::<(Seq<char>, Seq<char>), Failure>((msg.header@, msg.ciphertext@))));
    let updated_session_state = match state.encode() {
        Ok(s) => s,
        Err(e) => {
            return Err(e);
        },
    };
    Ok(
        RatchetEncryptResult {
            updated_session_state,
            message: RatchetMessage { header: msg.header, ciphertext: msg.ciphertext },
        },
    )
}

/// Decrypt a message using the ratchet.
/// Returns the plaintext and the updated serialized session state.
pub fn ratchet_decrypt(session_state: &str, header: &str, ciphertext: &str) -> (res: Result<RatchetDecryptResult, CryptoError>)
    ensures
        ratchet_decrypt_outcome(session_state@, header@, ciphertext@, decrypt_api_result(res)),
{
    let decoded = RatchetSessionState::decode(session_state);
    let mut state = match decoded {
        Ok(s) => s,
        Err(e) => {
            proof {
                assert(session_decode_outcome(session_state@, session_result(decoded)));
            }
            return Err(e);
        },
    };
    let ghost before = state@;
    assert(session_decode_outcome(session_state@, Ok::<SessionModel, Failure>(before)));
    let plaintext = ratchet_decrypt_internal(&mut state, header, ciphertext);
    let plaintext = match plaintext {
        Ok(p) => p,
        Err(e) => {
            proof {
                assert(decrypt_outcome(before, header@, ciphertext@, state@, Err::<Seq<char>, Failure>(e@)));
            }
            return Err(e);
        },
    };
    assert(decrypt_outcome(before, header@, ciphertext@, state@, Ok::<Seq<char>, Failure>(plaintext@)));
    let updated_session_state = match state.encode() {
        Ok(s) => s,
        Err(e) => {
            return Err(e);
        },
    };
    Ok(RatchetDecryptResult { updated_session_state, plaintext })
}

/// Two serialized session states are paired: they decode to states where
/// the second receives on the chain that the first sends on.
pub open spec fn paired_texts(sender_text: Seq<char>, receiver_text: Seq<char>) -> bool {
    exists|a: SessionModel, b: SessionModel|
        decodes_session(sender_text, a) && decodes_session(receiver_text, b) && #[trigger] chains_match(a, b)
}

/// The receiver's receiving chain is the sender's sending chain.
pub open spec fn chains_match(sender: SessionModel, receiver: SessionModel) -> bool {
    receiver.recv_chain_key == sender.send_chain_key
}

/// Messages survive a session kept in serialized form: when the sender's and
/// the receiver's states are paired, a message that `ratchet_encrypt` sealed
/// is opened by `ratchet_decrypt` into the same plaintext, and the updated
/// states are paired again, ready for the next message.
pub proof fn lemma_serialized_round_trip(
    sender_text: Seq<char>,
    receiver_text: Seq<char>,
    plaintext: Seq<char>,
    sender_next: Seq<char>,
    header: Seq<char>,
    ciphertext: Seq<char>,
    received: Result<(Seq<char>, Seq<char>), Failure>,
)
    requires
        paired_texts(sender_text, receiver_text),
        ratchet_encrypt_outcome(
            sender_text,
            plaintext,
            Ok::<(Seq<char>, Seq<char>, Seq<char>), Failure>((sender_next, header, ciphertext)),
        ),
        ratchet_decrypt_outcome(receiver_text, header, ciphertext, received),
    ensures
        received matches Ok((receiver_next, p)) && p == plaintext && paired_texts(sender_next, receiver_next),
{
    let (a, b) = choose|a: SessionModel, b: SessionModel|
        decodes_session(sender_text, a) && decodes_session(receiver_text, b) && #[trigger] chains_match(a, b);
    let out = Ok::<(Seq<char>, Seq<char>, Seq<char>), Failure>((sender_next, header, ciphertext));
    let da = choose|d: Result<SessionModel, Failure>| #[trigger] session_decode_outcome(sender_text, d) && match d {
        Err(f) => out == Err::<(Seq<char>, Seq<char>, Seq<char>), Failure>(f),
        Ok(m) => exists|m2: SessionModel, enc: Result<(Seq<char>, Seq<char>), Failure>|
            #[trigger] encrypt_outcome(m, plaintext, m2, enc) && m2.well_formed() && match enc {
                Ok((h, c)) => out == Ok::<(Seq<char>, Seq<char>, Seq<char>), Failure>(
                    (base64_encode(session_json(m2)), h, c),
                ),
                Err(f) => out == Err::<(Seq<char>, Seq<char>, Seq<char>), Failure>(f),
            },
    };
    assert(da == Ok::<SessionModel, Failure>(a));
    let (a2, enc) = choose|m2: SessionModel, enc: Result<(Seq<char>, Seq<char>), Failure>|
        #[trigger] encrypt_outcome(a, plaintext, m2, enc) && m2.well_formed() && match enc {
            Ok((h, c)) => out == Ok::<(Seq<char>, Seq<char>, Seq<char>), Failure>((base64_encode(session_json(m2)), h, c)),
            Err(f) => out == Err::<(Seq<char>, Seq<char>, Seq<char>), Failure>(f),
        };
    assert(enc == Ok::<(Seq<char>, Seq<char>), Failure>((header, ciphertext)));
    let db = choose|d: Result<SessionModel, Failure>| #[trigger] session_decode_outcome(receiver_text, d) && match d {
        Err(f) => received == Err::<(Seq<char>, Seq<char>), Failure>(f),
        Ok(m) => exists|m2: SessionModel, dec: Result<Seq<char>, Failure>|
            #[trigger] decrypt_outcome(m, header, ciphertext, m2, dec) && m2.well_formed() && match dec {
                Ok(p) => received == Ok::<(Seq<char>, Seq<char>), Failure>((base64_encode(session_json(m2)), p)),
                Err(f) => received == Err::<(Seq<char>, Seq<char>), Failure>(f),
            },
    };
    assert(db == Ok::<SessionModel, Failure>(b));
    let (b2, dec) = choose|m2: SessionModel, dec: Result<Seq<char>, Failure>|
        #[trigger] decrypt_outcome(b, header, ciphertext, m2, dec) && m2.well_formed() && match dec {
            Ok(p) => received == Ok::<(Seq<char>, Seq<char>), Failure>((base64_encode(session_json(m2)), p)),
            Err(f) => received == Err::<(Seq<char>, Seq<char>), Failure>(f),
        };
    lemma_ratchet_round_trip(a, b, plaintext, a2, header, ciphertext, b2, dec);
    assert(decodes_session(sender_next, a2));
    assert(decodes_session(base64_encode(session_json(b2)), b2));
    assert(chains_match(a2, b2));
}

/// A conversation can go both ways: when two serialized sessions are paired
/// in both directions and a message from the first is received by the
/// second, the received plaintext is the one sent, and the updated sessions
/// are again paired in both directions, so the second can reply and the
/// first can read the reply.
pub proof fn lemma_reply_after_receive(
    sender_text: Seq<char>,
    receiver_text: Seq<char>,
    plaintext: Seq<char>,
    sender_next: Seq<char>,
    header: Seq<char>,
    ciphertext: Seq<char>,
    received: Result<(Seq<char>, Seq<char>), Failure>,
)
    requires
        paired_texts(sender_text, receiver_text),
        paired_texts(receiver_text, sender_text),
        ratchet_encrypt_outcome(
            sender_text,
            plaintext,
            Ok::<(Seq<char>, Seq<char>, Seq<char>), Failure>((sender_next, header, ciphertext)),
        ),
        ratchet_decrypt_outcome(receiver_text, header, ciphertext, received),
    ensures
        received matches Ok((receiver_next, p)) && p == plaintext && paired_texts(sender_next, receiver_next)
            && paired_texts(receiver_next, sender_next),
{
    lemma_serialized_round_trip(sender_text, receiver_text, plaintext, sender_next, header, ciphertext, received);
    let (a, b) = choose|a: SessionModel, b: SessionModel|
        decodes_session(receiver_text, a) && decodes_session(sender_text, b) && #[trigger] chains_match(a, b);
    let out = Ok::<(Seq<char>, Seq<char>, Seq<char>), Failure>((sender_next, header, ciphertext));
    let da = choose|d: Result<SessionModel, Failure>| #[trigger] session_decode_outcome(sender_text, d) && match d {
        Err(f) => out == Err::<(Seq<char>, Seq<char>, Seq<char>), Failure>(f),
        Ok(m) => exists|m2: SessionModel, enc: Result<(Seq<char>, Seq<char>), Failure>|
            #[trigger] encrypt_outcome(m, plaintext, m2, enc) && m2.well_formed() && match enc {
                Ok((h, c)) => out == Ok::<(Seq<char>, Seq<char>, Seq<char>), Failure>(
                    (base64_encode(session_json(m2)), h, c),
                ),
                Err(f) => out == Err::<(Seq<char>, Seq<char>, Seq<char>), Failure>(f),
            },
    };
    assert(da == Ok::<SessionModel, Failure>(b));
    let (b2, enc) = choose|m2: SessionModel, enc: Result<(Seq<char>, Seq<char>), Failure>|
        #[trigger] encrypt_outcome(b, plaintext, m2, enc) && m2.well_formed() && match enc {
            Ok((h, c)) => out == Ok::<(Seq<char>, Seq<char>, Seq<char>), Failure>((base64_encode(session_json(m2)), h, c)),
            Err(f) => out == Err::<(Seq<char>, Seq<char>, Seq<char>), Failure>(f),
        };
    lemma_sending_keeps_receiving_chain(b, plaintext, b2, enc);
    let db = choose|d: Result<SessionModel, Failure>| #[trigger] session_decode_outcome(receiver_text, d) && match d {
        Err(f) => received == Err::<(Seq<char>, Seq<char>), Failure>(f),
        Ok(m) => exists|m2: SessionModel, dec: Result<Seq<char>, Failure>|
            #[trigger] decrypt_outcome(m, header, ciphertext, m2, dec) && m2.well_formed() && match dec {
                Ok(p) => received == Ok::<(Seq<char>, Seq<char>), Failure>((base64_encode(session_json(m2)), p)),
                Err(f) => received == Err::<(Seq<char>, Seq<char>), Failure>(f),
            },
    };
    assert(db == Ok::<SessionModel, Failure>(a));
    let (a2, dec) = choose|m2: SessionModel, dec: Result<Seq<char>, Failure>|
        #[trigger] decrypt_outcome(a, header, ciphertext, m2, dec) && m2.well_formed() && match dec {
            Ok(p) => received == Ok::<(Seq<char>, Seq<char>), Failure>((base64_encode(session_json(m2)), p)),
            Err(f) => received == Err::<(Seq<char>, Seq<char>), Failure>(f),
        };
    let p = dec->Ok_0;
    lemma_receiving_keeps_sending_chain(a, header, ciphertext, a2, p);
    let receiver_next = received->Ok_0.0;
    assert(decodes_session(receiver_next, a2));
    assert(decodes_session(sender_next, b2));
    assert(chains_match(a2, b2));
}

/// The two sessions derived from one master secret are paired both ways:
/// each party receives on the chain that the other sends on.
pub proof fn lemma_x3dh_sessions_paired(master_secret: Seq<u8>)
    requires
        session_from_secret(master_secret, true).well_formed(),
    ensures
        paired_texts(session_text(master_secret, true), session_text(master_secret, false)),
        paired_texts(session_text(master_secret, false), session_text(master_secret, true)),
{
    let a = session_from_secret(master_secret, true);
    let b = session_from_secret(master_secret, false);
    crate::session::lemma_sessions_pair(master_secret);
    assert(decodes_session(session_text(master_secret, true), a));
    assert(decodes_session(session_text(master_secret, false), b));
    assert(chains_match(a, b));
    assert(chains_match(b, a));
}


/// `a` and `b` are the initiator's and the responder's serialized sessions for
/// master secret `ms`: they decode to states with the same root key, each
/// sending on the chain that the other receives on.
pub open spec fn agreed_sessions(a: Seq<char>, b: Seq<char>, ms: Seq<u8>) -> bool {
    let sa = session_from_secret(ms, true);
    let sb = session_from_secret(ms, false);
    &&& decodes_session(a, sa)
    &&& decodes_session(b, sb)
    &&& sa.root_key == sb.root_key
    &&& sa.send_chain_key == sb.recv_chain_key
    &&& sa.recv_chain_key == sb.send_chain_key
}

/// The private part of a one-time prekey, as its owner passes it to the
/// responder.
pub open spec fn prekey_private_text(k: Option<OneTimePreKey>) -> Option<Seq<char>> {
    match k {
        Some(k) => Some(k.private_key@),
        None => None,
    }
}

/// Bob's signature on his signed prekey passes strict Ed25519 verification
/// under the verifying key of `seed`.
pub open spec fn prekey_strictly_signed(seed: Seq<u8>, spk: SignedPreKey) -> bool {
    match (base64_decode(spk.public_key@), base64_decode(spk.signature@)) {
        (Some(p), Some(sig)) => ed25519_verifies_strict(ed25519_public(seed), p, sig),
        _ => false,
    }
}

/// The X25519 secret of an optional one-time prekey made by this library.
spec fn one_time_secret(opk: Option<OneTimePreKey>) -> Option<Seq<u8>> {
    match opk {
        Some(k) => Some(choose|sk: Seq<u8>| sk.len() == 32 && one_time_prekey_of(k, k.id, sk) && x25519_key_pair_ok(sk)),
        None => None,
    }
}

proof fn lemma_one_time_secret(opk: Option<OneTimePreKey>)
    requires
        opk matches Some(k) ==> is_one_time_prekey(k, k.id),
    ensures
        prekey_public_text(opk) == public_text_option(one_time_secret(opk)),
        prekey_private_text(opk) == secret_text_option(one_time_secret(opk)),
        one_time_secret(opk) matches Some(o) ==> x25519_key_pair_ok(o),
{
}

/// Two parties that hold key material made by this library agree: whenever
/// the initiator, with X25519 secrets `ik_a` (identity) and `ek` (ephemeral),
/// succeeds against Bob's identity `ik_b`, signed prekey `spk` and optional
/// one-time prekey `opk`, the responder given Bob's secrets and Alice's
/// public keys derives the same master secret.
proof fn lemma_key_material_agrees(
    ik_a: Seq<u8>,
    ek: Seq<u8>,
    ik_b: Seq<u8>,
    spk: Seq<u8>,
    opk: Option<Seq<u8>>,
    their_signing_public: Option<Seq<char>>,
    their_signature: Seq<char>,
)
    requires
        x25519_key_pair_ok(ik_a),
        x25519_key_pair_ok(ek),
        x25519_key_pair_ok(ik_b),
        x25519_key_pair_ok(spk),
        opk matches Some(o) ==> x25519_key_pair_ok(o),
        x3dh_initiate_outcome(
            base64_encode(ik_a),
            base64_encode(x25519_public(ik_b)),
            their_signing_public,
            base64_encode(x25519_public(spk)),
            their_signature,
            public_text_option(opk),
            ek,
        ) is Ok,
    ensures
        x3dh_respond_outcome(
            base64_encode(ik_b),
            base64_encode(spk),
            secret_text_option(opk),
            base64_encode(x25519_public(ik_a)),
            base64_encode(x25519_public(ek)),
        ) == x3dh_initiate_outcome(
            base64_encode(ik_a),
            base64_encode(x25519_public(ik_b)),
            their_signing_public,
            base64_encode(x25519_public(spk)),
            their_signature,
            public_text_option(opk),
            ek,
        ),
{
    assert(x25519_agree(ik_a, spk));
    assert(x25519_agree(ek, ik_b));
    assert(x25519_agree(ek, spk));
    if let Some(o) = opk {
        assert(x25519_agree(ek, o));
    }
    lemma_x3dh_texts_agree(ik_a, ek, ik_b, spk, opk, their_signing_public, their_signature);
}

/// X3DH between keys made by this library establishes a session: when Alice
/// initiates against Bob's generated identity, signed prekey and optional
/// one-time prekey, Bob, responding with his private keys and Alice's
/// identity key and ephemeral key, succeeds with the same master secret, and
/// the two serialized sessions are paired both ways: they share the root key,
/// and each sends on the chain that the other receives on.
pub proof fn lemma_generated_sessions_agree(
    alice: IdentityBundle,
    bob: IdentityBundle,
    bob_seed: Seq<u8>,
    spk: SignedPreKey,
    spk_id: u32,
    opk: Option<OneTimePreKey>,
    init: X3dhInitiateResult,
)
    requires
        is_identity_bundle(alice),
        is_identity_bundle(bob),
        is_signed_prekey(spk, spk_id, bob_seed),
        opk matches Some(k) ==> is_one_time_prekey(k, k.id),
        exists|ek: Seq<u8>|
            #[trigger] initiated_with(
                init,
                alice.identity_private_key@,
                bob.identity_public_key@,
                bob.signing_public_key@,
                spk.public_key@,
                spk.signature@,
                opk,
                ek,
            ),
    ensures
        x3dh_respond_outcome(
            bob.identity_private_key@,
            spk.private_key@,
            prekey_private_text(opk),
            alice.identity_public_key@,
            init.ephemeral_public@,
        ) matches Ok(ms) && paired_texts(init.session_state@, session_text(ms, false)) && paired_texts(
            session_text(ms, false),
            init.session_state@,
        ) && agreed_sessions(init.session_state@, session_text(ms, false), ms),
{
    let ek = choose|ek: Seq<u8>|
        #[trigger] initiated_with(
            init,
            alice.identity_private_key@,
            bob.identity_public_key@,
            bob.signing_public_key@,
            spk.public_key@,
            spk.signature@,
            opk,
            ek,
        );
    let (ik_a, seed_a) = choose|sk: Seq<u8>, seed: Seq<u8>|
        sk.len() == 32 && seed.len() == 32 && #[trigger] identity_bundle_of(alice, sk, seed) && x25519_key_pair_ok(sk)
            && ed25519_public(seed).len() == 32 && ed25519_key_valid(ed25519_public(seed));
    let (ik_b, seed_b) = choose|sk: Seq<u8>, seed: Seq<u8>|
        sk.len() == 32 && seed.len() == 32 && #[trigger] identity_bundle_of(bob, sk, seed) && x25519_key_pair_ok(sk)
            && ed25519_public(seed).len() == 32 && ed25519_key_valid(ed25519_public(seed));
    let spk_sk = choose|sk: Seq<u8>|
        sk.len() == 32 && #[trigger] signed_prekey_of(spk, spk_id, bob_seed, sk) && ed25519_verifies(
            ed25519_public(bob_seed),
            x25519_public(sk),
            ed25519_signature(bob_seed, x25519_public(sk)),
        ) && x25519_key_pair_ok(sk) && ed25519_signature(bob_seed, x25519_public(sk)).len() == 64;
    lemma_one_time_secret(opk);
    let o = one_time_secret(opk);
    let outcome = x3dh_initiate_outcome(
        alice.identity_private_key@,
        bob.identity_public_key@,
        Some(bob.signing_public_key@),
        spk.public_key@,
        spk.signature@,
        prekey_public_text(opk),
        ek,
    );
    let ms = outcome->Ok_0;
    assert(initiate_result_of(init, ms, ek, prekey_id(opk)));
    lemma_key_material_agrees(ik_a, ek, ik_b, spk_sk, o, Some(bob.signing_public_key@), spk.signature@);
    lemma_x3dh_sessions_paired(ms);
    crate::session::lemma_sessions_pair(ms);
}

/// The same agreement through the API that also returns the master secret:
/// whatever signing key is given, when Alice's native initiation succeeds
/// against Bob's generated keys, Bob's native response succeeds with the
/// master secret whose base64 is Alice's root key, and the serialized
/// sessions are paired both ways.
pub proof fn lemma_generated_native_sessions_agree(
    alice: NativeIdentityBundle,
    bob: NativeIdentityBundle,
    bob_seed: Seq<u8>,
    spk: SignedPreKey,
    spk_id: u32,
    opk: Option<OneTimePreKey>,
    their_signing_public: Option<Seq<char>>,
    init: X3dhNativeInitiateResult,
)
    requires
        is_native_bundle(alice),
        is_native_bundle(bob),
        is_signed_prekey(spk, spk_id, bob_seed),
        opk matches Some(k) ==> is_one_time_prekey(k, k.id),
        exists|ek: Seq<u8>|
            #[trigger] initiated_native_with(
                init,
                alice.identity.private_key@,
                bob.identity.public_key@,
                spk.public_key@,
                spk.signature@,
                their_signing_public,
                prekey_public_text(opk),
                prekey_id(opk),
                ek,
            ),
    ensures
        x3dh_respond_outcome(
            bob.identity.private_key@,
            spk.private_key@,
            prekey_private_text(opk),
            alice.identity.public_key@,
            init.ephemeral_public@,
        ) matches Ok(ms) && init.root_key@ == base64_encode(ms) && paired_texts(
            init.session_state@,
            session_text(ms, false),
        ) && paired_texts(session_text(ms, false), init.session_state@) && agreed_sessions(
            init.session_state@,
            session_text(ms, false),
            ms,
        ),
{
    let ek = choose|ek: Seq<u8>|
        #[trigger] initiated_native_with(
            init,
            alice.identity.private_key@,
            bob.identity.public_key@,
            spk.public_key@,
            spk.signature@,
            their_signing_public,
            prekey_public_text(opk),
            prekey_id(opk),
            ek,
        );
    let (ik_a, seed_a) = choose|sk: Seq<u8>, seed: Seq<u8>|
        sk.len() == 32 && seed.len() == 32 && #[trigger] native_bundle_of(alice, sk, seed) && x25519_key_pair_ok(sk)
            && ed25519_public(seed).len() == 32 && ed25519_key_valid(ed25519_public(seed));
    let (ik_b, seed_b) = choose|sk: Seq<u8>, seed: Seq<u8>|
        sk.len() == 32 && seed.len() == 32 && #[trigger] native_bundle_of(bob, sk, seed) && x25519_key_pair_ok(sk)
            && ed25519_public(seed).len() == 32 && ed25519_key_valid(ed25519_public(seed));
    let spk_sk = choose|sk: Seq<u8>|
        sk.len() == 32 && #[trigger] signed_prekey_of(spk, spk_id, bob_seed, sk) && ed25519_verifies(
            ed25519_public(bob_seed),
            x25519_public(sk),
            ed25519_signature(bob_seed, x25519_public(sk)),
        ) && x25519_key_pair_ok(sk) && ed25519_signature(bob_seed, x25519_public(sk)).len() == 64;
    lemma_one_time_secret(opk);
    let o = one_time_secret(opk);
    let outcome = x3dh_initiate_outcome(
        alice.identity.private_key@,
        bob.identity.public_key@,
        their_signing_public,
        spk.public_key@,
        spk.signature@,
        prekey_public_text(opk),
        ek,
    );
    let ms = outcome->Ok_0;
    assert(native_initiate_result_of(init, ms, ek, prekey_id(opk)));
    lemma_key_material_agrees(ik_a, ek, ik_b, spk_sk, o, their_signing_public, spk.signature@);
    lemma_x3dh_sessions_paired(ms);
    crate::session::lemma_sessions_pair(ms);
}

/// Generated keys pass every decoding step of the initiator: with Alice's
/// and Bob's generated identities, a prekey that Bob's signing key signed
/// and an optional generated one-time prekey, initiating succeeds for every
/// ephemeral secret when no signing key is checked; when Bob's signing key is
/// checked, it gives the same result if the signature passes strict
/// verification, and a signature failure otherwise.
pub proof fn lemma_generated_initiate_succeeds(
    alice: IdentityBundle,
    bob: IdentityBundle,
    bob_seed: Seq<u8>,
    spk: SignedPreKey,
    spk_id: u32,
    opk: Option<OneTimePreKey>,
    ek: Seq<u8>,
)
    requires
        is_identity_bundle(alice),
        is_identity_bundle(bob),
        bob.signing_private_key@ == base64_encode(bob_seed),
        is_signed_prekey(spk, spk_id, bob_seed),
        opk matches Some(k) ==> is_one_time_prekey(k, k.id),
    ensures
        x3dh_initiate_outcome(
            alice.identity_private_key@,
            bob.identity_public_key@,
            None,
            spk.public_key@,
            spk.signature@,
            prekey_public_text(opk),
            ek,
        ) is Ok,
        x3dh_initiate_outcome(
            alice.identity_private_key@,
            bob.identity_public_key@,
            Some(bob.signing_public_key@),
            spk.public_key@,
            spk.signature@,
            prekey_public_text(opk),
            ek,
        ) == if prekey_strictly_signed(bob_seed, spk) {
            x3dh_initiate_outcome(
                alice.identity_private_key@,
                bob.identity_public_key@,
                None,
                spk.public_key@,
                spk.signature@,
                prekey_public_text(opk),
                ek,
            )
        } else {
            Err(Failure::SignatureVerificationFailed)
        },
{
    let (ik_a, seed_a) = choose|sk: Seq<u8>, seed: Seq<u8>|
        sk.len() == 32 && seed.len() == 32 && #[trigger] identity_bundle_of(alice, sk, seed) && x25519_key_pair_ok(sk)
            && ed25519_public(seed).len() == 32 && ed25519_key_valid(ed25519_public(seed));
    let (ik_b, seed_b) = choose|sk: Seq<u8>, seed: Seq<u8>|
        sk.len() == 32 && seed.len() == 32 && #[trigger] identity_bundle_of(bob, sk, seed) && x25519_key_pair_ok(sk)
            && ed25519_public(seed).len() == 32 && ed25519_key_valid(ed25519_public(seed));
    lemma_base64_encode_injective(seed_b, bob_seed);
    let spk_sk = choose|sk: Seq<u8>|
        sk.len() == 32 && #[trigger] signed_prekey_of(spk, spk_id, bob_seed, sk) && ed25519_verifies(
            ed25519_public(bob_seed),
            x25519_public(sk),
            ed25519_signature(bob_seed, x25519_public(sk)),
        ) && x25519_key_pair_ok(sk) && ed25519_signature(bob_seed, x25519_public(sk)).len() == 64;
    lemma_one_time_secret(opk);
    lemma_base64_round_trip(ik_a);
    lemma_base64_round_trip(x25519_public(ik_b));
    lemma_base64_round_trip(x25519_public(spk_sk));
    lemma_base64_round_trip(ed25519_public(bob_seed));
    lemma_base64_round_trip(ed25519_signature(bob_seed, x25519_public(spk_sk)));
    if let Some(o) = one_time_secret(opk) {
        lemma_base64_round_trip(x25519_public(o));
    }
}

} // verus!
