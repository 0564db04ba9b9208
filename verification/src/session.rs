//! The state that each party of a session keeps, and its serialized form.

use vstd::prelude::*;
use vstd::utf8::*;
use crate::b64::{base64_encode, decode_base64, encode_base64, lemma_base64_encode_injective};
use crate::error::{CryptoError, Failure};
use crate::primitives::{hkdf_sha256, hkdf_sha256_expand};
use crate::json::{json_session, session_from_any_json};
use crate::wire::{encodes_session, session_from_json, session_json, session_to_json};

verus! {

/// In-memory ratchet session state. Key fields are raw bytes.
#[derive(Clone, Debug)]
pub struct RatchetSessionState {
    pub root_key: [u8; 32],
    pub send_chain_key: [u8; 32],
    pub recv_chain_key: [u8; 32],
    pub message_number: u32,
    pub previous_chain_length: u32,
    /// Ratchet DH public key (may be empty for symmetric-only sessions).
    pub ratchet_public_key: Vec<u8>,
}

/// The content of a session state, with its byte fields as sequences.
pub struct SessionModel {
    pub root_key: Seq<u8>,
    pub send_chain_key: Seq<u8>,
    pub recv_chain_key: Seq<u8>,
    pub message_number: u32,
    pub previous_chain_length: u32,
    pub ratchet_public_key: Seq<u8>,
}

impl View for RatchetSessionState {
    type V = SessionModel;

    open spec fn view(&self) -> SessionModel {
        SessionModel {
            root_key: self.root_key@,
            send_chain_key: self.send_chain_key@,
            recv_chain_key: self.recv_chain_key@,
            message_number: self.message_number,
            previous_chain_length: self.previous_chain_length,
            ratchet_public_key: self.ratchet_public_key@,
        }
    }
}

impl SessionModel {
    /// The key fields have 32 bytes, as the fields of a `RatchetSessionState` do.
    pub open spec fn well_formed(self) -> bool {
        &&& self.root_key.len() == 32
        &&& self.send_chain_key.len() == 32
        &&& self.recv_chain_key.len() == 32
    }
}

/// HKDF context for the root key.
pub open spec fn root_label() -> Seq<u8> {
    encode_utf8("messenger:root"@)
}

/// HKDF context for the initiator's sending chain.
pub open spec fn first_chain_label() -> Seq<u8> {
    encode_utf8("messenger:chain:1"@)
}

/// HKDF context for the responder's sending chain.
pub open spec fn second_chain_label() -> Seq<u8> {
    encode_utf8("messenger:chain:2"@)
}

/// The session state that a party derives from an X3DH shared secret: the
/// root key and two chain keys, the initiator sending on the first chain and
/// the responder on the second.
pub open spec fn session_from_secret(shared_secret: Seq<u8>, is_initiator: bool) -> SessionModel {
    let root = hkdf_sha256(shared_secret, root_label());
    let first = hkdf_sha256(root, first_chain_label());
    let second = hkdf_sha256(root, second_chain_label());
    SessionModel {
        root_key: root,
        send_chain_key: if is_initiator { first } else { second },
        recv_chain_key: if is_initiator { second } else { first },
        message_number: 0,
        previous_chain_length: 0,
        ratchet_public_key: Seq::empty(),
    }
}

/// HKDF-SHA256 (no salt) of `secret` with context `label`, to 32 bytes.
pub fn hkdf_expand(secret: &[u8], label: &[u8]) -> (out: [u8; 32])
    ensures
        out@ == hkdf_sha256(secret@, label@),
{
    match hkdf_sha256_expand(secret, label) {
        Ok(key) => key,
        Err(_) => {
            proof {
                assert(false);
            }
            [0u8; 32]
        },
    }
}

impl RatchetSessionState {
    /// Create a new session state from an X3DH shared secret.
    /// The initiator and responder swap send/recv chain keys.
    pub fn from_shared_secret(shared_secret: &[u8; 32], is_initiator: bool) -> (state: Self)
        ensures
            state@ == session_from_secret(shared_secret@, is_initiator),
    {
        let root = hkdf_expand(shared_secret, "messenger:root".as_bytes());
        let c1 = hkdf_expand(&root, "messenger:chain:1".as_bytes());
        let c2 = hkdf_expand(&root, "messenger:chain:2".as_bytes());
        let (send_chain_key, recv_chain_key) = if is_initiator {
            (c1, c2)
        } else {
            (c2, c1)
        };
        let state = RatchetSessionState {
            root_key: root,
            send_chain_key,
            recv_chain_key,
            message_number: 0,
            previous_chain_length: 0,
            ratchet_public_key: Vec::new(),
        };
        assert(state@.ratchet_public_key =~= Seq::<u8>::empty());
        state
    }
}

/// The text `text` is the serialized form of the state `m`: base64 of its JSON.
pub open spec fn decodes_session(text: Seq<char>, m: SessionModel) -> bool {
    m.well_formed() && text == base64_encode(session_json(m))
}

/// The message of the error for a text that is base64 but not a session state.
pub open spec fn session_decode_message() -> Seq<char> {
    "session decode: not a serialized session state"@
}

/// The text is the base64 of JSON that holds the state `m` without being its
/// canonical form.
pub open spec fn decodes_session_loosely(text: Seq<char>, m: SessionModel) -> bool {
    exists|b: Seq<u8>| base64_encode(b) == text && #[trigger] json_session(b) == Some(m)
}

/// The outcomes that decoding a serialized session state may have: the state
/// whose serialized form the text is, else the state that other JSON under the
/// base64 holds, else an invalid-encoding error where the text is not base64,
/// else an invalid-input error.
pub open spec fn session_decode_outcome(text: Seq<char>, out: Result<SessionModel, Failure>) -> bool {
    &&& match out {
        Ok(m) => decodes_session(text, m) || decodes_session_loosely(text, m),
        Err(Failure::InvalidEncoding(msg)) => msg == "session state"@ && forall|b: Seq<u8>|
            base64_encode(b) != text,
        Err(Failure::InvalidInput(msg)) => msg == session_decode_message() && (exists|b: Seq<u8>|
            base64_encode(b) == text) && (forall|m: SessionModel| !decodes_session(text, m)) && forall|m: SessionModel|
            !#[trigger] decodes_session_loosely(text, m),
        Err(_) => false,
    }
    &&& forall|m: SessionModel| decodes_session(text, m) ==> out == Ok::<SessionModel, Failure>(m)
}

/// The mathematical content of the result of a session decoding.
pub open spec fn session_result(r: Result<RatchetSessionState, CryptoError>) -> Result<SessionModel, Failure> {
    match r {
        Ok(st) => Ok(st@),
        Err(e) => Err(e@),
    }
}

impl RatchetSessionState {
    /// Serialize to a base64-encoded JSON blob.
    pub fn encode(&self) -> (text: Result<String, CryptoError>)
        ensures
            text matches Ok(t) && t@ == base64_encode(session_json(self@)),
    {
        let bytes = session_to_json(self);
        Ok(encode_base64(bytes.as_slice()))
    }

    /// Deserialize from a base64-encoded JSON blob: the canonical JSON that
    /// `encode` writes, or another spelling of it that `json_session` reads.
    pub fn decode(s: &str) -> (st: Result<Self, CryptoError>)
        ensures
            session_decode_outcome(s@, session_result(st)),
    {
        let bytes = match decode_base64(s) {
            Ok(b) => b,
            Err(_) => {
                return Err(CryptoError::InvalidEncoding("session state".to_owned()));
            },
        };
        proof {
            assert forall|m: SessionModel| decodes_session(s@, m) implies encodes_session(bytes@, m) by {
                lemma_base64_encode_injective(bytes@, session_json(m));
            }
        }
        match session_from_json(bytes.as_slice()) {
            Some(st) => Ok(st),
            None => {
                proof {
                    assert forall|m: SessionModel| !decodes_session(s@, m) by {
                        if decodes_session(s@, m) {
                            assert(encodes_session(bytes@, m));
                        }
                    }
                }
                match session_from_any_json(bytes.as_slice()) {
                    Some(st) => {
                        assert(json_session(bytes@) == Some(st@));
                        assert(decodes_session_loosely(s@, st@));
                        Ok(st)
                    },
                    None => {
                        proof {
                            assert forall|m: SessionModel| !#[trigger] decodes_session_loosely(s@, m) by {
                                if decodes_session_loosely(s@, m) {
                                    let b = choose|b: Seq<u8>| base64_encode(b) == s@ && #[trigger] json_session(b) == Some(m);
                                    lemma_base64_encode_injective(bytes@, b);
                                }
                            }
                        }
                        Err(CryptoError::InvalidInput("session decode: not a serialized session state".to_owned()))
                    },
                }
            },
        }
    }
}

/// The two parties of a session derived from one shared secret are paired:
/// each one's sending chain is the other's receiving chain, and they share
/// the root key.
pub proof fn lemma_sessions_pair(shared_secret: Seq<u8>)
    ensures
        session_from_secret(shared_secret, true).send_chain_key == session_from_secret(shared_secret, false).recv_chain_key,
        session_from_secret(shared_secret, true).recv_chain_key == session_from_secret(shared_secret, false).send_chain_key,
        session_from_secret(shared_secret, true).root_key == session_from_secret(shared_secret, false).root_key,
{
}

/// Serialization round trip: decoding the serialized form of a state can only
/// give back that state.
pub proof fn lemma_session_round_trip(m: SessionModel, out: Result<SessionModel, Failure>)
    requires
        m.well_formed(),
        session_decode_outcome(base64_encode(session_json(m)), out),
    ensures
        out == Ok::<SessionModel, Failure>(m),
{
    assert(decodes_session(base64_encode(session_json(m)), m));
}

/// The session derived from a shared secret follows the fixed key schedule:
/// the root key is HKDF-SHA256 of the secret with context `messenger:root`;
/// the initiator sends on HKDF-SHA256 of the root key with context
/// `messenger:chain:1` and receives on the one with `messenger:chain:2`, the
/// responder the other way round; both counters start at zero and there is
/// no ratchet public key.
pub proof fn lemma_session_key_schedule(shared_secret: Seq<u8>, is_initiator: bool)
    ensures
        ({
            let m = session_from_secret(shared_secret, is_initiator);
            let root = hkdf_sha256(shared_secret, encode_utf8("messenger:root"@));
            let first = hkdf_sha256(root, encode_utf8("messenger:chain:1"@));
            let second = hkdf_sha256(root, encode_utf8("messenger:chain:2"@));
            &&& m.root_key == root
            &&& m.send_chain_key == if is_initiator {
                first
            } else {
                second
            }
            &&& m.recv_chain_key == if is_initiator {
                second
            } else {
                first
            }
            &&& m.message_number == 0
            &&& m.previous_chain_length == 0
            &&& m.ratchet_public_key.len() == 0
        }),
{
}

} // verus!
