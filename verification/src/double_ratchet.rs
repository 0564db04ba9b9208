//! The symmetric ratchet: each message is encrypted under a fresh key taken
//! from a hash chain, which then steps forward.

use vstd::prelude::*;
use vstd::utf8::*;
use crate::b64::{base64_encode, decode_base64, encode_base64, lemma_base64_encode_injective};
use crate::error::{CryptoError, Failure};
use crate::primitives::{
    aes256gcm_decrypt, aes256gcm_encrypt, aes256gcm_open, aes256gcm_seal, aes_gcm_max_plaintext,
    hmac_sha256, hmac_sha256_tag, string_from_utf8,
};
use crate::session::{RatchetSessionState, SessionModel};
use crate::json::{header_from_any_json, json_header};
use crate::wire::{header_from_json, header_json, header_to_json};

verus! {

/// Ratchet message header stored alongside each ciphertext.
#[derive(Debug, Clone, Copy)]
pub struct RatchetHeader {
    /// Message number in the current sending chain.
    pub n: u32,
    /// Length of the previous sending chain (for out-of-order recovery).
    pub pn: u32,
}

/// Output of ratchet_encrypt_internal.
pub struct EncryptedMessage {
    /// Base64-encoded JSON RatchetHeader.
    pub header: String,
    /// Base64-encoded AES-256-GCM ciphertext.
    pub ciphertext: String,
}

/// The 12-byte AES-GCM nonce for message number `counter`: eight zero bytes
/// followed by the counter in big-endian order.
pub open spec fn nonce_for(counter: u32) -> Seq<u8> {
    seq![
        0u8, 0u8, 0u8, 0u8, 0u8, 0u8, 0u8, 0u8,
        (counter / 0x100_0000) as u8,
        ((counter / 0x1_0000) % 0x100) as u8,
        ((counter / 0x100) % 0x100) as u8,
        (counter % 0x100) as u8,
    ]
}

/// HMAC input that derives a message key from a chain key.
pub open spec fn message_key_label() -> Seq<u8> {
    encode_utf8("messenger:message_key"@)
}

/// HMAC input that steps a chain key forward.
pub open spec fn chain_step_label() -> Seq<u8> {
    encode_utf8("messenger:chain_step"@)
}

/// The key that encrypts the message sent under `chain_key`.
pub open spec fn message_key(chain_key: Seq<u8>) -> Seq<u8> {
    hmac_sha256(chain_key, message_key_label())
}

/// The chain key that follows `chain_key`.
pub open spec fn next_chain(chain_key: Seq<u8>) -> Seq<u8> {
    hmac_sha256(chain_key, chain_step_label())
}

/// The state after sending one message: the sending chain steps forward and
/// the message number grows by one, saturating.
pub open spec fn after_send(m: SessionModel) -> SessionModel {
    SessionModel {
        send_chain_key: next_chain(m.send_chain_key),
        message_number: m.message_number.saturating_add(1),
        ..m
    }
}

/// The state after receiving a message: the receiving chain steps forward
/// and the message number grows by one, saturating.
pub open spec fn after_receive(m: SessionModel) -> SessionModel {
    SessionModel {
        recv_chain_key: next_chain(m.recv_chain_key),
        message_number: m.message_number.saturating_add(1),
        ..m
    }
}

/// The header that a state puts on the next message it sends.
pub open spec fn next_header(m: SessionModel) -> RatchetHeader {
    RatchetHeader { n: m.message_number, pn: m.previous_chain_length }
}

/// The outcomes of encrypting `plaintext` from state `old`: the state always
/// advances; the result is the base64 header and the base64 AES-256-GCM
/// ciphertext under the chain's message key, which decrypts back to the
/// plaintext, or an encryption failure where AES-GCM refuses the plaintext.
pub open spec fn encrypt_outcome(
    old: SessionModel,
    plaintext: Seq<char>,
    new: SessionModel,
    out: Result<(Seq<char>, Seq<char>), Failure>,
) -> bool {
    let key = message_key(old.send_chain_key);
    let nonce = nonce_for(old.message_number);
    let bytes = encode_utf8(plaintext);
    &&& new == after_send(old)
    &&& (aes256gcm_seal(key, nonce, bytes) is None <==> bytes.len() > aes_gcm_max_plaintext())
    &&& match aes256gcm_seal(key, nonce, bytes) {
        Some(c) => out == Ok::<(Seq<char>, Seq<char>), Failure>(
            (base64_encode(header_json(next_header(old))), base64_encode(c)),
        ) && aes256gcm_open(key, nonce, c) == Some(bytes) && c.len() == bytes.len() + 16,
        None => out == Err::<(Seq<char>, Seq<char>), Failure>(Failure::EncryptionFailed),
    }
}

/// The message of the error for a header that is base64 but not a header.
pub open spec fn header_decode_message() -> Seq<char> {
    "header decode: not a ratchet header"@
}

/// The message of the error for a plaintext that is not UTF-8.
pub open spec fn plaintext_utf8_message() -> Seq<char> {
    "plaintext is not valid UTF-8"@
}

/// The outcomes of decrypting once the header `h` has been read: the state
/// has advanced; the ciphertext text must be base64, AES-256-GCM must
/// authenticate it under the receiving chain's message key, and the plaintext
/// must be UTF-8.
pub open spec fn open_outcome(old: SessionModel, h: RatchetHeader, ciphertext: Seq<char>, out: Result<Seq<char>, Failure>) -> bool {
    let key = message_key(old.recv_chain_key);
    let nonce = nonce_for(h.n);
    if forall|c: Seq<u8>| base64_encode(c) != ciphertext {
        out == Err::<Seq<char>, Failure>(Failure::InvalidEncoding("ciphertext"@))
    } else {
        forall|c: Seq<u8>|
            #![trigger base64_encode(c)]
            base64_encode(c) == ciphertext ==> match aes256gcm_open(key, nonce, c) {
                None => out == Err::<Seq<char>, Failure>(Failure::DecryptionFailed),
                Some(p) => if valid_utf8(p) {
                    out == Ok::<Seq<char>, Failure>(decode_utf8(p))
                } else {
                    out == Err::<Seq<char>, Failure>(Failure::InvalidInput(plaintext_utf8_message()))
                },
            }
    }
}

/// The base64 text `header` holds the header `h`: it is the base64 of the
/// canonical JSON of `h`, or, where it is the base64 of no canonical header
/// JSON, of other JSON that holds `h`.
pub open spec fn header_read(header: Seq<char>, h: RatchetHeader) -> bool {
    ||| base64_encode(header_json(h)) == header
    ||| (forall|g: RatchetHeader| base64_encode(#[trigger] header_json(g)) != header) && exists|b: Seq<u8>|
        base64_encode(b) == header && #[trigger] json_header(b) == Some(h)
}

/// The outcomes of decrypting a message with base64 header `header` and
/// base64 ciphertext `ciphertext` in state `old`. A header that is not base64,
/// or not the JSON of a header, fails with the state unchanged. Otherwise the
/// receiving chain advances before the ciphertext is examined.
pub open spec fn decrypt_outcome(
    old: SessionModel,
    header: Seq<char>,
    ciphertext: Seq<char>,
    new: SessionModel,
    out: Result<Seq<char>, Failure>,
) -> bool {
    if forall|b: Seq<u8>| base64_encode(b) != header {
        new == old && out == Err::<Seq<char>, Failure>(Failure::InvalidEncoding("header"@))
    } else if forall|h: RatchetHeader| !#[trigger] header_read(header, h) {
        new == old && out == Err::<Seq<char>, Failure>(Failure::InvalidInput(header_decode_message()))
    } else {
        forall|h: RatchetHeader|
            #[trigger] header_read(header, h) ==> new == after_receive(old) && open_outcome(old, h, ciphertext, out)
    }
}

/// The mathematical content of the result of an encryption.
pub open spec fn encrypt_result(r: Result<EncryptedMessage, CryptoError>) -> Result<(Seq<char>, Seq<char>), Failure> {
    match r {
        Ok(m) => Ok((m.header@, m.ciphertext@)),
        Err(e) => Err(e@),
    }
}

/// The mathematical content of a result holding a string.
pub open spec fn text_result(r: Result<String, CryptoError>) -> Result<Seq<char>, Failure> {
    match r {
        Ok(s) => Ok(s@),
        Err(e) => Err(e@),
    }
}

/// Encrypt a plaintext message and advance the send chain.
/// Mutates `state` in place (increments message_number, rotates send_chain_key).
pub fn ratchet_encrypt_internal(state: &mut RatchetSessionState, plaintext: &str) -> (res: Result<EncryptedMessage, CryptoError>)
    ensures
        encrypt_outcome(old(state)@, plaintext@, final(state)@, encrypt_result(res)),
{
    let message_key = match derive_message_key(&state.send_chain_key) {
        Ok(k) => k,
        Err(e) => {
            return Err(e);
        },
    };
    let next = match next_chain_key(&state.send_chain_key) {
        Ok(k) => k,
        Err(e) => {
            return Err(e);
        },
    };
    state.send_chain_key = next;
    let header = RatchetHeader { n: state.message_number, pn: state.previous_chain_length };
    state.message_number = state.message_number.saturating_add(1);
    let nonce = derive_nonce(header.n);
    let encrypted = match aes256gcm_encrypt(&message_key, &nonce, plaintext.as_bytes()) {
        Ok(c) => c,
        Err(_) => {
            return Err(CryptoError::EncryptionFailed);
        },
    };
    let header_json = header_to_json(&header);
    Ok(
        EncryptedMessage {
            header: encode_base64(header_json.as_slice()),
            ciphertext: encode_base64(encrypted.as_slice()),
        },
    )
}

/// Decrypt a message and advance the receive chain.
/// Mutates `state` in place (increments message_number, rotates recv_chain_key).
pub fn ratchet_decrypt_internal(state: &mut RatchetSessionState, header_b64: &str, ciphertext_b64: &str) -> (res: Result<
    String,
    CryptoError,
>)
    ensures
        decrypt_outcome(old(state)@, header_b64@, ciphertext_b64@, final(state)@, text_result(res)),
{
    let header_bytes = match decode_base64(header_b64) {
        Ok(b) => b,
        Err(_) => {
            return Err(CryptoError::InvalidEncoding("header".to_owned()));
        },
    };
    let header = match header_from_json(header_bytes.as_slice()) {
        Some(h) => {
            proof {
                assert forall|g: RatchetHeader| #[trigger] header_read(header_b64@, g) implies g == h by {
                    if base64_encode(header_json(g)) == header_b64@ {
                        lemma_base64_encode_injective(header_bytes@, header_json(g));
                    } else {
                        assert(base64_encode(header_json(h)) == header_b64@);
                    }
                }
                assert(header_read(header_b64@, h));
            }
            h
        },
        None => {
            proof {
                assert forall|g: RatchetHeader| base64_encode(#[trigger] header_json(g)) != header_b64@ by {
                    if base64_encode(header_json(g)) == header_b64@ {
                        lemma_base64_encode_injective(header_bytes@, header_json(g));
                    }
                }
            }
            match header_from_any_json(header_bytes.as_slice()) {
                Some(h) => {
                    proof {
                        assert forall|g: RatchetHeader| #[trigger] header_read(header_b64@, g) implies g == h by {
                            let b = choose|b: Seq<u8>| base64_encode(b) == header_b64@ && #[trigger] json_header(b) == Some(g);
                            lemma_base64_encode_injective(header_bytes@, b);
                        }
                        assert(json_header(header_bytes@) == Some(h));
                        assert(header_read(header_b64@, h));
                    }
                    h
                },
                None => {
                    proof {
                        assert forall|g: RatchetHeader| !#[trigger] header_read(header_b64@, g) by {
                            if header_read(header_b64@, g) {
                                let b = choose|b: Seq<u8>| base64_encode(b) == header_b64@ && #[trigger] json_header(b) == Some(g);
                                lemma_base64_encode_injective(header_bytes@, b);
                            }
                        }
                    }
                    return Err(CryptoError::InvalidInput("header decode: not a ratchet header".to_owned()));
                },
            }
        },
    };
    let ghost before = state@;
    let message_key = match derive_message_key(&state.recv_chain_key) {
        Ok(k) => k,
        Err(e) => {
            return Err(e);
        },
    };
    let next = match next_chain_key(&state.recv_chain_key) {
        Ok(k) => k,
        Err(e) => {
            return Err(e);
        },
    };
    state.recv_chain_key = next;
    state.message_number = state.message_number.saturating_add(1);
    assert(state@ == after_receive(before));
    let nonce = derive_nonce(header.n);
    let ciphertext = match decode_base64(ciphertext_b64) {
        Ok(c) => c,
        Err(_) => {
            return Err(CryptoError::InvalidEncoding("ciphertext".to_owned()));
        },
    };
    proof {
        assert forall|c: Seq<u8>| base64_encode(c) == ciphertext_b64@ implies c == ciphertext@ by {
            lemma_base64_encode_injective(ciphertext@, c);
        }
    }
    let plaintext_bytes = match aes256gcm_decrypt(&message_key, &nonce, ciphertext.as_slice()) {
        Ok(p) => p,
        Err(_) => {
            return Err(CryptoError::DecryptionFailed);
        },
    };
    match string_from_utf8(plaintext_bytes) {
        Ok(s) => {
            proof {
                broadcast use vstd::utf8::encode_utf8_decode_utf8, vstd::utf8::encode_utf8_valid_utf8;

                assert(decode_utf8(encode_utf8(s@)) == s@);
            }
            Ok(s)
        },
        Err(_) => Err(CryptoError::InvalidInput("plaintext is not valid UTF-8".to_owned())),
    }
}

/// HMAC-SHA256 of the chain key with the message-key input.
fn derive_message_key(chain_key: &[u8; 32]) -> (key: Result<[u8; 32], CryptoError>)
    ensures
        key matches Ok(k) && k@ == message_key(chain_key@),
{
    match hmac_sha256_tag(chain_key, "messenger:message_key".as_bytes()) {
        Ok(tag) => Ok(tag),
        Err(_) => Err(CryptoError::InvalidInput("invalid chain key for HMAC".to_owned())),
    }
}

/// HMAC-SHA256 of the chain key with the chain-step input.
fn next_chain_key(chain_key: &[u8; 32]) -> (next: Result<[u8; 32], CryptoError>)
    ensures
        next matches Ok(k) && k@ == next_chain(chain_key@),
{
    match hmac_sha256_tag(chain_key, "messenger:chain_step".as_bytes()) {
        Ok(tag) => Ok(tag),
        Err(_) => Err(CryptoError::InvalidInput("invalid chain key for HMAC".to_owned())),
    }
}

/// The AES-GCM nonce of message number `counter`.
pub fn derive_nonce(counter: u32) -> (nonce: [u8; 12])
    ensures
        nonce@ == nonce_for(counter),
{
    let mut nonce = [0u8; 12];
    nonce[8] = (counter / 0x100_0000) as u8;
    nonce[9] = ((counter / 0x1_0000) % 0x100) as u8;
    nonce[10] = ((counter / 0x100) % 0x100) as u8;
    nonce[11] = (counter % 0x100) as u8;
    assert(nonce@ =~= nonce_for(counter));
    nonce
}

/// Distinct message numbers get distinct nonces, so no two messages of one
/// chain are sealed under the same nonce.
pub proof fn lemma_nonce_injective(a: u32, b: u32)
    requires
        nonce_for(a) == nonce_for(b),
    ensures
        a == b,
{
    assert(nonce_for(a)[8] == nonce_for(b)[8]);
    assert(nonce_for(a)[9] == nonce_for(b)[9]);
    assert(nonce_for(a)[10] == nonce_for(b)[10]);
    assert(nonce_for(a)[11] == nonce_for(b)[11]);
    assert(a == (a / 0x100_0000) * 0x100_0000 + ((a / 0x1_0000) % 0x100) * 0x1_0000 + ((a / 0x100) % 0x100)
        * 0x100 + a % 0x100) by (nonlinear_arith);
    assert(b == (b / 0x100_0000) * 0x100_0000 + ((b / 0x1_0000) % 0x100) * 0x1_0000 + ((b / 0x100) % 0x100)
        * 0x100 + b % 0x100) by (nonlinear_arith);
}

/// Messages survive the ratchet: when the receiver's receiving chain is the
/// sender's sending chain, whatever decrypting a message that the sender
/// encrypted yields is the original plaintext, and the two chains stay
/// paired afterwards.
pub proof fn lemma_ratchet_round_trip(
    sender: SessionModel,
    receiver: SessionModel,
    plaintext: Seq<char>,
    sender_after: SessionModel,
    header: Seq<char>,
    ciphertext: Seq<char>,
    receiver_after: SessionModel,
    out: Result<Seq<char>, Failure>,
)
    requires
        receiver.recv_chain_key == sender.send_chain_key,
        encrypt_outcome(sender, plaintext, sender_after, Ok((header, ciphertext))),
        decrypt_outcome(receiver, header, ciphertext, receiver_after, out),
    ensures
        out == Ok::<Seq<char>, Failure>(plaintext),
        receiver_after == after_receive(receiver),
        receiver_after.recv_chain_key == sender_after.send_chain_key,
{
    broadcast use vstd::utf8::encode_utf8_decode_utf8, vstd::utf8::encode_utf8_valid_utf8;

    let h = next_header(sender);
    let key = message_key(sender.send_chain_key);
    let nonce = nonce_for(sender.message_number);
    let bytes = encode_utf8(plaintext);
    let c = aes256gcm_seal(key, nonce, bytes).unwrap();
    assert(base64_encode(header_json(h)) == header);
    assert(base64_encode(c) == ciphertext);
    assert(decode_utf8(encode_utf8(plaintext)) == plaintext);
    assert(valid_utf8(encode_utf8(plaintext)));
    assert(!(forall|b: Seq<u8>| base64_encode(b) != header));
    assert(header_read(header, h));
    assert(!(forall|g: RatchetHeader| !#[trigger] header_read(header, g)));
    assert(receiver_after == after_receive(receiver) && open_outcome(receiver, h, ciphertext, out));
    assert(!(forall|d: Seq<u8>| base64_encode(d) != ciphertext));
    assert(message_key(receiver.recv_chain_key) == key);
    assert(aes256gcm_open(key, nonce, c) == Some(bytes));
}

/// Receiving a message does not touch the sending side: after a successful
/// decryption the root key, the sending chain key, the previous chain length
/// and the ratchet public key are as before; only the receiving chain key
/// steps (to the HMAC-SHA256 of the old one with the input
/// `messenger:chain_step`) and the message number grows by one, stopping at
/// its maximum.
pub proof fn lemma_receiving_keeps_sending_chain(
    old: SessionModel,
    header: Seq<char>,
    ciphertext: Seq<char>,
    new: SessionModel,
    plaintext: Seq<char>,
)
    requires
        decrypt_outcome(old, header, ciphertext, new, Ok(plaintext)),
    ensures
        new.send_chain_key == old.send_chain_key,
        new.root_key == old.root_key,
        new.recv_chain_key == hmac_sha256(old.recv_chain_key, encode_utf8("messenger:chain_step"@)),
        new.message_number == if old.message_number < u32::MAX {
            (old.message_number + 1) as u32
        } else {
            old.message_number
        },
        new.previous_chain_length == old.previous_chain_length,
        new.ratchet_public_key == old.ratchet_public_key,
{
    let h = choose|h: RatchetHeader| #[trigger] header_read(header, h);
    assert(new == after_receive(old));
}

/// Sending a message does not touch the receiving side: after an encryption
/// the root key, the receiving chain key, the previous chain length and the
/// ratchet public key are as before; only the sending chain key steps (to
/// the HMAC-SHA256 of the old one with the input `messenger:chain_step`) and
/// the message number grows by one, stopping at its maximum.
pub proof fn lemma_sending_keeps_receiving_chain(
    old: SessionModel,
    plaintext: Seq<char>,
    new: SessionModel,
    out: Result<(Seq<char>, Seq<char>), Failure>,
)
    requires
        encrypt_outcome(old, plaintext, new, out),
    ensures
        new.recv_chain_key == old.recv_chain_key,
        new.root_key == old.root_key,
        new.send_chain_key == hmac_sha256(old.send_chain_key, encode_utf8("messenger:chain_step"@)),
        new.message_number == if old.message_number < u32::MAX {
            (old.message_number + 1) as u32
        } else {
            old.message_number
        },
        new.previous_chain_length == old.previous_chain_length,
        new.ratchet_public_key == old.ratchet_public_key,
{
}

/// A sent message is sealed under the chain's message key with the message
/// number as nonce: the ciphertext is the base64 of bytes that AES-256-GCM
/// opens, under the HMAC-SHA256 of the old sending chain key with the input
/// `messenger:message_key` and a nonce of eight zero bytes followed by the
/// message number in big-endian order, into the UTF-8 bytes of the
/// plaintext.
pub proof fn lemma_sent_message_key_and_nonce(
    old: SessionModel,
    plaintext: Seq<char>,
    new: SessionModel,
    header: Seq<char>,
    ciphertext: Seq<char>,
)
    requires
        encrypt_outcome(old, plaintext, new, Ok((header, ciphertext))),
    ensures
        exists|c: Seq<u8>, nonce: Seq<u8>|
            #![trigger aes256gcm_open(hmac_sha256(old.send_chain_key, encode_utf8("messenger:message_key"@)), nonce, c)]
            base64_encode(c) == ciphertext && nonce.len() == 12 && (forall|k: int| 0 <= k < 8 ==> nonce[k] == 0u8)
                && old.message_number == nonce[8] as int * 0x100_0000 + nonce[9] as int * 0x1_0000 + nonce[10] as int
                * 0x100 + nonce[11] as int && aes256gcm_open(
                hmac_sha256(old.send_chain_key, encode_utf8("messenger:message_key"@)),
                nonce,
                c,
            ) == Some(encode_utf8(plaintext)),
{
    let key = message_key(old.send_chain_key);
    let nonce = nonce_for(old.message_number);
    let c = aes256gcm_seal(key, nonce, encode_utf8(plaintext))->Some_0;
    let n = old.message_number;
    assert(n == (n / 0x100_0000) * 0x100_0000 + ((n / 0x1_0000) % 0x100) * 0x1_0000 + ((n / 0x100) % 0x100) * 0x100
        + n % 0x100) by (nonlinear_arith);
    assert(nonce[8] as int == n / 0x100_0000);
    assert(nonce[9] as int == (n / 0x1_0000) % 0x100);
    assert(nonce[10] as int == (n / 0x100) % 0x100);
    assert(nonce[11] as int == n % 0x100);
    assert(aes256gcm_open(key, nonce, c) == Some(encode_utf8(plaintext)));
}

} // verus!
