use aes_gcm::aead::{Aead, KeyInit};
use aes_gcm::{Aes256Gcm, Nonce};
use base64::engine::general_purpose::STANDARD;
use base64::Engine;
use ed25519_dalek::{Signature, Signer, SigningKey, VerifyingKey};
use hkdf::Hkdf;
use hmac::{Hmac, Mac};
use sha2::Sha256;
use x25519_dalek::{PublicKey, StaticSecret};

use messenger_crypto::double_ratchet::{derive_nonce, ratchet_decrypt_internal, ratchet_encrypt_internal, RatchetHeader};
use messenger_crypto::error::CryptoError;
use messenger_crypto::identity::{
    identity_bundle_from_secrets, one_time_prekey_from_secret, signed_prekey_from_secret, verify_identity_signature,
    verify_signed_prekey_signature,
};
use messenger_crypto::session::{hkdf_expand, RatchetSessionState};
use messenger_crypto::wire::header_to_json;

fn unhex(s: &str) -> Vec<u8> {
    (0..s.len()).step_by(2).map(|i| u8::from_str_radix(&s[i..i + 2], 16).unwrap()).collect()
}

fn arr32(s: &str) -> [u8; 32] {
    unhex(s).try_into().unwrap()
}

fn hmac_sha256(key: &[u8], data: &[u8]) -> [u8; 32] {
    let mut mac = <Hmac<Sha256> as Mac>::new_from_slice(key).unwrap();
    mac.update(data);
    mac.finalize().into_bytes().into()
}

fn fixed_state() -> RatchetSessionState {
    RatchetSessionState {
        root_key: [1; 32],
        send_chain_key: [2; 32],
        recv_chain_key: [3; 32],
        message_number: 0,
        previous_chain_length: 0,
        ratchet_public_key: vec![],
    }
}

#[test]
fn nonce_holds_counter_big_endian_in_last_four_bytes() {
    assert_eq!(derive_nonce(0x0102_0304), [0, 0, 0, 0, 0, 0, 0, 0, 1, 2, 3, 4]);
    assert_eq!(derive_nonce(0), [0u8; 12]);
    assert_ne!(derive_nonce(1), derive_nonce(256));
    assert_eq!(derive_nonce(u32::MAX), [0, 0, 0, 0, 0, 0, 0, 0, 255, 255, 255, 255]);
}

#[test]
fn hkdf_expand_matches_rfc5869_case_three() {
    let ikm = [0x0bu8; 22];
    let okm = hkdf_expand(&ikm, &[]);
    assert_eq!(okm, arr32("8da4e775a563c18f715f802a063c5a31b8a11f5c5ee1879ec3454e5f3c738d2d"));
}

#[test]
fn hkdf_expand_matches_hkdf_crate_with_label() {
    let secret = [42u8; 32];
    let mut expected = [0u8; 32];
    Hkdf::<Sha256>::new(None, &secret).expand(b"messenger:root", &mut expected).unwrap();
    assert_eq!(hkdf_expand(&secret, b"messenger:root"), expected);
    assert_ne!(hkdf_expand(&secret, b"messenger:root"), secret);
}

#[test]
fn session_from_shared_secret_derives_chains_by_hkdf() {
    let shared = [42u8; 32];
    let alice = RatchetSessionState::from_shared_secret(&shared, true);
    let bob = RatchetSessionState::from_shared_secret(&shared, false);
    let root = hkdf_expand(&shared, b"messenger:root");
    assert_eq!(alice.root_key, root);
    assert_eq!(alice.send_chain_key, hkdf_expand(&root, b"messenger:chain:1"));
    assert_eq!(alice.recv_chain_key, hkdf_expand(&root, b"messenger:chain:2"));
    assert_eq!(bob.root_key, root);
    assert_eq!(bob.send_chain_key, alice.recv_chain_key);
    assert_eq!(bob.recv_chain_key, alice.send_chain_key);
    assert_eq!(alice.message_number, 0);
    assert_eq!(alice.previous_chain_length, 0);
    assert!(alice.ratchet_public_key.is_empty());
}

#[test]
fn encrypt_uses_hmac_message_key_and_aes_gcm() {
    let mut state = fixed_state();
    state.message_number = 3;
    state.previous_chain_length = 7;
    let enc = ratchet_encrypt_internal(&mut state, "hello").expect("encrypt");

    assert_eq!(state.send_chain_key, hmac_sha256(&[2; 32], b"messenger:chain_step"));
    assert_eq!(state.recv_chain_key, [3; 32]);
    assert_eq!(state.message_number, 4);
    assert_eq!(state.previous_chain_length, 7);

    let header = STANDARD.decode(&enc.header).unwrap();
    assert_eq!(header, b"{\"n\":3,\"pn\":7}".to_vec());

    let key = hmac_sha256(&[2; 32], b"messenger:message_key");
    let cipher = Aes256Gcm::new_from_slice(&key).unwrap();
    let ct = STANDARD.decode(&enc.ciphertext).unwrap();
    assert_eq!(ct.len(), 5 + 16);
    let pt = cipher.decrypt(Nonce::from_slice(&derive_nonce(3)), ct.as_ref()).unwrap();
    assert_eq!(pt, b"hello".to_vec());
}

#[test]
fn encrypt_saturates_message_number() {
    let mut state = fixed_state();
    state.message_number = u32::MAX;
    let enc = ratchet_encrypt_internal(&mut state, "x").expect("encrypt");
    assert_eq!(state.message_number, u32::MAX);
    let header = STANDARD.decode(&enc.header).unwrap();
    assert_eq!(header, b"{\"n\":4294967295,\"pn\":0}".to_vec());
}

#[test]
fn decrypt_increments_message_number() {
    let mut sender = fixed_state();
    sender.recv_chain_key = [2; 32];
    sender.message_number = 9;
    let enc = ratchet_encrypt_internal(&mut sender, "late").expect("encrypt");

    let mut receiver = fixed_state();
    receiver.recv_chain_key = [2; 32];
    let dec = ratchet_decrypt_internal(&mut receiver, &enc.header, &enc.ciphertext).expect("decrypt");
    assert_eq!(dec, "late");
    assert_eq!(receiver.message_number, 1);
    assert_eq!(receiver.recv_chain_key, hmac_sha256(&[2; 32], b"messenger:chain_step"));

    let mut ahead = fixed_state();
    ahead.recv_chain_key = [2; 32];
    ahead.message_number = 20;
    let dec = ratchet_decrypt_internal(&mut ahead, &enc.header, &enc.ciphertext).expect("decrypt");
    assert_eq!(dec, "late");
    assert_eq!(ahead.message_number, 21);

    let mut full = fixed_state();
    full.recv_chain_key = [2; 32];
    full.message_number = u32::MAX;
    ratchet_decrypt_internal(&mut full, &enc.header, &enc.ciphertext).expect("decrypt");
    assert_eq!(full.message_number, u32::MAX);
}

#[test]
fn decrypt_rejects_header_that_is_not_base64() {
    let mut state = fixed_state();
    let err = ratchet_decrypt_internal(&mut state, "%%%", "AAAA").unwrap_err();
    assert!(matches!(err, CryptoError::InvalidEncoding(ref m) if m == "header"));
    assert_eq!(state.recv_chain_key, [3; 32]);
    assert_eq!(state.message_number, 0);
}

#[test]
fn decrypt_rejects_header_that_is_not_a_header() {
    let mut state = fixed_state();
    let header = STANDARD.encode(b"{\"x\":1}");
    let err = ratchet_decrypt_internal(&mut state, &header, "AAAA").unwrap_err();
    assert!(matches!(err, CryptoError::InvalidInput(ref m) if m.starts_with("header decode")));
    assert_eq!(state.recv_chain_key, [3; 32]);
}

#[test]
fn decrypt_rejects_ciphertext_that_is_not_base64_after_advancing() {
    let mut state = fixed_state();
    let header = STANDARD.encode(header_to_json(&RatchetHeader { n: 4, pn: 0 }));
    let err = ratchet_decrypt_internal(&mut state, &header, "not base64!").unwrap_err();
    assert!(matches!(err, CryptoError::InvalidEncoding(ref m) if m == "ciphertext"));
    assert_eq!(state.recv_chain_key, hmac_sha256(&[3; 32], b"messenger:chain_step"));
    assert_eq!(state.message_number, 1);
}

#[test]
fn decrypt_rejects_tampered_ciphertext() {
    let mut sender = fixed_state();
    let enc = ratchet_encrypt_internal(&mut sender, "secret").expect("encrypt");
    let mut ct = STANDARD.decode(&enc.ciphertext).unwrap();
    ct[0] ^= 1;
    let mut receiver = fixed_state();
    receiver.recv_chain_key = [2; 32];
    let err = ratchet_decrypt_internal(&mut receiver, &enc.header, &STANDARD.encode(ct)).unwrap_err();
    assert!(matches!(err, CryptoError::DecryptionFailed));
}

#[test]
fn decrypt_rejects_plaintext_that_is_not_utf8() {
    let key = hmac_sha256(&[3; 32], b"messenger:message_key");
    let cipher = Aes256Gcm::new_from_slice(&key).unwrap();
    let ct = cipher.encrypt(Nonce::from_slice(&derive_nonce(0)), [0xffu8, 0xfe].as_ref()).unwrap();
    let header = STANDARD.encode(header_to_json(&RatchetHeader { n: 0, pn: 0 }));
    let mut state = fixed_state();
    let err = ratchet_decrypt_internal(&mut state, &header, &STANDARD.encode(ct)).unwrap_err();
    assert!(matches!(err, CryptoError::InvalidInput(ref m) if m == "plaintext is not valid UTF-8"));
}

#[test]
fn x25519_public_keys_match_rfc7748() {
    let alice_secret = arr32("77076d0a7318a57d3c16c17251b26645df4c2f87ebc0992ab177fba51db92c2a");
    let seed = arr32("9d61b19deffd5a60ba844af492ec2cc44449c5697b326919703bac031cae7f60");
    let bundle = identity_bundle_from_secrets(&alice_secret, &seed);
    assert_eq!(
        STANDARD.decode(&bundle.identity_public_key).unwrap(),
        unhex("8520f0098930a754748b7ddcb43ef75a0dbf3a0d26381af4eba4a98eaa9b4e6a")
    );
    assert_eq!(STANDARD.decode(&bundle.identity_private_key).unwrap(), alice_secret.to_vec());
    assert_eq!(
        STANDARD.decode(&bundle.signing_public_key).unwrap(),
        unhex("d75a980182b10ab7d54bfed3c964073a0ee172f3daa62325af021a68f707511a")
    );
    assert_eq!(STANDARD.decode(&bundle.signing_private_key).unwrap(), seed.to_vec());
}

#[test]
fn identity_signature_matches_rfc8032_vector() {
    let public = STANDARD.encode(unhex("d75a980182b10ab7d54bfed3c964073a0ee172f3daa62325af021a68f707511a"));
    let sig = STANDARD.encode(unhex(
        "e5564300c360ac729086e2cc806e828a84877f1eb8e5d974d873e065224901555fb8821590a33bacc61e39701cf9b46bd25bf5f0595bbe24655141438e7a100b",
    ));
    assert!(verify_identity_signature(&public, "", &sig));
    assert!(!verify_identity_signature(&public, "x", &sig));
    assert!(!verify_identity_signature("%%%", "", &sig));
    assert!(!verify_identity_signature(&STANDARD.encode([1u8; 31]), "", &sig));
    assert!(!verify_identity_signature(&public, "", &STANDARD.encode([0u8; 63])));
    assert!(!verify_identity_signature(&public, "", "@@"));
}

#[test]
fn signed_prekey_signature_verifies_with_dalek() {
    let seed = [5u8; 32];
    let prekey_secret = [6u8; 32];
    let spk = signed_prekey_from_secret(&seed, 17, &prekey_secret);
    assert_eq!(spk.id, 17);
    let public = PublicKey::from(&StaticSecret::from(prekey_secret));
    assert_eq!(STANDARD.decode(&spk.public_key).unwrap(), public.as_bytes().to_vec());
    assert_eq!(STANDARD.decode(&spk.private_key).unwrap(), prekey_secret.to_vec());

    let signing = SigningKey::from_bytes(&seed);
    let sig_bytes: [u8; 64] = STANDARD.decode(&spk.signature).unwrap().try_into().unwrap();
    let verifying: VerifyingKey = signing.verifying_key();
    assert!(verifying.verify_strict(public.as_bytes(), &Signature::from_bytes(&sig_bytes)).is_ok());
    assert_eq!(sig_bytes, signing.sign(public.as_bytes()).to_bytes());

    let signing_public = STANDARD.encode(verifying.to_bytes());
    assert!(verify_signed_prekey_signature(&signing_public, &spk.public_key, &spk.signature).is_ok());
}

#[test]
fn signed_prekey_verification_errors() {
    let seed = [5u8; 32];
    let spk = signed_prekey_from_secret(&seed, 1, &[6u8; 32]);
    let signing_public = STANDARD.encode(SigningKey::from_bytes(&seed).verifying_key().to_bytes());

    let err = verify_signed_prekey_signature("%%", &spk.public_key, &spk.signature).unwrap_err();
    assert!(matches!(err, CryptoError::InvalidBase64("signing_public_key")));
    let err = verify_signed_prekey_signature(&STANDARD.encode([1u8; 16]), &spk.public_key, &spk.signature).unwrap_err();
    assert!(matches!(err, CryptoError::InvalidLength("signing_public_key")));
    let err = verify_signed_prekey_signature(&signing_public, &spk.public_key, "%%").unwrap_err();
    assert!(matches!(err, CryptoError::InvalidBase64("signature")));
    let err = verify_signed_prekey_signature(&signing_public, &spk.public_key, &STANDARD.encode([0u8; 10])).unwrap_err();
    assert!(matches!(err, CryptoError::InvalidLength("signature")));
    let err = verify_signed_prekey_signature(&signing_public, "%%", &spk.signature).unwrap_err();
    assert!(matches!(err, CryptoError::InvalidBase64("signed_prekey_public")));
    let other = signed_prekey_from_secret(&seed, 1, &[7u8; 32]);
    let err = verify_signed_prekey_signature(&signing_public, &other.public_key, &spk.signature).unwrap_err();
    assert!(matches!(err, CryptoError::SignatureVerificationFailed));
}

#[test]
fn one_time_prekey_public_is_x25519_of_private() {
    let secret = [9u8; 32];
    let opk = one_time_prekey_from_secret(33, &secret);
    assert_eq!(opk.id, 33);
    let public = PublicKey::from(&StaticSecret::from(secret));
    assert_eq!(STANDARD.decode(&opk.public_key).unwrap(), public.as_bytes().to_vec());
    assert_eq!(STANDARD.decode(&opk.private_key).unwrap(), secret.to_vec());
}

#[test]
fn first_message_header_and_ciphertext_length() {
    let mut sender = RatchetSessionState {
        root_key: [7; 32],
        send_chain_key: [8; 32],
        recv_chain_key: [8; 32],
        message_number: 0,
        previous_chain_length: 0,
        ratchet_public_key: vec![9; 32],
    };
    let m = ratchet_encrypt_internal(&mut sender, "hello").expect("encrypt");
    assert_eq!(m.header, "eyJuIjowLCJwbiI6MH0=");
    assert_eq!(STANDARD.decode(&m.ciphertext).unwrap().len(), 21);
}
