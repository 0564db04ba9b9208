use base64::engine::general_purpose::STANDARD;
use base64::Engine;

use messenger_crypto::double_ratchet::RatchetHeader;
use messenger_crypto::error::CryptoError;
use messenger_crypto::json::header_from_any_json;
use messenger_crypto::keys::OneTimePreKey;
use messenger_crypto::session::{hkdf_expand, RatchetSessionState};
use messenger_crypto::wire::{header_from_json, header_to_json, session_from_json, session_to_json};
use messenger_crypto::{
    generate_identity, generate_identity_native, generate_one_time_prekeys, generate_signed_prekey, ratchet_decrypt,
    ratchet_encrypt, x3dh_initiate_native, x3dh_initiate_session, x3dh_respond_native, x3dh_respond_session,
};

fn list(b: u8, n: usize) -> String {
    vec![b.to_string(); n].join(",")
}

#[test]
fn header_json_is_compact_and_parses_back() {
    let json = header_to_json(&RatchetHeader { n: 3, pn: 7 });
    assert_eq!(json, b"{\"n\":3,\"pn\":7}".to_vec());
    let h = header_from_json(&json).expect("header");
    assert_eq!((h.n, h.pn), (3, 7));
    let max = header_to_json(&RatchetHeader { n: u32::MAX, pn: 0 });
    assert_eq!(max, b"{\"n\":4294967295,\"pn\":0}".to_vec());
    assert!(header_from_json(b"{\"n\":4294967296,\"pn\":0}").is_none());
    assert!(header_from_json(b"{\"n\":3}").is_none());
    assert!(header_from_json(b"").is_none());
}

#[test]
fn session_json_lists_fields_in_order() {
    let state = RatchetSessionState {
        root_key: [1; 32],
        send_chain_key: [2; 32],
        recv_chain_key: [255; 32],
        message_number: 7,
        previous_chain_length: 3,
        ratchet_public_key: vec![],
    };
    let expected = format!(
        "{{\"root_key\":[{}],\"send_chain_key\":[{}],\"recv_chain_key\":[{}],\"message_number\":7,\"previous_chain_length\":3,\"ratchet_public_key\":[]}}",
        list(1, 32),
        list(2, 32),
        list(255, 32)
    );
    let json = session_to_json(&state);
    assert_eq!(String::from_utf8(json.clone()).unwrap(), expected);
    let back = session_from_json(&json).expect("parse");
    assert_eq!(back.root_key, state.root_key);
    assert_eq!(back.recv_chain_key, state.recv_chain_key);
    assert_eq!(back.message_number, 7);
    assert!(back.ratchet_public_key.is_empty());
    assert_eq!(state.encode().expect("encode"), STANDARD.encode(expected.as_bytes()));
}

#[test]
fn session_decode_errors() {
    let err = RatchetSessionState::decode("%%%").unwrap_err();
    assert!(matches!(err, CryptoError::InvalidEncoding(ref m) if m == "session state"));
    let err = RatchetSessionState::decode(&STANDARD.encode(b"not json")).unwrap_err();
    assert!(matches!(err, CryptoError::InvalidInput(ref m) if m.starts_with("session decode")));
    let short = "{\"root_key\":[1],\"send_chain_key\":[],\"recv_chain_key\":[],\"message_number\":0,\"previous_chain_length\":0,\"ratchet_public_key\":[]}";
    let err = RatchetSessionState::decode(&STANDARD.encode(short)).unwrap_err();
    assert!(matches!(err, CryptoError::InvalidInput(_)));
}

#[test]
fn session_round_trip_keeps_ratchet_public_key() {
    let state = RatchetSessionState {
        root_key: [10; 32],
        send_chain_key: [20; 32],
        recv_chain_key: [30; 32],
        message_number: 123456,
        previous_chain_length: 65536,
        ratchet_public_key: vec![0, 9, 10, 99, 100, 255],
    };
    let decoded = RatchetSessionState::decode(&state.encode().unwrap()).expect("decode");
    assert_eq!(decoded.ratchet_public_key, state.ratchet_public_key);
    assert_eq!(decoded.send_chain_key, state.send_chain_key);
    assert_eq!(decoded.message_number, 123456);
    assert_eq!(decoded.previous_chain_length, 65536);
}

#[test]
fn serialized_ratchet_round_trip_over_several_messages() {
    let shared = [77u8; 32];
    let mut alice = RatchetSessionState::from_shared_secret(&shared, true).encode().unwrap();
    let mut bob = RatchetSessionState::from_shared_secret(&shared, false).encode().unwrap();
    for text in ["", "a", "ünïcødé ✓", "the last one"] {
        let enc = ratchet_encrypt(&alice, text).expect("encrypt");
        let dec = ratchet_decrypt(&bob, &enc.message.header, &enc.message.ciphertext).expect("decrypt");
        assert_eq!(dec.plaintext, text);
        alice = enc.updated_session_state;
        bob = dec.updated_session_state;
    }
    let a = RatchetSessionState::decode(&alice).unwrap();
    let b = RatchetSessionState::decode(&bob).unwrap();
    assert_eq!(a.send_chain_key, b.recv_chain_key);
    assert_eq!(a.message_number, 4);
    assert_eq!(b.message_number, 4);
}

#[test]
fn ratchet_api_reports_bad_session_state() {
    let err = ratchet_encrypt("%%%", "x").unwrap_err();
    assert!(matches!(err, CryptoError::InvalidEncoding(ref m) if m == "session state"));
    let err = ratchet_decrypt(&STANDARD.encode(b"[]"), "AAAA", "AAAA").unwrap_err();
    assert!(matches!(err, CryptoError::InvalidInput(_)));
}

#[test]
fn replayed_message_fails_on_advanced_chain() {
    let shared = [1u8; 32];
    let alice = RatchetSessionState::from_shared_secret(&shared, true).encode().unwrap();
    let bob = RatchetSessionState::from_shared_secret(&shared, false).encode().unwrap();
    let enc = ratchet_encrypt(&alice, "once").unwrap();
    let dec = ratchet_decrypt(&bob, &enc.message.header, &enc.message.ciphertext).unwrap();
    let err = ratchet_decrypt(&dec.updated_session_state, &enc.message.header, &enc.message.ciphertext).unwrap_err();
    assert!(matches!(err, CryptoError::DecryptionFailed));
}

#[test]
fn generated_keys_have_expected_lengths() {
    let id = generate_identity().unwrap();
    assert_eq!(STANDARD.decode(&id.identity_private_key).unwrap().len(), 32);
    assert_eq!(STANDARD.decode(&id.identity_public_key).unwrap().len(), 32);
    assert_eq!(STANDARD.decode(&id.signing_private_key).unwrap().len(), 32);
    assert_eq!(STANDARD.decode(&id.signing_public_key).unwrap().len(), 32);
    let native = generate_identity_native().unwrap();
    assert_eq!(STANDARD.decode(&native.identity.public_key).unwrap().len(), 32);
    assert_eq!(STANDARD.decode(&native.signing.private_key).unwrap().len(), 32);
}

#[test]
fn one_time_prekeys_have_consecutive_ids() {
    let keys = generate_one_time_prekeys(u32::MAX - 2, 3).unwrap();
    let ids: Vec<u32> = keys.iter().map(|k| k.id).collect();
    assert_eq!(ids, vec![u32::MAX - 2, u32::MAX - 1, u32::MAX]);
    assert!(generate_one_time_prekeys(5, 0).unwrap().is_empty());
    assert_ne!(keys[0].private_key, keys[1].private_key);
}

#[test]
fn signed_prekey_errors_on_bad_signing_key() {
    let err = generate_signed_prekey("%%", 1).unwrap_err();
    assert!(matches!(err, CryptoError::InvalidBase64("signing_private")));
    let err = generate_signed_prekey(&STANDARD.encode([0u8; 31]), 1).unwrap_err();
    assert!(matches!(err, CryptoError::InvalidLength("signing_private")));
    let native = generate_identity_native().unwrap();
    let spk = native.generate_signed_prekey(9).unwrap();
    assert_eq!(spk.id, 9);
    assert_eq!(native.generate_one_time_prekeys(1, 2).unwrap().len(), 2);
}

#[test]
fn x3dh_initiate_errors_in_order() {
    let alice = generate_identity().unwrap();
    let bob = generate_identity().unwrap();
    let spk = generate_signed_prekey(&bob.signing_private_key, 1).unwrap();

    let err = x3dh_initiate_session(&alice.identity_private_key, &bob.identity_public_key, "%%", &spk.public_key, &spk.signature, None)
        .unwrap_err();
    assert!(matches!(err, CryptoError::InvalidBase64("signing_public_key")));

    let err = x3dh_initiate_session(
        &alice.identity_private_key,
        &bob.identity_public_key,
        &alice.signing_public_key,
        &spk.public_key,
        &spk.signature,
        None,
    )
    .unwrap_err();
    assert!(matches!(err, CryptoError::SignatureVerificationFailed));

    let err = x3dh_initiate_session("%%", &bob.identity_public_key, &bob.signing_public_key, &spk.public_key, &spk.signature, None)
        .unwrap_err();
    assert!(matches!(err, CryptoError::InvalidBase64("my_identity_private")));

    let err = x3dh_initiate_session(
        &alice.identity_private_key,
        &STANDARD.encode([1u8; 5]),
        &bob.signing_public_key,
        &spk.public_key,
        &spk.signature,
        None,
    )
    .unwrap_err();
    assert!(matches!(err, CryptoError::InvalidLength("their_identity_public")));

    let bad_opk = OneTimePreKey { id: 4, public_key: "%%".to_string(), private_key: String::new() };
    let err = x3dh_initiate_session(
        &alice.identity_private_key,
        &bob.identity_public_key,
        &bob.signing_public_key,
        &spk.public_key,
        &spk.signature,
        Some(bad_opk),
    )
    .unwrap_err();
    assert!(matches!(err, CryptoError::InvalidBase64("their_one_time_prekey")));
}

#[test]
fn x3dh_reports_used_prekey_and_agrees_with_it() {
    let alice = generate_identity().unwrap();
    let bob = generate_identity().unwrap();
    let spk = generate_signed_prekey(&bob.signing_private_key, 1).unwrap();
    let opk = generate_one_time_prekeys(40, 1).unwrap().remove(0);
    let init = x3dh_initiate_session(
        &alice.identity_private_key,
        &bob.identity_public_key,
        &bob.signing_public_key,
        &spk.public_key,
        &spk.signature,
        Some(opk.clone()),
    )
    .unwrap();
    assert_eq!(init.used_one_time_pre_key_id, Some(40));

    let without_opk = x3dh_respond_session(
        &bob.identity_private_key,
        &spk.private_key,
        None,
        &alice.identity_public_key,
        &init.ephemeral_public,
    )
    .unwrap();
    let enc = ratchet_encrypt(&init.session_state, "hi").unwrap();
    let err = ratchet_decrypt(&without_opk.session_state, &enc.message.header, &enc.message.ciphertext).unwrap_err();
    assert!(matches!(err, CryptoError::DecryptionFailed));

    let err = x3dh_respond_session("%%", &spk.private_key, None, &alice.identity_public_key, &init.ephemeral_public)
        .unwrap_err();
    assert!(matches!(err, CryptoError::InvalidBase64("my_identity_private")));
}

#[test]
fn x3dh_native_without_signing_key_skips_verification() {
    let alice = generate_identity_native().unwrap();
    let bob = generate_identity_native().unwrap();
    let spk = bob.generate_signed_prekey(2).unwrap();
    let init = x3dh_initiate_native(
        &alice.identity.private_key,
        &bob.identity.public_key,
        &spk.public_key,
        "not checked",
        None,
        None,
        Some(11),
    )
    .unwrap();
    assert_eq!(init.used_one_time_pre_key_id, Some(11));
    let resp = x3dh_respond_native(
        &bob.identity.private_key,
        &spk.private_key,
        None,
        &alice.identity.public_key,
        &init.ephemeral_public,
    )
    .unwrap();
    assert_eq!(init.root_key, resp.root_key);
    let init_state = RatchetSessionState::decode(&init.session_state).unwrap();
    let master = STANDARD.decode(&init.root_key).unwrap();
    assert_eq!(init_state.root_key, hkdf_expand(&master, b"messenger:root"));
}

#[test]
fn error_messages() {
    assert_eq!(CryptoError::InvalidBase64("f").message(), "invalid base64 in field: f");
    assert_eq!(CryptoError::InvalidLength("f").message(), "invalid length in field: f");
    assert_eq!(CryptoError::InvalidKeyMaterial("k").message(), "invalid key material: k");
    assert_eq!(CryptoError::SignatureVerificationFailed.message(), "signature verification failed");
    assert_eq!(CryptoError::EncryptionFailed.message(), "encryption failed");
    assert_eq!(CryptoError::DecryptionFailed.message(), "decryption failed");
    assert_eq!(CryptoError::Serialization("m".to_string()).message(), "serialization error: m");
    assert_eq!(CryptoError::InvalidInput("m".to_string()).message(), "invalid input: m");
    assert_eq!(CryptoError::InvalidEncoding("m".to_string()).message(), "invalid encoding: m");
}

#[test]
fn identity_signature_check_accepts_generated_signed_prekey() {
    let bob = generate_identity().unwrap();
    let spk = generate_signed_prekey(&bob.signing_private_key, 1).unwrap();
    assert!(messenger_crypto::identity::verify_identity_signature(&bob.signing_public_key, &spk.public_key, &spk.signature));
    let other = generate_identity().unwrap();
    assert!(!messenger_crypto::identity::verify_identity_signature(&other.signing_public_key, &spk.public_key, &spk.signature));
}

#[test]
fn headers_in_other_json_spellings_are_read() {
    let h = header_from_any_json(b"{\"pn\":0,\"n\":0}").expect("reordered");
    assert_eq!((h.n, h.pn), (0, 0));
    let h = header_from_any_json(b" {\n \"n\" : 12 ,\t\"pn\": 3, \"extra\": [1, 2]\r\n} ").expect("spaced");
    assert_eq!((h.n, h.pn), (12, 3));
    assert!(header_from_any_json(b"{\"n\":1,\"n\":2,\"pn\":0}").is_none());
    assert!(header_from_any_json(b"{\"n\":01,\"pn\":0}").is_none());
    assert!(header_from_any_json(b"{\"n\":1.0,\"pn\":0}").is_none());
    assert!(header_from_any_json(b"{\"n\":4294967296,\"pn\":0}").is_none());
    assert!(header_from_any_json(b"{\"n\":1,\"pn\":0} x").is_none());
}

#[test]
fn session_state_in_other_json_spelling_decodes() {
    let json = format!(
        "{{ \"message_number\": 7, \"ratchet_public_key\": [ 4, 5 ], \"recv_chain_key\": [{}],\n \"send_chain_key\": [{}], \"root_key\": [{}], \"previous_chain_length\": 3 }}",
        list(3, 32),
        list(2, 32),
        list(1, 32)
    );
    let st = RatchetSessionState::decode(&STANDARD.encode(json.as_bytes())).expect("decode");
    assert_eq!(st.root_key, [1; 32]);
    assert_eq!(st.send_chain_key, [2; 32]);
    assert_eq!(st.recv_chain_key, [3; 32]);
    assert_eq!(st.message_number, 7);
    assert_eq!(st.previous_chain_length, 3);
    assert_eq!(st.ratchet_public_key, vec![4, 5]);
    let bad = json.replace("[ 4, 5 ]", "[ 4, 256 ]");
    let err = RatchetSessionState::decode(&STANDARD.encode(bad.as_bytes())).unwrap_err();
    assert!(matches!(err, CryptoError::InvalidInput(_)));
}

#[test]
fn decrypt_reads_reordered_header() {
    let shared = [5u8; 32];
    let mut alice = RatchetSessionState::from_shared_secret(&shared, true);
    let mut bob = RatchetSessionState::from_shared_secret(&shared, false);
    let enc = messenger_crypto::double_ratchet::ratchet_encrypt_internal(&mut alice, "hi").unwrap();
    let header = STANDARD.encode(b"{ \"pn\": 0, \"n\": 0 }");
    let dec = messenger_crypto::double_ratchet::ratchet_decrypt_internal(&mut bob, &header, &enc.ciphertext).unwrap();
    assert_eq!(dec, "hi");
}

#[test]
fn header_json_skips_fields_of_other_kinds() {
    let text = b"{\"meta\": {\"v\": [1, {\"x\": null}], \"s\": \"a\\\"b\\u00e9\"}, \"n\": 4, \"f\": -1.5e3, \"t\": true, \"pn\": 1}";
    let h = header_from_any_json(text).expect("extra fields");
    assert_eq!((h.n, h.pn), (4, 1));
    assert!(header_from_any_json(b"{\"n\": -0, \"pn\": 1}").is_none());
    assert!(header_from_any_json(b"{\"n\": 1, \"pn\": 1, \"x\": [1,}").is_none());
    assert!(header_from_any_json(b"{\"n\": 1, \"pn\": 1, \"x\": \"\\q\"}").is_none());
    assert!(header_from_any_json(b"{\"n\": \"1\", \"pn\": 1}").is_none());
}

#[test]
fn values_in_array_form_are_read() {
    let h = header_from_any_json(b" [ 9 , 2 ] ").expect("array header");
    assert_eq!((h.n, h.pn), (9, 2));
    assert!(header_from_any_json(b"[9]").is_none());
    assert!(header_from_any_json(b"[9, 2, 3]").is_none());
    let json = format!("[[{}],[{}],[{}],5,6,[]]", list(1, 32), list(2, 32), list(3, 32));
    let st = RatchetSessionState::decode(&STANDARD.encode(json.as_bytes())).expect("array session");
    assert_eq!(st.recv_chain_key, [3; 32]);
    assert_eq!(st.message_number, 5);
    assert_eq!(st.previous_chain_length, 6);
    assert!(st.ratchet_public_key.is_empty());
}
