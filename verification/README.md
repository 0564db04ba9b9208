# messenger-crypto

End-to-end encryption for a messenger: identity keys and prekeys, X3DH
session agreement, and a symmetric hash-chain ratchet over AES-256-GCM. Key
material and session state travel as base64 text.

Layout:

- `src/` — the library, verified with Verus.
  - `primitives.rs` — the cryptographic calls (HMAC-SHA256, HKDF-SHA256,
    AES-256-GCM, X25519, Ed25519) and what is assumed of them.
  - `b64.rs` — standard base64 as a specification, with its injectivity.
  - `wire.rs` — the JSON forms of ratchet headers and session states, with
    a writer and a parser proved to be inverse; `json.rs` reads the other
    JSON spellings of the same values (whitespace, field order, extra
    fields, the array form).
  - `session.rs`, `double_ratchet.rs`, `x3dh.rs`, `identity.rs`, `keys.rs` —
    the protocol.
  - `lib.rs` — the public API over serialized states, and the laws that tie
    it together (round trip of a message, agreement of the two parties).
- `tests/` — tests against known vectors and the outside crates.
- `app/` — the JavaScript bindings (`wasm-bindgen`, `serde`).
