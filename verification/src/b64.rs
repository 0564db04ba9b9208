use vstd::prelude::*;
use base64::Engine;
use crate::error::{CryptoError, Failure};

verus! {

/// The character of the standard base64 alphabet (RFC 4648) for a 6-bit value.
pub open spec fn base64_symbol(v: int) -> char {
    if v < 26 {
        (65 + v) as char
    } else if v < 52 {
        (71 + v) as char
    } else if v < 62 {
        (v - 4) as char
    } else if v == 62 {
        '+'
    } else {
        '/'
    }
}

/// The 6-bit value of a character of the standard base64 alphabet.
pub open spec fn base64_value(c: char) -> int {
    if 'A' <= c && c <= 'Z' {
        c as int - 65
    } else if 'a' <= c && c <= 'z' {
        c as int - 71
    } else if '0' <= c && c <= '9' {
        c as int + 4
    } else if c == '+' {
        62
    } else {
        63
    }
}

/// Standard base64 with `=` padding (RFC 4648, section 4): each group of three
/// bytes becomes four symbols; a final group of one or two bytes is padded.
pub open spec fn base64_encode(bytes: Seq<u8>) -> Seq<char>
    decreases bytes.len(),
{
    if bytes.len() == 0 {
        seq![]
    } else if bytes.len() == 1 {
        let b0 = bytes[0] as int;
        seq![base64_symbol(b0 / 4), base64_symbol((b0 % 4) * 16), '=', '=']
    } else if bytes.len() == 2 {
        let b0 = bytes[0] as int;
        let b1 = bytes[1] as int;
        seq![base64_symbol(b0 / 4), base64_symbol((b0 % 4) * 16 + b1 / 16), base64_symbol((b1 % 16) * 4), '=']
    } else {
        let b0 = bytes[0] as int;
        let b1 = bytes[1] as int;
        let b2 = bytes[2] as int;
        seq![
            base64_symbol(b0 / 4),
            base64_symbol((b0 % 4) * 16 + b1 / 16),
            base64_symbol((b1 % 16) * 4 + b2 / 64),
            base64_symbol(b2 % 64),
        ] + base64_encode(bytes.subrange(3, bytes.len() as int))
    }
}

proof fn lemma_symbol_value(v: int)
    requires
        0 <= v < 64,
    ensures
        base64_value(base64_symbol(v)) == v,
        base64_symbol(v) != '=',
{
}

/// The encoding of `n` bytes has `4 * ceil(n / 3)` characters.
pub proof fn lemma_base64_encode_len(bytes: Seq<u8>)
    ensures
        base64_encode(bytes).len() == 4 * ((bytes.len() + 2) / 3),
    decreases bytes.len(),
{
    if bytes.len() >= 3 {
        lemma_base64_encode_len(bytes.subrange(3, bytes.len() as int));
    }
}

/// Base64 encoding is injective: a base64 text determines the bytes it encodes.
pub proof fn lemma_base64_encode_injective(a: Seq<u8>, b: Seq<u8>)
    requires
        base64_encode(a) == base64_encode(b),
    ensures
        a == b,
    decreases a.len(),
{
    let ea = base64_encode(a);
    let eb = base64_encode(b);
    lemma_base64_encode_len(a);
    lemma_base64_encode_len(b);
    if a.len() == 0 || b.len() == 0 {
        assert(a.len() == 0 && b.len() == 0);
        assert(a =~= b);
        return;
    }
    let a0 = a[0] as int;
    let b0 = b[0] as int;
    assert(ea[0] == eb[0]);
    lemma_symbol_value(a0 / 4);
    lemma_symbol_value(b0 / 4);
    assert(a0 / 4 == b0 / 4);
    if a.len() == 1 || b.len() == 1 {
        // the second symbol carries the low two bits of the first byte
        if a.len() >= 2 {
            lemma_symbol_value((a0 % 4) * 16 + (a[1] as int) / 16);
        }
        if a.len() >= 3 {
            lemma_symbol_value(((a[1] as int) % 16) * 4 + (a[2] as int) / 64);
            lemma_symbol_value((a[2] as int) % 64);
        }
        if b.len() >= 2 {
            lemma_symbol_value((b0 % 4) * 16 + (b[1] as int) / 16);
        }
        if b.len() >= 3 {
            lemma_symbol_value(((b[1] as int) % 16) * 4 + (b[2] as int) / 64);
            lemma_symbol_value((b[2] as int) % 64);
        }
        assert(ea[2] == eb[2]);
        assert(a.len() == 1 && b.len() == 1);
        lemma_symbol_value((a0 % 4) * 16);
        lemma_symbol_value((b0 % 4) * 16);
        assert(ea[1] == eb[1]);
        assert(a0 == b0);
        assert(a =~= b);
        return;
    }
    let a1 = a[1] as int;
    let b1 = b[1] as int;
    lemma_symbol_value((a0 % 4) * 16 + a1 / 16);
    lemma_symbol_value((b0 % 4) * 16 + b1 / 16);
    assert(ea[1] == eb[1]);
    assert(a0 % 4 == b0 % 4 && a1 / 16 == b1 / 16);
    assert(a0 == b0);
    if a.len() == 2 || b.len() == 2 {
        if a.len() >= 3 {
            lemma_symbol_value((a1 % 16) * 4 + (a[2] as int) / 64);
            lemma_symbol_value((a[2] as int) % 64);
        }
        if b.len() >= 3 {
            lemma_symbol_value((b1 % 16) * 4 + (b[2] as int) / 64);
            lemma_symbol_value((b[2] as int) % 64);
        }
        assert(ea[3] == eb[3]);
        assert(a.len() == 2 && b.len() == 2);
        lemma_symbol_value((a1 % 16) * 4);
        lemma_symbol_value((b1 % 16) * 4);
        assert(ea[2] == eb[2]);
        assert(a1 == b1);
        assert(a =~= b);
        return;
    }
    let a2 = a[2] as int;
    let b2 = b[2] as int;
    lemma_symbol_value((a1 % 16) * 4 + a2 / 64);
    lemma_symbol_value((b1 % 16) * 4 + b2 / 64);
    lemma_symbol_value(a2 % 64);
    lemma_symbol_value(b2 % 64);
    assert(ea[2] == eb[2]);
    assert(ea[3] == eb[3]);
    assert(a1 % 16 == b1 % 16 && a2 / 64 == b2 / 64);
    assert(a1 == b1);
    assert(a2 == b2);
    let ra = a.subrange(3, a.len() as int);
    let rb = b.subrange(3, b.len() as int);
    assert(base64_encode(ra) =~= ea.subrange(4, ea.len() as int));
    assert(base64_encode(rb) =~= eb.subrange(4, eb.len() as int));
    lemma_base64_encode_injective(ra, rb);
    assert(a.len() == b.len());
    assert forall|i: int| 0 <= i < a.len() implies a[i] == b[i] by {
        if i >= 3 {
            assert(ra[i - 3] == rb[i - 3]);
        }
    }
    assert(a =~= b);
}

#[verifier::external_type_specification]
#[verifier::external_body]
pub struct ExDecodeError(base64::DecodeError);

/// Calls `Engine::encode` of `base64::engine::general_purpose::STANDARD`.
/// Trusted to produce the RFC 4648 standard base64 text with padding.
#[verifier::external_body]
pub(crate) fn encode_base64(bytes: &[u8]) -> (text: String)
    ensures
        text@ == base64_encode(bytes@),
{
    base64::engine::general_purpose::STANDARD.encode(bytes)
}

/// Calls `Engine::decode` of `base64::engine::general_purpose::STANDARD`, on
/// the UTF-8 bytes of `text`. That engine requires canonical padding and
/// rejects set trailing bits, so it is trusted to accept exactly the texts that
/// are the standard encoding of some bytes, and to return those bytes.
#[verifier::external_body]
pub(crate) fn decode_base64(text: &str) -> (decoded: Result<Vec<u8>, base64::DecodeError>)
    ensures
        match decoded {
            Ok(bytes) => base64_encode(bytes@) == text@,
            Err(_) => forall|b: Seq<u8>| base64_encode(b) != text@,
        },
{
    base64::engine::general_purpose::STANDARD.decode(text)
}

/// The bytes whose standard base64 encoding is `text`, if there are any.
pub open spec fn base64_decode(text: Seq<char>) -> Option<Seq<u8>> {
    if exists|b: Seq<u8>| base64_encode(b) == text {
        Some(choose|b: Seq<u8>| base64_encode(b) == text)
    } else {
        None
    }
}

/// A text that is the encoding of `b` decodes to `b`.
pub proof fn lemma_base64_decode(text: Seq<char>, b: Seq<u8>)
    requires
        base64_encode(b) == text,
    ensures
        base64_decode(text) == Some(b),
{
    let c = choose|c: Seq<u8>| base64_encode(c) == text;
    lemma_base64_encode_injective(b, c);
}

/// Decoding gives back what encoding was given.
pub proof fn lemma_base64_round_trip(b: Seq<u8>)
    ensures
        base64_decode(base64_encode(b)) == Some(b),
{
    lemma_base64_decode(base64_encode(b), b);
}

/// Decodes standard base64 text.
pub fn base64_bytes(text: &str) -> (bytes: Option<Vec<u8>>)
    ensures
        match bytes {
            Some(v) => base64_decode(text@) == Some(v@),
            None => base64_decode(text@) is None,
        },
{
    match decode_base64(text) {
        Ok(v) => {
            proof {
                lemma_base64_decode(text@, v@);
            }
            Some(v)
        },
        Err(_) => None,
    }
}

/// Decoding a base64 field that must hold exactly `len` bytes: a text that is
/// not base64 is an invalid-base64 error, bytes of another length an
/// invalid-length error, both naming the field.
pub open spec fn decode_exact(text: Seq<char>, len: nat, field: Seq<char>) -> Result<Seq<u8>, Failure> {
    match base64_decode(text) {
        None => Err(Failure::InvalidBase64(field)),
        Some(b) => if b.len() == len {
            Ok(b)
        } else {
            Err(Failure::InvalidLength(field))
        },
    }
}

/// The mathematical content of a result holding a 32-byte key.
pub open spec fn key_result(r: Result<[u8; 32], CryptoError>) -> Result<Seq<u8>, Failure> {
    match r {
        Ok(k) => Ok(k@),
        Err(e) => Err(e@),
    }
}

/// The mathematical content of a result holding a 64-byte signature.
pub open spec fn signature_result(r: Result<[u8; 64], CryptoError>) -> Result<Seq<u8>, Failure> {
    match r {
        Ok(k) => Ok(k@),
        Err(e) => Err(e@),
    }
}

/// Decodes a base64 field that holds a 32-byte key.
pub fn decode_key(text: &str, field: &'static str) -> (key: Result<[u8; 32], CryptoError>)
    ensures
        key_result(key) == decode_exact(text@, 32, field@),
{
    let bytes = match base64_bytes(text) {
        Some(v) => v,
        None => {
            return Err(CryptoError::InvalidBase64(field));
        },
    };
    if bytes.len() != 32 {
        return Err(CryptoError::InvalidLength(field));
    }
    let mut key = [0u8; 32];
    let mut j: usize = 0;
    while j < 32
        invariant
            0 <= j <= 32,
            bytes@.len() == 32,
            forall|i: int| 0 <= i < j ==> key@[i] == bytes@[i],
        decreases 32 - j,
    {
        key[j] = bytes[j];
        j = j + 1;
    }
    assert(key@ =~= bytes@);
    Ok(key)
}

/// Decodes a base64 field that holds a 64-byte signature.
pub fn decode_signature_bytes(text: &str, field: &'static str) -> (sig: Result<[u8; 64], CryptoError>)
    ensures
        signature_result(sig) == decode_exact(text@, 64, field@),
{
    let bytes = match base64_bytes(text) {
        Some(v) => v,
        None => {
            return Err(CryptoError::InvalidBase64(field));
        },
    };
    if bytes.len() != 64 {
        return Err(CryptoError::InvalidLength(field));
    }
    let mut sig = [0u8; 64];
    let mut j: usize = 0;
    while j < 64
        invariant
            0 <= j <= 64,
            bytes@.len() == 64,
            forall|i: int| 0 <= i < j ==> sig@[i] == bytes@[i],
        decreases 64 - j,
    {
        sig[j] = bytes[j];
        j = j + 1;
    }
    assert(sig@ =~= bytes@);
    Ok(sig)
}

} // verus!
