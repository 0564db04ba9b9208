use vstd::prelude::*;
use vstd::string::*;

verus! {

/// Every way an operation of this library can fail.
#[derive(Debug)]
pub enum CryptoError {
    InvalidBase64(&'static str),
    InvalidLength(&'static str),
    InvalidKeyMaterial(&'static str),
    SignatureVerificationFailed,
    EncryptionFailed,
    DecryptionFailed,
    Serialization(String),
    InvalidInput(String),
    InvalidEncoding(String),
}

/// The mathematical content of a `CryptoError`: the variant and its text.
pub enum Failure {
    InvalidBase64(Seq<char>),
    InvalidLength(Seq<char>),
    InvalidKeyMaterial(Seq<char>),
    SignatureVerificationFailed,
    EncryptionFailed,
    DecryptionFailed,
    Serialization(Seq<char>),
    InvalidInput(Seq<char>),
    InvalidEncoding(Seq<char>),
}

impl View for CryptoError {
    type V = Failure;

    open spec fn view(&self) -> Failure {
        match self {
            CryptoError::InvalidBase64(f) => Failure::InvalidBase64(f@),
            CryptoError::InvalidLength(f) => Failure::InvalidLength(f@),
            CryptoError::InvalidKeyMaterial(f) => Failure::InvalidKeyMaterial(f@),
            CryptoError::SignatureVerificationFailed => Failure::SignatureVerificationFailed,
            CryptoError::EncryptionFailed => Failure::EncryptionFailed,
            CryptoError::DecryptionFailed => Failure::DecryptionFailed,
            CryptoError::Serialization(m) => Failure::Serialization(m@),
            CryptoError::InvalidInput(m) => Failure::InvalidInput(m@),
            CryptoError::InvalidEncoding(m) => Failure::InvalidEncoding(m@),
        }
    }
}

/// The human-readable description of a failure.
pub open spec fn failure_message(f: Failure) -> Seq<char> {
    match f {
        Failure::InvalidBase64(field) => "invalid base64 in field: "@ + field,
        Failure::InvalidLength(field) => "invalid length in field: "@ + field,
        Failure::InvalidKeyMaterial(field) => "invalid key material: "@ + field,
        Failure::SignatureVerificationFailed => "signature verification failed"@,
        Failure::EncryptionFailed => "encryption failed"@,
        Failure::DecryptionFailed => "decryption failed"@,
        Failure::Serialization(msg) => "serialization error: "@ + msg,
        Failure::InvalidInput(msg) => "invalid input: "@ + msg,
        Failure::InvalidEncoding(msg) => "invalid encoding: "@ + msg,
    }
}

fn prefixed(prefix: &str, rest: &str) -> (text: String)
    ensures
        text@ == prefix@ + rest@,
{
    let mut text = prefix.to_owned();
    text.append(rest);
    text
}

impl CryptoError {
    /// The human-readable description of this error.
    pub fn message(&self) -> (text: String)
        ensures
            text@ == failure_message(self@),
    {
        match self {
            CryptoError::InvalidBase64(field) => prefixed("invalid base64 in field: ", field),
            CryptoError::InvalidLength(field) => prefixed("invalid length in field: ", field),
            CryptoError::InvalidKeyMaterial(field) => prefixed("invalid key material: ", field),
            CryptoError::SignatureVerificationFailed => "signature verification failed".to_owned(),
            CryptoError::EncryptionFailed => "encryption failed".to_owned(),
            CryptoError::DecryptionFailed => "decryption failed".to_owned(),
            CryptoError::Serialization(msg) => prefixed("serialization error: ", msg.as_str()),
            CryptoError::InvalidInput(msg) => prefixed("invalid input: ", msg.as_str()),
            CryptoError::InvalidEncoding(msg) => prefixed("invalid encoding: ", msg.as_str()),
        }
    }
}

} // verus!
