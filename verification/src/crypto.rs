//! Hashes, signatures and hexadecimal text.
//!
//! The functions here that call an outside crate are trusted: their contracts name what the
//! crate computes and state the few facts that the rest of the library relies on.
use ed25519_dalek::Signer;
use ed25519_dalek::Verifier;
use sha2::Digest;
use vstd::prelude::*;

verus! {

/// The SHA-256 digest of a byte string.
pub uninterp spec fn sha256_of(data: Seq<u8>) -> Seq<u8>;

/// The SHA-512 digest of a byte string.
pub uninterp spec fn sha512_of(data: Seq<u8>) -> Seq<u8>;

/// The Ed25519 public key of a 32-byte secret.
pub uninterp spec fn ed25519_public_of(secret: Seq<u8>) -> Seq<u8>;

/// The Ed25519 signature of `message` under a 32-byte secret.
pub uninterp spec fn ed25519_signature_of(secret: Seq<u8>, message: Seq<u8>) -> Seq<u8>;

/// Whether `signature` is a valid Ed25519 signature of `message` for `public`.
pub uninterp spec fn ed25519_accepts(public: Seq<u8>, message: Seq<u8>, signature: Seq<u8>) -> bool;

/// Whether 32 bytes decode as an Ed25519 public key.
pub uninterp spec fn ed25519_decodes(public: Seq<u8>) -> bool;

/// Like `ed25519_accepts`, with keys and signatures of small order refused.
pub uninterp spec fn ed25519_accepts_strictly(
    public: Seq<u8>,
    message: Seq<u8>,
    signature: Seq<u8>,
) -> bool;

/// `sha2::Sha256::digest`: the SHA-256 digest, a function of the bytes alone.
#[verifier::external_body]
pub(crate) fn sha256(data: &[u8]) -> (r: [u8; 32])
    ensures
        r@ == sha256_of(data@),
{
    sha2::Sha256::digest(data).into()
}

/// `sha2::Sha512::digest`: the SHA-512 digest, a function of the bytes alone.
#[verifier::external_body]
pub(crate) fn sha512(data: &[u8]) -> (r: [u8; 64])
    ensures
        r@ == sha512_of(data@),
{
    sha2::Sha512::digest(data).into()
}

/// `ed25519_dalek::SigningKey::verifying_key`: the public key that belongs to a secret.
#[verifier::external_body]
pub(crate) fn ed25519_public(secret: &[u8; 32]) -> (r: [u8; 32])
    ensures
        r@ == ed25519_public_of(secret@),
{
    ed25519_dalek::SigningKey::from_bytes(secret).verifying_key().to_bytes()
}

/// `ed25519_dalek::SigningKey::sign`: the signature is a function of the secret and the message,
/// and `VerifyingKey::verify` accepts it for the public key of that secret.
#[verifier::external_body]
pub(crate) fn ed25519_sign(secret: &[u8; 32], message: &[u8]) -> (r: [u8; 64])
    ensures
        r@ == ed25519_signature_of(secret@, message@),
        ed25519_accepts(ed25519_public_of(secret@), message@, r@),
{
    ed25519_dalek::SigningKey::from_bytes(secret).sign(message).to_bytes()
}

/// `ed25519_dalek::SigningKey::generate` from the operating system's randomness: nothing is
/// promised of the secret.
#[verifier::external_body]
pub(crate) fn random_secret() -> (r: [u8; 32]) {
    ed25519_dalek::SigningKey::generate(&mut rand::rngs::OsRng).to_bytes()
}

/// `ed25519_dalek::VerifyingKey::from_bytes`: whether the bytes decode as a public key.
#[verifier::external_body]
pub(crate) fn ed25519_key_decodes(public: &[u8; 32]) -> (r: bool)
    ensures
        r == ed25519_decodes(public@),
{
    ed25519_dalek::VerifyingKey::from_bytes(public).is_ok()
}

/// `ed25519_dalek::VerifyingKey::verify`: whether the signature is valid; a public key that does
/// not decode accepts nothing.
#[verifier::external_body]
pub(crate) fn ed25519_verify(public: &[u8; 32], message: &[u8], signature: &[u8; 64]) -> (r: bool)
    ensures
        r == ed25519_accepts(public@, message@, signature@),
{
    match ed25519_dalek::VerifyingKey::from_bytes(public) {
        Ok(key) => key.verify(message, &ed25519_dalek::Signature::from_bytes(signature)).is_ok(),
        Err(_) => false,
    }
}

/// `ed25519_dalek::VerifyingKey::verify_strict`: whether the signature is valid and neither the
/// key nor the signature is of small order; a public key that does not decode accepts nothing.
#[verifier::external_body]
pub(crate) fn ed25519_verify_strict(
    public: &[u8; 32],
    message: &[u8],
    signature: &[u8; 64],
) -> (r: bool)
    ensures
        r == ed25519_accepts_strictly(public@, message@, signature@),
{
    match ed25519_dalek::VerifyingKey::from_bytes(public) {
        Ok(key) => key.verify_strict(
            message,
            &ed25519_dalek::Signature::from_bytes(signature),
        ).is_ok(),
        Err(_) => false,
    }
}

/// The lower-case hexadecimal digit of `v`.
pub open spec fn hex_digit(v: u8) -> char {
    if v < 10 {
        (48 + v) as u8 as char
    } else {
        (87 + v) as u8 as char
    }
}

/// Two lower-case hexadecimal digits for each byte, the high one first.
pub open spec fn hex_text(data: Seq<u8>) -> Seq<char> {
    Seq::new(
        2 * data.len(),
        |i: int|
            if i % 2 == 0 {
                hex_digit(data[i / 2] / 16)
            } else {
                hex_digit(data[i / 2] % 16)
            },
    )
}

/// Whether `b` is the byte of a hexadecimal digit, in either case.
pub open spec fn is_hex_byte(b: u8) -> bool {
    48 <= b <= 57 || 65 <= b <= 70 || 97 <= b <= 102
}

/// The value of a hexadecimal digit.
pub open spec fn hex_byte_value(b: u8) -> int {
    if b <= 57 {
        b - 48
    } else if b <= 70 {
        b - 55
    } else {
        b - 87
    }
}

/// Whether a text is hexadecimal: an even number of digits and nothing else.
pub open spec fn is_hex_text(text: Seq<char>) -> bool {
    let b = crate::text::utf8(text);
    b.len() % 2 == 0 && forall|i: int| 0 <= i < b.len() ==> is_hex_byte(#[trigger] b[i])
}

/// The bytes that a hexadecimal text stands for.
pub open spec fn hex_bytes(text: Seq<char>) -> Seq<u8> {
    let b = crate::text::utf8(text);
    Seq::new(
        b.len() / 2,
        |i: int| (16 * hex_byte_value(b[2 * i]) + hex_byte_value(b[2 * i + 1])) as u8,
    )
}

/// `hex::encode`: two lower-case digits for each byte.
#[verifier::external_body]
pub(crate) fn hex_encode(data: &[u8]) -> (r: String)
    ensures
        r@ == hex_text(data@),
{
    hex::encode(data)
}

/// `hex::decode`: succeeds on an even number of hexadecimal digits of either case.
#[verifier::external_body]
pub(crate) fn hex_decode(text: &str) -> (r: Option<Vec<u8>>)
    ensures
        r is Some <==> is_hex_text(text@),
        r matches Some(v) ==> v@ == hex_bytes(text@),
{
    hex::decode(text).ok()
}

/// Decoding gives back what was encoded.
pub proof fn hex_round_trip(data: Seq<u8>)
    ensures
        is_hex_text(hex_text(data)),
        hex_bytes(hex_text(data)) == data,
{
    let t = hex_text(data);
    let b = crate::text::utf8(t);
    assert forall|i: int| 0 <= i < t.len() implies (0 <= (#[trigger] t[i]) as int <= 127) by {
        let v = if i % 2 == 0 { data[i / 2] / 16 } else { data[i / 2] % 16 };
        assert(v < 16);
    }
    assert(vstd::utf8::is_ascii_chars(t));
    vstd::utf8::is_ascii_chars_encode_utf8(t);
    assert(b.len() == t.len());
    assert forall|i: int| 0 <= i < b.len() implies is_hex_byte(#[trigger] b[i]) && hex_byte_value(
        b[i],
    ) == (if i % 2 == 0 { data[i / 2] / 16 } else { data[i / 2] % 16 }) by {
        let v = if i % 2 == 0 { data[i / 2] / 16 } else { data[i / 2] % 16 };
        assert(v < 16);
        assert(t[i] == hex_digit(v));
        assert(b[i] == t[i] as u8);
    }
    assert forall|i: int| 0 <= i < data.len() implies hex_bytes(t)[i] == data[i] by {
        assert(b[2 * i] == b[2 * i] && b[2 * i + 1] == b[2 * i + 1]);
        assert((2 * i) / 2 == i && (2 * i + 1) / 2 == i);
        assert((2 * i) % 2 == 0 && (2 * i + 1) % 2 == 1);
        assert(16 * (data[i] / 16) + data[i] % 16 == data[i]);
    }
    assert(hex_bytes(t) =~= data);
}

/// Hexadecimal digits are read in either case, and nothing else is one.
pub proof fn hexadecimal_is_read_in_either_case(b: u8)
    ensures
        is_hex_byte(b) <==> '0' <= b as char <= '9' || 'a' <= b as char <= 'f' || 'A' <= b as char
            <= 'F',
        '0' <= b as char <= '9' ==> hex_byte_value(b) == b - 48,
        'a' <= b as char <= 'f' ==> hex_byte_value(b) == b - 97 + 10,
        'A' <= b as char <= 'F' ==> hex_byte_value(b) == b - 65 + 10,
{
}

} // verus!
