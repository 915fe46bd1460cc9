//! Trusted boundary to the cryptographic and encoding crates.
//!
//! Each wrapper's contract states what the call computes, either exactly
//! (hex, base64) or under an uninterpreted name where the value is a pure
//! but page-long function of its input (the SHA3-256 digest, secp256k1
//! signature checks).

use vstd::prelude::*;

use base64::Engine;
use sha3::Digest;

verus! {

// ---------------------------------------------------------------------------
// SHA3-256
// ---------------------------------------------------------------------------

/// The SHA3-256 digest of a byte string: a pure function of its input.
pub uninterp spec fn sha3_256_of(data: Seq<u8>) -> Seq<u8>;

/// Relies on sha3::Sha3_256 (the Digest trait): the digest is a pure
/// 32-byte function of the input bytes.
#[verifier::external_body]
pub fn sha3_256(data: &Vec<u8>) -> (r: Vec<u8>)
    ensures
        r@ == sha3_256_of(data@),
        r@.len() == 32,
{
    sha3::Sha3_256::digest(data.as_slice()).to_vec()
}

// ---------------------------------------------------------------------------
// secp256k1
// ---------------------------------------------------------------------------

/// Whether `signature` (64 bytes, r‖s) is a valid standard-format secp256k1
/// signature of the 32-byte `msg_hash` under the compressed `public_key`;
/// false as well whenever any of the three fails to parse.
pub uninterp spec fn secp256k1_verify_ok(
    msg_hash: Seq<u8>,
    signature: Seq<u8>,
    public_key: Seq<u8>,
) -> bool;

/// Relies on libsecp256k1::verify together with Message::parse_slice,
/// Signature::parse_standard_slice and PublicKey::parse_slice: all four are
/// pure functions of the argument bytes, so the overall outcome is too.
#[verifier::external_body]
pub fn verify_signature(msg_hash: &Vec<u8>, signature: &Vec<u8>, public_key: &Vec<u8>) -> (r: bool)
    ensures
        r == secp256k1_verify_ok(msg_hash@, signature@, public_key@),
{
    let msg = libsecp256k1::Message::parse_slice(msg_hash.as_slice());
    let sig = libsecp256k1::Signature::parse_standard_slice(signature.as_slice());
    let key_format = Some(libsecp256k1::PublicKeyFormat::Compressed);
    let key = libsecp256k1::PublicKey::parse_slice(public_key.as_slice(), key_format);
    match (msg, sig, key) {
        (Ok(m), Ok(s), Ok(p)) => libsecp256k1::verify(&m, &s, &p),
        _ => false,
    }
}

/// The 65-byte uncompressed form of a sec1-encoded public key, or nothing
/// where the bytes are not a valid curve point encoding.
pub uninterp spec fn secp256k1_uncompressed_of(sec1: Seq<u8>) -> Option<Seq<u8>>;

/// Relies on libsecp256k1::PublicKey::parse_slice and
/// PublicKey::serialize: parsing succeeds exactly on valid sec1 encodings
/// and serialize returns the 65-byte uncompressed form led by the tag
/// byte 4, both pure.
#[verifier::external_body]
pub fn uncompress_public_key(sec1: &Vec<u8>) -> (r: Option<Vec<u8>>)
    ensures
        r is Some <==> secp256k1_uncompressed_of(sec1@) is Some,
        r matches Some(u) ==> u@ == secp256k1_uncompressed_of(sec1@).unwrap() && u@.len() == 65
            && u@[0] == 4u8,
{
    match libsecp256k1::PublicKey::parse_slice(
        sec1.as_slice(),
        Some(libsecp256k1::PublicKeyFormat::Compressed),
    ) {
        Ok(pk) => Some(pk.serialize().to_vec()),
        Err(_) => None,
    }
}

// ---------------------------------------------------------------------------
// Hex
// ---------------------------------------------------------------------------

pub const HEX_CHARS_LOWER: [char; 16] = [
    '0',
    '1',
    '2',
    '3',
    '4',
    '5',
    '6',
    '7',
    '8',
    '9',
    'a',
    'b',
    'c',
    'd',
    'e',
    'f',
];

/// Lowercase hex encoding: two digits per byte, high nibble first.
pub open spec fn spec_hex_lower(s: Seq<u8>) -> Seq<char> {
    Seq::new(
        s.len() * 2,
        |i: int|
            if i % 2 == 0 {
                HEX_CHARS_LOWER@[(s[i / 2] >> 4u8) as int]
            } else {
                HEX_CHARS_LOWER@[(s[i / 2] & 0x0fu8) as int]
            },
    )
}

/// Relies on hex::encode: lowercase, two digits per byte, high nibble
/// first.
#[verifier::external_body]
pub fn hex_encode(data: &Vec<u8>) -> (r: String)
    ensures
        r@ == spec_hex_lower(data@),
{
    hex::encode(data.as_slice())
}

// ---------------------------------------------------------------------------
// Base64 (URL-safe alphabet, no padding)
// ---------------------------------------------------------------------------

/// ASCII code of the URL-safe base64 alphabet at `v` (0..=63).
pub open spec fn spec_b64url_char(v: u8) -> u8 {
    if v < 26 {
        (65 + v) as u8  // 'A'..='Z'
    } else if v < 52 {
        (97 + (v - 26)) as u8  // 'a'..='z'
    } else if v < 62 {
        (48 + (v - 52)) as u8  // '0'..='9'
    } else if v == 62 {
        45u8  // '-'
    } else {
        95u8  // '_'
    }
}

/// The i-th 6-bit group of the big-endian bit stream of `s`, zero-padded at
/// the tail.
pub open spec fn spec_b64url_sextet(s: Seq<u8>, i: int) -> u8 {
    let j = 3 * (i / 4);
    if i % 4 == 0 {
        (s[j] >> 2u8) as u8
    } else if i % 4 == 1 {
        (((s[j] & 0x03u8) << 4u8) | (if j + 1 < s.len() {
            (s[j + 1] >> 4u8) as u8
        } else {
            0u8
        })) as u8
    } else if i % 4 == 2 {
        (((s[j + 1] & 0x0fu8) << 2u8) | (if j + 2 < s.len() {
            (s[j + 2] >> 6u8) as u8
        } else {
            0u8
        })) as u8
    } else {
        (s[j + 2] & 0x3fu8) as u8
    }
}

/// URL-safe unpadded base64: ceil(8n/6) characters, one per 6-bit group.
pub open spec fn spec_b64url(s: Seq<u8>) -> Seq<u8> {
    Seq::new((s.len() * 8 + 5) / 6, |i: int| spec_b64url_char(spec_b64url_sextet(s, i)))
}

/// Relies on base64's URL_SAFE_NO_PAD engine: standard base64 over the
/// URL-safe alphabet, without padding. Returned as ASCII bytes.
#[verifier::external_body]
pub fn base64url_encode(data: &Vec<u8>) -> (r: Vec<u8>)
    ensures
        r@ == spec_b64url(data@),
{
    base64::engine::general_purpose::URL_SAFE_NO_PAD.encode(data.as_slice()).into_bytes()
}

// ---------------------------------------------------------------------------
// CBOR unsigned integers
// ---------------------------------------------------------------------------

/// Canonical (minimal-length) CBOR encoding of an unsigned integer: major
/// type 0 with the shortest argument that holds the value.
pub open spec fn spec_cbor_uint(v: u64) -> Seq<u8> {
    if v < 24 {
        seq![v as u8]
    } else if v <= 0xff {
        seq![24u8, v as u8]
    } else if v <= 0xffff {
        seq![25u8, (v >> 8u64) as u8, v as u8]
    } else if v <= 0xffff_ffff {
        seq![26u8, (v >> 24u64) as u8, (v >> 16u64) as u8, (v >> 8u64) as u8, v as u8]
    } else {
        seq![27u8] + crate::bytes::spec_be_bytes_8(v)
    }
}

} // verus!
