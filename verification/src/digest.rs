//! The content hash inside a cache identifier: SHA-256 of the tune-argument
//! list, rendered as lower-case hex. The hash itself comes from an outside
//! crate; its output is named rather than described, and the hex rendering is
//! pinned down exactly.

use sha2::Digest;
use vstd::prelude::*;

verus! {

/// The SHA-256 digest of a byte string: thirty-two bytes that are a function
/// of the input alone.
pub uninterp spec fn sha256_digest(data: Seq<u8>) -> Seq<u8>;

/// The lower-case hex digit character for a value below sixteen.
pub open spec fn spec_hex_digit(d: int) -> char {
    if d < 10 {
        crate::text::spec_digit(d)
    } else if d == 10 {
        'a'
    } else if d == 11 {
        'b'
    } else if d == 12 {
        'c'
    } else if d == 13 {
        'd'
    } else if d == 14 {
        'e'
    } else {
        'f'
    }
}

/// Lower-case hex of a byte string: two digits per byte, high nibble first.
pub open spec fn spec_hex_lower(data: Seq<u8>) -> Seq<char> {
    Seq::new(
        data.len() * 2,
        |i: int|
            if i % 2 == 0 {
                spec_hex_digit(data[i / 2] as int / 16)
            } else {
                spec_hex_digit(data[i / 2] as int % 16)
            },
    )
}

/// Relies on sha2's `Sha256` (through the `Digest` trait): the digest is
/// thirty-two bytes and depends only on the input bytes.
#[verifier::external_body]
pub fn sha256_bytes(data: &[u8]) -> (r: Vec<u8>)
    ensures
        r@ == sha256_digest(data@),
        r@.len() == 32,
{
    let mut hasher = sha2::Sha256::new();
    hasher.update(data);
    hasher.finalize().to_vec()
}

/// Relies on base16ct's `lower::encode_string`: each input byte becomes two
/// lower-case hex digits, high nibble first. The encoder panics only when
/// the input is longer than half the address space.
#[verifier::external_body]
pub fn hex_lower(data: &[u8]) -> (r: String)
    requires
        data@.len() < 0x7fff_ffff_ffff_ffff,
    ensures
        r@ == spec_hex_lower(data@),
{
    base16ct::lower::encode_string(data)
}

/// SHA-256 of a string's bytes, as lower-case hex.
pub fn sha256_hex(s: &str) -> (r: String)
    ensures
        r@ == spec_hex_lower(sha256_digest(vstd::utf8::encode_utf8(s@))),
{
    let bytes = s.as_bytes();
    let digest = sha256_bytes(bytes);
    hex_lower(digest.as_slice())
}

} // verus!
