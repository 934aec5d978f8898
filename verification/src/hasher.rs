//! The content hasher: a file's identity is the lowercase hex form of the
//! SHA-256 digest of its bytes. The digest itself comes from an outside
//! implementation; the hex form is pinned down exactly.

use vstd::prelude::*;

use sha2::Digest;

verus! {

/// The SHA-256 digest of a byte sequence. Left uninterpreted: it names
/// the outside implementation's result, which depends on the input bytes
/// alone.
pub uninterp spec fn sha256_of(bytes: Seq<u8>) -> Seq<u8>;

/// The lowercase hex digit for a value below sixteen.
pub open spec fn hex_digit_char(v: u8) -> char
    recommends
        v < 16,
{
    if v < 10 {
        ((v + 48) as u8) as char
    } else {
        ((v + 87) as u8) as char
    }
}

/// The lowercase hex encoding of a byte sequence: two digits per byte,
/// high nibble first.
pub open spec fn hex_lower_of(bytes: Seq<u8>) -> Seq<char> {
    Seq::new(
        bytes.len() * 2,
        |i: int|
            if i % 2 == 0 {
                hex_digit_char(bytes[i / 2] >> 4u8)
            } else {
                hex_digit_char(bytes[i / 2] & 0x0fu8)
            },
    )
}

/// The content identity of a byte sequence: the lowercase hex form of
/// its SHA-256 digest.
pub open spec fn spec_content_id(bytes: Seq<u8>) -> Seq<char> {
    hex_lower_of(sha256_of(bytes))
}

/// Relies on sha2's `Sha256` (through `Digest::digest`): the SHA-256
/// digest is a function of the input bytes alone and is 32 bytes long.
#[verifier::external_body]
fn sha256_digest(bytes: &[u8]) -> (r: Vec<u8>)
    ensures
        r@ == sha256_of(bytes@),
        r@.len() == 32,
{
    sha2::Sha256::digest(bytes).to_vec()
}

/// Relies on base16ct's `lower::encode_string`: each input byte becomes
/// two lowercase hex digits, high nibble first. The callee panics above
/// half the address space, so that much is required here.
#[verifier::external_body]
fn hex_lower(bytes: &[u8]) -> (r: String)
    requires
        bytes@.len() <= usize::MAX / 2,
    ensures
        r@ == hex_lower_of(bytes@),
{
    base16ct::lower::encode_string(bytes)
}

/// The content identity of a byte buffer, as stored in a post file's
/// `sha256` field: 64 lowercase hex digits of the buffer's SHA-256
/// digest.
pub fn content_id_of_bytes(bytes: &[u8]) -> (r: String)
    ensures
        r@ == spec_content_id(bytes@),
        r@.len() == 64,
{
    let digest = sha256_digest(bytes);
    let hex = hex_lower(digest.as_slice());
    hex
}

} // verus!
