//! The content hash that both ends compute of a transferred file.
use vstd::prelude::*;

verus! {

/// The lowercase hexadecimal BLAKE3 hash of `data`, as the `blake3` crate
/// computes it.
pub uninterp spec fn blake3_hex(data: Seq<u8>) -> Seq<char>;

/// A digit of lowercase hexadecimal.
pub open spec fn is_lower_hex_digit(c: char) -> bool {
    ('0' <= c && c <= '9') || ('a' <= c && c <= 'f')
}

/// Calls `blake3::hash` and `Hash::to_hex`. Claimed: the result is the named
/// `blake3_hex` of the input, and (as `to_hex` writes two digits from
/// "0123456789abcdef" for each of the 32 bytes) it is 64 lowercase hex digits.
#[verifier::external_body]
fn blake3_hex_digest(data: &[u8]) -> (h: String)
    ensures
        h@ == blake3_hex(data@),
        h@.len() == 64,
        forall|i: int| 0 <= i < 64 ==> is_lower_hex_digit(#[trigger] h@[i]),
{
    blake3::hash(data).to_hex().to_string()
}

/// The hash of a file's content, as it is exchanged to check a download:
/// 64 lowercase hexadecimal digits of its BLAKE3 hash.
pub fn content_hash(data: &[u8]) -> (h: String)
    ensures
        h@ == blake3_hex(data@),
        h@.len() == 64,
        forall|i: int| 0 <= i < 64 ==> is_lower_hex_digit(#[trigger] h@[i]),
{
    blake3_hex_digest(data)
}

} // verus!
