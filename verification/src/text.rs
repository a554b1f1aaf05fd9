//! Turning received bytes into text, as the protocol's ends do before they
//! compare names, credentials and hashes.
use vstd::prelude::*;
use vstd::utf8::{decode_utf8, encode_utf8, encode_utf8_decode_utf8, encode_utf8_valid_utf8, valid_utf8};

verus! {

/// The text that `String::from_utf8_lossy` makes of bytes that are not valid
/// UTF-8 (each invalid sequence replaced by U+FFFD).
pub uninterp spec fn utf8_lossy_repaired(bytes: Seq<u8>) -> Seq<char>;

/// The text that `String::from_utf8_lossy` makes of `bytes`: their decoding
/// when they are valid UTF-8, else the repaired text.
pub open spec fn lossy_text(bytes: Seq<u8>) -> Seq<char> {
    if valid_utf8(bytes) {
        decode_utf8(bytes)
    } else {
        utf8_lossy_repaired(bytes)
    }
}

/// Calls `String::from_utf8_lossy` (std) and owns the result. Claimed: valid
/// UTF-8 comes back decoded unchanged, as std documents; for other input the
/// result is the named `utf8_lossy_repaired` of it. What the repair is (which
/// sequences become one U+FFFD) is left unsaid.
#[verifier::external_body]
pub(crate) fn decode_lossy(bytes: &[u8]) -> (s: String)
    ensures
        s@ == lossy_text(bytes@),
        !valid_utf8(bytes@) ==> s@ == utf8_lossy_repaired(bytes@),
{
    String::from_utf8_lossy(bytes).into_owned()
}

/// Text sent as its UTF-8 bytes is read back unchanged.
pub proof fn law_lossy_text_of_utf8(text: Seq<char>)
    ensures
        lossy_text(encode_utf8(text)) == text,
{
    encode_utf8_valid_utf8(text);
    encode_utf8_decode_utf8(text);
}

} // verus!
