use vstd::prelude::*;

use vstd::utf8::{decode_utf8, valid_utf8};

verus! {

/// The character sequence that lossy UTF-8 decoding yields for a byte
/// sequence.  For invalid UTF-8 the replacement behaviour is not modelled
/// further; for valid UTF-8 the trusted wrapper below pins it to vstd's
/// `decode_utf8`.
pub uninterp spec fn lossy_decode(bytes: Seq<u8>) -> Seq<char>;

/// What decoding track-name bytes yields: valid UTF-8 decodes exactly to
/// the characters it encodes; anything else is lossily decoded.
pub open spec fn utf8_or_lossy(bytes: Seq<u8>) -> Seq<char> {
    if valid_utf8(bytes) {
        decode_utf8(bytes)
    } else {
        lossy_decode(bytes)
    }
}

/// Relies on `String::from_utf8_lossy`: the result depends on the bytes
/// alone, and a slice that is valid UTF-8 is converted without replacement,
/// so it decodes to exactly the characters those bytes encode.
#[verifier::external_body]
pub fn bytes_to_text(data: &Vec<u8>) -> (r: String)
    ensures
        r@ == lossy_decode(data@),
        valid_utf8(data@) ==> r@ == decode_utf8(data@),
{
    String::from_utf8_lossy(data).to_string()
}

} // verus!
