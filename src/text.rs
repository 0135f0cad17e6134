use vstd::prelude::*;

verus! {

/// The text that lossy UTF-8 decoding makes of a byte string.
pub uninterp spec fn lossy_text(b: Seq<u8>) -> Seq<char>;

/// ASCII bytes read as the characters they encode.
pub open spec fn ascii_text(b: Seq<u8>) -> Seq<char> {
    Seq::new(b.len(), |i: int| b[i] as char)
}

/// Relies on `String::from_utf8_lossy` (std): invalid sequences become U+FFFD, and valid
/// UTF-8, ASCII among it, comes back as the characters it encodes.
#[verifier::external_body]
pub(crate) fn lossy_utf8(b: &[u8]) -> (r: String)
    ensures
        r@ == lossy_text(b@),
        (forall|i: int| 0 <= i < b@.len() ==> #[trigger] b@[i] < 128) ==> r@ == ascii_text(b@),
{
    String::from_utf8_lossy(b).into_owned()
}

} // verus!
