//! Bytes shown as text.

use vstd::prelude::*;
use vstd::utf8::{decode_utf8, valid_utf8};

verus! {

/// The text that bytes stand for when every stretch of them that is not
/// UTF-8 is read as the replacement character.
pub uninterp spec fn lossy_text(bytes: Seq<u8>) -> Seq<char>;

/// The text that shows a list of byte strings for debugging: each byte as
/// a decimal number, in brackets.
pub uninterp spec fn debug_text(lines: Seq<Seq<u8>>) -> Seq<char>;

/// The byte strings of `lines`.
pub open spec fn lines_view(lines: Seq<Vec<u8>>) -> Seq<Seq<u8>> {
    Seq::new(lines.len(), |i: int| lines[i]@)
}

/// `String::from_utf8_lossy` of std, with its result as an owned string.
/// The result depends on the bytes alone, and for bytes that are UTF-8 it
/// is the text that they encode. How invalid stretches are replaced is not
/// stated here.
#[verifier::external_body]
pub(crate) fn decode_lossy(bytes: &[u8]) -> (decoded: String)
    ensures
        decoded@ == lossy_text(bytes@),
        valid_utf8(bytes@) ==> decoded@ == decode_utf8(bytes@),
{
    String::from_utf8_lossy(bytes).into_owned()
}

/// The `Debug` formatting of std for a vector of byte vectors. The result
/// depends on the bytes alone; its form is not stated here.
#[verifier::external_body]
pub(crate) fn debug_lines(lines: &Vec<Vec<u8>>) -> (shown: String)
    ensures
        shown@ == debug_text(lines_view(lines@)),
{
    format!("{:?}", lines)
}

} // verus!
