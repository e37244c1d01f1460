//! Folding letter case.

use vstd::prelude::*;

verus! {

/// The lowercase form of `text` under the case mapping of the Unicode
/// standard, which knows no locale. A character may map to several, so the
/// result can be longer than `text`.
pub uninterp spec fn lowercase(text: Seq<char>) -> Seq<char>;

/// Calls `str::to_lowercase` of the standard library.
///
/// Taken for granted: the result depends on the text alone. The case mapping
/// itself is not spelled out here.
#[verifier::external_body]
pub(crate) fn to_lowercase(text: &str) -> (lowered: String)
    ensures
        lowered@ == lowercase(text@),
{
    text.to_lowercase()
}

} // verus!
