//! Text of labels.
//!
//! A label arrives as bytes and is kept as text: decoded as UTF-8, with the
//! replacement character where the bytes are no UTF-8, and lower-cased. Both
//! steps are done by the standard library. What they give is named here and
//! not spelled out; everything else is proved from these two names.

use vstd::prelude::*;

verus! {

/// The text that lenient UTF-8 decoding makes of `bytes`.
pub uninterp spec fn lossy_text(bytes: Seq<u8>) -> Seq<char>;

/// The lower-case form of `text`.
pub uninterp spec fn lowercase_text(text: Seq<char>) -> Seq<char>;

/// A label's bytes as the text under which the label is kept.
pub open spec fn label_text(bytes: Seq<u8>) -> Seq<char> {
    lowercase_text(lossy_text(bytes))
}

/// `String::from_utf8_lossy` of the standard library: the bytes decoded as
/// UTF-8, each invalid sequence replaced by U+FFFD. Trusted: the result is a
/// function of the bytes alone, which the contract names.
#[verifier::external_body]
pub(crate) fn decode_lossy(bytes: &[u8]) -> (text: String)
    ensures
        text@ == lossy_text(bytes@),
{
    String::from_utf8_lossy(bytes).into_owned()
}

/// `str::to_lowercase` of the standard library: the lower-case equivalent
/// by the Unicode property Lowercase, independent of any locale. Trusted:
/// the result is a function of the text alone, which the contract names.
#[verifier::external_body]
pub(crate) fn lowercase(text: &str) -> (lower: String)
    ensures
        lower@ == lowercase_text(text@),
{
    text.to_lowercase()
}

} // verus!
