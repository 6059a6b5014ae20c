//! Text primitives of the standard library that the rules rely on.

use vstd::prelude::*;

verus! {

/// Equality of two string slices, `str`'s own `==`, which holds exactly when
/// both consist of the same characters in the same order.
#[verifier::external_body]
pub(crate) fn same_text(a: &str, b: &str) -> (same: bool)
    ensures
        same == (a@ == b@),
{
    a == b
}

/// What `str::trim` returns for a text: the text without its leading and
/// trailing whitespace, as Unicode defines whitespace.
pub uninterp spec fn trimmed(text: Seq<char>) -> Seq<char>;

/// What `str::to_lowercase` returns for a text: its lower-case form, as
/// Unicode defines it.
pub uninterp spec fn lowercased(text: Seq<char>) -> Seq<char>;

/// A line of input as the rules read it: trimmed, then in lower case.
pub open spec fn normalized(text: Seq<char>) -> Seq<char> {
    lowercased(trimmed(text))
}

/// `str::trim`: the slice of `text` left when leading and trailing
/// whitespace is cut off. The result is a function of the text alone.
#[verifier::external_body]
pub(crate) fn trim(text: &str) -> (out: &str)
    ensures
        out@ == trimmed(text@),
{
    text.trim()
}

/// `str::to_lowercase`: a new string holding the lower-case form of `text`.
/// The result is a function of the text alone.
#[verifier::external_body]
pub(crate) fn to_lowercase(text: &str) -> (out: String)
    ensures
        out@ == lowercased(text@),
{
    text.to_lowercase()
}

/// Trims a line of input and puts it in lower case.
pub fn normalize(input: &str) -> (out: String)
    ensures
        out@ == normalized(input@),
{
    to_lowercase(trim(input))
}

} // verus!
