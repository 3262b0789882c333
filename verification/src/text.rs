//! Specifications for the string operations of the standard library that the
//! index relies on and that `vstd` leaves unspecified.

use vstd::prelude::*;

verus! {

/// The lower-case form of a character sequence, as `str::to_lowercase`
/// computes it from the Unicode case tables.
pub uninterp spec fn lowercase(s: Seq<char>) -> Seq<char>;

/// Assumed of `str::to_lowercase`, not proved: it returns a new string that
/// depends on the characters of its argument alone. [`lowercase`] names that
/// string; nothing more is said of it.
pub assume_specification[ str::to_lowercase ](s: &str) -> (lowered: String)
    ensures
        lowered@ == lowercase(s@),
;

/// Assumed of `String::push`, not proved: it appends the character to the end
/// of the string and changes nothing else.
pub assume_specification[ String::push ](s: &mut String, c: char)
    ensures
        final(s)@ == old(s)@.push(c),
;

/// Compares two string slices with the `==` of `str`. Assumed, not proved:
/// it holds exactly when both slices hold the same characters.
#[verifier::external_body]
pub(crate) fn same_text(a: &str, b: &str) -> (same: bool)
    ensures
        same == (a@ == b@),
{
    a == b
}

} // verus!
