//! What the crate takes on trust from the standard library, for two string
//! methods that `vstd` does not specify.
//!
//! Nothing in this file is proved.

use vstd::prelude::*;

verus! {

/// The uppercase form that the standard library gives a text: the Unicode
/// mapping, which may change the number of characters.
pub uninterp spec fn uppercase(s: Seq<char>) -> Seq<char>;

/// `String::push` appends one character to the end of the string.
pub assume_specification[ String::push ](s: &mut String, c: char)
    ensures
        final(s)@ == old(s)@.push(c),
;

/// `str::to_uppercase` returns the uppercase form of the text as a new
/// string. Nothing is claimed of the mapping itself: the result is only given
/// the name `uppercase`.
pub assume_specification[ str::to_uppercase ](s: &str) -> (upper: String)
    ensures
        upper@ == uppercase(s@),
;

} // verus!
