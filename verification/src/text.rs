//! What the library assumes of the string functions of the standard
//! library that it calls and that come without a specification.

use vstd::prelude::*;

verus! {

/// `String::push` appends one character to the end of the string and
/// leaves the characters before it as they were.
pub assume_specification[ std::string::String::push ](s: &mut std::string::String, c: char)
    ensures
        final(s)@ == old(s)@.push(c),
;

/// Equality of string slices, `PartialEq::eq` of `str`, holds exactly when
/// both slices hold the same characters in the same order.
pub assume_specification[ <str as PartialEq>::eq ](a: &str, b: &str) -> (r: bool)
    ensures
        r == (a@ == b@),
;

} // verus!
