//! Trusted contracts for the std character and `String` calls the
//! library relies on: appending one character, removing the last one,
//! and turning a scalar value back into a `char`.

use vstd::prelude::*;

verus! {

/// Relies on std's String::push: appends the given char to the end of
/// the string.
pub assume_specification[ String::push ](s: &mut String, c: char)
    ensures
        final(s)@ == old(s)@.push(c),
;

/// Relies on std's String::pop: removes the last character from the
/// string and returns it, or returns None when the string is empty.
pub assume_specification[ String::pop ](s: &mut String) -> (r: Option<char>)
    ensures
        old(s)@.len() == 0 ==> final(s)@ == old(s)@ && r is None,
        old(s)@.len() > 0 ==> final(s)@ == old(s)@.drop_last() && r == Some(old(s)@.last()),
;

/// Relies on std's char::from_u32: yields the char with the given scalar
/// value, or None when the value is a surrogate or lies above the last
/// code point.
pub assume_specification[ char::from_u32 ](v: u32) -> (r: Option<char>)
    ensures
        (r is Some) == (v < 0xD800 || (0xDFFF < v && v <= 0x10FFFF)),
        r matches Some(c) ==> c as u32 == v,
;

} // verus!
