use vstd::prelude::*;
use vstd::utf8::is_scalar;

verus! {

/// Relies on char::from_u32: returns Some exactly on Unicode scalar values,
/// and then the char with that value.
pub assume_specification[ char::from_u32 ](v: u32) -> (r: Option<char>)
    ensures
        r matches Some(c) ==> c as u32 == v,
        r is Some <==> is_scalar(v),
;

/// Relies on String::push: appends the given character to the end.
pub assume_specification[ String::push ](s: &mut String, c: char)
    ensures
        final(s)@ == old(s)@.push(c),
;

} // verus!
