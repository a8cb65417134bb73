//! Calls into parts of std that vstd gives no specification for, and
//! string appending through vstd's.
use vstd::prelude::*;
use vstd::string::StringExecFns;

verus! {

/// `<str as PartialEq>::eq`: whether the two strings hold the same characters.
#[verifier::external_body]
pub(crate) fn str_eq(a: &str, b: &str) -> (r: bool)
    ensures
        r == (a@ == b@),
{
    a == b
}

/// Appends `b` to `a`.
pub(crate) fn string_push_str(a: &mut String, b: &str)
    ensures
        final(a)@ == old(a)@ + b@,
{
    a.append(b)
}

/// `String::push`: appends the character `c` to `a`.
#[verifier::external_body]
pub(crate) fn string_push(a: &mut String, c: char)
    ensures
        final(a)@ == old(a)@.push(c),
{
    a.push(c)
}

/// `str::ends_with` with a string pattern: whether `a` ends with `b`.
#[verifier::external_body]
pub(crate) fn str_ends_with(a: &str, b: &str) -> (r: bool)
    ensures
        r == (b@.len() <= a@.len() && a@.subrange(a@.len() - b@.len(), a@.len() as int) == b@),
{
    a.ends_with(b)
}

} // verus!
