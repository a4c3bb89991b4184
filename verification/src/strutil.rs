//! Small executable helpers for building strings.

use vstd::prelude::*;

verus! {

/// Relies on std's `String::push`: it appends the given character to the
/// end of the string.
#[verifier::external_body]
pub fn push_char(s: &mut String, c: char)
    ensures
        final(s)@ == old(s)@.push(c),
{
    s.push(c)
}

/// The sequence of characters of `a` followed by `sep` followed by `b`.
pub open spec fn spec_join_sep(a: Seq<char>, sep: char, b: Seq<char>) -> Seq<char> {
    a.push(sep) + b
}

/// Concatenates `a`, the single character `sep` and `b` into one string.
pub fn join_sep(a: &str, sep: char, b: &str) -> (r: String)
    ensures
        r@ == spec_join_sep(a@, sep, b@),
{
    let mut s = a.to_owned();
    push_char(&mut s, sep);
    s.append(b);
    proof {
        assert(s@ =~= spec_join_sep(a@, sep, b@));
    }
    s
}

} // verus!
