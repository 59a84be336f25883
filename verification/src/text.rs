//! The one piece of text handling the stores need: deciding whether a payload
//! is empty once surrounding whitespace is ignored.
use vstd::prelude::*;

verus! {

/// What `str::trim` returns: the character sequence with leading and trailing
/// whitespace removed. It depends on the characters alone.
pub uninterp spec fn trimmed(s: Seq<char>) -> Seq<char>;

/// Relies on `str::trim`: the slice with leading and trailing whitespace
/// removed, here given the name `trimmed`.
#[verifier::external_body]
pub(crate) fn trim_ends<'a>(s: &'a str) -> (r: &'a str)
    ensures
        r@ == trimmed(s@),
{
    s.trim()
}

} // verus!
