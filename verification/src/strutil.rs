//! Small helpers for comparing strings and byte vectors by content.
//! The string-slice comparison is trusted (vstd specifies equality for
//! `String` but not for `str`); the byte-vector comparison is verified.

use vstd::prelude::*;

verus! {

/// Relies on str's `PartialEq`: two string slices compare equal exactly
/// when their character contents are equal.
#[verifier::external_body]
pub(crate) fn str_eq(a: &str, b: &str) -> (r: bool)
    ensures
        r == (a@ == b@),
{
    a == b
}

/// Whether two byte vectors hold the same bytes.
pub(crate) fn bytes_eq(a: &Vec<u8>, b: &Vec<u8>) -> (r: bool)
    ensures
        r == (a@ == b@),
{
    let r = a.eq(b);
    proof {
        broadcast use vstd::laws_eq::group_laws_eq;
        broadcast use vstd::std_specs::vec::lemma_vec_obeys_view_eq;

        reveal(vstd::laws_eq::obeys_view_eq);
        assert(vstd::laws_eq::obeys_view_eq::<Vec<u8>>());
    }
    r
}

} // verus!
