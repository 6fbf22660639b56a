//! Lowercasing and whitespace trimming, delegated to the standard library.
//!
//! Both operations depend on Unicode tables that this crate does not restate;
//! their results are given names that the search contracts speak of.

use vstd::prelude::*;

verus! {

/// The sequence of characters that `str::to_lowercase` maps `s` to.
pub uninterp spec fn lower_of(s: Seq<char>) -> Seq<char>;

/// The characters of `s` with leading and trailing whitespace removed, as
/// `str::trim` leaves them.
pub uninterp spec fn trim_of(s: Seq<char>) -> Seq<char>;

/// Relies on `str::to_lowercase`: the result depends on the characters of
/// `s` alone, and an empty string stays empty.
#[verifier::external_body]
pub(crate) fn to_lowercase(s: &str) -> (r: String)
    ensures
        r@ == lower_of(s@),
        s@.len() == 0 ==> r@.len() == 0,
{
    s.to_lowercase()
}

/// Relies on `str::trim`: the returned slice is `s` less its leading and
/// trailing whitespace, and depends on the characters of `s` alone.
#[verifier::external_body]
pub(crate) fn trim_slice<'a>(s: &'a str) -> (r: &'a str)
    ensures
        r@ == trim_of(s@),
{
    s.trim()
}

} // verus!
