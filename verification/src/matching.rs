//! Substring containment: the specification of what it means for a query to
//! occur inside a line, and a verified scan that decides it.

use vstd::prelude::*;
use vstd::string::StrSliceExecFns;

verus! {

/// `needle` occurs in `hay` as a contiguous run of characters.
///
/// The empty sequence occurs in every sequence.
pub open spec fn has_substring(hay: Seq<char>, needle: Seq<char>) -> bool {
    exists|i: int|
        0 <= i && i + needle.len() <= hay.len() && #[trigger] hay.subrange(
            i,
            i + needle.len() as int,
        ) == needle
}

/// An empty needle occurs in every haystack.
pub proof fn lemma_empty_needle(hay: Seq<char>, needle: Seq<char>)
    requires
        needle.len() == 0,
    ensures
        has_substring(hay, needle),
{
    assert(hay.subrange(0, 0 + needle.len() as int) =~= needle);
}

/// `xs` can be obtained from `ys` by deleting elements, keeping the order of
/// the rest.
pub open spec fn is_subsequence<A>(xs: Seq<A>, ys: Seq<A>) -> bool
    decreases ys.len(),
{
    if xs.len() == 0 {
        true
    } else if ys.len() == 0 {
        false
    } else if xs.last() == ys.last() {
        is_subsequence(xs.drop_last(), ys.drop_last()) || is_subsequence(xs, ys.drop_last())
    } else {
        is_subsequence(xs, ys.drop_last())
    }
}

/// Filtering a sequence keeps the surviving elements in their original order:
/// the filtered sequence is a subsequence of the original.
pub proof fn lemma_filter_is_subsequence<A>(s: Seq<A>, pred: spec_fn(A) -> bool)
    ensures
        is_subsequence(s.filter(pred), s),
    decreases s.len(),
{
    reveal(Seq::filter);
    if s.len() == 0 {
    } else {
        let kept = s.drop_last().filter(pred);
        lemma_filter_is_subsequence(s.drop_last(), pred);
        if pred(s.last()) {
            assert(s.filter(pred) == kept.push(s.last()));
            assert(kept.push(s.last()).drop_last() =~= kept);
        }
    }
}

/// Every element of a subsequence occurs in the longer sequence.
pub proof fn lemma_subsequence_membership<A>(xs: Seq<A>, ys: Seq<A>)
    requires
        is_subsequence(xs, ys),
    ensures
        forall|i: int| 0 <= i < xs.len() ==> ys.contains(#[trigger] xs[i]),
    decreases ys.len(),
{
    if xs.len() == 0 || ys.len() == 0 {
    } else if xs.last() == ys.last() && is_subsequence(xs.drop_last(), ys.drop_last()) {
        lemma_subsequence_membership(xs.drop_last(), ys.drop_last());
        assert forall|i: int| 0 <= i < xs.len() implies ys.contains(#[trigger] xs[i]) by {
            if i < xs.len() - 1 {
                assert(xs.drop_last()[i] == xs[i]);
                assert(ys.drop_last().contains(xs[i]));
                let j = choose|j: int|
                    0 <= j < ys.drop_last().len() && ys.drop_last()[j] == xs[i];
                assert(ys[j] == xs[i]);
            } else {
                assert(ys[ys.len() - 1] == xs[i]);
            }
        }
    } else {
        lemma_subsequence_membership(xs, ys.drop_last());
        assert forall|i: int| 0 <= i < xs.len() implies ys.contains(#[trigger] xs[i]) by {
            assert(ys.drop_last().contains(xs[i]));
            let j = choose|j: int| 0 <= j < ys.drop_last().len() && ys.drop_last()[j] == xs[i];
            assert(ys[j] == xs[i]);
        }
    }
}

/// Whether `needle` stands at position `i` of `hay`, by comparing character by
/// character.
fn match_at(hay: &str, needle: &str, i: usize, hay_len: usize, needle_len: usize) -> (r: bool)
    requires
        hay_len == hay@.len(),
        needle_len == needle@.len(),
        i + needle_len <= hay_len,
    ensures
        r == (hay@.subrange(i as int, i + needle@.len() as int) == needle@),
{
    let mut j: usize = 0;
    while j < needle_len
        invariant
            hay_len == hay@.len(),
            needle_len == needle@.len(),
            i + needle_len <= hay_len,
            j <= needle_len,
            forall|k: int| 0 <= k < j ==> hay@[i + k] == needle@[k],
        decreases needle_len - j,
    {
        if hay.get_char(i + j) != needle.get_char(j) {
            proof {
                assert(hay@.subrange(i as int, i + needle@.len() as int)[j as int] == hay@[i + j]);
            }
            return false;
        }
        j = j + 1;
    }
    proof {
        assert(hay@.subrange(i as int, i + needle@.len() as int) =~= needle@);
    }
    true
}

/// Whether `needle` occurs anywhere in `hay`, scanning every starting
/// position from the left.
pub fn contains_substring(hay: &str, needle: &str) -> (r: bool)
    ensures
        r == has_substring(hay@, needle@),
{
    let hay_len = hay.unicode_len();
    let needle_len = needle.unicode_len();
    if needle_len > hay_len {
        return false;
    }
    if needle_len == 0 {
        proof {
            lemma_empty_needle(hay@, needle@);
        }
        return true;
    }
    let mut i: usize = 0;
    while i <= hay_len - needle_len
        invariant
            hay_len == hay@.len(),
            needle_len == needle@.len(),
            0 < needle_len <= hay_len,
            i <= hay_len - needle_len + 1,
            forall|k: int|
                0 <= k < i ==> #[trigger] hay@.subrange(k, k + needle@.len() as int) != needle@,
        decreases hay_len + 1 - needle_len - i,
    {
        if match_at(hay, needle, i, hay_len, needle_len) {
            return true;
        }
        i = i + 1;
    }
    false
}

} // verus!
