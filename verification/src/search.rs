//! The line search engine: given a query and the full contents of a text,
//! return the lines that contain the query, in order of appearance.
//!
//! Case-sensitive search compares characters exactly and returns the lines
//! untouched. Case-insensitive search lowercases both the query and each
//! line before the comparison and trims surrounding whitespace from each
//! matching line.

use vstd::prelude::*;

use crate::casefold::{lower_of, to_lowercase, trim_of, trim_slice};
use crate::lines::{lines_of, split_lines};
use crate::matching::{
    contains_substring, has_substring, is_subsequence, lemma_empty_needle,
    lemma_filter_is_subsequence, lemma_subsequence_membership,
};

verus! {

/// Whether a line matches a query in case-sensitive mode.
pub open spec fn line_matches(l: Seq<char>, q: Seq<char>) -> bool {
    has_substring(l, q)
}

/// Whether a line matches a query in case-insensitive mode: the lowercased
/// line contains the lowercased query.
pub open spec fn line_matches_insensitive(l: Seq<char>, q: Seq<char>) -> bool {
    has_substring(lower_of(l), lower_of(q))
}

/// The lines of `c` that contain `q` with exact case, in original order.
pub open spec fn sensitive_matches(q: Seq<char>, c: Seq<char>) -> Seq<Seq<char>> {
    lines_of(c).filter(|l: Seq<char>| line_matches(l, q))
}

/// The lines of `c` that match `q` case-insensitively, in original order,
/// before trimming.
pub open spec fn insensitive_kept(q: Seq<char>, c: Seq<char>) -> Seq<Seq<char>> {
    lines_of(c).filter(|l: Seq<char>| line_matches_insensitive(l, q))
}

/// The case-insensitive search results: the matching lines, each trimmed of
/// leading and trailing whitespace, in original order.
pub open spec fn insensitive_matches(q: Seq<char>, c: Seq<char>) -> Seq<Seq<char>> {
    insensitive_kept(q, c).map_values(|l: Seq<char>| trim_of(l))
}

/// Filtering a sequence extended by one element keeps the old filtered part
/// and appends the new element exactly when it satisfies the predicate.
proof fn lemma_filter_push<A>(s: Seq<A>, e: A, pred: spec_fn(A) -> bool)
    ensures
        s.push(e).filter(pred) == if pred(e) {
            s.filter(pred).push(e)
        } else {
            s.filter(pred)
        },
{
    reveal(Seq::filter);
    assert(s.push(e).drop_last() =~= s);
    assert(s.push(e).last() == e);
}

/// A filter whose predicate holds of every element keeps the sequence whole.
proof fn lemma_filter_all<A>(s: Seq<A>, pred: spec_fn(A) -> bool)
    requires
        forall|i: int| 0 <= i < s.len() ==> pred(#[trigger] s[i]),
    ensures
        s.filter(pred) == s,
    decreases s.len(),
{
    reveal(Seq::filter);
    if s.len() == 0 {
        assert(s.filter(pred) =~= s);
    } else {
        assert forall|i: int| 0 <= i < s.drop_last().len() implies pred(#[trigger] s.drop_last()[i]) by {
            assert(s.drop_last()[i] == s[i]);
        }
        lemma_filter_all(s.drop_last(), pred);
        assert(s.filter(pred) =~= s);
    }
}

/// Case-sensitive search returns only lines that contain the query, returns
/// every line of the text that does, and keeps the lines in original order.
pub proof fn lemma_sensitive_matches_sound(q: Seq<char>, c: Seq<char>)
    ensures
        forall|i: int|
            0 <= i < sensitive_matches(q, c).len() ==> has_substring(
                #[trigger] sensitive_matches(q, c)[i],
                q,
            ),
        forall|i: int|
            0 <= i < sensitive_matches(q, c).len() ==> lines_of(c).contains(
                #[trigger] sensitive_matches(q, c)[i],
            ),
        forall|i: int|
            0 <= i < lines_of(c).len() && has_substring(#[trigger] lines_of(c)[i], q)
                ==> sensitive_matches(q, c).contains(lines_of(c)[i]),
        is_subsequence(sensitive_matches(q, c), lines_of(c)),
{
    let pred = |l: Seq<char>| line_matches(l, q);
    let ls = lines_of(c);
    assert forall|i: int| 0 <= i < sensitive_matches(q, c).len() implies has_substring(
        #[trigger] sensitive_matches(q, c)[i],
        q,
    ) by {
        ls.lemma_filter_pred(pred, i);
    }
    assert forall|i: int|
        0 <= i < ls.len() && has_substring(#[trigger] ls[i], q) implies sensitive_matches(
        q,
        c,
    ).contains(ls[i]) by {
        ls.lemma_filter_contains(pred, i);
    }
    lemma_filter_is_subsequence(ls, pred);
    lemma_subsequence_membership(sensitive_matches(q, c), ls);
}

/// Case-insensitive search returns exactly the lines whose lowercased form
/// contains the lowercased query, each trimmed of surrounding whitespace, in
/// original order.
pub proof fn lemma_insensitive_matches_sound(q: Seq<char>, c: Seq<char>)
    ensures
        insensitive_matches(q, c).len() == insensitive_kept(q, c).len(),
        forall|i: int|
            0 <= i < insensitive_kept(q, c).len() ==> has_substring(
                lower_of(#[trigger] insensitive_kept(q, c)[i]),
                lower_of(q),
            ),
        forall|i: int|
            0 <= i < insensitive_kept(q, c).len() ==> lines_of(c).contains(
                #[trigger] insensitive_kept(q, c)[i],
            ),
        forall|i: int|
            0 <= i < insensitive_kept(q, c).len() ==> insensitive_matches(q, c)[i] == trim_of(
                #[trigger] insensitive_kept(q, c)[i],
            ),
        forall|i: int|
            0 <= i < lines_of(c).len() && has_substring(
                lower_of(#[trigger] lines_of(c)[i]),
                lower_of(q),
            ) ==> insensitive_kept(q, c).contains(lines_of(c)[i]),
        is_subsequence(insensitive_kept(q, c), lines_of(c)),
{
    let pred = |l: Seq<char>| line_matches_insensitive(l, q);
    let ls = lines_of(c);
    assert forall|i: int| 0 <= i < insensitive_kept(q, c).len() implies has_substring(
        lower_of(#[trigger] insensitive_kept(q, c)[i]),
        lower_of(q),
    ) by {
        ls.lemma_filter_pred(pred, i);
    }
    assert forall|i: int|
        0 <= i < ls.len() && has_substring(lower_of(#[trigger] ls[i]), lower_of(q))
        implies insensitive_kept(q, c).contains(ls[i]) by {
        ls.lemma_filter_contains(pred, i);
    }
    lemma_filter_is_subsequence(ls, pred);
    lemma_subsequence_membership(insensitive_kept(q, c), ls);
}

/// An empty query matches every line in case-sensitive mode, so search
/// returns every line of the text.
pub proof fn lemma_empty_query_sensitive(q: Seq<char>, c: Seq<char>)
    requires
        q.len() == 0,
    ensures
        sensitive_matches(q, c) == lines_of(c),
{
    let pred = |l: Seq<char>| line_matches(l, q);
    let ls = lines_of(c);
    assert forall|i: int| 0 <= i < ls.len() implies pred(#[trigger] ls[i]) by {
        lemma_empty_needle(ls[i], q);
    }
    lemma_filter_all(ls, pred);
}

/// A query whose lowercased form is empty matches every line in
/// case-insensitive mode, so search returns every line of the text, trimmed.
pub proof fn lemma_empty_query_insensitive(q: Seq<char>, c: Seq<char>)
    requires
        lower_of(q).len() == 0,
    ensures
        insensitive_matches(q, c) == lines_of(c).map_values(|l: Seq<char>| trim_of(l)),
{
    let pred = |l: Seq<char>| line_matches_insensitive(l, q);
    let ls = lines_of(c);
    assert forall|i: int| 0 <= i < ls.len() implies pred(#[trigger] ls[i]) by {
        lemma_empty_needle(lower_of(ls[i]), lower_of(q));
    }
    lemma_filter_all(ls, pred);
}

/// Empty contents have no lines, so neither mode returns anything, whatever
/// the query.
pub proof fn lemma_no_contents_no_matches(q: Seq<char>, c: Seq<char>)
    requires
        c.len() == 0,
    ensures
        sensitive_matches(q, c) == Seq::<Seq<char>>::empty(),
        insensitive_matches(q, c) == Seq::<Seq<char>>::empty(),
{
    reveal(Seq::filter);
    assert(lines_of(c) == Seq::<Seq<char>>::empty());
    assert(sensitive_matches(q, c) =~= Seq::<Seq<char>>::empty());
    assert(insensitive_kept(q, c) =~= Seq::<Seq<char>>::empty());
    assert(insensitive_matches(q, c) =~= Seq::<Seq<char>>::empty());
}

/// Both search modes are functions of the query and the contents alone:
/// identical inputs always give identical results.
pub proof fn lemma_search_deterministic(q1: Seq<char>, c1: Seq<char>, q2: Seq<char>, c2: Seq<char>)
    requires
        q1 == q2,
        c1 == c2,
    ensures
        sensitive_matches(q1, c1) == sensitive_matches(q2, c2),
        insensitive_matches(q1, c1) == insensitive_matches(q2, c2),
{
}

/// The lines of `contents` that contain `query` with exact case, as slices
/// of the original text, in original order.
pub fn search<'a>(query: &str, contents: &'a str) -> (r: Vec<&'a str>)
    ensures
        r.deep_view() == sensitive_matches(query@, contents@),
        query@.len() == 0 ==> r.deep_view() == lines_of(contents@),
{
    let lines = split_lines(contents);
    let mut r: Vec<&'a str> = Vec::new();
    let mut i: usize = 0;
    proof {
        assert(r.deep_view() =~= Seq::<Seq<char>>::empty());
        assert(lines.deep_view().take(0).filter(|l: Seq<char>| line_matches(l, query@)) =~= Seq::<
            Seq<char>,
        >::empty()) by {
            reveal(Seq::filter);
            assert(lines.deep_view().take(0) =~= Seq::<Seq<char>>::empty());
        }
    }
    while i < lines.len()
        invariant
            i <= lines.len(),
            lines.deep_view() == lines_of(contents@),
            r.deep_view() == lines.deep_view().take(i as int).filter(
                |l: Seq<char>| line_matches(l, query@),
            ),
        decreases lines.len() - i,
    {
        let ghost prev = r.deep_view();
        let ghost lv = lines.deep_view();
        let line = lines[i];
        proof {
            assert(lv[i as int] == line@);
            assert(lv.take(i as int + 1) =~= lv.take(i as int).push(line@));
            lemma_filter_push(lv.take(i as int), line@, |l: Seq<char>| line_matches(l, query@));
        }
        if contains_substring(line, query) {
            r.push(line);
            proof {
                assert(r.deep_view() =~= prev.push(line@));
            }
        }
        i = i + 1;
    }
    proof {
        assert(lines.deep_view().take(i as int) =~= lines.deep_view());
        if query@.len() == 0 {
            lemma_empty_query_sensitive(query@, contents@);
        }
    }
    r
}

/// The lines of `contents` that contain `query` after both are lowercased,
/// each trimmed of leading and trailing whitespace, in original order.
pub fn case_insensitive_search<'a>(query: &str, contents: &'a str) -> (r: Vec<&'a str>)
    ensures
        r.deep_view() == insensitive_matches(query@, contents@),
        query@.len() == 0 ==> r.deep_view() == lines_of(contents@).map_values(
            |l: Seq<char>| trim_of(l),
        ),
{
    let query_lower = to_lowercase(query);
    let lines = split_lines(contents);
    let mut r: Vec<&'a str> = Vec::new();
    let mut i: usize = 0;
    proof {
        assert(r.deep_view() =~= Seq::<Seq<char>>::empty());
        assert(lines.deep_view().take(0).filter(
            |l: Seq<char>| line_matches_insensitive(l, query@),
        ).map_values(|l: Seq<char>| trim_of(l)) =~= Seq::<Seq<char>>::empty()) by {
            reveal(Seq::filter);
            assert(lines.deep_view().take(0) =~= Seq::<Seq<char>>::empty());
        }
    }
    while i < lines.len()
        invariant
            i <= lines.len(),
            query_lower@ == lower_of(query@),
            lines.deep_view() == lines_of(contents@),
            r.deep_view() == lines.deep_view().take(i as int).filter(
                |l: Seq<char>| line_matches_insensitive(l, query@),
            ).map_values(|l: Seq<char>| trim_of(l)),
        decreases lines.len() - i,
    {
        let ghost prev = r.deep_view();
        let ghost lv = lines.deep_view();
        let ghost kept = lv.take(i as int).filter(|l: Seq<char>| line_matches_insensitive(l, query@));
        let line = lines[i];
        proof {
            assert(lv[i as int] == line@);
            assert(lv.take(i as int + 1) =~= lv.take(i as int).push(line@));
            lemma_filter_push(
                lv.take(i as int),
                line@,
                |l: Seq<char>| line_matches_insensitive(l, query@),
            );
        }
        let line_lower = to_lowercase(line);
        if contains_substring(line_lower.as_str(), query_lower.as_str()) {
            let trimmed = trim_slice(line);
            r.push(trimmed);
            proof {
                assert(r.deep_view() =~= prev.push(trimmed@));
                assert(kept.push(line@).map_values(|l: Seq<char>| trim_of(l)) =~= kept.map_values(
                    |l: Seq<char>| trim_of(l),
                ).push(trim_of(line@)));
            }
        }
        i = i + 1;
    }
    proof {
        assert(lines.deep_view().take(i as int) =~= lines.deep_view());
        if query@.len() == 0 {
            lemma_empty_query_insensitive(query@, contents@);
        }
    }
    r
}

} // verus!
