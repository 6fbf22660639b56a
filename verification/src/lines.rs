//! Splitting a text into lines.
//!
//! A line is a maximal run of characters between line breaks. A `'\n'` ends a
//! line, and a `'\r'` immediately before that `'\n'` belongs to the break,
//! not to the line. A `'\r'` anywhere else is an ordinary character. A final
//! line without a trailing break still counts; a trailing break does not add
//! an empty final line.

use vstd::prelude::*;
use vstd::string::StrSliceExecFns;

verus! {

/// The position of the first `'\n'` in `s`, or `s.len()` if there is none.
pub open spec fn newline_index(s: Seq<char>) -> nat
    decreases s.len(),
{
    if s.len() == 0 {
        0
    } else if s[0] == '\n' {
        0
    } else {
        1 + newline_index(s.subrange(1, s.len() as int))
    }
}

/// `newline_index` points at the first `'\n'`: nothing before it is a
/// `'\n'`, and the character there, if any, is one.
proof fn lemma_newline_index_spec(s: Seq<char>)
    ensures
        newline_index(s) <= s.len(),
        forall|j: int| 0 <= j < newline_index(s) ==> s[j] != '\n',
        newline_index(s) < s.len() ==> s[newline_index(s) as int] == '\n',
    decreases s.len(),
{
    if s.len() == 0 {
    } else if s[0] == '\n' {
    } else {
        let t = s.subrange(1, s.len() as int);
        lemma_newline_index_spec(t);
        assert forall|j: int| 0 <= j < newline_index(s) implies s[j] != '\n' by {
            if j > 0 {
                assert(s[j] == t[j - 1]);
            }
        }
        if newline_index(s) < s.len() {
            assert(s[newline_index(s) as int] == t[newline_index(t) as int]);
        }
    }
}

/// A position that has no `'\n'` before it and a `'\n'` (or the end) at it
/// is exactly `newline_index`.
proof fn lemma_newline_index_at(s: Seq<char>, k: int)
    requires
        0 <= k <= s.len(),
        forall|j: int| 0 <= j < k ==> s[j] != '\n',
        k == s.len() || s[k] == '\n',
    ensures
        newline_index(s) == k,
    decreases s.len(),
{
    if k == 0 {
    } else {
        let t = s.subrange(1, s.len() as int);
        assert forall|j: int| 0 <= j < k - 1 implies t[j] != '\n' by {
            assert(t[j] == s[j + 1]);
        }
        assert(k - 1 == t.len() || t[k - 1] == '\n');
        lemma_newline_index_at(t, k - 1);
    }
}

/// `s` without a final `'\r'`, if it has one.
pub open spec fn drop_trailing_cr(s: Seq<char>) -> Seq<char> {
    if s.len() > 0 && s[s.len() - 1] == '\r' {
        s.drop_last()
    } else {
        s
    }
}

/// The lines of `s`, in order, with line breaks consumed as separators.
pub open spec fn lines_of(s: Seq<char>) -> Seq<Seq<char>>
    decreases s.len(),
{
    if s.len() == 0 {
        Seq::empty()
    } else {
        let i = newline_index(s);
        if i >= s.len() {
            seq![s]
        } else {
            seq![drop_trailing_cr(s.subrange(0, i as int))] + lines_of(
                s.subrange(i as int + 1, s.len() as int),
            )
        }
    }
}

/// The position of the first `'\n'` of `s` at or after `start`, or `n` if
/// there is none, located by a left-to-right scan.
fn find_newline(s: &str, start: usize, n: usize) -> (nl: usize)
    requires
        n == s@.len(),
        start <= n,
    ensures
        start <= nl <= n,
        nl - start == newline_index(s@.subrange(start as int, n as int)),
        forall|j: int| start <= j < nl ==> s@[j] != '\n',
        nl < n ==> s@[nl as int] == '\n',
{
    let mut k: usize = start;
    while k < n
        invariant
            n == s@.len(),
            start <= k <= n,
            forall|j: int| start <= j < k ==> s@[j] != '\n',
        decreases n - k,
    {
        if s.get_char(k) == '\n' {
            proof {
                let rest = s@.subrange(start as int, n as int);
                assert forall|j: int| 0 <= j < k - start implies rest[j] != '\n' by {
                    assert(rest[j] == s@[start + j]);
                }
                assert(rest[k - start] == s@[k as int]);
                lemma_newline_index_at(rest, k - start);
            }
            return k;
        }
        k = k + 1;
    }
    proof {
        let rest = s@.subrange(start as int, n as int);
        assert forall|j: int| 0 <= j < n - start implies rest[j] != '\n' by {
            assert(rest[j] == s@[start + j]);
        }
        lemma_newline_index_at(rest, n - start);
    }
    n
}

/// The lines of `contents`, as slices of the original text, in order.
pub fn split_lines<'a>(contents: &'a str) -> (r: Vec<&'a str>)
    ensures
        r.deep_view() == lines_of(contents@),
{
    let n = contents.unicode_len();
    let mut r: Vec<&'a str> = Vec::new();
    let mut start: usize = 0;
    proof {
        assert(contents@.subrange(0, n as int) =~= contents@);
        assert(r.deep_view() =~= Seq::<Seq<char>>::empty());
        assert(r.deep_view() + lines_of(contents@) =~= lines_of(contents@));
    }
    while start < n
        invariant
            n == contents@.len(),
            start <= n,
            lines_of(contents@) == r.deep_view() + lines_of(
                contents@.subrange(start as int, n as int),
            ),
        decreases n - start,
    {
        let ghost prefix_lines = r.deep_view();
        let ghost rest = contents@.subrange(start as int, n as int);
        let nl = find_newline(contents, start, n);
        let mut end = nl;
        if nl < n && end > start && contents.get_char(end - 1) == '\r' {
            end = end - 1;
        }
        let line = contents.substring_char(start, end);
        r.push(line);
        proof {
            assert(r.deep_view() =~= prefix_lines.push(line@));
            let i = newline_index(rest) as int;
            assert(i == nl - start);
            lemma_newline_index_spec(rest);
            if nl == n {
                assert(lines_of(rest) == seq![rest]);
                assert(line@ =~= rest);
                assert(contents@.subrange(n as int, n as int) =~= Seq::<char>::empty());
                assert(prefix_lines.push(line@) + lines_of(Seq::<char>::empty()) =~= prefix_lines
                    + lines_of(rest));
            } else {
                let head = rest.subrange(0, i);
                let tail = rest.subrange(i + 1, rest.len() as int);
                assert(lines_of(rest) == seq![drop_trailing_cr(head)] + lines_of(tail));
                assert(head =~= contents@.subrange(start as int, nl as int));
                assert(tail =~= contents@.subrange(nl + 1, n as int));
                if end < nl {
                    assert(head[head.len() - 1] == contents@[nl - 1]);
                    assert(line@ =~= head.drop_last());
                } else {
                    if head.len() > 0 {
                        assert(head[head.len() - 1] == contents@[nl - 1]);
                    }
                    assert(line@ =~= head);
                }
                assert(line@ == drop_trailing_cr(head));
                assert(prefix_lines.push(line@) + lines_of(tail) =~= prefix_lines + (seq![
                    drop_trailing_cr(head),
                ] + lines_of(tail)));
            }
        }
        if nl < n {
            start = nl + 1;
        } else {
            start = n;
        }
    }
    proof {
        assert(contents@.subrange(n as int, n as int) =~= Seq::<char>::empty());
        assert(r.deep_view() + Seq::<Seq<char>>::empty() =~= r.deep_view());
    }
    r
}

} // verus!
