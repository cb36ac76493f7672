//! The line-scanning search engine.
//!
//! The text is split into lines with the usual newline semantics: lines end
//! at `'\n'`, a carriage return directly before such a newline is dropped,
//! and a final newline does not open an empty last line. A line matches when
//! it contains the query as a contiguous substring, with both sides folded
//! by [`crate::chars::fold_case`] when the search ignores case. Matching
//! lines come back in their original order and original casing.

use vstd::prelude::*;
use vstd::string::StrSliceExecFns;

use crate::chars::fold_case;
use crate::chars::fold_str;

verus! {

/// The query `q` occurs in `t` starting at position `i`.
pub open spec fn is_match_at(t: Seq<char>, q: Seq<char>, i: int) -> bool {
    &&& 0 <= i
    &&& i + q.len() <= t.len()
    &&& t.subrange(i, i + q.len()) == q
}

/// The query `q` occurs somewhere in `t` as a contiguous substring. An
/// empty query occurs in every text.
pub open spec fn contains_seq(t: Seq<char>, q: Seq<char>) -> bool {
    exists|i: int| is_match_at(t, q, i)
}

/// The lines of a text: a line ends at `'\n'`, a `'\r'` standing directly
/// before that `'\n'` is dropped, a `'\r'` anywhere else stays in its line,
/// and a final line ending does not open an empty last line.
pub open spec fn line_split(s: Seq<char>) -> Seq<Seq<char>>
    decreases s.len(),
{
    if s.len() == 0 {
        Seq::<Seq<char>>::empty()
    } else if s[0] == '\n' {
        seq![Seq::<char>::empty()] + line_split(s.subrange(1, s.len() as int))
    } else if s[0] == '\r' && s.len() >= 2 && s[1] == '\n' {
        seq![Seq::<char>::empty()] + line_split(s.subrange(2, s.len() as int))
    } else {
        let rest = line_split(s.subrange(1, s.len() as int));
        if rest.len() == 0 {
            seq![s]
        } else {
            seq![seq![s[0]] + rest[0]] + rest.drop_first()
        }
    }
}

/// The first line of a text whose first `'\n'` stands at position `j`: the
/// text up to `j`, less a carriage return directly before the newline.
pub open spec fn line_upto(s: Seq<char>, j: int) -> Seq<char> {
    if j > 0 && s[j - 1] == '\r' {
        s.subrange(0, j - 1)
    } else {
        s.subrange(0, j)
    }
}

/// Peels the first line off `line_split`: when the first `'\n'` of a
/// non-empty text stands at position `j`, the lines are the first line
/// followed by the lines of the text after that `'\n'`; when the text holds
/// no `'\n'` at all, it is one single line.
pub proof fn lemma_line_split_first(s: Seq<char>, j: int)
    requires
        s.len() > 0,
        0 <= j <= s.len(),
        forall|i: int| 0 <= i < j ==> s[i] != '\n',
        j < s.len() ==> s[j] == '\n',
    ensures
        j == s.len() ==> line_split(s) == seq![s],
        j < s.len() ==> line_split(s) == seq![line_upto(s, j)] + line_split(
            s.subrange(j + 1, s.len() as int),
        ),
    decreases s.len(),
{
    let tail = s.subrange(1, s.len() as int);
    if s[0] == '\n' {
        assert(j == 0);
        assert(line_upto(s, 0) =~= Seq::<char>::empty());
        assert(tail =~= s.subrange(j + 1, s.len() as int));
    } else if s[0] == '\r' && s.len() >= 2 && s[1] == '\n' {
        assert(j == 1);
        assert(line_upto(s, 1) =~= Seq::<char>::empty());
        assert(s.subrange(2, s.len() as int) =~= s.subrange(j + 1, s.len() as int));
    } else {
        assert(j >= 1);
        let rest = line_split(tail);
        if j == s.len() {
            if s.len() == 1 {
                assert(tail.len() == 0);
                assert(line_split(s) == seq![s]);
            } else {
                lemma_line_split_first(tail, j - 1);
                assert(rest == seq![tail]);
                assert(seq![s[0]] + tail =~= s);
                assert(seq![seq![s[0]] + rest[0]] + rest.drop_first() =~= seq![s]);
            }
        } else {
            lemma_line_split_first(tail, j - 1);
            assert(rest == seq![line_upto(tail, j - 1)] + line_split(
                tail.subrange(j, tail.len() as int),
            ));
            assert(rest.len() > 0);
            assert(rest[0] == line_upto(tail, j - 1));
            assert(seq![s[0]] + line_upto(tail, j - 1) =~= line_upto(s, j)) by {
                if j - 1 > 0 && tail[j - 2] == '\r' {
                    assert(s[j - 1] == '\r');
                } else if j == 1 {
                    assert(s[j - 1] != '\r');
                }
            }
            assert(tail.subrange(j, tail.len() as int) =~= s.subrange(j + 1, s.len() as int));
            assert(rest.drop_first() =~= line_split(s.subrange(j + 1, s.len() as int)));
            assert(line_split(s) =~= seq![line_upto(s, j)] + line_split(
                s.subrange(j + 1, s.len() as int),
            ));
        }
    }
}

/// Whether `q` occurs in `t` at position `i`, by direct comparison.
pub(crate) fn match_at(t: &Vec<char>, q: &Vec<char>, i: usize) -> (r: bool)
    requires
        i + q@.len() <= t@.len(),
    ensures
        r == is_match_at(t@, q@, i as int),
{
    let m = q.len();
    let tn = t.len();
    let mut j: usize = 0;
    while j < m
        invariant
            j <= m,
            m == q@.len(),
            tn == t@.len(),
            i + m <= tn,
            forall|k: int| 0 <= k < j ==> t@[i + k] == q@[k],
        decreases m - j,
    {
        if t[i + j] != q[j] {
            assert(!is_match_at(t@, q@, i as int)) by {
                if is_match_at(t@, q@, i as int) {
                    assert(t@.subrange(i as int, i + m)[j as int] == t@[i + j]);
                }
            }
            return false;
        }
        j = j + 1;
    }
    assert(t@.subrange(i as int, i + m) =~= q@);
    true
}

/// Whether `q` occurs anywhere in `t`, scanning every start position from
/// the left.
pub fn contains_chars(t: &Vec<char>, q: &Vec<char>) -> (r: bool)
    ensures
        r == contains_seq(t@, q@),
{
    let n = t.len();
    let m = q.len();
    if m > n {
        assert(!contains_seq(t@, q@));
        return false;
    }
    let mut i: usize = 0;
    loop
        invariant
            m <= n,
            n == t@.len(),
            m == q@.len(),
            i <= n - m,
            forall|k: int| 0 <= k < i ==> !is_match_at(t@, q@, k),
        decreases n - m - i,
    {
        if match_at(t, q, i) {
            return true;
        }
        if i == n - m {
            assert(forall|k: int| is_match_at(t@, q@, k) ==> 0 <= k <= n - m);
            return false;
        }
        i = i + 1;
    }
}

/// The line `l` matches the query `q`, comparing under the case fold when
/// `ignore_case` is set. An empty query matches every line.
pub open spec fn line_matches(l: Seq<char>, q: Seq<char>, ignore_case: bool) -> bool {
    contains_seq(fold_case(l, ignore_case), fold_case(q, ignore_case))
}

/// The line predicate that `search` filters with, as a function value.
pub open spec fn match_pred(q: Seq<char>, ignore_case: bool) -> spec_fn(Seq<char>) -> bool {
    |l: Seq<char>| line_matches(l, q, ignore_case)
}

/// What `search` returns: the lines of `t` that match `q`, in their
/// original order and casing.
pub open spec fn search_spec(q: Seq<char>, ignore_case: bool, t: Seq<char>) -> Seq<Seq<char>> {
    line_split(t).filter(match_pred(q, ignore_case))
}

proof fn lemma_filter_singleton(x: Seq<char>, pred: spec_fn(Seq<char>) -> bool)
    ensures
        seq![x].filter(pred) == (if pred(x) {
            seq![x]
        } else {
            Seq::<Seq<char>>::empty()
        }),
{
    reveal_with_fuel(Seq::<_>::filter, 2);
    assert(seq![x].drop_last() =~= Seq::<Seq<char>>::empty());
    assert(seq![x].last() == x);
    if pred(x) {
        assert(Seq::<Seq<char>>::empty().push(x) =~= seq![x]);
    }
}

/// Every line of `contents` that contains `query` as a contiguous
/// substring, in original order and original casing. When `ignore_case` is
/// set both sides are folded to lowercase for the comparison only; the
/// returned lines are always slices of the original text. The query is
/// folded once per call.
pub fn search<'a>(query: &str, ignore_case: bool, contents: &'a str) -> (r: Vec<&'a str>)
    ensures
        r.deep_view() == search_spec(query@, ignore_case, contents@),
{
    broadcast use Seq::filter_distributes_over_add;

    let ghost pred = match_pred(query@, ignore_case);
    let fq = fold_str(query, ignore_case);
    let n = contents.unicode_len();
    let mut r: Vec<&'a str> = Vec::new();
    let mut pos: usize = 0;
    proof {
        assert(r.deep_view() =~= Seq::<Seq<char>>::empty());
        assert(contents@.subrange(0, n as int) =~= contents@);
        assert(Seq::<Seq<char>>::empty() + line_split(contents@).filter(pred) =~= line_split(
            contents@,
        ).filter(pred));
    }
    while pos < n
        invariant
            pos <= n,
            n == contents@.len(),
            fq@ == fold_case(query@, ignore_case),
            pred == match_pred(query@, ignore_case),
            search_spec(query@, ignore_case, contents@) == r.deep_view() + line_split(
                contents@.subrange(pos as int, n as int),
            ).filter(pred),
        decreases n - pos,
    {
        let ghost tail = contents@.subrange(pos as int, n as int);
        let mut k: usize = pos;
        while k < n && contents.get_char(k) != '\n'
            invariant
                pos <= k <= n,
                n == contents@.len(),
                forall|j: int| pos <= j < k ==> contents@[j] != '\n',
            decreases n - k,
        {
            k = k + 1;
        }
        let end = if k < n && k > pos {
            if contents.get_char(k - 1) == '\r' {
                k - 1
            } else {
                k
            }
        } else {
            k
        };
        let line: &'a str = contents.substring_char(pos, end);
        proof {
            lemma_line_split_first(tail, k - pos);
            if k < n {
                assert(line@ =~= line_upto(tail, k - pos));
            } else {
                assert(line@ =~= tail);
            }
        }
        let fl = fold_str(line, ignore_case);
        let matched = contains_chars(&fl, &fq);
        let ghost rdv = r.deep_view();
        if matched {
            r.push(line);
        }
        proof {
            let newpos: int = if k < n {
                k + 1
            } else {
                n as int
            };
            let tail2 = contents@.subrange(newpos, n as int);
            if k < n {
                assert(tail.subrange(k - pos + 1, tail.len() as int) =~= tail2);
                assert(line_split(tail) == seq![line@] + line_split(tail2));
            } else {
                assert(tail2.len() == 0);
                assert(line_split(tail2) =~= Seq::<Seq<char>>::empty());
                assert(line_split(tail) == seq![line@] + line_split(tail2)) by {
                    assert(seq![line@] + Seq::<Seq<char>>::empty() =~= seq![tail]);
                }
            }
            lemma_filter_singleton(line@, pred);
            assert(matched == pred(line@));
            if matched {
                assert(r.deep_view() =~= rdv.push(line@));
                assert(rdv.push(line@) =~= rdv + seq![line@]);
                assert(rdv + (seq![line@] + line_split(tail2).filter(pred)) =~= (rdv + seq![
                    line@,
                ]) + line_split(tail2).filter(pred));
            } else {
                assert(seq![line@].filter(pred) + line_split(tail2).filter(pred) =~= line_split(
                    tail2,
                ).filter(pred));
            }
        }
        pos = if k < n {
            k + 1
        } else {
            n
        };
    }
    proof {
        let tail = contents@.subrange(pos as int, n as int);
        assert(tail.len() == 0);
        assert(line_split(tail).filter(pred) =~= Seq::<Seq<char>>::empty());
        assert(r.deep_view() + Seq::<Seq<char>>::empty() =~= r.deep_view());
    }
    r
}

/// `a` can be had from `b` by deleting elements, keeping the remaining
/// elements unchanged and in their order in `b`.
pub open spec fn is_subsequence_of(a: Seq<Seq<char>>, b: Seq<Seq<char>>) -> bool
    decreases b.len(),
{
    if a.len() == 0 {
        true
    } else if b.len() == 0 {
        false
    } else {
        ||| (a.last() == b.last() && is_subsequence_of(a.drop_last(), b.drop_last()))
        ||| is_subsequence_of(a, b.drop_last())
    }
}

proof fn lemma_filter_is_subsequence(s: Seq<Seq<char>>, pred: spec_fn(Seq<char>) -> bool)
    ensures
        is_subsequence_of(s.filter(pred), s),
    decreases s.len(),
{
    reveal(Seq::filter);
    if s.len() > 0 {
        lemma_filter_is_subsequence(s.drop_last(), pred);
        let f = s.filter(pred);
        let fd = s.drop_last().filter(pred);
        if pred(s.last()) {
            assert(f == fd.push(s.last()));
            assert(f.last() == s.last());
            assert(f.drop_last() =~= fd);
        }
    }
}

/// Law: whatever the query and the case choice, the returned lines stand in
/// their original document order with their original casing; the result is
/// a subsequence of the document's lines.
pub proof fn lemma_results_in_document_order(q: Seq<char>, ignore_case: bool, t: Seq<char>)
    ensures
        is_subsequence_of(search_spec(q, ignore_case, t), line_split(t)),
{
    lemma_filter_is_subsequence(line_split(t), match_pred(q, ignore_case));
}

} // verus!
