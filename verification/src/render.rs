//! The highlight renderer.
//!
//! A matching line is rendered by walking it from left to right: each
//! occurrence of the query (compared under the optional case fold) is
//! emitted wrapped in a pair of highlight markers, the text between
//! occurrences is emitted verbatim, and the rendered line ends with a line
//! break. The emitted text always comes from the original line, never from
//! its folded form. The markers are the terminal's red-foreground escape
//! pair; stripping them from the output recovers the original line.
//!
//! Slicing the matched spans out of the original line assumes that the
//! case fold keeps the character counts of the line and of the query, which
//! holds for simple-casing alphabets but not for every Unicode mapping.
//! Where folding changes a length, the correspondence between folded and
//! original positions is lost, and the line is emitted verbatim without
//! markers.

use vstd::prelude::*;
use vstd::string::StrSliceExecFns;
use vstd::string::StringExecFns;

use crate::chars::fold_case;
use crate::chars::fold_str;
use crate::search::is_match_at;
use crate::search::match_at;

verus! {

/// The marker that opens a highlighted span.
pub open spec fn hl_start() -> Seq<char> {
    seq!['\x1b', '[', '3', '1', 'm']
}

/// The marker that closes a highlighted span.
pub open spec fn hl_end() -> Seq<char> {
    seq!['\x1b', '[', '0', 'm']
}

/// The rendering of the line suffix `l` whose folded form is `fl`, against
/// the non-empty folded query `fq`: the leftmost occurrence of `fq` in `fl`
/// is found, the span before it is emitted verbatim, the matched span is
/// emitted between the highlight markers, and the walk goes on after the
/// matched span; the remainder is emitted verbatim with a final line break.
pub open spec fn render_tail(l: Seq<char>, fl: Seq<char>, fq: Seq<char>) -> Seq<char>
    decreases fl.len(),
        when fq.len() >= 1
{
    if fq.len() > fl.len() {
        l + seq!['\n']
    } else if fl.subrange(0, fq.len() as int) == fq {
        hl_start() + l.subrange(0, fq.len() as int) + hl_end() + render_tail(
            l.subrange(fq.len() as int, l.len() as int),
            fl.subrange(fq.len() as int, fl.len() as int),
            fq,
        )
    } else {
        seq![l[0]] + render_tail(l.drop_first(), fl.drop_first(), fq)
    }
}

/// What `render` returns: the line with every occurrence of the query
/// highlighted and a final line break. An empty query counts as having no
/// occurrence, and so does a fold that changes the length of the line or
/// of the query (the folded positions then no longer name spans of the
/// original line); in both cases the line comes back unhighlighted.
pub open spec fn render_spec(q: Seq<char>, ignore_case: bool, l: Seq<char>) -> Seq<char> {
    let fq = fold_case(q, ignore_case);
    let fl = fold_case(l, ignore_case);
    if q.len() == 0 || fq.len() != q.len() || fl.len() != l.len() {
        l + seq!['\n']
    } else {
        render_tail(l, fl, fq)
    }
}

/// One line, rendered for output: every occurrence of `query` in `line`
/// (folded for comparison when `ignore_case` is set, emitted in original
/// casing always) is wrapped in the highlight markers, and the rendered
/// line ends with a line break. Where the fold changes the character count
/// of the line or of the query, the line is emitted verbatim instead.
#[verifier::rlimit(60)]
pub fn render(query: &str, ignore_case: bool, line: &str) -> (r: String)
    ensures
        r@ == render_spec(query@, ignore_case, line@),
{
    let m = query.unicode_len();
    let n = line.unicode_len();
    let mut out = String::new();
    if m == 0 {
        out.append(line);
        out.append("\n");
        proof {
            reveal_strlit("\n");
            assert(out@ =~= line@ + seq!['\n']);
        }
        return out;
    }
    let fq = fold_str(query, ignore_case);
    let fl = fold_str(line, ignore_case);
    if fq.len() != m || fl.len() != n {
        out.append(line);
        out.append("\n");
        proof {
            reveal_strlit("\n");
            assert(out@ =~= line@ + seq!['\n']);
        }
        return out;
    }
    let mut pos: usize = 0;
    proof {
        assert(line@.subrange(0, n as int) =~= line@);
        assert(fl@.subrange(0, n as int) =~= fl@);
        assert(Seq::<char>::empty() + render_tail(line@, fl@, fq@) =~= render_tail(
            line@,
            fl@,
            fq@,
        ));
    }
    while m <= n - pos
        invariant
            1 <= m,
            pos <= n,
            n == line@.len(),
            m == fq@.len(),
            fl@.len() == n,
            fl@ == fold_case(line@, ignore_case),
            fq@ == fold_case(query@, ignore_case),
            m == query@.len(),
            render_spec(query@, ignore_case, line@) == out@ + render_tail(
                line@.subrange(pos as int, n as int),
                fl@.subrange(pos as int, n as int),
                fq@,
            ),
        decreases n - pos,
    {
        let ghost lsuf = line@.subrange(pos as int, n as int);
        let ghost fsuf = fl@.subrange(pos as int, n as int);
        if match_at(&fl, &fq, pos) {
            out.append("\x1b[31m");
            let seg = line.substring_char(pos, pos + m);
            out.append(seg);
            out.append("\x1b[0m");
            proof {
                reveal_strlit("\x1b[31m");
                reveal_strlit("\x1b[0m");
                assert("\x1b[31m"@ =~= hl_start());
                assert("\x1b[0m"@ =~= hl_end());
                assert(fsuf.subrange(0, m as int) =~= fl@.subrange(pos as int, pos + m));
                assert(seg@ =~= lsuf.subrange(0, m as int));
                assert(lsuf.subrange(m as int, lsuf.len() as int) =~= line@.subrange(
                    pos + m,
                    n as int,
                ));
                assert(fsuf.subrange(m as int, fsuf.len() as int) =~= fl@.subrange(
                    pos + m,
                    n as int,
                ));
                assert(render_tail(lsuf, fsuf, fq@) == hl_start() + seg@ + hl_end() + render_tail(
                    line@.subrange(pos + m, n as int),
                    fl@.subrange(pos + m, n as int),
                    fq@,
                ));
            }
            pos = pos + m;
        } else {
            let seg = line.substring_char(pos, pos + 1);
            out.append(seg);
            proof {
                assert(fsuf.subrange(0, m as int) =~= fl@.subrange(pos as int, pos + m));
                assert(!(fsuf.subrange(0, m as int) == fq@)) by {
                    if fl@.subrange(pos as int, pos + m) == fq@ {
                        assert(is_match_at(fl@, fq@, pos as int));
                    }
                }
                assert(seg@ =~= seq![lsuf[0]]);
                assert(lsuf.drop_first() =~= line@.subrange(pos + 1, n as int));
                assert(fsuf.drop_first() =~= fl@.subrange(pos + 1, n as int));
                assert(render_tail(lsuf, fsuf, fq@) == seq![lsuf[0]] + render_tail(
                    line@.subrange(pos + 1, n as int),
                    fl@.subrange(pos + 1, n as int),
                    fq@,
                ));
            }
            pos = pos + 1;
        }
    }
    let rest = line.substring_char(pos, n);
    out.append(rest);
    out.append("\n");
    proof {
        reveal_strlit("\n");
        let lsuf = line@.subrange(pos as int, n as int);
        let fsuf = fl@.subrange(pos as int, n as int);
        assert(render_tail(lsuf, fsuf, fq@) == lsuf + seq!['\n']);
        assert(out@ =~= render_spec(query@, ignore_case, line@));
    }
    out
}

/// The text with every highlight marker removed: a start or end marker at
/// the front is dropped, any other leading character is kept, and the rest
/// is stripped the same way.
pub open spec fn strip_markers(s: Seq<char>) -> Seq<char>
    decreases s.len(),
{
    if s.len() == 0 {
        s
    } else if s.len() >= 5 && s.subrange(0, 5) == hl_start() {
        strip_markers(s.subrange(5, s.len() as int))
    } else if s.len() >= 4 && s.subrange(0, 4) == hl_end() {
        strip_markers(s.subrange(4, s.len() as int))
    } else {
        seq![s[0]] + strip_markers(s.drop_first())
    }
}

proof fn lemma_strip_plain_prefix(x: Seq<char>, y: Seq<char>)
    requires
        !x.contains('\x1b'),
    ensures
        strip_markers(x + y) == x + strip_markers(y),
    decreases x.len(),
{
    let s = x + y;
    if x.len() == 0 {
        assert(s =~= y);
        assert(x + strip_markers(y) =~= strip_markers(y));
    } else {
        assert(s[0] == x[0]);
        assert(x[0] != '\x1b');
        assert(s.len() >= 5 && s.subrange(0, 5) == hl_start() ==> s[0] == '\x1b') by {
            if s.len() >= 5 && s.subrange(0, 5) == hl_start() {
                assert(s.subrange(0, 5)[0] == s[0]);
            }
        }
        assert(s.len() >= 4 && s.subrange(0, 4) == hl_end() ==> s[0] == '\x1b') by {
            if s.len() >= 4 && s.subrange(0, 4) == hl_end() {
                assert(s.subrange(0, 4)[0] == s[0]);
            }
        }
        assert(strip_markers(s) == seq![s[0]] + strip_markers(s.drop_first()));
        assert(!x.drop_first().contains('\x1b')) by {
            if x.drop_first().contains('\x1b') {
                let i = choose|i: int| 0 <= i < x.drop_first().len() && x.drop_first()[i]
                    == '\x1b';
                assert(x[i + 1] == '\x1b');
            }
        }
        assert(s.drop_first() =~= x.drop_first() + y);
        lemma_strip_plain_prefix(x.drop_first(), y);
        assert(seq![s[0]] + (x.drop_first() + strip_markers(y)) =~= x + strip_markers(y));
    }
}

proof fn lemma_strip_start_marker(z: Seq<char>)
    ensures
        strip_markers(hl_start() + z) == strip_markers(z),
{
    let s = hl_start() + z;
    assert(s.subrange(0, 5) =~= hl_start());
    assert(s.subrange(5, s.len() as int) =~= z);
}

proof fn lemma_strip_end_marker(z: Seq<char>)
    ensures
        strip_markers(hl_end() + z) == strip_markers(z),
{
    let s = hl_end() + z;
    assert(!(s.len() >= 5 && s.subrange(0, 5) == hl_start())) by {
        if s.len() >= 5 && s.subrange(0, 5) == hl_start() {
            assert(s.subrange(0, 5)[2] == s[2]);
            assert(s[2] == hl_end()[2]);
        }
    }
    assert(s.subrange(0, 4) =~= hl_end());
    assert(s.subrange(4, s.len() as int) =~= z);
}

proof fn lemma_strip_newline()
    ensures
        strip_markers(seq!['\n']) == seq!['\n'],
{
    let s = seq!['\n'];
    assert(s.drop_first() =~= Seq::<char>::empty());
    assert(strip_markers(Seq::<char>::empty()) == Seq::<char>::empty());
    assert(strip_markers(s) == seq![s[0]] + strip_markers(s.drop_first()));
    assert(seq![s[0]] + Seq::<char>::empty() =~= s);
}

proof fn lemma_subrange_no_escape(l: Seq<char>, i: int, j: int)
    requires
        !l.contains('\x1b'),
        0 <= i <= j <= l.len(),
    ensures
        !l.subrange(i, j).contains('\x1b'),
{
    if l.subrange(i, j).contains('\x1b') {
        let k = choose|k: int| 0 <= k < j - i && l.subrange(i, j)[k] == '\x1b';
        assert(l[i + k] == '\x1b');
    }
}

proof fn lemma_strip_render_tail(l: Seq<char>, fl: Seq<char>, fq: Seq<char>)
    requires
        fq.len() >= 1,
        fl.len() == l.len(),
        !l.contains('\x1b'),
    ensures
        strip_markers(render_tail(l, fl, fq)) == l + seq!['\n'],
    decreases fl.len(),
{
    if fq.len() > fl.len() {
        lemma_strip_newline();
        lemma_strip_plain_prefix(l, seq!['\n']);
    } else if fl.subrange(0, fq.len() as int) == fq {
        let k = fq.len() as int;
        let lseg = l.subrange(0, k);
        let lrest = l.subrange(k, l.len() as int);
        let frest = fl.subrange(k, fl.len() as int);
        let rest = render_tail(lrest, frest, fq);
        assert(render_tail(l, fl, fq) == hl_start() + lseg + hl_end() + rest);
        lemma_subrange_no_escape(l, 0, k);
        lemma_subrange_no_escape(l, k, l.len() as int);
        lemma_strip_render_tail(lrest, frest, fq);
        assert(hl_start() + lseg + hl_end() + rest =~= hl_start() + (lseg + (hl_end() + rest)));
        lemma_strip_start_marker(lseg + (hl_end() + rest));
        lemma_strip_plain_prefix(lseg, hl_end() + rest);
        lemma_strip_end_marker(rest);
        assert(lseg + (lrest + seq!['\n']) =~= l + seq!['\n']);
    } else {
        let lrest = l.drop_first();
        let frest = fl.drop_first();
        assert(render_tail(l, fl, fq) == seq![l[0]] + render_tail(lrest, frest, fq));
        lemma_subrange_no_escape(l, 1, l.len() as int);
        assert(lrest =~= l.subrange(1, l.len() as int));
        lemma_strip_render_tail(lrest, frest, fq);
        assert(!seq![l[0]].contains('\x1b')) by {
            if seq![l[0]].contains('\x1b') {
                assert(l[0] == '\x1b');
            }
        }
        lemma_strip_plain_prefix(seq![l[0]], render_tail(lrest, frest, fq));
        assert(seq![l[0]] + (lrest + seq!['\n']) =~= l + seq!['\n']);
    }
}

/// Law: rendering is reversible. For every query, case choice and line that
/// does not itself hold the escape character, stripping all highlight
/// markers from the rendered line gives back exactly the line followed by
/// one line break.
pub proof fn lemma_render_round_trip(q: Seq<char>, ignore_case: bool, l: Seq<char>)
    requires
        !l.contains('\x1b'),
    ensures
        strip_markers(render_spec(q, ignore_case, l)) == l + seq!['\n'],
{
    let fq = fold_case(q, ignore_case);
    let fl = fold_case(l, ignore_case);
    if q.len() == 0 || fq.len() != q.len() || fl.len() != l.len() {
        lemma_strip_newline();
        lemma_strip_plain_prefix(l, seq!['\n']);
    } else {
        lemma_strip_render_tail(l, fl, fq);
    }
}

} // verus!
