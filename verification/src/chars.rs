//! Case folding and small character-level string utilities.
//!
//! All searching in this library compares text under an optional canonical
//! lowercase fold: the Unicode lowercase mapping of `str::to_lowercase`.
//! What that mapping returns is a function of the characters alone; it is
//! named here by the uninterpreted `lower_of`, and the contracts of the
//! search and of the renderer speak of that name.

use vstd::prelude::*;
use vstd::string::StrSliceExecFns;

verus! {

/// The canonical lowercase form of a sequence of characters: the name of
/// what `str::to_lowercase` returns for a string with these characters.
pub uninterp spec fn lower_of(s: Seq<char>) -> Seq<char>;

/// Relies on str::to_lowercase: the returned string is the Unicode
/// lowercase form of the input, a function of the input characters alone.
#[verifier::external_body]
fn lowercase(s: &str) -> (r: String)
    ensures
        r@ == lower_of(s@),
{
    s.to_lowercase()
}

/// A sequence of characters folded for comparison: its canonical lowercase
/// form when `ignore_case` is set, the sequence unchanged otherwise.
pub open spec fn fold_case(s: Seq<char>, ignore_case: bool) -> Seq<char> {
    if ignore_case {
        lower_of(s)
    } else {
        s
    }
}

/// The characters of a string slice, as a vector.
pub fn str_chars(s: &str) -> (r: Vec<char>)
    ensures
        r@ == s@,
{
    let n = s.unicode_len();
    let mut r: Vec<char> = Vec::new();
    let mut i: usize = 0;
    while i < n
        invariant
            i <= n,
            n == s@.len(),
            r@ == s@.subrange(0, i as int),
        decreases n - i,
    {
        let c = s.get_char(i);
        r.push(c);
        assert(r@ =~= s@.subrange(0, i + 1 as int));
        i = i + 1;
    }
    assert(r@ =~= s@);
    r
}

/// The case fold of a string slice, as a vector of characters: its
/// canonical lowercase form when `ignore_case` is set, its characters
/// unchanged otherwise.
pub fn fold_str(s: &str, ignore_case: bool) -> (r: Vec<char>)
    ensures
        r@ == fold_case(s@, ignore_case),
{
    if ignore_case {
        let low = lowercase(s);
        str_chars(low.as_str())
    } else {
        str_chars(s)
    }
}

/// Character-for-character equality of two string slices.
pub fn str_eq(a: &str, b: &str) -> (r: bool)
    ensures
        r == (a@ == b@),
{
    let na = a.unicode_len();
    let nb = b.unicode_len();
    if na != nb {
        assert(a@ != b@);
        return false;
    }
    let mut i: usize = 0;
    while i < na
        invariant
            i <= na,
            na == a@.len(),
            na == b@.len(),
            forall|j: int| 0 <= j < i ==> a@[j] == b@[j],
        decreases na - i,
    {
        if a.get_char(i) != b.get_char(i) {
            return false;
        }
        i = i + 1;
    }
    assert(a@ =~= b@);
    true
}

/// Whether the string slice holds the character `c` anywhere.
pub fn str_contains_char(s: &str, c: char) -> (r: bool)
    ensures
        r == s@.contains(c),
{
    let n = s.unicode_len();
    let mut i: usize = 0;
    while i < n
        invariant
            i <= n,
            n == s@.len(),
            forall|j: int| 0 <= j < i ==> s@[j] != c,
        decreases n - i,
    {
        if s.get_char(i) == c {
            return true;
        }
        i = i + 1;
    }
    false
}

} // verus!
