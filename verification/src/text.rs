//! Character-level text utilities: substring search, splitting on a
//! separator, and lexicographic comparison of character sequences.

use vstd::prelude::*;
use vstd::string::*;

verus! {

/// A whitespace character, as the entry format understands it.
pub open spec fn ws(c: char) -> bool {
    c == ' ' || c == '\t' || c == '\n' || c == '\r' || c == '\u{b}' || c == '\u{c}'
}

/// Exec test for [`ws`].
pub fn is_ws(c: char) -> (r: bool)
    ensures
        r == ws(c),
{
    c == ' ' || c == '\t' || c == '\n' || c == '\r' || c == '\u{b}' || c == '\u{c}'
}

/// `pat` occurs in `s` starting at position `at`.
pub open spec fn pat_at(s: Seq<char>, pat: Seq<char>, at: int) -> bool {
    &&& 0 <= at
    &&& at + pat.len() <= s.len()
    &&& s.subrange(at, at + pat.len() as int) == pat
}

/// Position of the first occurrence of `pat` in `s` at or after `from`,
/// or `-1` when there is none.
pub open spec fn find_pat(s: Seq<char>, pat: Seq<char>, from: int) -> int
    decreases s.len() - from,
{
    if pat.len() == 0 {
        -1
    } else if from < 0 {
        find_pat(s, pat, 0)
    } else if from + pat.len() > s.len() {
        -1
    } else if pat_at(s, pat, from) {
        from
    } else {
        find_pat(s, pat, from + 1)
    }
}

pub proof fn lemma_find_pat(s: Seq<char>, pat: Seq<char>, from: int)
    requires
        from >= 0,
    ensures
        find_pat(s, pat, from) == -1 || (from <= find_pat(s, pat, from) && pat_at(
            s,
            pat,
            find_pat(s, pat, from),
        )),
    decreases s.len() - from,
{
    if pat.len() == 0 {
    } else if from + pat.len() > s.len() {
    } else if pat_at(s, pat, from) {
    } else {
        lemma_find_pat(s, pat, from + 1);
    }
}

/// `s` split on every occurrence of `pat`, leftmost first, no overlap.
/// A text without the separator is a single piece; a separator at the very
/// end contributes a final empty piece.
pub open spec fn spec_split(s: Seq<char>, pat: Seq<char>) -> Seq<Seq<char>>
    recommends
        pat.len() >= 1,
    decreases s.len(),
    when pat.len() >= 1
    via spec_split_decreases
{
    let i = find_pat(s, pat, 0);
    if i < 0 {
        seq![s]
    } else {
        seq![s.subrange(0, i)] + spec_split(s.subrange(i + pat.len(), s.len() as int), pat)
    }
}

#[via_fn]
proof fn spec_split_decreases(s: Seq<char>, pat: Seq<char>) {
    lemma_find_pat(s, pat, 0);
}

/// Splitting never yields an empty list of pieces.
pub proof fn lemma_split_len(s: Seq<char>, pat: Seq<char>)
    requires
        pat.len() >= 1,
    ensures
        spec_split(s, pat).len() >= 1,
{
    let i = find_pat(s, pat, 0);
    if i < 0 {
        assert(spec_split(s, pat) =~= seq![s]);
    }
}

/// The views of a list of owned strings.
pub open spec fn strs_view(v: Seq<String>) -> Seq<Seq<char>> {
    v.map_values(|p: String| p@)
}

/// Whether `pat` matches `s` at position `i`, by character comparison.
pub fn match_at(s: &str, n: usize, pat: &str, m: usize, i: usize) -> (r: bool)
    requires
        n == s@.len(),
        m == pat@.len(),
        i <= n,
        n - i >= m,
    ensures
        r == pat_at(s@, pat@, i as int),
{
    let mut k: usize = 0;
    while k < m
        invariant
            n == s@.len(),
            m == pat@.len(),
            i <= n,
            n - i >= m,
            k <= m,
            s@.subrange(i as int, i + k) == pat@.subrange(0, k as int),
        decreases m - k,
    {
        let cs = s.get_char(i + k);
        let cp = pat.get_char(k);
        if cs != cp {
            proof {
                if pat_at(s@, pat@, i as int) {
                    assert(s@.subrange(i as int, i + m as int)[k as int] == s@[i + k]);
                    assert(pat@[k as int] == s@[i + k]);
                }
            }
            return false;
        }
        proof {
            assert(s@.subrange(i as int, i + k + 1) =~= s@.subrange(i as int, i + k).push(
                s@[i + k],
            ));
            assert(pat@.subrange(0, k + 1) =~= pat@.subrange(0, k as int).push(pat@[k as int]));
        }
        k = k + 1;
    }
    proof {
        assert(pat@.subrange(0, m as int) =~= pat@);
        assert(s@.subrange(i as int, i + m as int) == pat@);
    }
    true
}

/// First occurrence of `pat` in `s` at or after `from`.
pub fn find_from(s: &str, n: usize, pat: &str, m: usize, from: usize) -> (r: Option<usize>)
    requires
        n == s@.len(),
        m == pat@.len(),
        m >= 1,
        from <= n,
    ensures
        match r {
            Some(i) => find_pat(s@, pat@, from as int) == i as int && from <= i && i <= n && n - i
                >= m,
            None => find_pat(s@, pat@, from as int) == -1,
        },
{
    let mut i: usize = from;
    while i <= n && n - i >= m
        invariant
            n == s@.len(),
            m == pat@.len(),
            m >= 1,
            from <= i <= n,
            find_pat(s@, pat@, from as int) == find_pat(s@, pat@, i as int),
        decreases n - i,
    {
        if match_at(s, n, pat, m, i) {
            return Some(i);
        }
        i = i + 1;
    }
    None
}

/// Copy of the characters `from..to` of `s` as an owned string.
pub fn seg(s: &str, from: usize, to: usize) -> (r: String)
    requires
        from <= to <= s@.len(),
    ensures
        r@ == s@.subrange(from as int, to as int),
{
    s.substring_char(from, to).to_owned()
}

/// `s` split on every occurrence of `pat`, as owned strings.
pub fn split_by(s: &str, pat: &str) -> (r: Vec<String>)
    requires
        pat@.len() >= 1,
    ensures
        r@.map_values(|p: String| p@) == spec_split(s@, pat@),
    decreases s@.len(),
{
    let n = s.unicode_len();
    let m = pat.unicode_len();
    match find_from(s, n, pat, m, 0) {
        None => {
            let mut v: Vec<String> = Vec::new();
            v.push(s.to_owned());
            proof {
                assert(v@.map_values(|p: String| p@) =~= seq![s@]);
            }
            v
        },
        Some(i) => {
            let head = seg(s, 0, i);
            let tail = s.substring_char(i + m, n);
            let mut rest = split_by(tail, pat);
            rest.insert(0, head);
            proof {
                let f = |p: String| p@;
                let whole = spec_split(s@, pat@);
                assert(whole =~= seq![s@.subrange(0, i as int)] + spec_split(tail@, pat@));
                assert(rest@.map_values(f) =~= whole) by {
                    assert forall|k: int| 0 <= k < rest@.len() implies rest@.map_values(f)[k]
                        == whole[k] by {
                        if k > 0 {
                            assert(rest@[k] == rest@.subrange(1, rest@.len() as int)[k - 1]);
                        }
                    }
                };
            }
            rest
        },
    }
}

/// Lexicographic order on character sequences, by code point: `a` is less
/// than or equal to `b`.
pub open spec fn lex_le(a: Seq<char>, b: Seq<char>) -> bool
    decreases a.len(),
{
    if a.len() == 0 {
        true
    } else if b.len() == 0 {
        false
    } else if (a[0] as u32) < (b[0] as u32) {
        true
    } else if (a[0] as u32) > (b[0] as u32) {
        false
    } else {
        lex_le(a.subrange(1, a.len() as int), b.subrange(1, b.len() as int))
    }
}

/// Exec lexicographic comparison of two strings, by code point.
pub fn str_lex_le(a: &str, b: &str) -> (r: bool)
    ensures
        r == lex_le(a@, b@),
{
    let an = a.unicode_len();
    let bn = b.unicode_len();
    let mut i: usize = 0;
    proof {
        assert(a@.subrange(0, an as int) =~= a@);
        assert(b@.subrange(0, bn as int) =~= b@);
    }
    loop
        invariant
            an == a@.len(),
            bn == b@.len(),
            i <= an,
            i <= bn,
            lex_le(a@, b@) == lex_le(
                a@.subrange(i as int, an as int),
                b@.subrange(i as int, bn as int),
            ),
        decreases an - i,
    {
        if i == an {
            return true;
        }
        if i == bn {
            return false;
        }
        let ca = a.get_char(i);
        let cb = b.get_char(i);
        proof {
            let sa = a@.subrange(i as int, an as int);
            let sb = b@.subrange(i as int, bn as int);
            assert(sa[0] == a@[i as int]);
            assert(sb[0] == b@[i as int]);
            assert(sa.subrange(1, sa.len() as int) =~= a@.subrange(i + 1, an as int));
            assert(sb.subrange(1, sb.len() as int) =~= b@.subrange(i + 1, bn as int));
        }
        if (ca as u32) < (cb as u32) {
            return true;
        }
        if (ca as u32) > (cb as u32) {
            return false;
        }
        i = i + 1;
    }
}

/// Exec equality of two strings.
pub fn str_eq(a: &str, b: &str) -> (r: bool)
    ensures
        r == (a@ == b@),
{
    let sa = a.to_owned();
    let sb = b.to_owned();
    sa == sb
}

} // verus!
