//! The entry parser: a single list line of the form
//! `* [NAME](LINK) - DESCRIPTION`, with an optional `:copyright:` marker
//! before the dash, and a link that starts with `http://` or `https://`.
//!
//! The name and the link are read greedily: the bracket pair that closes
//! the name is the last one from which the rest of the line still matches,
//! and the parenthesis that closes the link is the last one from which a
//! dash separator still follows.  The description runs to the end of the
//! line.

use vstd::prelude::*;
use vstd::string::*;
use crate::errors::{CheckError, SpecError};
use crate::text::{seg, ws, is_ws};
use crate::tool::{SpecTool, Tool};

verus! {

/// The line opens with a list marker: `*`, one whitespace, `[`.
pub open spec fn prefix_ok(s: Seq<char>) -> bool {
    s.len() >= 3 && s[0] == '*' && ws(s[1]) && s[2] == '['
}

/// `http://` stands at position `i`.
pub open spec fn http_at(s: Seq<char>, i: int) -> bool {
    &&& 0 <= i
    &&& i + 7 <= s.len()
    &&& s[i] == 'h'
    &&& s[i + 1] == 't'
    &&& s[i + 2] == 't'
    &&& s[i + 3] == 'p'
    &&& s[i + 4] == ':'
    &&& s[i + 5] == '/'
    &&& s[i + 6] == '/'
}

/// `https://` stands at position `i`.
pub open spec fn https_at(s: Seq<char>, i: int) -> bool {
    &&& 0 <= i
    &&& i + 8 <= s.len()
    &&& s[i] == 'h'
    &&& s[i + 1] == 't'
    &&& s[i + 2] == 't'
    &&& s[i + 3] == 'p'
    &&& s[i + 4] == 's'
    &&& s[i + 5] == ':'
    &&& s[i + 6] == '/'
    &&& s[i + 7] == '/'
}

/// A separator with the copyright marker stands at position `k`:
/// whitespace, `:copyright:`, whitespace, `-`, whitespace.
pub open spec fn copyright_at(s: Seq<char>, k: int) -> bool {
    &&& 0 <= k
    &&& k + 15 <= s.len()
    &&& ws(s[k])
    &&& s[k + 1] == ':'
    &&& s[k + 2] == 'c'
    &&& s[k + 3] == 'o'
    &&& s[k + 4] == 'p'
    &&& s[k + 5] == 'y'
    &&& s[k + 6] == 'r'
    &&& s[k + 7] == 'i'
    &&& s[k + 8] == 'g'
    &&& s[k + 9] == 'h'
    &&& s[k + 10] == 't'
    &&& s[k + 11] == ':'
    &&& ws(s[k + 12])
    &&& s[k + 13] == '-'
    &&& ws(s[k + 14])
}

/// A plain dash separator stands at position `k`: whitespace, `-`,
/// whitespace.
pub open spec fn plain_at(s: Seq<char>, k: int) -> bool {
    &&& 0 <= k
    &&& k + 3 <= s.len()
    &&& ws(s[k])
    &&& s[k + 1] == '-'
    &&& ws(s[k + 2])
}

/// Some separator stands at position `k`.
pub open spec fn tail_at(s: Seq<char>, k: int) -> bool {
    copyright_at(s, k) || plain_at(s, k)
}

/// Where the description starts when the separator stands at `k`; the
/// copyright form takes precedence.
pub open spec fn desc_start(s: Seq<char>, k: int) -> int {
    if copyright_at(s, k) {
        k + 15
    } else {
        k + 3
    }
}

/// Position `p` closes the link that starts after the `](` at `j`: a `)`
/// preceded by a scheme-led link of at least the scheme's length, and
/// followed by a separator.
pub open spec fn link_end_ok(s: Seq<char>, j: int, p: int) -> bool {
    &&& j + 2 <= p < s.len()
    &&& s[p] == ')'
    &&& ((https_at(s, j + 2) && p >= j + 10) || (http_at(s, j + 2) && p >= j + 9))
    &&& tail_at(s, p + 1)
}

/// The largest position at most `p` that closes the link opened at `j`,
/// or `-1` when there is none.
pub open spec fn last_p(s: Seq<char>, j: int, p: int) -> int
    decreases p + 1,
{
    if p < 0 {
        -1
    } else if link_end_ok(s, j, p) {
        p
    } else {
        last_p(s, j, p - 1)
    }
}

/// A `](` stands at `j`, leaving room for a name before it.
pub open spec fn bracket_at(s: Seq<char>, j: int) -> bool {
    3 <= j && j + 1 < s.len() && s[j] == ']' && s[j + 1] == '('
}

/// The name can close at `j`: a `](` stands there and a link with a
/// separator follows.
pub open spec fn valid_j(s: Seq<char>, j: int) -> bool {
    bracket_at(s, j) && last_p(s, j, s.len() - 1) >= 0
}

/// The largest position at most `j` where the name can close, or `-1`.
pub open spec fn last_j(s: Seq<char>, j: int) -> int
    decreases j,
{
    if j < 3 {
        -1
    } else if valid_j(s, j) {
        j
    } else {
        last_j(s, j - 1)
    }
}

/// The parse of one line: the greedily chosen name, link and description,
/// or `None` when the line does not match the entry format.
pub open spec fn line_parse(s: Seq<char>) -> Option<SpecTool> {
    if !prefix_ok(s) {
        None
    } else {
        let j = last_j(s, s.len() - 2);
        if j < 0 {
            None
        } else {
            let p = last_p(s, j, s.len() - 1);
            Some(
                SpecTool {
                    name: s.subrange(3, j),
                    link: s.subrange(j + 2, p),
                    desc: s.subrange(desc_start(s, p + 1), s.len() as int),
                },
            )
        }
    }
}

/// What parsing and the length rules make of one line: the entry, or the
/// first violated rule in order — syntax, then name length, then
/// description length.
pub open spec fn line_outcome(s: Seq<char>) -> Result<SpecTool, SpecError> {
    match line_parse(s) {
        Option::None => Result::Err(SpecError::InvalidSyntax(s)),
        Option::Some(t) => if t.name.len() > 50 {
            Result::Err(SpecError::NameTooLong(t.name))
        } else if t.desc.len() > 200 {
            Result::Err(SpecError::DescriptionTooLong(t.name, t.desc))
        } else {
            Result::Ok(t)
        },
    }
}

fn http_at_exec(s: &str, n: usize, i: usize) -> (r: bool)
    requires
        n == s@.len(),
        i <= n,
    ensures
        r == http_at(s@, i as int),
{
    n - i >= 7 && s.get_char(i) == 'h' && s.get_char(i + 1) == 't' && s.get_char(i + 2) == 't'
        && s.get_char(i + 3) == 'p' && s.get_char(i + 4) == ':' && s.get_char(i + 5) == '/'
        && s.get_char(i + 6) == '/'
}

fn https_at_exec(s: &str, n: usize, i: usize) -> (r: bool)
    requires
        n == s@.len(),
        i <= n,
    ensures
        r == https_at(s@, i as int),
{
    n - i >= 8 && s.get_char(i) == 'h' && s.get_char(i + 1) == 't' && s.get_char(i + 2) == 't'
        && s.get_char(i + 3) == 'p' && s.get_char(i + 4) == 's' && s.get_char(i + 5) == ':'
        && s.get_char(i + 6) == '/' && s.get_char(i + 7) == '/'
}

fn copyright_at_exec(s: &str, n: usize, k: usize) -> (r: bool)
    requires
        n == s@.len(),
        k <= n,
    ensures
        r == copyright_at(s@, k as int),
{
    n - k >= 15 && is_ws(s.get_char(k)) && s.get_char(k + 1) == ':' && s.get_char(k + 2) == 'c'
        && s.get_char(k + 3) == 'o' && s.get_char(k + 4) == 'p' && s.get_char(k + 5) == 'y'
        && s.get_char(k + 6) == 'r' && s.get_char(k + 7) == 'i' && s.get_char(k + 8) == 'g'
        && s.get_char(k + 9) == 'h' && s.get_char(k + 10) == 't' && s.get_char(k + 11) == ':'
        && is_ws(s.get_char(k + 12)) && s.get_char(k + 13) == '-' && is_ws(s.get_char(k + 14))
}

fn plain_at_exec(s: &str, n: usize, k: usize) -> (r: bool)
    requires
        n == s@.len(),
        k <= n,
    ensures
        r == plain_at(s@, k as int),
{
    n - k >= 3 && is_ws(s.get_char(k)) && s.get_char(k + 1) == '-' && is_ws(s.get_char(k + 2))
}

fn tail_at_exec(s: &str, n: usize, k: usize) -> (r: bool)
    requires
        n == s@.len(),
        k <= n,
    ensures
        r == tail_at(s@, k as int),
{
    copyright_at_exec(s, n, k) || plain_at_exec(s, n, k)
}

fn link_end_ok_exec(s: &str, n: usize, j: usize, p: usize) -> (r: bool)
    requires
        n == s@.len(),
        3 <= j,
        j + 1 < n,
        p < n,
    ensures
        r == link_end_ok(s@, j as int, p as int),
{
    if p < j + 2 {
        return false;
    }
    if s.get_char(p) != ')' {
        return false;
    }
    let https = https_at_exec(s, n, j + 2);
    let http = http_at_exec(s, n, j + 2);
    if !((https && p - j >= 10) || (http && p - j >= 9)) {
        return false;
    }
    tail_at_exec(s, n, p + 1)
}

fn scan_p(s: &str, n: usize, j: usize) -> (r: Option<usize>)
    requires
        n == s@.len(),
        3 <= j,
        j + 1 < n,
    ensures
        match r {
            Some(p) => last_p(s@, j as int, n - 1) == p as int && link_end_ok(
                s@,
                j as int,
                p as int,
            ) && j + 2 <= p < n,
            None => last_p(s@, j as int, n - 1) == -1,
        },
{
    let mut c: usize = n;
    while c > 0
        invariant
            n == s@.len(),
            3 <= j,
            j + 1 < n,
            c <= n,
            last_p(s@, j as int, n - 1) == last_p(s@, j as int, c - 1),
        decreases c,
    {
        let p = c - 1;
        if link_end_ok_exec(s, n, j, p) {
            return Some(p);
        }
        c = p;
    }
    None
}

fn scan_j(s: &str, n: usize) -> (r: Option<(usize, usize)>)
    requires
        n == s@.len(),
    ensures
        match r {
            Some(jp) => {
                &&& last_j(s@, n - 2) == jp.0 as int
                &&& last_p(s@, jp.0 as int, n - 1) == jp.1 as int
                &&& link_end_ok(s@, jp.0 as int, jp.1 as int)
                &&& 3 <= jp.0
                &&& jp.0 + 1 < n
                &&& jp.0 + 2 <= jp.1 < n
            },
            None => last_j(s@, n - 2) == -1,
        },
{
    if n < 5 {
        return None;
    }
    let mut c: usize = n - 1;
    while c > 3
        invariant
            n == s@.len(),
            5 <= n,
            3 <= c <= n - 1,
            last_j(s@, n - 2) == last_j(s@, c - 1),
        decreases c,
    {
        let j = c - 1;
        if s.get_char(j) == ']' && s.get_char(j + 1) == '(' {
            if let Some(p) = scan_p(s, n, j) {
                return Some((j, p));
            }
        }
        proof {
            assert(!valid_j(s@, j as int));
        }
        c = j;
    }
    None
}

/// Parse one line into a tool and apply the two length rules.  Returns the
/// entry exactly when the line matches the format, its name has at most 50
/// characters and its description at most 200; otherwise the first
/// violated rule, in that order.
pub fn parse_tool(line: &str) -> (r: Result<Tool, CheckError>)
    ensures
        r matches Ok(t) ==> line_outcome(line@) == Result::<SpecTool, SpecError>::Ok(t@),
        r matches Err(e) ==> line_outcome(line@) == Result::<SpecTool, SpecError>::Err(e@),
{
    let n = line.unicode_len();
    if !(n >= 3 && line.get_char(0) == '*' && is_ws(line.get_char(1)) && line.get_char(2) == '[') {
        return Err(CheckError::InvalidSyntax { line: line.to_owned() });
    }
    match scan_j(line, n) {
        None => Err(CheckError::InvalidSyntax { line: line.to_owned() }),
        Some((j, p)) => {
            let name = seg(line, 3, j);
            let link = seg(line, j + 2, p);
            let k = p + 1;
            let d0: usize = if copyright_at_exec(line, n, k) {
                k + 15
            } else {
                k + 3
            };
            proof {
                assert(d0 == desc_start(line@, p + 1));
            }
            let desc = seg(line, d0, n);
            if name.unicode_len() > 50 {
                return Err(CheckError::NameTooLong { name });
            }
            if desc.unicode_len() > 200 {
                return Err(CheckError::DescriptionTooLong { name, desc });
            }
            Ok(Tool { name, link, desc })
        },
    }
}

} // verus!
