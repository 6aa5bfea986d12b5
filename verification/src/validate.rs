//! The validators: entry checking with its link probe, the ordering
//! checker, and the section and document validators.
//!
//! A document splits on `"\n# "` into top-level sections; the first two
//! are the prelude and the table of contents and are never validated.
//! Each remaining section splits on `"## "` into subsections, the text
//! before the first marker being discarded.  A subsection named `License`
//! always passes; any other must have content lines, every non-blank line
//! that is not a nested sub-headline must parse as an entry whose link is
//! reachable, and the entries must be in case-insensitive alphabetical
//! order.  Validation is fail-fast: the first violation anywhere is the
//! result.

use vstd::prelude::*;
use vstd::string::*;
use crate::errors::{CheckError, SpecError};
use crate::parse::{line_outcome, parse_tool};
use crate::text::{is_ws, lemma_split_len, spec_split, split_by, str_eq, strs_view, ws};
use crate::tool::{tool_le, tool_le_exec, SpecTool, Tool};

verus! {

/// Relies on `reqwest::blocking::get`: performs one GET of `url` and
/// reports whether the request completed without a network or protocol
/// error.  Whether it succeeds depends on the network, so nothing is
/// promised of the result.
#[verifier::external_body]
fn url_reachable(url: &str) -> bool {
    reqwest::blocking::get(url).is_ok()
}

/// Parse one line and probe its link.  The parse and length rules decide
/// exactly as [`line_outcome`] says; when they accept the entry, the
/// outcome of the probe decides between the entry and an
/// `UnreachableLink` error.
pub fn check_tool(line: &str) -> (r: Result<Tool, CheckError>)
    ensures
        line_outcome(line@) matches Err(e) ==> r matches Err(x) && x@ == e,
        line_outcome(line@) matches Ok(t) ==> (r matches Ok(y) && y@ == t) || (r matches Err(x)
            && x@ == SpecError::UnreachableLink(t.link)),
{
    match parse_tool(line) {
        Err(e) => Err(e),
        Ok(t) => {
            if url_reachable(t.link.as_str()) {
                Ok(t)
            } else {
                Err(CheckError::UnreachableLink { link: t.link })
            }
        },
    }
}

/// The views of a list of tools.
pub open spec fn tools_view(v: Seq<Tool>) -> Seq<SpecTool> {
    v.map_values(|t: Tool| t@)
}

/// Index of the first adjacent pair at or after `i` that is out of order,
/// or `-1` when there is none.
pub open spec fn first_disorder(ts: Seq<SpecTool>, i: int) -> int
    decreases ts.len() - i,
{
    if i + 1 >= ts.len() {
        -1
    } else if !tool_le(ts[i], ts[i + 1]) {
        i
    } else {
        first_disorder(ts, i + 1)
    }
}

/// Check that the tools are in case-insensitive alphabetical order.
/// Passes exactly when every adjacent pair is in order (ties included);
/// otherwise names the earlier tool of the first out-of-order pair.
pub fn check_ordering(tools: Vec<Tool>) -> (r: Result<(), CheckError>)
    ensures
        first_disorder(tools_view(tools@), 0) >= -1,
        first_disorder(tools_view(tools@), 0) == -1 ==> r is Ok,
        first_disorder(tools_view(tools@), 0) >= 0 ==> (r matches Err(e) && e@
            == SpecError::OutOfOrder(
            tools_view(tools@)[first_disorder(tools_view(tools@), 0)].name,
        )),
{
    let ghost ts = tools_view(tools@);
    let mut i: usize = 0;
    while tools.len() - i > 1
        invariant
            ts == tools_view(tools@),
            i <= tools.len(),
            first_disorder(ts, 0) == first_disorder(ts, i as int),
        decreases tools.len() - i,
    {
        if !tool_le_exec(&tools[i], &tools[i + 1]) {
            proof {
                assert(ts[i as int] == tools@[i as int]@);
                assert(ts[i + 1] == tools@[i + 1]@);
                assert(first_disorder(ts, i as int) == i);
            }
            return Err(CheckError::OutOfOrder { name: tools[i].name.clone() });
        }
        i = i + 1;
    }
    Ok(())
}

/// The sequence is non-decreasing under the catalog order.
pub open spec fn ordered(ts: Seq<SpecTool>) -> bool {
    forall|j: int| 0 <= j < ts.len() - 1 ==> #[trigger] tool_le(ts[j], ts[j + 1])
}

/// Law of the ordering check: a sequence whose adjacent pairs from `i` on
/// are all in order has no disorder, and otherwise `first_disorder` is
/// the first out-of-order adjacent pair — every earlier pair is in order.
/// With the contract of [`check_ordering`]: the check passes on every
/// case-insensitively non-decreasing sequence, and on any other it names
/// the earlier element of the first out-of-order pair.
pub proof fn lemma_first_disorder_correct(ts: Seq<SpecTool>, i: int)
    requires
        0 <= i,
    ensures
        first_disorder(ts, i) >= -1,
        first_disorder(ts, i) == -1 ==> (forall|j: int|
            i <= j < ts.len() - 1 ==> #[trigger] tool_le(ts[j], ts[j + 1])),
        first_disorder(ts, i) >= 0 ==> i <= first_disorder(ts, i) < ts.len() - 1 && !tool_le(
            ts[first_disorder(ts, i)],
            ts[first_disorder(ts, i) + 1],
        ) && (forall|j: int| i <= j < first_disorder(ts, i) ==> #[trigger] tool_le(ts[j], ts[j + 1])),
    decreases ts.len() - i,
{
    if i + 1 >= ts.len() {
    } else if !tool_le(ts[i], ts[i + 1]) {
    } else {
        lemma_first_disorder_correct(ts, i + 1);
    }
}

/// Law of the ordering check, as one sentence: no disorder is found
/// exactly in the non-decreasing sequences.
pub proof fn lemma_ordering_law(ts: Seq<SpecTool>)
    ensures
        first_disorder(ts, 0) == -1 <==> ordered(ts),
{
    lemma_first_disorder_correct(ts, 0);
}

/// The subsection's name is exactly `License`: its heading line, the text
/// before the first newline, reads `License`.
pub open spec fn is_license(s: Seq<char>) -> bool {
    spec_split(s, "\n"@)[0] == "License"@
}

/// An ASCII letter.
pub open spec fn letter(c: char) -> bool {
    (('A' as u32) <= (c as u32) && (c as u32) <= ('Z' as u32)) || (('a' as u32) <= (c as u32) && (
    c as u32) <= ('z' as u32))
}

fn is_letter(c: char) -> (r: bool)
    ensures
        r == letter(c),
{
    ((c as u32) >= ('A' as u32) && (c as u32) <= ('Z' as u32)) || ((c as u32) >= ('a' as u32) && (
    c as u32) <= ('z' as u32))
}

/// The text before the line's final character is headline-shaped: letters
/// and whitespace only.
pub open spec fn headline_shaped(l: Seq<char>) -> bool {
    forall|j: int| 0 <= j < l.len() - 1 ==> letter(#[trigger] l[j]) || ws(l[j])
}

/// A line the section validator ignores: blank, or a nested sub-headline —
/// it does not start with the list marker, ends with a colon, and what
/// precedes the colon is letters and whitespace only.
pub open spec fn skip_line(l: Seq<char>) -> bool {
    l.len() == 0 || (l[0] != '*' && l[l.len() - 1] == ':' && headline_shaped(l))
}

#[verifier::loop_isolation(false)]
fn skip_line_exec(line: &str) -> (r: bool)
    ensures
        r == skip_line(line@),
{
    let n = line.unicode_len();
    if n == 0 {
        return true;
    }
    if line.get_char(0) == '*' {
        return false;
    }
    if line.get_char(n - 1) != ':' {
        return false;
    }
    let mut j: usize = 0;
    while n - j > 1
        invariant
            j < n,
            forall|q: int| 0 <= q < j ==> letter(#[trigger] line@[q]) || ws(line@[q]),
        decreases n - j,
    {
        let c = line.get_char(j);
        if !(is_letter(c) || is_ws(c)) {
            return false;
        }
        j = j + 1;
    }
    true
}

/// The content lines of a subsection: everything after the heading line.
pub open spec fn section_body(s: Seq<char>) -> Seq<Seq<char>> {
    let lines = spec_split(s, "\n"@);
    lines.subrange(1, lines.len() as int)
}

/// Walk the content lines from index `i`: the entries parsed before the
/// first violated line, and that line's error if there is one.
pub open spec fn collect_from(lines: Seq<Seq<char>>, i: int) -> (Seq<SpecTool>, Option<SpecError>)
    decreases lines.len() - i,
{
    if i >= lines.len() {
        (Seq::<SpecTool>::empty(), Option::<SpecError>::None)
    } else if skip_line(lines[i]) {
        collect_from(lines, i + 1)
    } else {
        match line_outcome(lines[i]) {
            Result::Err(e) => (Seq::<SpecTool>::empty(), Option::Some(e)),
            Result::Ok(t) => {
                let r = collect_from(lines, i + 1);
                (seq![t] + r.0, r.1)
            },
        }
    }
}

/// The entries and first per-line error of a whole subsection body.
pub open spec fn section_collect(s: Seq<char>) -> (Seq<SpecTool>, Option<SpecError>) {
    collect_from(section_body(s), 0)
}

/// One walk step over an ignored line: the walk is unchanged.
proof fn lemma_walk_skip(body: Seq<Seq<char>>, i: int)
    requires
        0 <= i < body.len(),
        skip_line(body[i]),
    ensures
        collect_from(body, i) == collect_from(body, i + 1),
{
}

/// One walk step over a line that parses to the entry `t`: the walked
/// prefix grows by `t`.
proof fn lemma_walk_entry(body: Seq<Seq<char>>, i: int, acc: Seq<SpecTool>, t: SpecTool)
    requires
        0 <= i < body.len(),
        !skip_line(body[i]),
        line_outcome(body[i]) == Result::<SpecTool, SpecError>::Ok(t),
        collect_from(body, 0).0 == acc + collect_from(body, i).0,
        collect_from(body, 0).1 == collect_from(body, i).1,
    ensures
        collect_from(body, 0).0 == (acc + seq![t]) + collect_from(body, i + 1).0,
        collect_from(body, 0).1 == collect_from(body, i + 1).1,
{
    assert(collect_from(body, i).0 == seq![t] + collect_from(body, i + 1).0);
    assert(acc + (seq![t] + collect_from(body, i + 1).0) =~= (acc + seq![t]) + collect_from(
        body,
        i + 1,
    ).0);
}

/// A violated line ends the walk with its error and no later entries.
proof fn lemma_walk_error(body: Seq<Seq<char>>, i: int, e: SpecError)
    requires
        0 <= i < body.len(),
        !skip_line(body[i]),
        line_outcome(body[i]) == Result::<SpecTool, SpecError>::Err(e),
    ensures
        collect_from(body, i) == (Seq::<SpecTool>::empty(), Option::Some(e)),
{
}

/// Pushing a tool appends its view.
proof fn lemma_tools_view_push(v: Seq<Tool>, t: Tool)
    ensures
        tools_view(v.push(t)) == tools_view(v) + seq![t@],
{
    assert(tools_view(v.push(t)) =~= tools_view(v) + seq![t@]);
}

/// What validating a subsection yields when every link is reachable:
/// `None` for a pass, or the first violation.
pub open spec fn section_outcome(s: Seq<char>) -> Option<SpecError> {
    if is_license(s) {
        Option::None
    } else if spec_split(s, "\n"@).len() <= 1 {
        Option::Some(SpecError::EmptySection)
    } else {
        let c = section_collect(s);
        match c.1 {
            Option::Some(e) => Option::Some(e),
            Option::None => {
                let d = first_disorder(c.0, 0);
                if d == -1 {
                    Option::None
                } else {
                    Option::Some(SpecError::OutOfOrder(c.0[d].name))
                }
            },
        }
    }
}

/// Some entry of the subsection's walked body carries the link `l`.
pub open spec fn section_has_link(s: Seq<char>, l: Seq<char>) -> bool {
    exists|j: int|
        0 <= j < section_collect(s).0.len() && (#[trigger] section_collect(s).0[j]).link == l
}

/// The subsection passes without a single link probe: it is the `License`
/// subsection, or it has content lines and every one of them is ignored.
pub open spec fn section_probe_free_pass(s: Seq<char>) -> bool {
    is_license(s) || (spec_split(s, "\n"@).len() > 1 && section_collect(s) == (
        Seq::<SpecTool>::empty(),
        Option::<SpecError>::None,
    ))
}

/// Validate one subsection, probing each entry's link as it is parsed.
///
/// The structural rules decide as [`section_outcome`] says; a link probe
/// that fails cuts the walk short with an `UnreachableLink` error.
/// Success is owed whenever no probe is needed; an error that precedes
/// every probe — an empty section, or a violated line before the first
/// entry — is owed as well.
#[verifier::loop_isolation(false)]
pub fn check_section(section: String) -> (r: Result<(), CheckError>)
    ensures
        is_license(section@) ==> r is Ok,
        section_probe_free_pass(section@) ==> r is Ok,
        r is Ok ==> section_outcome(section@) is None,
        r matches Err(e) ==> (!(e@ is UnreachableLink) ==> section_outcome(section@)
            == Option::Some(e@)),
        r matches Err(e) ==> (e@ matches SpecError::UnreachableLink(l) ==> section_has_link(
            section@,
            l,
        )),
        !is_license(section@) && spec_split(section@, "\n"@).len() <= 1 ==> (r matches Err(e) && e@
            == SpecError::EmptySection),
        !is_license(section@) && spec_split(section@, "\n"@).len() > 1 && section_collect(
            section@,
        ).0.len() == 0 ==> (section_collect(section@).1 matches Some(se) ==> (r matches Err(e)
            && e@ == se)),
{
    proof {
        reveal_strlit("\n");
        lemma_split_len(section@, "\n"@);
    }
    let lines = split_by(section.as_str(), "\n");
    proof {
        assert(strs_view(lines@) == spec_split(section@, "\n"@));
        assert(lines@[0]@ == spec_split(section@, "\n"@)[0]);
    }
    if str_eq(lines[0].as_str(), "License") {
        return Ok(());
    }
    if lines.len() == 1 {
        return Err(CheckError::EmptySection);
    }
    let ghost body = section_body(section@);
    proof {
        assert(body.len() == lines@.len() - 1);
    }
    let mut tools: Vec<Tool> = Vec::new();
    let mut i: usize = 1;
    while i < lines.len()
        invariant
            strs_view(lines@) == spec_split(section@, "\n"@),
            body == section_body(section@),
            lines@.len() > 1,
            body.len() == lines@.len() - 1,
            1 <= i <= lines.len(),
            collect_from(body, 0).0 == tools_view(tools@) + collect_from(body, i - 1).0,
            collect_from(body, 0).1 == collect_from(body, i - 1).1,
        decreases lines.len() - i,
    {
        proof {
            assert(body[i - 1] == spec_split(section@, "\n"@)[i as int]);
            assert(lines@[i as int]@ == spec_split(section@, "\n"@)[i as int]);
        }
        if !skip_line_exec(lines[i].as_str()) {
            match check_tool(lines[i].as_str()) {
                Err(e) => {
                    proof {
                        if !(e@ is UnreachableLink) {
                            lemma_walk_error(body, i - 1, e@);
                        } else {
                            assert(line_outcome(body[i - 1]) is Ok);
                            let t0 = line_outcome(body[i - 1])->Ok_0;
                            assert(e@ == SpecError::UnreachableLink(t0.link));
                            assert(collect_from(body, i - 1).0 == seq![t0] + collect_from(
                                body,
                                i as int,
                            ).0);
                            assert(collect_from(body, 0).0[tools_view(tools@).len() as int]
                                == collect_from(body, i - 1).0[0]);
                            assert((#[trigger] section_collect(section@).0[tools@.len() as int]).link
                                == t0.link);
                        }
                    }
                    return Err(e);
                },
                Ok(t) => {
                    proof {
                        lemma_walk_entry(body, i - 1, tools_view(tools@), t@);
                        lemma_tools_view_push(tools@, t);
                    }
                    tools.push(t);
                },
            }
        } else {
            proof {
                lemma_walk_skip(body, i - 1);
            }
        }
        i = i + 1;
    }
    proof {
        assert(collect_from(body, i - 1).0 =~= Seq::<SpecTool>::empty());
        assert(collect_from(body, 0).0 =~= tools_view(tools@));
        assert(collect_from(body, 0).1 is None);
    }
    check_ordering(tools)
}

/// Validate one subsection structurally, as if every link were reachable.
/// The result is exactly [`section_outcome`].
#[verifier::loop_isolation(false)]
pub fn check_section_structure(section: &str) -> (r: Result<(), CheckError>)
    ensures
        r is Ok <==> section_outcome(section@) is None,
        r matches Err(e) ==> section_outcome(section@) == Option::Some(e@),
{
    proof {
        reveal_strlit("\n");
        lemma_split_len(section@, "\n"@);
    }
    let lines = split_by(section, "\n");
    proof {
        assert(strs_view(lines@) == spec_split(section@, "\n"@));
        assert(lines@[0]@ == spec_split(section@, "\n"@)[0]);
    }
    if str_eq(lines[0].as_str(), "License") {
        return Ok(());
    }
    if lines.len() == 1 {
        return Err(CheckError::EmptySection);
    }
    let ghost body = section_body(section@);
    proof {
        assert(body.len() == lines@.len() - 1);
    }
    let mut tools: Vec<Tool> = Vec::new();
    let mut i: usize = 1;
    while i < lines.len()
        invariant
            strs_view(lines@) == spec_split(section@, "\n"@),
            body == section_body(section@),
            lines@.len() > 1,
            body.len() == lines@.len() - 1,
            1 <= i <= lines.len(),
            collect_from(body, 0).0 == tools_view(tools@) + collect_from(body, i - 1).0,
            collect_from(body, 0).1 == collect_from(body, i - 1).1,
        decreases lines.len() - i,
    {
        proof {
            assert(body[i - 1] == spec_split(section@, "\n"@)[i as int]);
            assert(lines@[i as int]@ == spec_split(section@, "\n"@)[i as int]);
        }
        if !skip_line_exec(lines[i].as_str()) {
            match parse_tool(lines[i].as_str()) {
                Err(e) => {
                    proof {
                        lemma_walk_error(body, i - 1, e@);
                    }
                    return Err(e);
                },
                Ok(t) => {
                    proof {
                        lemma_walk_entry(body, i - 1, tools_view(tools@), t@);
                        lemma_tools_view_push(tools@, t);
                        assert(tools_view(tools@) + (seq![t@] + collect_from(body, i as int).0)
                            =~= (tools_view(tools@) + seq![t@]) + collect_from(body, i as int).0);
                    }
                    tools.push(t);
                },
            }
        } else {
            proof {
                assert(collect_from(body, i - 1) == collect_from(body, i as int));
            }
        }
        i = i + 1;
    }
    proof {
        assert(collect_from(body, i - 1).0 =~= Seq::<SpecTool>::empty());
        assert(collect_from(body, 0).0 =~= tools_view(tools@));
        assert(collect_from(body, 0).1 is None);
    }
    check_ordering(tools)
}

/// The top-level sections of a document.
pub open spec fn doc_sections(t: Seq<char>) -> Seq<Seq<char>> {
    spec_split(t, "\n# "@)
}

/// The fragments of one top-level section around the subsection markers;
/// the fragment before the first marker is not validated.
pub open spec fn subs_of(sec: Seq<char>) -> Seq<Seq<char>> {
    spec_split(sec, "## "@)
}

/// First violation among the subsections from index `k` on.
pub open spec fn subs_outcome(subs: Seq<Seq<char>>, k: int) -> Option<SpecError>
    decreases subs.len() - k,
{
    if k >= subs.len() {
        Option::None
    } else {
        match section_outcome(subs[k]) {
            Option::Some(e) => Option::Some(e),
            Option::None => subs_outcome(subs, k + 1),
        }
    }
}

/// First violation among the sections from index `i` on.
pub open spec fn secs_outcome(secs: Seq<Seq<char>>, i: int) -> Option<SpecError>
    decreases secs.len() - i,
{
    if i >= secs.len() {
        Option::None
    } else {
        match subs_outcome(subs_of(secs[i]), 1) {
            Option::Some(e) => Option::Some(e),
            Option::None => secs_outcome(secs, i + 1),
        }
    }
}

/// What validating the whole document yields when every link is
/// reachable: the first two top-level sections are skipped, and the first
/// violation in any later subsection, in document order, is the result.
pub open spec fn doc_outcome(t: Seq<char>) -> Option<SpecError> {
    secs_outcome(doc_sections(t), 2)
}

pub open spec fn subs_probe_free(subs: Seq<Seq<char>>, k: int) -> bool
    decreases subs.len() - k,
{
    k >= subs.len() || (section_probe_free_pass(subs[k]) && subs_probe_free(subs, k + 1))
}

pub open spec fn secs_probe_free(secs: Seq<Seq<char>>, i: int) -> bool
    decreases secs.len() - i,
{
    i >= secs.len() || (subs_probe_free(subs_of(secs[i]), 1) && secs_probe_free(secs, i + 1))
}

/// Every validated subsection of the document passes without a link
/// probe.
pub open spec fn doc_probe_free(t: Seq<char>) -> bool {
    secs_probe_free(doc_sections(t), 2)
}

/// The error a subsection owes before any probe: an empty section, or a
/// violated line before the first entry.  `None` where no error precedes
/// the first probe.
pub open spec fn section_owed_err(s: Seq<char>) -> Option<SpecError> {
    if is_license(s) {
        Option::<SpecError>::None
    } else if spec_split(s, "\n"@).len() <= 1 {
        Option::Some(SpecError::EmptySection)
    } else if section_collect(s).0.len() == 0 && section_collect(s).1 is Some {
        section_collect(s).1
    } else {
        Option::<SpecError>::None
    }
}

/// The error owed by the subsections from `k` on: subsections that pass
/// probe-free are walked over, and the first one that does not decides.
pub open spec fn subs_owed(subs: Seq<Seq<char>>, k: int) -> Option<SpecError>
    decreases subs.len() - k,
{
    if k >= subs.len() {
        Option::<SpecError>::None
    } else if section_probe_free_pass(subs[k]) {
        subs_owed(subs, k + 1)
    } else {
        section_owed_err(subs[k])
    }
}

/// The error owed by the sections from `i` on.
pub open spec fn secs_owed(secs: Seq<Seq<char>>, i: int) -> Option<SpecError>
    decreases secs.len() - i,
{
    if i >= secs.len() {
        Option::<SpecError>::None
    } else if subs_probe_free(subs_of(secs[i]), 1) {
        secs_owed(secs, i + 1)
    } else {
        subs_owed(subs_of(secs[i]), 1)
    }
}

/// The error the whole document owes before any probe: every validated
/// subsection up to some point passes probe-free, and the first one that
/// does not fails before its own first entry.
pub open spec fn doc_owed_err(t: Seq<char>) -> Option<SpecError> {
    secs_owed(doc_sections(t), 2)
}

proof fn lemma_collect_err_structural(lines: Seq<Seq<char>>, i: int)
    requires
        0 <= i,
    ensures
        collect_from(lines, i).1 matches Some(e) ==> !(e is UnreachableLink),
    decreases lines.len() - i,
{
    if i >= lines.len() {
    } else if skip_line(lines[i]) {
        lemma_collect_err_structural(lines, i + 1);
    } else if line_outcome(lines[i]) is Ok {
        lemma_collect_err_structural(lines, i + 1);
    }
}

proof fn lemma_subs_owed_structural(subs: Seq<Seq<char>>, k: int)
    requires
        0 <= k,
    ensures
        subs_owed(subs, k) matches Some(v) ==> !(v is UnreachableLink),
    decreases subs.len() - k,
{
    if k >= subs.len() {
    } else if section_probe_free_pass(subs[k]) {
        lemma_subs_owed_structural(subs, k + 1);
    } else {
        lemma_collect_err_structural(section_body(subs[k]), 0);
    }
}

proof fn lemma_secs_owed_structural(secs: Seq<Seq<char>>, i: int)
    requires
        0 <= i,
    ensures
        secs_owed(secs, i) matches Some(v) ==> !(v is UnreachableLink),
    decreases secs.len() - i,
{
    if i >= secs.len() {
    } else if subs_probe_free(subs_of(secs[i]), 1) {
        lemma_secs_owed_structural(secs, i + 1);
    } else {
        lemma_subs_owed_structural(subs_of(secs[i]), 1);
    }
}

/// An error the document owes before any probe is never an unreachable
/// link: it is an empty section or a violated line.
pub proof fn lemma_doc_owed_structural(t: Seq<char>)
    ensures
        doc_owed_err(t) matches Some(v) ==> !(v is UnreachableLink),
{
    lemma_secs_owed_structural(doc_sections(t), 2);
}

/// Sections before index `i` never influence the walk from `i` on.
pub proof fn lemma_sections_agree(a: Seq<Seq<char>>, b: Seq<Seq<char>>, i: int)
    requires
        a.len() == b.len(),
        2 <= i,
        forall|j: int| 2 <= j < a.len() ==> a[j] == b[j],
    ensures
        secs_outcome(a, i) == secs_outcome(b, i),
    decreases a.len() - i,
{
    if i < a.len() {
        lemma_sections_agree(a, b, i + 1);
    }
}

/// Law of the document validator: the first two top-level sections are
/// never looked at.  Two documents with the same number of sections whose
/// sections agree from the third on validate identically, whatever their
/// first two sections hold.
pub proof fn lemma_doc_prefix_ignored(t1: Seq<char>, t2: Seq<char>)
    requires
        doc_sections(t1).len() == doc_sections(t2).len(),
        forall|j: int| 2 <= j < doc_sections(t1).len() ==> doc_sections(t1)[j] == doc_sections(
            t2,
        )[j],
    ensures
        doc_outcome(t1) == doc_outcome(t2),
{
    lemma_sections_agree(doc_sections(t1), doc_sections(t2), 2);
}

/// Validate a whole document, probing each entry's link.  Success is owed
/// whenever no probe is needed, and so is an error that precedes every
/// probe; a pass implies the document is structurally valid; a structural
/// failure is the document's first violation; an unreachable link is one
/// of a walked entry.
#[verifier::loop_isolation(false)]
pub fn check(text: String) -> (r: Result<(), CheckError>)
    ensures
        doc_probe_free(text@) ==> r is Ok,
        doc_owed_err(text@) matches Some(v) ==> (r matches Err(x) && x@ == v),
        r is Ok ==> doc_outcome(text@) is None,
        r matches Err(e) ==> (!(e@ is UnreachableLink) ==> doc_outcome(text@) == Option::Some(e@)),
        r matches Err(e) ==> (e@ matches SpecError::UnreachableLink(l) ==> exists|si: int, kk: int|
            #![trigger section_has_link(subs_of(doc_sections(text@)[si])[kk], l)]
            2 <= si < doc_sections(text@).len() && 1 <= kk < subs_of(
                doc_sections(text@)[si],
            ).len() && section_has_link(subs_of(doc_sections(text@)[si])[kk], l)),
{
    let ghost secs = doc_sections(text@);
    proof {
        reveal_strlit("\n# ");
        reveal_strlit("## ");
    }
    let sections = split_by(text.as_str(), "\n# ");
    let mut i: usize = 2;
    while i < sections.len()
        invariant
            strs_view(sections@) == secs,
            secs == doc_sections(text@),
            2 <= i,
            i <= sections.len() || i == 2,
            secs_outcome(secs, 2) == secs_outcome(secs, i as int),
            secs_probe_free(secs, 2) ==> secs_probe_free(secs, i as int),
            secs_owed(secs, 2) is Some ==> secs_owed(secs, 2) == secs_owed(secs, i as int),
        decreases sections.len() - i,
    {
        proof {
            assert(sections@[i as int]@ == secs[i as int]);
        }
        let ghost subs_g = subs_of(secs[i as int]);
        let subs = split_by(sections[i].as_str(), "## ");
        let mut k: usize = 1;
        while k < subs.len()
            invariant
                strs_view(subs@) == subs_g,
                subs_g == subs_of(secs[i as int]),
                secs == doc_sections(text@),
                i < sections@.len(),
                strs_view(sections@) == secs,
                2 <= i,
                1 <= k,
                k <= subs.len() || k == 1,
                secs_outcome(secs, 2) == secs_outcome(secs, i as int),
                secs_probe_free(secs, 2) ==> secs_probe_free(secs, i as int),
                secs_owed(secs, 2) is Some ==> secs_owed(secs, 2) == secs_owed(secs, i as int),
                subs_outcome(subs_g, 1) == subs_outcome(subs_g, k as int),
                subs_probe_free(subs_g, 1) ==> subs_probe_free(subs_g, k as int),
                subs_owed(subs_g, 1) is Some ==> subs_owed(subs_g, 1) == subs_owed(
                    subs_g,
                    k as int,
                ),
            decreases subs.len() - k,
        {
            proof {
                assert(subs@[k as int]@ == subs_g[k as int]);
            }
            match check_section(subs[k].clone()) {
                Ok(_) => {
                    proof {
                        assert(subs_outcome(subs_g, k as int) == subs_outcome(subs_g, k + 1));
                        if subs_probe_free(subs_g, k as int) {
                            assert(subs_probe_free(subs_g, k + 1));
                        }
                        if subs_owed(subs_g, 1) is Some {
                            if section_probe_free_pass(subs_g[k as int]) {
                                assert(subs_owed(subs_g, k as int) == subs_owed(subs_g, k + 1));
                            } else {
                                assert(subs_owed(subs_g, k as int) == section_owed_err(
                                    subs_g[k as int],
                                ));
                                assert(false);
                            }
                        }
                    }
                },
                Err(e) => {
                    proof {
                        if !(e@ is UnreachableLink) {
                            assert(subs_outcome(subs_g, k as int) == Option::Some(e@));
                            assert(secs_outcome(secs, i as int) == Option::Some(e@));
                        }
                        if secs_probe_free(secs, 2) {
                            assert(subs_probe_free(subs_g, k as int));
                            assert(section_probe_free_pass(subs_g[k as int]));
                        }
                        if secs_owed(secs, 2) is Some {
                            if subs_probe_free(subs_g, 1) {
                                assert(section_probe_free_pass(subs_g[k as int]));
                                assert(false);
                            }
                            assert(secs_owed(secs, i as int) == subs_owed(subs_g, 1));
                            if section_probe_free_pass(subs_g[k as int]) {
                                assert(false);
                            }
                            assert(subs_owed(subs_g, k as int) == section_owed_err(
                                subs_g[k as int],
                            ));
                            assert(Option::Some(e@) == secs_owed(secs, 2));
                        }
                        if e@ is UnreachableLink {
                            let l = e@->UnreachableLink_0;
                            assert(section_has_link(subs_g[k as int], l));
                            assert(subs_of(doc_sections(text@)[i as int])[k as int] == subs_g[k as int]);
                            assert(section_has_link(
                                subs_of(doc_sections(text@)[i as int])[k as int],
                                l,
                            ));
                        }
                    }
                    return Err(e);
                },
            }
            k = k + 1;
        }
        proof {
            assert(subs_outcome(subs_g, k as int) is None);
            assert(secs_outcome(secs, i as int) == secs_outcome(secs, i + 1));
            if secs_probe_free(secs, i as int) {
                assert(secs_probe_free(secs, i + 1));
            }
            if secs_owed(secs, 2) is Some {
                if subs_probe_free(subs_g, 1) {
                    assert(secs_owed(secs, i as int) == secs_owed(secs, i + 1));
                } else {
                    assert(secs_owed(secs, i as int) == subs_owed(subs_g, 1));
                    assert(subs_owed(subs_g, k as int) is None);
                    assert(false);
                }
            }
        }
        i = i + 1;
    }
    proof {
        assert(secs_outcome(secs, i as int) is None);
        if secs_owed(secs, 2) is Some {
            assert(secs_owed(secs, i as int) is None);
            assert(false);
        }
    }
    Ok(())
}

/// Validate a whole document structurally, as if every link were
/// reachable.  The result is exactly [`doc_outcome`].
#[verifier::loop_isolation(false)]
pub fn check_structure(text: &str) -> (r: Result<(), CheckError>)
    ensures
        r is Ok <==> doc_outcome(text@) is None,
        r matches Err(e) ==> doc_outcome(text@) == Option::Some(e@),
{
    let ghost secs = doc_sections(text@);
    proof {
        reveal_strlit("\n# ");
        reveal_strlit("## ");
    }
    let sections = split_by(text, "\n# ");
    let mut i: usize = 2;
    while i < sections.len()
        invariant
            strs_view(sections@) == secs,
            secs == doc_sections(text@),
            2 <= i,
            i <= sections.len() || i == 2,
            secs_outcome(secs, 2) == secs_outcome(secs, i as int),
        decreases sections.len() - i,
    {
        proof {
            assert(sections@[i as int]@ == secs[i as int]);
        }
        let ghost subs_g = subs_of(secs[i as int]);
        let subs = split_by(sections[i].as_str(), "## ");
        let mut k: usize = 1;
        while k < subs.len()
            invariant
                strs_view(subs@) == subs_g,
                subs_g == subs_of(secs[i as int]),
                secs == doc_sections(text@),
                i < sections@.len(),
                strs_view(sections@) == secs,
                2 <= i,
                1 <= k,
                k <= subs.len() || k == 1,
                secs_outcome(secs, 2) == secs_outcome(secs, i as int),
                subs_outcome(subs_g, 1) == subs_outcome(subs_g, k as int),
            decreases subs.len() - k,
        {
            proof {
                assert(subs@[k as int]@ == subs_g[k as int]);
            }
            match check_section_structure(subs[k].as_str()) {
                Ok(_) => {
                    proof {
                        assert(subs_outcome(subs_g, k as int) == subs_outcome(subs_g, k + 1));
                    }
                },
                Err(e) => {
                    proof {
                        assert(subs_outcome(subs_g, k as int) == Option::Some(e@));
                        assert(secs_outcome(secs, i as int) == Option::Some(e@));
                    }
                    return Err(e);
                },
            }
            k = k + 1;
        }
        proof {
            assert(subs_outcome(subs_g, k as int) is None);
            assert(secs_outcome(secs, i as int) == secs_outcome(secs, i + 1));
        }
        i = i + 1;
    }
    proof {
        assert(secs_outcome(secs, i as int) is None);
    }
    Ok(())
}

} // verus!
