//! The catalog entry: a tool with a name, a link and a description, ordered
//! case-insensitively by name.

use vstd::prelude::*;
use vstd::string::*;
use crate::text::{lex_le, str_lex_le};

verus! {

/// Mathematical image of a [`Tool`]: its three fields as character
/// sequences.
pub ghost struct SpecTool {
    pub name: Seq<char>,
    pub link: Seq<char>,
    pub desc: Seq<char>,
}

/// One catalog entry, extracted from a list line of the document.
pub struct Tool {
    pub name: String,
    pub link: String,
    pub desc: String,
}

impl View for Tool {
    type V = SpecTool;

    open spec fn view(&self) -> SpecTool {
        SpecTool { name: self.name@, link: self.link@, desc: self.desc@ }
    }
}

impl Tool {
    pub fn new(name: String, link: String, desc: String) -> (t: Tool)
        ensures
            t@ == (SpecTool { name: name@, link: link@, desc: desc@ }),
    {
        Tool { name, link, desc }
    }
}

/// The case folding of a character sequence, as `str::to_lowercase`
/// computes it.
pub uninterp spec fn lower_of(s: Seq<char>) -> Seq<char>;

/// Relies on `str::to_lowercase`: the result is a function of the
/// characters of `s` alone.
#[verifier::external_body]
fn lowercase(s: &str) -> (r: String)
    ensures
        r@ == lower_of(s@),
{
    s.to_lowercase()
}

/// The key under which a tool is ordered: its case-folded name.
pub open spec fn tool_key(t: SpecTool) -> Seq<char> {
    lower_of(t.name)
}

/// `a` precedes or ties `b` in the catalog order: lexicographic comparison
/// of the case-folded names.
pub open spec fn tool_le(a: SpecTool, b: SpecTool) -> bool {
    lex_le(tool_key(a), tool_key(b))
}

/// Exec comparison of two tools under the catalog order.
pub fn tool_le_exec(a: &Tool, b: &Tool) -> (r: bool)
    ensures
        r == tool_le(a@, b@),
{
    let la = lowercase(a.name.as_str());
    let lb = lowercase(b.name.as_str());
    str_lex_le(la.as_str(), lb.as_str())
}

} // verus!
