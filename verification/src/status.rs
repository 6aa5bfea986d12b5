//! The status reporter: the four externally visible states, their wire
//! strings, the truncation rule for descriptions, and the mapping from an
//! analysis outcome to the terminal report.

use vstd::prelude::*;
use vstd::string::*;
use crate::errors::{spec_is_operational, spec_message, CheckError};
use crate::validate::{check, doc_outcome, doc_owed_err, doc_probe_free, lemma_doc_owed_structural};

verus! {

/// The state reported against a commit.  `Pending` is published when the
/// analysis starts; exactly one of the other three concludes it.
#[derive(Clone, Copy, PartialEq, Eq, Structural, Debug)]
pub enum Status {
    Pending,
    Success,
    Failure,
    Error,
}

/// The wire string of each state.
pub open spec fn spec_wire(s: Status) -> Seq<char> {
    match s {
        Status::Pending => "pending"@,
        Status::Success => "success"@,
        Status::Failure => "failure"@,
        Status::Error => "error"@,
    }
}

impl Status {
    /// The string carried in the `state` field of a published status.
    pub fn wire_str(&self) -> (r: &'static str)
        ensures
            r@ == spec_wire(*self),
    {
        match self {
            Status::Pending => "pending",
            Status::Success => "success",
            Status::Failure => "failure",
            Status::Error => "error",
        }
    }
}

/// A description cut to at most 140 characters.
pub open spec fn spec_truncated(s: Seq<char>) -> Seq<char> {
    if s.len() <= 140 {
        s
    } else {
        s.subrange(0, 140)
    }
}

/// Cut a description to at most 140 characters, as published terminal
/// descriptions must be.
pub fn truncate_description(s: &str) -> (r: String)
    ensures
        r@ == spec_truncated(s@),
{
    let n = s.unicode_len();
    if n <= 140 {
        proof {
            assert(s@.subrange(0, n as int) =~= s@);
        }
        s.to_owned()
    } else {
        s.substring_char(0, 140).to_owned()
    }
}

/// The fixed report published when an analysis starts.
pub fn pending_report() -> (r: (Status, String))
    ensures
        r.0 == Status::Pending,
        r.1@ == "Analysis started"@,
{
    (Status::Pending, "Analysis started".to_owned())
}

/// The terminal report for a finished validation: `Success` with the
/// fixed message on a pass; on an error, `Error` for an operational
/// failure and `Failure` for a rule violation, with the error's message
/// truncated to 140 characters.
pub fn report_for(outcome: &Result<(), CheckError>) -> (r: (Status, String))
    ensures
        outcome is Ok ==> r.0 == Status::Success && r.1@ == "Build successful"@,
        outcome matches Err(e) ==> (r.0 == (if spec_is_operational(e@) {
            Status::Error
        } else {
            Status::Failure
        }) && r.1@ == spec_truncated(spec_message(e@))),
{
    match outcome {
        Ok(_) => (Status::Success, "Build successful".to_owned()),
        Err(e) => {
            let status = if e.is_operational() {
                Status::Error
            } else {
                Status::Failure
            };
            let msg = e.message();
            (status, truncate_description(msg.as_str()))
        },
    }
}

/// The terminal report for a fetched document: the document is validated
/// and the outcome reported as [`report_for`] says.  A fetch that failed
/// is an operational failure: `Error`, with the fetch error's message
/// truncated.  A document that passes without a probe is owed `Success`;
/// one whose first violation precedes every probe is owed `Failure` with
/// that violation's truncated message.
pub fn conclude(fetched: Result<String, String>) -> (r: (Status, String))
    ensures
        fetched matches Err(m) ==> r.0 == Status::Error && r.1@ == spec_truncated(m@),
        fetched is Ok ==> (r.0 == Status::Success || r.0 == Status::Failure || r.0
            == Status::Error),
        fetched matches Ok(text) && doc_probe_free(text@) ==> r.0 == Status::Success,
        fetched matches Ok(text) ==> (doc_owed_err(text@) matches Some(v) ==> r.0
            == Status::Failure && r.1@ == spec_truncated(spec_message(v))),
        fetched matches Ok(text) ==> (r.0 == Status::Success ==> doc_outcome(text@) is None
            && r.1@ == "Build successful"@),
        fetched matches Ok(text) ==> (r.0 == Status::Failure ==> (doc_outcome(text@) matches Some(
            v,
        ) && r.1@ == spec_truncated(spec_message(v)))),
{
    match fetched {
        Err(m) => (Status::Error, truncate_description(m.as_str())),
        Ok(text) => {
            proof {
                lemma_doc_owed_structural(text@);
            }
            report_for(&check(text))
        },
    }
}

/// Whether a pull-request action triggers an analysis: only `opened`,
/// `reopened`, `edited` and `synchronized` do.
pub fn action_triggers_analysis(action: &str) -> (r: bool)
    ensures
        r == (action@ == "opened"@ || action@ == "reopened"@ || action@ == "edited"@ || action@
            == "synchronized"@),
{
    crate::text::str_eq(action, "opened") || crate::text::str_eq(action, "reopened")
        || crate::text::str_eq(action, "edited") || crate::text::str_eq(action, "synchronized")
}

/// The endpoint a status for `repo` at commit `sha` is published to.
pub fn status_url(repo: &str, sha: &str) -> (r: String)
    ensures
        r@ == "https://api.github.com/repos/"@ + repo@ + "/statuses/"@ + sha@,
{
    let mut url = "https://api.github.com/repos/".to_owned();
    url.append(repo);
    url.append("/statuses/");
    url.append(sha);
    url
}

} // verus!
