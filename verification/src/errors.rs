//! The reasons a document can fail validation, and the human-readable
//! message that each reason carries to the reported status.

use vstd::prelude::*;
use vstd::string::*;

verus! {

/// Mathematical image of a [`CheckError`].
pub ghost enum SpecError {
    /// A subsection had nothing after its heading line.
    EmptySection,
    /// A content line did not match the entry format; carries the line.
    InvalidSyntax(Seq<char>),
    /// An entry's name exceeded 50 characters; carries the name.
    NameTooLong(Seq<char>),
    /// An entry's description exceeded 200 characters; carries the name
    /// and the description.
    DescriptionTooLong(Seq<char>, Seq<char>),
    /// Fetching an entry's link failed; carries the link.
    UnreachableLink(Seq<char>),
    /// Two adjacent entries were out of order; carries the earlier name.
    OutOfOrder(Seq<char>),
}

/// Why a document failed validation.
#[derive(Debug)]
pub enum CheckError {
    EmptySection,
    InvalidSyntax { line: String },
    NameTooLong { name: String },
    DescriptionTooLong { name: String, desc: String },
    UnreachableLink { link: String },
    OutOfOrder { name: String },
}

impl View for CheckError {
    type V = SpecError;

    open spec fn view(&self) -> SpecError {
        match self {
            CheckError::EmptySection => SpecError::EmptySection,
            CheckError::InvalidSyntax { line } => SpecError::InvalidSyntax(line@),
            CheckError::NameTooLong { name } => SpecError::NameTooLong(name@),
            CheckError::DescriptionTooLong { name, desc } => SpecError::DescriptionTooLong(
                name@,
                desc@,
            ),
            CheckError::UnreachableLink { link } => SpecError::UnreachableLink(link@),
            CheckError::OutOfOrder { name } => SpecError::OutOfOrder(name@),
        }
    }
}

/// An operational failure (a link that could not be fetched) surfaces as
/// the `Error` status; every other reason is a rule violation and surfaces
/// as `Failure`.
pub open spec fn spec_is_operational(e: SpecError) -> bool {
    e is UnreachableLink
}

/// The reason string attached to the reported status for each error.
pub open spec fn spec_message(e: SpecError) -> Seq<char> {
    match e {
        SpecError::EmptySection => "A tool section may not be empty"@,
        SpecError::InvalidSyntax(line) => "Invalid syntax for tool: "@ + line,
        SpecError::NameTooLong(name) => "Name of tool is suspiciously long: `"@ + name + "`"@,
        SpecError::DescriptionTooLong(name, desc) => "Desription of `"@ + name
            + "` is too long: "@ + desc,
        SpecError::UnreachableLink(link) => "Unreachable link: "@ + link,
        SpecError::OutOfOrder(name) => "`"@ + name + "` does not conform to alphabetical ordering"@,
    }
}

impl CheckError {
    /// Whether this error surfaces as `Error` rather than `Failure`.
    pub fn is_operational(&self) -> (r: bool)
        ensures
            r == spec_is_operational(self@),
    {
        match self {
            CheckError::UnreachableLink { .. } => true,
            _ => false,
        }
    }

    /// The human-readable reason carried to the reported status.
    pub fn message(&self) -> (r: String)
        ensures
            r@ == spec_message(self@),
    {
        match self {
            CheckError::EmptySection => "A tool section may not be empty".to_owned(),
            CheckError::InvalidSyntax { line } => {
                let mut m = "Invalid syntax for tool: ".to_owned();
                m.append(line.as_str());
                m
            },
            CheckError::NameTooLong { name } => {
                let mut m = "Name of tool is suspiciously long: `".to_owned();
                m.append(name.as_str());
                m.append("`");
                m
            },
            CheckError::DescriptionTooLong { name, desc } => {
                let mut m = "Desription of `".to_owned();
                m.append(name.as_str());
                m.append("` is too long: ");
                m.append(desc.as_str());
                m
            },
            CheckError::UnreachableLink { link } => {
                let mut m = "Unreachable link: ".to_owned();
                m.append(link.as_str());
                m
            },
            CheckError::OutOfOrder { name } => {
                let mut m = "`".to_owned();
                m.append(name.as_str());
                m.append("` does not conform to alphabetical ordering");
                m
            },
        }
    }
}

} // verus!
