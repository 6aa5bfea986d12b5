//! Validation of a curated markdown catalog of tools.
//!
//! The library splits a document into sections and subsections, extracts
//! catalog entries from list lines, checks each entry's name and
//! description lengths and its link's reachability, verifies the
//! case-insensitive alphabetical ordering of every subsection, and maps
//! the outcome to one of the four commit statuses that are reported back.

pub mod errors;
pub mod parse;
pub mod status;
pub mod text;
pub mod tool;
pub mod validate;
