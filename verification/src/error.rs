//! The error kinds of a run.

use vstd::prelude::*;

verus! {

/// What can end a run early.
#[derive(Debug)]
pub enum ParseError {
    /// Reading the input or writing an output failed; holds a description.
    Io(String),
    /// The markup could not be handled; holds a description.
    Html(String),
    /// The document holds no table with the expected class.
    NoTable,
}

impl ParseError {
    /// A human-readable description of the error.
    pub fn message(&self) -> (r: String)
        ensures
            match *self {
                ParseError::Io(m) => r@ == "IO error: "@ + m@,
                ParseError::Html(m) => r@ == "HTML parsing error: "@ + m@,
                ParseError::NoTable => r@ == "No table found with class 'org-data-table'"@,
            },
    {
        match self {
            ParseError::Io(m) => String::from_str("IO error: ").concat(m.as_str()),
            ParseError::Html(m) => String::from_str("HTML parsing error: ").concat(m.as_str()),
            ParseError::NoTable => String::from_str("No table found with class 'org-data-table'"),
        }
    }
}

} // verus!
