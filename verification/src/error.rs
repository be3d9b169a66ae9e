//! Errors of the parser front end.
use vstd::prelude::*;

use crate::text::{chars_of, push_all, push_str, string_of};

verus! {

/// Errors returned while detecting formats and preparing documents.
#[derive(Debug)]
pub enum Error {
    /// File extension or content is not a supported OWL/RDF format.
    UnsupportedFormat(String),
    /// Parse or size-limit failure.
    Parse(String),
}

impl Error {
    /// The text that describes the error: `unsupported format: ...` or `parse error: ...`.
    pub open spec fn text(&self) -> Seq<char> {
        match self {
            Error::UnsupportedFormat(m) => "unsupported format: "@ + m@,
            Error::Parse(m) => "parse error: "@ + m@,
        }
    }

    /// The error's description, as its display form shows it.
    pub fn to_string(&self) -> (r: String)
        ensures
            r@ == self.text(),
    {
        let mut out: Vec<char> = Vec::new();
        match self {
            Error::UnsupportedFormat(m) => {
                push_str(&mut out, "unsupported format: ");
                let mv = chars_of(m.as_str());
                push_all(&mut out, &mv);
            },
            Error::Parse(m) => {
                push_str(&mut out, "parse error: ");
                let mv = chars_of(m.as_str());
                push_all(&mut out, &mv);
            },
        }
        string_of(&out)
    }
}

} // verus!
