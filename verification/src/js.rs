//! Error codes and count conversions of the host bindings.
use vstd::prelude::*;

use crate::format::{ascii_lower, ascii_lower_exec};
use crate::hybrid::ReasonerProfile;
use crate::lexical::{debug_quoted, quoted};
use crate::text::{chars_of, decimal, push_all, push_decimal, push_str, string_of};
use crate::xml::vec_eq;

verus! {

/// Binding error surfaced to host callers.
pub enum JsError {
    /// Parse or serialization failure.
    Parse(String),
    /// Resource limit exceeded.
    ResourceLimit(String),
    /// Reasoning did not complete (budget/tableau limit).
    IncompleteReasoning,
    /// General failure.
    Other(String),
    /// Shared ontology was modified concurrently.
    OntologyConflict,
}

/// The code that names each kind of binding error.
pub open spec fn js_error_code(e: &JsError) -> Seq<char> {
    match e {
        JsError::Parse(_) => "ParseError"@,
        JsError::ResourceLimit(_) => "ResourceLimitError"@,
        JsError::IncompleteReasoning => "IncompleteReasoningError"@,
        JsError::OntologyConflict => "OntologyConflictError"@,
        JsError::Other(_) => "Error"@,
    }
}

impl JsError {
    /// Error code for typed exception mapping in host bindings.
    pub fn code(&self) -> (r: &'static str)
        ensures
            r@ == js_error_code(self),
    {
        match self {
            JsError::Parse(_) => "ParseError",
            JsError::ResourceLimit(_) => "ResourceLimitError",
            JsError::IncompleteReasoning => "IncompleteReasoningError",
            JsError::OntologyConflict => "OntologyConflictError",
            JsError::Other(_) => "Error",
        }
    }
}

/// The message of the error for a count that does not fit in `u32`.
pub open spec fn count_overflow_message(count: nat) -> Seq<char> {
    "count "@ + decimal(count) + " exceeds maximum u32 value"@
}

/// Convert a usize count to u32 for host bindings, rejecting overflow.
pub fn usize_to_u32(count: usize) -> (r: Result<u32, JsError>)
    ensures
        count <= u32::MAX ==> r == Ok::<u32, JsError>(count as u32),
        count > u32::MAX ==> (r matches Err(JsError::ResourceLimit(m)) && m@
            == count_overflow_message(count as nat)),
{
    if count <= 0xffff_ffff {
        Ok(count as u32)
    } else {
        let mut out: Vec<char> = Vec::new();
        push_str(&mut out, "count ");
        push_decimal(&mut out, count);
        push_str(&mut out, " exceeds maximum u32 value");
        Err(JsError::ResourceLimit(string_of(&out)))
    }
}


/// The reasoner profile a lower-case name selects: `auto`, `rdfs`, `rl`, `el`, `alc` or `dl`
/// (both OWL 2 DL), `dl-preview` or `dl_preview`, and `swrl`.
pub open spec fn profile_named(name: Seq<char>) -> Option<ReasonerProfile> {
    if name == "auto"@ {
        Some(ReasonerProfile::Auto)
    } else if name == "rdfs"@ {
        Some(ReasonerProfile::Rdfs)
    } else if name == "rl"@ {
        Some(ReasonerProfile::Rl)
    } else if name == "el"@ {
        Some(ReasonerProfile::El)
    } else if name == "alc"@ || name == "dl"@ {
        Some(ReasonerProfile::Dl)
    } else if name == "dl-preview"@ || name == "dl_preview"@ {
        Some(ReasonerProfile::DlPreview)
    } else if name == "swrl"@ {
        Some(ReasonerProfile::Swrl)
    } else {
        None
    }
}

/// `unsupported profile {name:?}; use auto, rdfs, rl, el, dl, or dl-preview`.
pub open spec fn unsupported_profile_message(name: Seq<char>) -> Seq<char> {
    "unsupported profile "@ + debug_quoted(name) + "; use auto, rdfs, rl, el, dl, or dl-preview"@
}

fn is_name(name: &Vec<char>, lit: &str) -> (r: bool)
    ensures
        r == (name@ == lit@),
{
    vec_eq(name, &chars_of(lit))
}

/// Parse a reasoner profile name, case-insensitively; no name means `auto`.
pub fn parse_profile(profile: Option<&str>) -> (r: Result<ReasonerProfile, JsError>)
    ensures
        ({
            let name = ascii_lower(
                match profile {
                    Some(p) => p@,
                    None => "auto"@,
                },
            );
            match profile_named(name) {
                Some(p) => r == Ok::<ReasonerProfile, JsError>(p),
                None => r matches Err(JsError::Other(m)) && m@ == unsupported_profile_message(name),
            }
        }),
        profile is None ==> r == Ok::<ReasonerProfile, JsError>(ReasonerProfile::Auto),
{
    proof {
        reveal_strlit("auto");
        assert(ascii_lower("auto"@) =~= "auto"@);
    }
    let raw = match profile {
        Some(p) => chars_of(p),
        None => chars_of("auto"),
    };
    let name = ascii_lower_exec(&raw);
    if is_name(&name, "auto") {
        Ok(ReasonerProfile::Auto)
    } else if is_name(&name, "rdfs") {
        Ok(ReasonerProfile::Rdfs)
    } else if is_name(&name, "rl") {
        Ok(ReasonerProfile::Rl)
    } else if is_name(&name, "el") {
        Ok(ReasonerProfile::El)
    } else if is_name(&name, "alc") || is_name(&name, "dl") {
        Ok(ReasonerProfile::Dl)
    } else if is_name(&name, "dl-preview") || is_name(&name, "dl_preview") {
        Ok(ReasonerProfile::DlPreview)
    } else if is_name(&name, "swrl") {
        Ok(ReasonerProfile::Swrl)
    } else {
        let shown = string_of(&name);
        let mut m = chars_of("unsupported profile ");
        let q = quoted(shown.as_str());
        push_all(&mut m, &chars_of(q.as_str()));
        push_str(&mut m, "; use auto, rdfs, rl, el, dl, or dl-preview");
        Err(JsError::Other(string_of(&m)))
    }
}

} // verus!
