//! OWL 2 profiles, their diagnostics and the engine each profile is routed to.
use vstd::prelude::*;

verus! {

/// Detected OWL 2 profile.
#[derive(Debug, Clone, Copy, PartialEq, Eq, Structural)]
pub enum OwlProfile {
    /// OWL 2 EL.
    El,
    /// OWL 2 RL.
    Rl,
    /// OWL 2 QL.
    Ql,
    /// OWL 2 DL (fallback).
    Dl,
}

/// Diagnostic emitted when unsupported constructs are encountered.
pub struct ProfileDiagnostic {
    /// Construct name (debug representation).
    pub construct: String,
    /// Human-readable explanation.
    pub message: String,
}

/// Profile detection report for an ontology.
pub struct ProfileReport {
    /// Most specific detected profile, if any.
    pub detected: Option<OwlProfile>,
    /// Constructs outside the detected profile or mapping gaps.
    pub diagnostics: Vec<ProfileDiagnostic>,
}

/// The engine that classifies modules of a profile: QL modules go to the EL engine.
pub open spec fn engine_name(profile: OwlProfile) -> Seq<char> {
    match profile {
        OwlProfile::El | OwlProfile::Ql => "el"@,
        OwlProfile::Rl => "rl"@,
        OwlProfile::Dl => "dl"@,
    }
}

/// Route module to engine name for conformance / CLI.
pub fn engine_for_profile(profile: OwlProfile) -> (r: &'static str)
    ensures
        r@ == engine_name(profile),
{
    match profile {
        OwlProfile::El | OwlProfile::Ql => "el",
        OwlProfile::Rl => "rl",
        OwlProfile::Dl => "dl",
    }
}

/// The diagnostic for a source whose constructs produced no mapped TBox axiom.
pub fn skipped_only_dl_diagnostic() -> (r: ProfileDiagnostic)
    ensures
        r.construct@ == "SkippedAxioms"@,
        r.message@ == "source contains constructs but no mapped TBox axioms; classified as DL"@,
{
    ProfileDiagnostic {
        construct: String::from_str("SkippedAxioms"),
        message: String::from_str(
            "source contains constructs but no mapped TBox axioms; classified as DL",
        ),
    }
}

} // verus!
