//! Resource limits for ontology parsing.
use vstd::prelude::*;

verus! {

/// Resource limits for OWL file parsing, enforced before large in-memory structures are built.
#[derive(Debug, Clone, Copy, PartialEq, Eq, Structural)]
pub struct ParseLimits {
    /// Maximum ontology file size in bytes.
    pub max_file_bytes: usize,
    /// Maximum axioms stored in the core model.
    pub max_axioms: usize,
    /// Maximum entities registered during parse.
    pub max_entities: usize,
    /// Maximum expanded RDF/XML size after entity expansion (defaults to 4× `max_file_bytes`).
    pub max_expanded_bytes: usize,
    /// Cumulative allocation budget across RDF/XML preprocessing stages.
    pub max_preprocess_bytes: usize,
    /// Maximum harvested RDF/XML assertions converted to OFN supplements per load.
    pub max_harvested_assertions: usize,
    /// When true, return an error if axioms or entities are skipped due to limits.
    pub strict: bool,
    /// When true, resolve and merge `owl:imports` for RDF/XML ontologies (off by default).
    pub merge_imports: bool,
    /// When true, run post-load validation on successful parses.
    pub validate_output: bool,
}

/// `a * b`, or `usize::MAX` when the product does not fit (`usize::saturating_mul`).
pub open spec fn sat_mul(a: usize, b: usize) -> usize {
    if a * b > usize::MAX {
        usize::MAX
    } else {
        (a * b) as usize
    }
}

fn saturating_mul(a: usize, b: usize) -> (r: usize)
    ensures
        r == sat_mul(a, b),
{
    match a.checked_mul(b) {
        Some(p) => p,
        None => usize::MAX,
    }
}

/// The default file-size limit: 64 MiB.
pub open spec fn default_max_file_bytes() -> usize {
    67108864usize
}

/// The default limits.
pub open spec fn default_limits() -> ParseLimits {
    ParseLimits {
        max_file_bytes: default_max_file_bytes(),
        max_axioms: 10_000_000,
        max_entities: 1_000_000,
        max_expanded_bytes: sat_mul(default_max_file_bytes(), 4),
        max_preprocess_bytes: sat_mul(default_max_file_bytes(), 8),
        max_harvested_assertions: 100_000,
        strict: true,
        merge_imports: false,
        validate_output: true,
    }
}

impl Default for ParseLimits {
    fn default() -> (r: Self)
        ensures
            r == default_limits(),
    {
        let max_file_bytes: usize = 64 * 1024 * 1024;
        ParseLimits {
            max_file_bytes,
            max_axioms: 10_000_000,
            max_entities: 1_000_000,
            max_expanded_bytes: saturating_mul(max_file_bytes, 4),
            max_preprocess_bytes: saturating_mul(max_file_bytes, 8),
            max_harvested_assertions: 100_000,
            strict: true,
            merge_imports: false,
            validate_output: true,
        }
    }
}

impl ParseLimits {
    /// Build limits with `max_expanded_bytes` and `max_preprocess_bytes` derived from
    /// `max_file_bytes`; the other limits are the defaults.
    pub fn with_file_bytes(max_file_bytes: usize) -> (r: Self)
        ensures
            r == (ParseLimits {
                max_file_bytes,
                max_expanded_bytes: sat_mul(max_file_bytes, 4),
                max_preprocess_bytes: sat_mul(max_file_bytes, 8),
                ..default_limits()
            }),
    {
        ParseLimits {
            max_file_bytes,
            max_expanded_bytes: saturating_mul(max_file_bytes, 4),
            max_preprocess_bytes: saturating_mul(max_file_bytes, 8),
            ..Self::default()
        }
    }

    /// Lenient limits: skipped axioms and incompatible declarations warn instead of failing,
    /// and the output is not validated; the other limits are the defaults.
    pub fn lenient() -> (r: Self)
        ensures
            r == (ParseLimits { strict: false, validate_output: false, ..default_limits() }),
    {
        ParseLimits { strict: false, validate_output: false, ..Self::default() }
    }
}

/// The default expanded-size limit is four times the default file limit, and the default
/// preprocessing budget eight times.
pub proof fn lemma_default_limits_scale_file_limit()
    ensures
        default_limits().max_expanded_bytes == 4 * default_limits().max_file_bytes,
        default_limits().max_preprocess_bytes == 8 * default_limits().max_file_bytes,
{
}

} // verus!
