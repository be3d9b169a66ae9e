//! Merging `owl:imports`: whether an imported ontology fits under the parse limits, and the
//! import IRIs that the conformance corpus maps to local files.
use vstd::prelude::*;

use crate::budget::sat_add;
use crate::error::Error;
use crate::limits::ParseLimits;
use crate::text::{
    chars_of, decimal, last_index_of, last_index_of_exec, lemma_rfind_bounds, rfind, push_all, push_decimal, push_str, slice,
    starts_with, starts_with_exec, string_of,
};
use crate::xml::vec_eq;

verus! {

/// What becomes of an imported ontology that fits the strictness of the load.
#[derive(Debug, PartialEq, Eq)]
pub enum ImportMerge {
    /// Merge it.
    Merge,
    /// Skip it, with this warning.
    Skip(String),
}

/// `import merge would exceed {kind} limit {limit} (current {current} + import {imported})`.
pub open spec fn import_limit_message(kind: Seq<char>, limit: nat, current: nat, imported: nat) -> Seq<char> {
    "import merge would exceed "@ + kind + " limit "@ + decimal(limit) + " (current "@ + decimal(current)
        + " + import "@ + decimal(imported) + ")"@
}

/// `skipping import {iri}: would exceed {kind} limit {limit}`.
pub open spec fn import_skip_message(iri: Seq<char>, kind: Seq<char>, limit: nat) -> Seq<char> {
    "skipping import "@ + iri + ": would exceed "@ + kind + " limit "@ + decimal(limit)
}

/// The decision for one import: when the axioms, or else the entities, of the ontology and the
/// import together (saturating) exceed their limit, a strict load fails and another skips the
/// import with a warning; otherwise the import is merged.
pub open spec fn import_decision(
    limits: ParseLimits,
    iri: Seq<char>,
    current_axioms: nat,
    import_axioms: nat,
    current_entities: nat,
    import_entities: nat,
) -> Result<ImportMergeView, Seq<char>> {
    if sat_add(current_axioms as int, import_axioms as int) > limits.max_axioms {
        if limits.strict {
            Err(import_limit_message("axiom"@, limits.max_axioms as nat, current_axioms, import_axioms))
        } else {
            Ok(ImportMergeView::Skip(import_skip_message(iri, "axiom"@, limits.max_axioms as nat)))
        }
    } else if sat_add(current_entities as int, import_entities as int) > limits.max_entities {
        if limits.strict {
            Err(import_limit_message("entity"@, limits.max_entities as nat, current_entities, import_entities))
        } else {
            Ok(ImportMergeView::Skip(import_skip_message(iri, "entity"@, limits.max_entities as nat)))
        }
    } else {
        Ok(ImportMergeView::Merge)
    }
}

/// An import decision, as sequences.
pub enum ImportMergeView {
    /// Merge the import.
    Merge,
    /// Skip it, with this warning.
    Skip(Seq<char>),
}

/// The view of a decision.
pub open spec fn decision_view(r: Result<ImportMerge, Error>) -> Result<ImportMergeView, Seq<char>> {
    match r {
        Ok(ImportMerge::Merge) => Ok(ImportMergeView::Merge),
        Ok(ImportMerge::Skip(w)) => Ok(ImportMergeView::Skip(w@)),
        Err(Error::Parse(m)) => Err(m@),
        Err(Error::UnsupportedFormat(m)) => Err("unsupported format: "@ + m@),
    }
}

fn limit_message(kind: &str, limit: usize, current: usize, imported: usize) -> (r: String)
    ensures
        r@ == import_limit_message(kind@, limit as nat, current as nat, imported as nat),
{
    let mut m = chars_of("import merge would exceed ");
    push_str(&mut m, kind);
    push_str(&mut m, " limit ");
    push_decimal(&mut m, limit);
    push_str(&mut m, " (current ");
    push_decimal(&mut m, current);
    push_str(&mut m, " + import ");
    push_decimal(&mut m, imported);
    push_str(&mut m, ")");
    string_of(&m)
}

fn skip_message(iri: &str, kind: &str, limit: usize) -> (r: String)
    ensures
        r@ == import_skip_message(iri@, kind@, limit as nat),
{
    let mut m = chars_of("skipping import ");
    push_all(&mut m, &chars_of(iri));
    push_str(&mut m, ": would exceed ");
    push_str(&mut m, kind);
    push_str(&mut m, " limit ");
    push_decimal(&mut m, limit);
    string_of(&m)
}

/// Decide whether an imported ontology is merged, skipped with a warning, or fails the load.
pub fn import_merge_decision(
    limits: ParseLimits,
    import_iri: &str,
    current_axioms: usize,
    import_axioms: usize,
    current_entities: usize,
    import_entities: usize,
) -> (r: Result<ImportMerge, Error>)
    ensures
        decision_view(r) == import_decision(
            limits,
            import_iri@,
            current_axioms as nat,
            import_axioms as nat,
            current_entities as nat,
            import_entities as nat,
        ),
        r is Err ==> r matches Err(Error::Parse(_)),
{
    if current_axioms.saturating_add(import_axioms) > limits.max_axioms {
        if limits.strict {
            return Err(Error::Parse(limit_message("axiom", limits.max_axioms, current_axioms, import_axioms)));
        }
        return Ok(ImportMerge::Skip(skip_message(import_iri, "axiom", limits.max_axioms)));
    }
    if current_entities.saturating_add(import_entities) > limits.max_entities {
        if limits.strict {
            return Err(Error::Parse(limit_message("entity", limits.max_entities, current_entities, import_entities)));
        }
        return Ok(ImportMerge::Skip(skip_message(import_iri, "entity", limits.max_entities)));
    }
    Ok(ImportMerge::Merge)
}


/// The import IRI whose file is `families.owl` beside the importing file.
pub open spec fn families_iri() -> Seq<char> {
    "http://www.owllink.org/ontologies/families"@
}

/// The prefix under which an import IRI names a file beside the importing file.
pub open spec fn iyouit_prefix() -> Seq<char> {
    "http://www.iyouit.eu/"@
}

/// The local files of an import: `families.owl` for the families IRI, then the file named after
/// the IYOUIT prefix, if the IRI has it.
pub open spec fn sibling_import_files(iri: Seq<char>) -> Seq<Seq<char>> {
    (if iri == families_iri() { seq!["families.owl"@] } else { Seq::empty() }) + (if iri.len()
        >= iyouit_prefix().len() && iri.take(iyouit_prefix().len() as int) == iyouit_prefix() {
        seq![iri.skip(iyouit_prefix().len() as int)]
    } else {
        Seq::empty()
    })
}

/// The file names, beside the importing file, to try for an import IRI, in order.
pub fn sibling_import_candidates(import_iri: &str) -> (r: Vec<String>)
    ensures
        r@.map_values(|s: String| s@) == sibling_import_files(import_iri@),
{
    let s = chars_of(import_iri);
    let fam = chars_of("http://www.owllink.org/ontologies/families");
    let pre = chars_of("http://www.iyouit.eu/");
    let mut out: Vec<String> = Vec::new();
    if vec_eq(&s, &fam) {
        out.push(String::from_str("families.owl"));
    }
    let ghost first = out@;
    if starts_with_exec(&s, &pre) {
        let rest = slice(&s, pre.len(), s.len());
        out.push(string_of(&rest));
        assert(rest@ =~= s@.skip(pre@.len() as int));
    }
    proof {
        assert(starts_with(s@, pre@) == (s@.len() >= pre@.len() && s@.take(pre@.len() as int) == pre@)) by {
            if s@.len() >= pre@.len() && s@.take(pre@.len() as int) == pre@ {
                assert(s@.subrange(0, pre@.len() as int) =~= s@.take(pre@.len() as int));
            }
            if starts_with(s@, pre@) {
                assert(s@.subrange(0, pre@.len() as int) =~= s@.take(pre@.len() as int));
            }
        }
        assert(out@.map_values(|x: String| x@) =~= sibling_import_files(import_iri@));
    }
    out
}

/// The premise that a Web Ontology test case imports from its companion case, by the case's
/// directory and the last segment of the import IRI.
pub open spec fn companion_premise(case_dir: Seq<char>, suffix: Seq<char>) -> Option<Seq<char>> {
    if case_dir == "TestCase-3AWebOnt-2Dmiscellaneous-2D001"@ && suffix == "consistent001"@ {
        Some("TestCase-3AWebOnt-2Dmiscellaneous-2D002/premise.rdf"@)
    } else if case_dir == "TestCase-3AWebOnt-2Dmiscellaneous-2D002"@ && suffix == "consistent002"@ {
        Some("TestCase-3AWebOnt-2Dmiscellaneous-2D001/premise.rdf"@)
    } else {
        None
    }
}

/// The companion premise, relative to the test cases' directory, that an import resolves to.
pub fn companion_premise_path(case_dir: &str, suffix: &str) -> (r: Option<&'static str>)
    ensures
        match r {
            Some(p) => companion_premise(case_dir@, suffix@) == Some(p@),
            None => companion_premise(case_dir@, suffix@) is None,
        },
{
    let d = chars_of(case_dir);
    let x = chars_of(suffix);
    if vec_eq(&d, &chars_of("TestCase-3AWebOnt-2Dmiscellaneous-2D001")) && vec_eq(&x, &chars_of("consistent001")) {
        Some("TestCase-3AWebOnt-2Dmiscellaneous-2D002/premise.rdf")
    } else if vec_eq(&d, &chars_of("TestCase-3AWebOnt-2Dmiscellaneous-2D002")) && vec_eq(&x, &chars_of("consistent002")) {
        Some("TestCase-3AWebOnt-2Dmiscellaneous-2D001/premise.rdf")
    } else {
        None
    }
}

/// The text after the last `/` of an IRI (all of it when it has none).
pub open spec fn last_segment(iri: Seq<char>) -> Seq<char> {
    match last_index_of(iri, '/') {
        Some(i) => iri.skip(i + 1),
        None => iri,
    }
}

/// The last `/`-separated segment of an import IRI.
pub fn import_iri_last_segment(import_iri: &str) -> (r: String)
    ensures
        r@ == last_segment(import_iri@),
{
    let s = chars_of(import_iri);
    match last_index_of_exec(&s, '/') {
        Some(i) => {
            proof {
                lemma_rfind_bounds(s@, seq!['/']);
                assert(rfind(s@, seq!['/']) == Some(i as int));
                assert(seq!['/'].len() == 1);
                assert(i + 1 <= s.len());
            }
            let rest = slice(&s, i + 1, s.len());
            assert(rest@ =~= s@.skip(i + 1));
            string_of(&rest)
        },
        None => string_of(&s),
    }
}

} // verus!
