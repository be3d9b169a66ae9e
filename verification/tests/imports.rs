use ontologos::error::Error;
use ontologos::imports::{
    companion_premise_path, import_iri_last_segment, import_merge_decision, sibling_import_candidates,
    ImportMerge,
};
use ontologos::limits::ParseLimits;

fn limits(max_axioms: usize, max_entities: usize, strict: bool) -> ParseLimits {
    let mut l = ParseLimits::default();
    l.max_axioms = max_axioms;
    l.max_entities = max_entities;
    l.strict = strict;
    l
}

#[test]
fn import_within_limits_is_merged() {
    let d = import_merge_decision(limits(10, 10, true), "http://ex.org/i", 4, 6, 5, 5);
    assert!(matches!(d, Ok(ImportMerge::Merge)));
}

#[test]
fn import_over_axiom_limit_fails_strict_loads() {
    match import_merge_decision(limits(10, 10, true), "http://ex.org/i", 4, 7, 0, 0) {
        Err(Error::Parse(m)) => assert_eq!(m, "import merge would exceed axiom limit 10 (current 4 + import 7)"),
        other => panic!("unexpected {other:?}"),
    }
}

#[test]
fn import_over_entity_limit_is_skipped_by_lenient_loads() {
    let d = import_merge_decision(limits(10, 3, false), "http://ex.org/i", 1, 1, 2, 2);
    assert!(matches!(d, Ok(ImportMerge::Skip(w)) if w == "skipping import http://ex.org/i: would exceed entity limit 3"));
    match import_merge_decision(limits(10, 3, true), "http://ex.org/i", 1, 1, 2, 2) {
        Err(Error::Parse(m)) => assert_eq!(m, "import merge would exceed entity limit 3 (current 2 + import 2)"),
        other => panic!("unexpected {other:?}"),
    }
}

#[test]
fn axiom_limit_is_checked_before_entity_limit() {
    let d = import_merge_decision(limits(1, 1, false), "x", 1, 1, 1, 1);
    assert!(matches!(d, Ok(ImportMerge::Skip(w)) if w == "skipping import x: would exceed axiom limit 1"));
}

#[test]
fn saturating_sum_still_exceeds_the_limit() {
    let d = import_merge_decision(limits(usize::MAX - 1, 10, false), "x", usize::MAX, 5, 0, 0);
    assert!(matches!(d, Ok(ImportMerge::Skip(_))));
}

#[test]
fn import_file_candidates() {
    assert_eq!(sibling_import_candidates("http://www.owllink.org/ontologies/families"), vec!["families.owl".to_string()]);
    assert_eq!(sibling_import_candidates("http://www.iyouit.eu/portal.owl"), vec!["portal.owl".to_string()]);
    assert!(sibling_import_candidates("http://ex.org/other").is_empty());
    assert_eq!(import_iri_last_segment("http://www.w3.org/2002/03owlt/miscellaneous/consistent001"), "consistent001");
    assert_eq!(import_iri_last_segment("plain"), "plain");
    assert_eq!(
        companion_premise_path("TestCase-3AWebOnt-2Dmiscellaneous-2D001", "consistent001"),
        Some("TestCase-3AWebOnt-2Dmiscellaneous-2D002/premise.rdf")
    );
    assert_eq!(
        companion_premise_path("TestCase-3AWebOnt-2Dmiscellaneous-2D002", "consistent002"),
        Some("TestCase-3AWebOnt-2Dmiscellaneous-2D001/premise.rdf")
    );
    assert_eq!(companion_premise_path("TestCase-3AWebOnt-2Dmiscellaneous-2D001", "consistent002"), None);
}
