use ontologos::booleans::contains_ill_founded_rdf_list;
use ontologos::classes::normalize_class_intersection_definitions;
use ontologos::descriptions::{
    materialize_anonymous_individual_descriptions, materialize_named_individual_descriptions,
};
use ontologos::error::Error;
use ontologos::ids::{dedupe_rdf_xml_ids, normalize_invalid_rdf_ids};
use ontologos::legacy::{normalize_multiline_rdf_root_tag, normalize_rdfs_class_elements, normalize_relative_owl_uris};
use ontologos::limits::ParseLimits;
use ontologos::preprocess::{preprocess_rdf_xml, preprocess_rdf_xml_checked};
use ontologos::punning::inject_rdf_based_punning_declarations;
use ontologos::same_as::normalize_class_same_as;
use ontologos::typed::materialize_typed_node_elements;
use ontologos::typed_about::materialize_typed_about_elements;
use ontologos::all_different::normalize_all_different_members;
use ontologos::disjoint::expand_all_disjoint_collections;

const DOC: &str = "<rdf:RDF xml:base=\"http://ex.org/o\"\n xmlns:owl=\"http://www.w3.org/2002/07/owl#\"\n xmlns:rdf=\"http://www.w3.org/1999/02/22-rdf-syntax-ns#\"\n xmlns:rdfs=\"http://www.w3.org/2000/01/rdf-schema#\">\n<owl:Class rdf:about=\"#A\"><rdfs:subClassOf rdf:resource=\"#B\"/></owl:Class>\n<rdfs:Class rdf:about=\"#C\"/>\n<owl:NamedIndividual rdf:about=\"#i\"><rdf:type rdf:resource=\"#A\"/></owl:NamedIndividual>\n</rdf:RDF>";

fn by_stages(text: &str) -> String {
    let a = normalize_multiline_rdf_root_tag(text);
    let b = dedupe_rdf_xml_ids(&a);
    let c = normalize_invalid_rdf_ids(&b);
    let d = normalize_relative_owl_uris(&c);
    let e = normalize_rdfs_class_elements(&d);
    let f = inject_rdf_based_punning_declarations(&e);
    let g = materialize_typed_about_elements(&f);
    let h = materialize_typed_node_elements(&g);
    let i = normalize_class_intersection_definitions(&h);
    let j = normalize_class_same_as(&i);
    let k = materialize_named_individual_descriptions(&j);
    let l = materialize_anonymous_individual_descriptions(&k);
    let m = normalize_all_different_members(&l);
    expand_all_disjoint_collections(&m)
}

#[test]
fn pipeline_runs_the_stages_in_order() {
    let (out, ill) = preprocess_rdf_xml(DOC, ParseLimits::default()).expect("preprocess");
    assert_eq!(out, by_stages(DOC));
    assert!(!ill);
}

#[test]
fn pipeline_fails_on_the_first_stage_over_budget() {
    let mut limits = ParseLimits::default();
    limits.max_preprocess_bytes = DOC.len() + 5;
    match preprocess_rdf_xml(DOC, limits) {
        Err(Error::Parse(m)) => {
            // The document itself fits; its collapsed root tag pushes the count over.
            let used = DOC.len() + normalize_multiline_rdf_root_tag(DOC).len();
            assert_eq!(m, format!("RDF/XML preprocessing allocation {used} bytes exceeds limit of {} bytes", DOC.len() + 5));
        },
        other => panic!("unexpected {other:?}"),
    }
}

#[test]
fn pipeline_reports_entity_expansion_limits() {
    let mut limits = ParseLimits::default();
    limits.max_expanded_bytes = 10;
    match preprocess_rdf_xml(DOC, limits) {
        Err(Error::Parse(m)) => assert!(m.starts_with("expanded RDF/XML size ")),
        other => panic!("unexpected {other:?}"),
    }
}

#[test]
fn pipeline_reports_ill_founded_lists() {
    let doc = "<rdf:RDF xmlns:rdf=\"http://www.w3.org/1999/02/22-rdf-syntax-ns#\"><rdf:Description><rdf:rest rdf:resource=\"http://www.w3.org/1999/02/22-rdf-syntax-ns#nil\"/></rdf:Description></rdf:RDF>";
    let (_, ill) = preprocess_rdf_xml(doc, ParseLimits::default()).expect("preprocess");
    assert_eq!(ill, contains_ill_founded_rdf_list(doc));
    assert!(ill);
}

fn checked_message(r: Result<(String, bool), Error>) -> String {
    match r {
        Err(Error::Parse(m)) => m,
        other => panic!("unexpected {other:?}"),
    }
}

const NS: &str = "xmlns:owl=\"http://www.w3.org/2002/07/owl#\" xmlns:rdf=\"http://www.w3.org/1999/02/22-rdf-syntax-ns#\"";

#[test]
fn checked_pipeline_agrees_where_the_stages_run() {
    let checked = preprocess_rdf_xml_checked(DOC, ParseLimits::default(), 100).expect("preprocess");
    let plain = preprocess_rdf_xml(DOC, ParseLimits::default()).expect("preprocess");
    assert_eq!(checked, plain);
}

#[test]
fn checked_pipeline_refuses_members_before_all_different() {
    let doc = format!(
        "<rdf:RDF {NS}><owl:distinctMembers rdf:parseType=\"Collection\"><rdf:Description rdf:about=\"http://ex.org/a\"/></owl:distinctMembers><owl:AllDifferent/></rdf:RDF>"
    );
    assert_eq!(
        checked_message(preprocess_rdf_xml_checked(&doc, ParseLimits::default(), 100)),
        "owl:AllDifferent members precede the owl:AllDifferent element"
    );
}

#[test]
fn checked_pipeline_refuses_a_disjoint_container_that_never_expands() {
    let doc = format!("<rdf:RDF {NS}><owl:AllDisjointClasses></owl:AllDisjointClasses></rdf:RDF>");
    assert_eq!(
        checked_message(preprocess_rdf_xml_checked(&doc, ParseLimits::default(), 100)),
        "disjoint collection expansion never ends"
    );
}

#[test]
fn checked_pipeline_bounds_the_disjoint_rounds() {
    let doc = format!(
        "<rdf:RDF {NS}><owl:AllDisjointClasses><owl:members rdf:parseType=\"Collection\"><owl:Class rdf:about=\"http://ex.org/A\"/><owl:Class rdf:about=\"http://ex.org/B\"/></owl:members></owl:AllDisjointClasses></rdf:RDF>"
    );
    assert_eq!(
        checked_message(preprocess_rdf_xml_checked(&doc, ParseLimits::default(), 0)),
        "disjoint collection expansion did not settle within the round limit"
    );
    let one_round = preprocess_rdf_xml_checked(&doc, ParseLimits::default(), 1).expect("preprocess");
    assert_eq!(one_round, preprocess_rdf_xml(&doc, ParseLimits::default()).expect("preprocess"));
    assert!(one_round.0.contains("owl:disjointWith"));
}
