use ontologos::complex::materialize_complex_class_assertions;
use ontologos::descriptions::materialize_anonymous_individual_descriptions;
use ontologos::disjoint::expand_all_disjoint_collections;
use ontologos::error::Error;
use ontologos::ids::normalize_invalid_rdf_ids;
use ontologos::js::{usize_to_u32, JsError};
use ontologos::legacy::{
    normalize_multiline_rdf_root_tag, normalize_rdfs_class_elements, normalize_relative_owl_uris,
};
use ontologos::limits::ParseLimits;
use ontologos::object_assertions::collect_object_property_assertions;
use ontologos::ofn::merge_ofn_documents;
use ontologos::ofn_terms::{ofn_entity_ref, qualify_typed_literal_for_supplement};
use ontologos::punning::inject_rdf_based_punning_declarations;
use ontologos::restrictions::{data_restriction_ce_to_ofn, restriction_ce_to_ofn};
use ontologos::xml::tagged_element_end;

fn chars(s: &str) -> Vec<char> {
    s.chars().collect()
}

fn text(v: &[char]) -> String {
    v.iter().collect()
}

#[test]
fn invalid_rdf_id_becomes_a_valid_one() {
    let out = normalize_invalid_rdf_ids("<a rdf:ID=\"9 x\"/><b rdf:resource=\"#9 x\"/>");
    assert_eq!(out, "<a rdf:ID=\"_9_x\"/><b rdf:resource=\"#_9_x\"/>");
}

#[test]
fn valid_rdf_ids_are_left_alone() {
    let input = "<a rdf:ID=\"ok_1\"/><b rdf:resource=\"#ok_1\"/>";
    assert_eq!(normalize_invalid_rdf_ids(input), input);
}

#[test]
fn longer_rdf_ids_are_renamed_first() {
    let input = "<a rdf:ID=\"1\"/><b rdf:ID=\"1.0\"/><c rdf:resource=\"#1.0\"/><d rdf:resource=\"#1\"/>";
    let out = normalize_invalid_rdf_ids(input);
    assert_eq!(
        out,
        "<a rdf:ID=\"_1\"/><b rdf:ID=\"_1_0\"/><c rdf:resource=\"#_1_0\"/><d rdf:resource=\"#_1\"/>"
    );
}

#[test]
fn disjoint_properties_expand_to_declarations_and_pairs() {
    let input = "<rdf:RDF>\n<owl:AllDisjointProperties>\n<owl:members rdf:parseType=\"Collection\">\n<rdf:Description rdf:about=\"p1\"/>\n<rdf:Description rdf:about=\"p2\"/>\n</owl:members>\n</owl:AllDisjointProperties>\n</rdf:RDF>";
    let out = expand_all_disjoint_collections(input);
    assert_eq!(
        out,
        "<rdf:RDF>\n  <owl:ObjectProperty rdf:about=\"p1\"/>\n  <owl:ObjectProperty rdf:about=\"p2\"/>\n  <rdf:Description rdf:about=\"p1\">\n    <owl:propertyDisjointWith rdf:resource=\"p2\"/>\n  </rdf:Description>\n\n</rdf:RDF>"
    );
    assert!(!out.contains("<owl:AllDisjointProperties"));
}

#[test]
fn text_without_disjoint_containers_is_unchanged() {
    let input = "<rdf:RDF><owl:Class rdf:about=\"A\"/></rdf:RDF>";
    assert_eq!(expand_all_disjoint_collections(input), input);
}

#[test]
fn multiline_root_tag_is_collapsed() {
    let input = "<rdf:RDF\n  xmlns:a=\"x\"\r\n\txmlns:b=\"y\">\n<a/>\n</rdf:RDF>";
    let out = normalize_multiline_rdf_root_tag(input);
    assert_eq!(out, "<rdf:RDF xmlns:a=\"x\" xmlns:b=\"y\">\n<a/>\n</rdf:RDF>");
    assert_eq!(normalize_multiline_rdf_root_tag(&out), out);
}

#[test]
fn rdfs_classes_become_owl_classes_with_owl_prefix() {
    let out = normalize_rdfs_class_elements("<rdf:RDF xmlns:rdf=\"r\"><rdfs:Class rdf:about=\"A\"></rdfs:Class></rdf:RDF>");
    assert_eq!(
        out,
        "<rdf:RDF xmlns:rdf=\"r\" xmlns:owl=\"http://www.w3.org/2002/07/owl#\"><owl:Class rdf:about=\"A\"></owl:Class></rdf:RDF>"
    );
}

#[test]
fn relative_owl_uris_become_absolute() {
    let out = normalize_relative_owl_uris("<x rdf:datatype=\"/2001/XMLSchema#int\" rdf:resource='/2002/07/owl#Thing'/>");
    assert_eq!(
        out,
        "<x rdf:datatype=\"http://www.w3.org/2001/XMLSchema#int\" rdf:resource='http://www.w3.org/2002/07/owl#Thing'/>"
    );
}

#[test]
fn relative_owl_uri_normalization_settles_after_one_run() {
    let input = "<a rdf:about=\"/2002/07/owl#Thing\"/><b rdf:datatype='/2001/XMLSchema#int'/>\
                 <c rdf:resource=\"/2002/07/owl#Nothing\" rdf:about='/2002/07/owl#x'/>";
    let once = normalize_relative_owl_uris(input);
    assert_eq!(normalize_relative_owl_uris(&once), once);
    assert!(once.len() >= input.len());
    for form in [
        "rdf:datatype=\"/2001/XMLSchema#",
        "rdf:datatype='/2001/XMLSchema#",
        "rdf:resource=\"/2002/07/owl#",
        "rdf:resource='/2002/07/owl#",
        "rdf:about=\"/2002/07/owl#",
        "rdf:about='/2002/07/owl#",
    ] {
        assert!(!once.contains(form));
    }
    assert_eq!(
        once,
        "<a rdf:about=\"http://www.w3.org/2002/07/owl#Thing\"/><b rdf:datatype='http://www.w3.org/2001/XMLSchema#int'/>\
         <c rdf:resource=\"http://www.w3.org/2002/07/owl#Nothing\" rdf:about='http://www.w3.org/2002/07/owl#x'/>"
    );
}

#[test]
fn plain_literal_is_escaped() {
    let (prefixes, lit, decl) = qualify_typed_literal_for_supplement(
        &chars("a\nb\"c"),
        &chars("http://www.w3.org/1999/02/22-rdf-syntax-ns#PlainLiteral"),
    );
    assert!(prefixes.is_empty());
    assert_eq!(text(&lit), "\"a\\nb\\\"c\"^^rdf:PlainLiteral");
    assert!(decl.is_none());
}

#[test]
fn xsd_literal_uses_xsd_prefix_even_when_hash_is_escaped() {
    let (_, lit, _) = qualify_typed_literal_for_supplement(
        &chars("5"),
        &chars("http://www.w3.org/2001/XMLSchema%23integer"),
    );
    assert_eq!(text(&lit), "\"5\"^^xsd:integer");
}

#[test]
fn owl_datatype_literal_declares_the_datatype() {
    let (_, lit, decl) = qualify_typed_literal_for_supplement(
        &chars("1/2"),
        &chars("http://www.w3.org/2002/07/owl#rational"),
    );
    assert_eq!(text(&lit), "\"1/2\"^^owl:rational");
    assert_eq!(decl.map(|d| text(&d)), Some("Declaration(Datatype(owl:rational))".to_string()));
}

#[test]
fn other_datatype_gets_a_prefix_when_its_local_name_is_a_word() {
    let (prefixes, lit, decl) =
        qualify_typed_literal_for_supplement(&chars("v"), &chars("http://ex.org/dt#abc"));
    assert_eq!(text(&prefixes), "Prefix(dtlit1:=<http://ex.org/dt#>)");
    assert_eq!(text(&lit), "\"v\"^^dtlit1:abc");
    assert_eq!(decl.map(|d| text(&d)), Some("Declaration(Datatype(dtlit1:abc))".to_string()));
    let (prefixes, lit, decl) =
        qualify_typed_literal_for_supplement(&chars("v"), &chars("http://ex.org/dt#a-b"));
    assert!(prefixes.is_empty());
    assert_eq!(text(&lit), "\"v\"^^<http://ex.org/dt%23a-b>");
    assert!(decl.is_none());
}

#[test]
fn entity_refs_escape_hash() {
    assert_eq!(text(&ofn_entity_ref(&chars("http://ex.org/a#b"))), "<http://ex.org/a%23b>");
    assert_eq!(
        text(&ofn_entity_ref(&chars("http://www.w3.org/2002/07/owl#Thing"))),
        "owl:Thing"
    );
}

#[test]
fn default_limits_scale_with_file_limit() {
    let d = ParseLimits::default();
    assert_eq!(d.max_expanded_bytes, 4 * d.max_file_bytes);
    assert_eq!(d.max_preprocess_bytes, 8 * d.max_file_bytes);
    let w = ParseLimits::with_file_bytes(10);
    assert_eq!(w.max_file_bytes, 10);
    assert_eq!(w.max_expanded_bytes, 40);
    assert_eq!(w.max_preprocess_bytes, 80);
    assert_eq!(w.max_axioms, d.max_axioms);
    let big = ParseLimits::with_file_bytes(usize::MAX);
    assert_eq!(big.max_expanded_bytes, usize::MAX);
    let lenient = ParseLimits::lenient();
    assert!(!lenient.validate_output);
    assert_eq!(lenient.max_file_bytes, d.max_file_bytes);
}

#[test]
fn merge_ofn_reports_missing_body() {
    match merge_ofn_documents("Ontology(<a>\n)", "no ontology here") {
        Err(Error::Parse(m)) => assert_eq!(m, "incremental OFN missing Ontology(...) body"),
        _ => panic!("expected a parse error"),
    }
}

#[test]
fn merge_ofn_reports_missing_base_close() {
    let err = match merge_ofn_documents("Ontology(<a>\nClass(:A)", "Ontology(<b>\nClass(:B))") {
        Err(e) => e,
        Ok(_) => panic!("expected a parse error"),
    };
    assert_eq!(err.to_string(), "parse error: base OFN missing closing ')'");
}

#[test]
fn merge_ofn_appends_axioms_without_ontology_iri() {
    let merged = merge_ofn_documents("Ontology(<a>\nClass(:A)\n)", "Ontology(<b>\nClass(:B)\n)")
        .expect("merge");
    assert_eq!(merged, "Ontology(<a>\nClass(:A)\n Class(:B))");
}

#[test]
fn error_texts() {
    assert_eq!(
        Error::UnsupportedFormat("x".to_string()).to_string(),
        "unsupported format: x"
    );
    assert_eq!(Error::Parse("y".to_string()).to_string(), "parse error: y");
}

#[test]
fn counts_convert_to_u32() {
    assert!(matches!(usize_to_u32(7), Ok(7)));
    assert!(matches!(usize_to_u32(4294967295), Ok(4294967295)));
}

#[test]
fn oversized_count_is_a_resource_limit_error() {
    if usize::BITS > 32 {
        let big: usize = (u32::MAX as usize) + 1;
        match usize_to_u32(big) {
            Err(e) => {
                assert_eq!(e.code(), "ResourceLimitError");
                match e {
                    JsError::ResourceLimit(m) => {
                        assert_eq!(m, "count 4294967296 exceeds maximum u32 value")
                    }
                    _ => panic!("expected a resource limit error"),
                }
            }
            Ok(_) => panic!("expected an error"),
        }
    }
}

#[test]
fn js_error_codes() {
    assert_eq!(JsError::Parse(String::new()).code(), "ParseError");
    assert_eq!(JsError::IncompleteReasoning.code(), "IncompleteReasoningError");
    assert_eq!(JsError::OntologyConflict.code(), "OntologyConflictError");
    assert_eq!(JsError::Other(String::new()).code(), "Error");
}

#[test]
fn anonymous_individuals_are_numbered_in_order() {
    let input = "<rdf:RDF xml:base=\"http://ex.org/\">\n<rdf:Description><rdf:type rdf:resource=\"#A\"/></rdf:Description>\n<rdf:Description><rdf:type rdf:resource=\"#B\"/></rdf:Description>\n</rdf:RDF>";
    let out = materialize_anonymous_individual_descriptions(input);
    assert_eq!(
        out,
        "<rdf:RDF xml:base=\"http://ex.org/\">\n<rdf:Description rdf:about=\"http://ex.org#_:1\"><rdf:type rdf:resource=\"#A\"/></rdf:Description>\n<rdf:Description rdf:about=\"http://ex.org#_:2\"><rdf:type rdf:resource=\"#B\"/></rdf:Description>\n</rdf:RDF>"
    );
}

#[test]
fn object_property_assertions_include_nested_things() {
    let input = "<rdf:RDF xmlns:ex=\"http://ex.org/\" xml:base=\"http://ex.org/base\">\n<rdf:Description rdf:about=\"http://ex.org/a\">\n  <ex:knows rdf:resource=\"http://ex.org/b\"/>\n  <ex:likes>\n    <owl:Thing>\n      <ex:knows rdf:resource=\"http://ex.org/c\"/>\n    </owl:Thing>\n  </ex:likes>\n</rdf:Description>\n</rdf:RDF>";
    let found = collect_object_property_assertions(input);
    let expected = vec![
        (
            "http://ex.org/a".to_string(),
            "http://ex.org/knows".to_string(),
            "http://ex.org/b".to_string(),
        ),
        (
            "http://ex.org/a".to_string(),
            "http://ex.org/likes".to_string(),
            "http://ex.org/base#_anon1".to_string(),
        ),
        (
            "http://ex.org/base#_anon1".to_string(),
            "http://ex.org/knows".to_string(),
            "http://ex.org/c".to_string(),
        ),
    ];
    assert_eq!(found, expected);
}

#[test]
fn individual_with_restriction_type_gets_an_about() {
    let input = "<rdf:RDF xml:base=\"http://ex.org/o\">\n<rdf:Description rdf:ID=\"i\"><rdf:type><owl:Restriction><owl:onProperty rdf:resource=\"#p\"/></owl:Restriction></rdf:type></rdf:Description>\n</rdf:RDF>";
    let out = materialize_complex_class_assertions(input);
    assert_eq!(
        out,
        "<rdf:RDF xml:base=\"http://ex.org/o\">\n<rdf:Description rdf:about=\"http://ex.org/o#i\"><rdf:type><owl:Restriction><owl:onProperty rdf:resource=\"#p\"/></owl:Restriction></rdf:type></rdf:Description>\n</rdf:RDF>"
    );
}

#[test]
fn punned_classes_are_declared_in_sorted_order() {
    let input = "<rdf:RDF xmlns:owl=\"http://www.w3.org/2002/07/owl#\">\n<rdf:Description rdf:about=\"http://ex.org/Z\">\n<owl:equivalentClass rdf:resource=\"http://ex.org/B\"/>\n</rdf:Description>\n</rdf:RDF>";
    let out = inject_rdf_based_punning_declarations(input);
    assert_eq!(
        out,
        "<rdf:RDF xmlns:owl=\"http://www.w3.org/2002/07/owl#\">  <owl:Class rdf:about=\"http://ex.org/B\"/>\n  <owl:Class rdf:about=\"http://ex.org/Z\"/>\n\n<rdf:Description rdf:about=\"http://ex.org/Z\">\n<owl:equivalentClass rdf:resource=\"http://ex.org/B\"/>\n</rdf:Description>\n</rdf:RDF>"
    );
}

#[test]
fn dp_properties_fall_back_to_data_properties() {
    let input = "<rdf:RDF>\n<rdf:Description rdf:about=\"http://ex.org/p\">\n<owl:equivalentProperty rdf:resource=\"http://ex.org/dp\"/>\n</rdf:Description>\n</rdf:RDF>";
    let out = inject_rdf_based_punning_declarations(input);
    assert!(out.contains("<owl:ObjectProperty rdf:about=\"http://ex.org/p\"/>"));
    assert!(out.contains("<owl:DatatypeProperty rdf:about=\"http://ex.org/dp\"/>"));
    assert!(!out.contains("<owl:ObjectProperty rdf:about=\"http://ex.org/dp\"/>"));
}

#[test]
fn declared_entities_are_not_injected() {
    let input = "<rdf:RDF>\n<owl:Class rdf:about=\"http://ex.org/A\"/>\n<owl:Class rdf:about=\"http://ex.org/B\"><owl:disjointWith rdf:resource=\"http://ex.org/A\"/></owl:Class>\n</rdf:RDF>";
    assert_eq!(inject_rdf_based_punning_declarations(input), input);
}

#[test]
fn data_restrictions_render_each_form() {
    let dt = vec!["http://ex.org/d".to_string()];
    let max = "<owl:Restriction><owl:onProperty rdf:resource=\"http://ex.org/d\"/><owl:maxCardinality> 3 </owl:maxCardinality></owl:Restriction>";
    assert_eq!(
        data_restriction_ce_to_ofn(max, "http://ex.org/", &dt),
        Some("DataMaxCardinality(3 <http://ex.org/d>)".to_string())
    );
    let hv = "<owl:Restriction><owl:onProperty rdf:resource=\"http://ex.org/d\"/><owl:hasValue rdf:datatype=\"http://www.w3.org/2001/XMLSchema#int\">4</owl:hasValue></owl:Restriction>";
    assert_eq!(
        data_restriction_ce_to_ofn(hv, "http://ex.org/", &dt),
        Some("DataHasValue(<http://ex.org/d> \"4\"^^xsd:int)".to_string())
    );
    let object = "<owl:Restriction><owl:onProperty rdf:resource=\"http://ex.org/o\"/><owl:maxCardinality>3</owl:maxCardinality></owl:Restriction>";
    assert_eq!(data_restriction_ce_to_ofn(object, "http://ex.org/", &dt), None);
}

#[test]
fn object_restrictions_render_fillers() {
    let none: Vec<String> = Vec::new();
    let some = "<owl:Restriction><owl:onProperty rdf:resource=\"http://ex.org/r\"/><owl:someValuesFrom rdf:resource=\"http://ex.org/C#x\"/></owl:Restriction>";
    assert_eq!(
        restriction_ce_to_ofn(some, "http://ex.org/", &none),
        Some("ObjectSomeValuesFrom(<http://ex.org/r> <http://ex.org/C%23x>)".to_string())
    );
    let nested = "<owl:Restriction><owl:onProperty rdf:resource=\"http://ex.org/r\"/><owl:allValuesFrom><owl:Restriction><owl:onProperty rdf:resource=\"http://ex.org/s\"/><owl:hasSelf rdf:datatype=\"http://www.w3.org/2001/XMLSchema#boolean\">true</owl:hasSelf></owl:Restriction></owl:allValuesFrom></owl:Restriction>";
    assert_eq!(
        restriction_ce_to_ofn(nested, "http://ex.org/", &none),
        Some("ObjectAllValuesFrom(<http://ex.org/r> ObjectHasSelf(<http://ex.org/s>))".to_string())
    );
    let data_prop = vec!["http://ex.org/r".to_string()];
    assert_eq!(restriction_ce_to_ofn(some, "http://ex.org/", &data_prop), None);
}

#[test]
fn element_ends_count_nested_elements() {
    assert_eq!(tagged_element_end("<a:b>x</a:b>", 0, "a:b"), Some(12));
    assert_eq!(tagged_element_end("<a:b><a:b/></a:b>tail", 0, "a:b"), Some(17));
    assert_eq!(tagged_element_end("<a:b><a:b>", 0, "a:b"), None);
    assert_eq!(tagged_element_end("<c:d/>", 0, "a:b"), None);
}
