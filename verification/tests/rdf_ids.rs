use ontologos::ids::dedupe_rdf_xml_ids;

#[test]
fn rdf_preprocess_dedupe_removes_second_rdf_id_element() {
    let input = r##"<?xml version="1.0"?>
<rdf:RDF xmlns:rdf="http://www.w3.org/1999/02/22-rdf-syntax-ns#" xmlns:owl="http://www.w3.org/2002/07/owl#">
  <owl:Class rdf:ID="Wine"><rdfs:label>first</rdfs:label></owl:Class>
  <owl:Class rdf:ID="Wine"><owl:equivalentClass rdf:resource="#Wine"/></owl:Class>
</rdf:RDF>"##;
    let out = dedupe_rdf_xml_ids(input);
    assert_eq!(out.matches("rdf:ID=\"Wine\"").count(), 1);
    assert!(out.contains("first"));
    assert!(!out.contains("equivalentClass"));
}

#[test]
fn rdf_preprocess_tests_dedupe_removes_second_rdf_id_element() {
    let input = r##"<?xml version="1.0"?>
<rdf:RDF xmlns:rdf="http://www.w3.org/1999/02/22-rdf-syntax-ns#" xmlns:owl="http://www.w3.org/2002/07/owl#">
  <owl:Class rdf:ID="Wine"><rdfs:label>first</rdfs:label></owl:Class>
  <owl:Class rdf:ID="Wine"><owl:equivalentClass rdf:resource="#Wine"/></owl:Class>
</rdf:RDF>"##;
    let out = dedupe_rdf_xml_ids(input);
    assert_eq!(out.matches("rdf:ID=\"Wine\"").count(), 1);
    assert!(out.contains("first"));
    assert!(!out.contains("equivalentClass"));
}

#[test]
fn dedupe_removes_only_the_duplicate_subtree_before_later_elements() {
    let input = "<rdf:RDF><owl:Class rdf:ID=\"A\"/><owl:Class rdf:ID=\"A\"><rdfs:comment/></owl:Class><owl:Class rdf:ID=\"K0\"/><owl:Class rdf:ID=\"K1\"><rdfs:label>k</rdfs:label></owl:Class><owl:Class rdf:ID=\"K2\"/><owl:Class rdf:ID=\"K3\"/></rdf:RDF>";
    let out = dedupe_rdf_xml_ids(input);
    assert_eq!(
        out,
        "<rdf:RDF><owl:Class rdf:ID=\"A\"/><owl:Class rdf:ID=\"K0\"/><owl:Class rdf:ID=\"K1\"><rdfs:label>k</rdfs:label></owl:Class><owl:Class rdf:ID=\"K2\"/><owl:Class rdf:ID=\"K3\"/></rdf:RDF>"
    );
}
