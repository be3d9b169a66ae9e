use ontologos::punning::inject_rdf_based_punning_declarations;

#[test]
fn injects_datatype_peer_for_equivalent_property_target() {
    let input = r#"<rdf:RDF xml:base="http://example.com/owl/families/"
  xmlns="http://example.com/owl/families/"
  xmlns:owl="http://www.w3.org/2002/07/owl#"
  xmlns:rdf="http://www.w3.org/1999/02/22-rdf-syntax-ns#">
  <owl:DatatypeProperty rdf:about="hasAge">
    <owl:equivalentProperty rdf:resource="http://example.org/otherOntologies/families/age"/>
  </owl:DatatypeProperty>
</rdf:RDF>"#;
    let out = inject_rdf_based_punning_declarations(input);
    assert!(
        out.contains(
            "<owl:DatatypeProperty rdf:about=\"http://example.org/otherOntologies/families/age\"/>"
        ),
        "expected imported age peer as datatype property, got:\n{out}"
    );
    assert!(
        !out.contains(
            "<owl:ObjectProperty rdf:about=\"http://example.org/otherOntologies/families/age\"/>"
        ),
        "must not inject object property for datatype equivalent peer:\n{out}"
    );
}
