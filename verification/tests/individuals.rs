use ontologos::descriptions::{
    description_element_end, materialize_anonymous_individual_descriptions,
    materialize_named_individual_descriptions,
};

#[test]
fn rdf_preprocess_anonymous_individual_materialization_skips_facet_collections() {
    let input = r#"<rdf:RDF xml:base="http://ex.org/"
 xmlns:owl="http://www.w3.org/2002/07/owl#"
 xmlns:rdf="http://www.w3.org/1999/02/22-rdf-syntax-ns#"
 xmlns:rdfs="http://www.w3.org/2000/01/rdf-schema#"
 xmlns:xsd="http://www.w3.org/2001/XMLSchema#">
 <owl:withRestrictions rdf:parseType="Collection">
  <rdf:Description>
   <xsd:minExclusive rdf:datatype="http://www.w3.org/2001/XMLSchema#float">0.0</xsd:minExclusive>
  </rdf:Description>
 </owl:withRestrictions>
 <rdf:Description>
  <rdf:type rdf:resource="http://ex.org/C"/>
 </rdf:Description>
</rdf:RDF>"#;
    let out = materialize_anonymous_individual_descriptions(input);
    assert!(out.contains("rdf:about=\"http://ex.org#_:1\""));
    assert!(out.contains("<rdf:Description>\n   <xsd:minExclusive"));
}

#[test]
fn rdf_preprocess_tests_anonymous_individual_materialization_skips_facet_collections() {
    let input = r#"<rdf:RDF xml:base="http://ex.org/"
 xmlns:owl="http://www.w3.org/2002/07/owl#"
 xmlns:rdf="http://www.w3.org/1999/02/22-rdf-syntax-ns#"
 xmlns:rdfs="http://www.w3.org/2000/01/rdf-schema#"
 xmlns:xsd="http://www.w3.org/2001/XMLSchema#">
 <owl:withRestrictions rdf:parseType="Collection">
  <rdf:Description>
   <xsd:minExclusive rdf:datatype="http://www.w3.org/2001/XMLSchema#float">0.0</xsd:minExclusive>
  </rdf:Description>
 </owl:withRestrictions>
 <rdf:Description>
  <rdf:type rdf:resource="http://ex.org/C"/>
 </rdf:Description>
</rdf:RDF>"#;
    let out = materialize_anonymous_individual_descriptions(input);
    assert!(out.contains("rdf:about=\"http://ex.org#_:1\""));
    assert!(out.contains("<rdf:Description>\n   <xsd:minExclusive"));
}

#[test]
fn rdf_preprocess_materialize_anonymous_description_adds_about() {
    let input = r#"<rdf:RDF xml:base="http://ex.org/">
  <rdf:Description>
<rdf:type rdf:resource="http://ex.org#C"/>
  </rdf:Description>
</rdf:RDF>"#;
    let out = materialize_anonymous_individual_descriptions(input);
    assert!(out.contains("rdf:about=\"http://ex.org#_:1\""));
}

#[test]
fn rdf_preprocess_tests_materialize_anonymous_description_adds_about() {
    let input = r#"<rdf:RDF xml:base="http://ex.org/">
  <rdf:Description>
    <rdf:type rdf:resource="http://ex.org#C"/>
  </rdf:Description>
</rdf:RDF>"#;
    let out = materialize_anonymous_individual_descriptions(input);
    assert!(out.contains("rdf:about=\"http://ex.org#_:1\""));
}

#[test]
fn rdf_preprocess_named_description_skips_inverse_functional_property_typing() {
    let input = r#"<rdf:RDF xml:base="http://ex.org/" xmlns:rdf="http://www.w3.org/1999/02/22-rdf-syntax-ns#">
 <rdf:Description rdf:about="http://ex.org/p">
  <rdf:type rdf:resource="http://www.w3.org/2002/07/owl#DatatypeProperty"/>
 </rdf:Description>
</rdf:RDF>"#;
    let out = materialize_named_individual_descriptions(input);
    assert!(out.contains("<rdf:Description rdf:about=\"http://ex.org/p\">"));
    assert!(!out.contains("NamedIndividual"));
}

#[test]
fn rdf_preprocess_tests_named_description_skips_inverse_functional_property_typing() {
    let input = r#"<rdf:RDF xml:base="http://ex.org/" xmlns:rdf="http://www.w3.org/1999/02/22-rdf-syntax-ns#">
 <rdf:Description rdf:about="http://ex.org/p">
  <rdf:type rdf:resource="http://www.w3.org/2002/07/owl#DatatypeProperty"/>
 </rdf:Description>
</rdf:RDF>"#;
    let out = materialize_named_individual_descriptions(input);
    assert!(out.contains("<rdf:Description rdf:about=\"http://ex.org/p\">"));
    assert!(!out.contains("NamedIndividual"));
}

#[test]
fn rdf_preprocess_materialize_named_description_to_individual() {
    let input = r#"<rdf:RDF xml:base="http://ex.org/ontology/"
 xmlns:owl="http://www.w3.org/2002/07/owl#"
 xmlns:rdf="http://www.w3.org/1999/02/22-rdf-syntax-ns#">
 <rdf:Description rdf:about="a">
  <rdf:type>
   <owl:Restriction>
<owl:onProperty rdf:resource="dp"/>
   </owl:Restriction>
  </rdf:type>
 </rdf:Description>
</rdf:RDF>"#;
    let out = materialize_named_individual_descriptions(input);
    assert!(out.contains("<owl:NamedIndividual"));
    assert!(!out.contains("<rdf:Description rdf:about=\"a\">"));
}

#[test]
fn rdf_preprocess_tests_materialize_named_description_to_individual() {
    let input = r#"<rdf:RDF xml:base="http://ex.org/ontology/"
 xmlns:owl="http://www.w3.org/2002/07/owl#"
 xmlns:rdf="http://www.w3.org/1999/02/22-rdf-syntax-ns#">
 <rdf:Description rdf:about="a">
  <rdf:type>
   <owl:Restriction>
    <owl:onProperty rdf:resource="dp"/>
   </owl:Restriction>
  </rdf:type>
 </rdf:Description>
</rdf:RDF>"#;
    let out = materialize_named_individual_descriptions(input);
    assert!(out.contains("<owl:NamedIndividual"));
    assert!(!out.contains("<rdf:Description rdf:about=\"a\">"));
}

#[test]
fn rdf_preprocess_materialize_named_description_skips_thing_subclass() {
    let input = r#"<rdf:RDF xmlns:owl="http://www.w3.org/2002/07/owl#"
 xmlns:rdf="http://www.w3.org/1999/02/22-rdf-syntax-ns#"
 xmlns:rdfs="http://www.w3.org/2000/01/rdf-schema#">
 <rdf:Description rdf:about="http://www.w3.org/2002/07/owl#Thing">
  <rdfs:subClassOf>
   <owl:Restriction>
<owl:onProperty rdf:resource="http://ex.org#f"/>
   </owl:Restriction>
  </rdfs:subClassOf>
 </rdf:Description>
</rdf:RDF>"#;
    let out = materialize_named_individual_descriptions(input);
    assert!(out.contains("<rdf:Description"));
    assert!(!out.contains("<owl:NamedIndividual"));
}

#[test]
fn rdf_preprocess_tests_materialize_named_description_skips_thing_subclass() {
    let input = r#"<rdf:RDF xmlns:owl="http://www.w3.org/2002/07/owl#"
 xmlns:rdf="http://www.w3.org/1999/02/22-rdf-syntax-ns#"
 xmlns:rdfs="http://www.w3.org/2000/01/rdf-schema#">
 <rdf:Description rdf:about="http://www.w3.org/2002/07/owl#Thing">
  <rdfs:subClassOf>
   <owl:Restriction>
    <owl:onProperty rdf:resource="http://ex.org#f"/>
   </owl:Restriction>
  </rdfs:subClassOf>
 </rdf:Description>
</rdf:RDF>"#;
    let out = materialize_named_individual_descriptions(input);
    assert!(out.contains("<rdf:Description"));
    assert!(!out.contains("<owl:NamedIndividual"));
}

#[test]
fn rdf_preprocess_description_element_end_parses_member_descriptions() {
    let inner = r#"
  <rdf:Description rdf:about="http://ex.org#w1">
    <owl:sameAs rdf:resource="http://ex.org#w2"/>
  </rdf:Description>
  <rdf:Description rdf:about="http://ex.org#w2"/>
"#;
    let start = inner.find("<rdf:Description").unwrap();
    let end = description_element_end(inner, start).expect("first desc end");
    assert!(inner[start..end].contains("sameAs"));
    let start2 = inner[end..].find("<rdf:Description").unwrap() + end;
    let end2 = description_element_end(inner, start2).expect("second desc end");
    assert!(inner[start2..end2].contains("w2"));
}

#[test]
fn rdf_preprocess_tests_description_element_end_parses_member_descriptions() {
    let inner = r#"
      <rdf:Description rdf:about="http://ex.org#w1">
        <owl:sameAs rdf:resource="http://ex.org#w2"/>
      </rdf:Description>
      <rdf:Description rdf:about="http://ex.org#w2"/>
    "#;
    let start = inner.find("<rdf:Description").unwrap();
    let end = description_element_end(inner, start).expect("first desc end");
    assert!(inner[start..end].contains("sameAs"));
    let start2 = inner[end..].find("<rdf:Description").unwrap() + end;
    let end2 = description_element_end(inner, start2).expect("second desc end");
    assert!(inner[start2..end2].contains("w2"));
}

fn names_read_back(s: &str) -> String {
    s.replace("<owl:NamedIndividual", "<rdf:Description")
        .replace("</owl:NamedIndividual>", "</rdf:Description>")
}

#[test]
fn named_individual_materialization_changes_element_names_only() {
    let input = r#"<rdf:RDF xmlns:rdf="http://www.w3.org/1999/02/22-rdf-syntax-ns#">
 <rdf:Description rdf:about="http://ex.org/a">
  <rdf:type rdf:resource="http://ex.org/Person"/>
  <ex:knows><rdf:Description rdf:about="http://ex.org/b"><rdf:type rdf:resource="http://ex.org/Person"/></rdf:Description></ex:knows>
 </rdf:Description>
 <rdf:Description rdf:about="http://ex.org/p">
  <rdf:type rdf:resource="http://www.w3.org/2002/07/owl#ObjectProperty"/>
 </rdf:Description>
 <owl:NamedIndividual rdf:about="http://ex.org/c"/>
</rdf:RDF>"#;
    let out = materialize_named_individual_descriptions(input);
    assert!(out.contains("<owl:NamedIndividual rdf:about=\"http://ex.org/a\">"));
    assert!(out.contains("<rdf:Description rdf:about=\"http://ex.org/p\">"));
    assert_eq!(names_read_back(&out), names_read_back(input));
}

#[test]
fn description_typed_as_an_owl_entity_comes_back_unchanged() {
    for ty in ["Class", "ObjectProperty", "DatatypeProperty", "NamedIndividual", "TransitiveProperty"] {
        let input = format!(
            "<rdf:Description rdf:about=\"http://ex.org/e\"><rdf:type rdf:resource=\"http://www.w3.org/2002/07/owl#{ty}\"/></rdf:Description>"
        );
        assert_eq!(materialize_named_individual_descriptions(&input), input);
    }
}
