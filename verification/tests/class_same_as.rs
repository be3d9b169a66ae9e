use ontologos::same_as::normalize_class_same_as;

#[test]
fn rdf_preprocess_normalize_class_same_as_to_equivalent_class() {
    let input = r#"<rdf:RDF xmlns:owl="http://www.w3.org/2002/07/owl#"
 xmlns:rdf="http://www.w3.org/1999/02/22-rdf-syntax-ns#"
 xml:base="http://www.w3.org/2002/03owlt/I4.6/premises003">
 <owl:Class rdf:ID="C1">
  <owl:sameAs>
   <owl:Class rdf:ID="C2"/>
  </owl:sameAs>
 </owl:Class>
</rdf:RDF>"#;
    let out = normalize_class_same_as(input);
    assert!(out.contains("<owl:equivalentClass>"));
    assert!(out.contains("rdf:about=\"http://www.w3.org/2002/03owlt/I4.6/premises003#C2\""));
    assert!(!out.contains("owl:sameAs"));
}

#[test]
fn rdf_preprocess_tests_normalize_class_same_as_to_equivalent_class() {
    let input = r#"<rdf:RDF xmlns:owl="http://www.w3.org/2002/07/owl#"
 xmlns:rdf="http://www.w3.org/1999/02/22-rdf-syntax-ns#"
 xml:base="http://www.w3.org/2002/03owlt/I4.6/premises003">
 <owl:Class rdf:ID="C1">
  <owl:sameAs>
   <owl:Class rdf:ID="C2"/>
  </owl:sameAs>
 </owl:Class>
</rdf:RDF>"#;
    let out = normalize_class_same_as(input);
    assert!(out.contains("<owl:equivalentClass>"));
    assert!(out.contains("rdf:about=\"http://www.w3.org/2002/03owlt/I4.6/premises003#C2\""));
    assert!(!out.contains("owl:sameAs"));
}
