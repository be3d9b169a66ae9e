use ontologos::classes::normalize_class_intersection_definitions;

#[test]
fn rdf_preprocess_normalize_class_intersection_wraps_direct_intersection_of() {
    let input = r#"<rdf:RDF xmlns:owl="http://www.w3.org/2002/07/owl#" xmlns:rdf="http://www.w3.org/1999/02/22-rdf-syntax-ns#">
 <owl:Class rdf:about="http://ex.org#C">
  <owl:intersectionOf rdf:parseType="Collection">
   <owl:Class rdf:about="http://ex.org#A"/>
   <owl:Class rdf:about="http://ex.org#B"/>
  </owl:intersectionOf>
 </owl:Class>
</rdf:RDF>"#;
    let out = normalize_class_intersection_definitions(input);
    assert!(out.contains("<owl:equivalentClass>"));
    assert!(!out.contains("</owl:equivalentClass>\n  <owl:intersectionOf"));
}

#[test]
fn rdf_preprocess_tests_normalize_class_intersection_wraps_direct_intersection_of() {
    let input = r#"<rdf:RDF xmlns:owl="http://www.w3.org/2002/07/owl#" xmlns:rdf="http://www.w3.org/1999/02/22-rdf-syntax-ns#">
 <owl:Class rdf:about="http://ex.org#C">
  <owl:intersectionOf rdf:parseType="Collection">
   <owl:Class rdf:about="http://ex.org#A"/>
   <owl:Class rdf:about="http://ex.org#B"/>
  </owl:intersectionOf>
 </owl:Class>
</rdf:RDF>"#;
    let out = normalize_class_intersection_definitions(input);
    assert!(out.contains("<owl:equivalentClass>"));
    assert!(!out.contains("</owl:equivalentClass>\n  <owl:intersectionOf"));
}
