use ontologos::disjoint::expand_all_disjoint_collections;

#[test]
fn rdf_preprocess_expand_disjoint_classes_injects_pairwise_axioms() {
    let input = r#"<rdf:RDF xmlns:owl="http://www.w3.org/2002/07/owl#" xmlns:rdf="http://www.w3.org/1999/02/22-rdf-syntax-ns#">
  <owl:AllDisjointClasses>
<owl:members rdf:parseType="Collection">
  <rdf:Description rdf:about="http://ex.org#c1"/>
  <rdf:Description rdf:about="http://ex.org#c2"/>
</owl:members>
  </owl:AllDisjointClasses>
</rdf:RDF>"#;
    let out = expand_all_disjoint_collections(input);
    assert!(out.contains("owl:disjointWith"));
    assert!(!out.contains("AllDisjointClasses"));
}

#[test]
fn rdf_preprocess_tests_expand_disjoint_classes_injects_pairwise_axioms() {
    let input = r#"<rdf:RDF xmlns:owl="http://www.w3.org/2002/07/owl#" xmlns:rdf="http://www.w3.org/1999/02/22-rdf-syntax-ns#">
  <owl:AllDisjointClasses>
    <owl:members rdf:parseType="Collection">
      <rdf:Description rdf:about="http://ex.org#c1"/>
      <rdf:Description rdf:about="http://ex.org#c2"/>
    </owl:members>
  </owl:AllDisjointClasses>
</rdf:RDF>"#;
    let out = expand_all_disjoint_collections(input);
    assert!(out.contains("owl:disjointWith"));
    assert!(!out.contains("AllDisjointClasses"));
}
