use ontologos::all_different::normalize_all_different_members;

#[test]
fn rdf_preprocess_normalize_all_different_members_tag() {
    let input = r#"<rdf:RDF xmlns:owl="http://www.w3.org/2002/07/owl#" xmlns:rdf="http://www.w3.org/1999/02/22-rdf-syntax-ns#">
  <owl:AllDifferent rdf:about="http://ex.org#z">
<owl:members rdf:parseType="Collection">
  <rdf:Description rdf:about="http://ex.org#w1">
    <owl:sameAs rdf:resource="http://ex.org#w2"/>
  </rdf:Description>
  <rdf:Description rdf:about="http://ex.org#w2"/>
</owl:members>
  </owl:AllDifferent>
</rdf:RDF>"#;
    let out = normalize_all_different_members(input);
    assert!(out.contains("owl:distinctMembers"));
    assert!(out.contains("<owl:NamedIndividual rdf:about=\"http://ex.org#w1\"/>"));
    assert!(!out.contains("AllDifferent rdf:about"));
    assert!(out.contains("owl:sameAs"));
}

#[test]
fn rdf_preprocess_tests_normalize_all_different_members_tag() {
    let input = r#"<rdf:RDF xmlns:owl="http://www.w3.org/2002/07/owl#" xmlns:rdf="http://www.w3.org/1999/02/22-rdf-syntax-ns#">
  <owl:AllDifferent rdf:about="http://ex.org#z">
    <owl:members rdf:parseType="Collection">
      <rdf:Description rdf:about="http://ex.org#w1">
        <owl:sameAs rdf:resource="http://ex.org#w2"/>
      </rdf:Description>
      <rdf:Description rdf:about="http://ex.org#w2"/>
    </owl:members>
  </owl:AllDifferent>
</rdf:RDF>"#;
    let out = normalize_all_different_members(input);
    assert!(out.contains("owl:distinctMembers"));
    assert!(out.contains("<owl:NamedIndividual rdf:about=\"http://ex.org#w1\"/>"));
    assert!(!out.contains("AllDifferent rdf:about"));
    assert!(out.contains("owl:sameAs"));
}
