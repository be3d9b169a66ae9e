use ontologos::xml::tagged_element_end;

#[test]
fn rdf_preprocess_tagged_element_end_self_close_with_iri_attr() {
    let s = r#"<owl:assertionProperty rdf:resource="http://www.example.org#p"/>"#;
    assert!(
        tagged_element_end(s, 0, "owl:assertionProperty").is_some(),
        "self-close with IRI attr"
    );
}

#[test]
fn rdf_preprocess_tests_tagged_element_end_self_close_with_iri_attr() {
    let s = r#"<owl:assertionProperty rdf:resource="http://www.example.org#p"/>"#;
    assert!(
        tagged_element_end(s, 0, "owl:assertionProperty").is_some(),
        "self-close with IRI attr"
    );
}
