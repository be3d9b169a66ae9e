use ontologos::typed::materialize_typed_node_elements;
use ontologos::xml::parse_xmlns;

#[test]
fn rdf_preprocess_materialize_typed_node_element_adds_class_assertion() {
    let input = r#"<rdf:RDF xmlns:oiled="http://oiled.man.example.net/test#"
xmlns:rdf="http://www.w3.org/1999/02/22-rdf-syntax-ns#"
 xml:base="http://ex.org/">
 <oiled:Unsatisfiable/>
</rdf:RDF>"#;
    let out = materialize_typed_node_elements(input);
    assert!(out.contains("rdf:about=\"http://ex.org#_:tn1\""));
    assert!(out.contains("rdf:resource=\"http://oiled.man.example.net/test#Unsatisfiable\""));
    assert!(!out.contains("<oiled:Unsatisfiable/>"));
}

#[test]
fn rdf_preprocess_tests_materialize_typed_node_element_adds_class_assertion() {
    let input = r#"<rdf:RDF xmlns:oiled="http://oiled.man.example.net/test#"
    xmlns:rdf="http://www.w3.org/1999/02/22-rdf-syntax-ns#"
 xml:base="http://ex.org/">
 <oiled:Unsatisfiable/>
</rdf:RDF>"#;
    let out = materialize_typed_node_elements(input);
    assert!(out.contains("rdf:about=\"http://ex.org#_:tn1\""));
    assert!(out.contains("rdf:resource=\"http://oiled.man.example.net/test#Unsatisfiable\""));
    assert!(!out.contains("<oiled:Unsatisfiable/>"));
}

#[test]
fn rdf_preprocess_parse_xmlns_multiline_root_with_trailing_angle() {
    let input = r#"<rdf:RDF 
xmlns:rdf="http://www.w3.org/1999/02/22-rdf-syntax-ns#"
xmlns:oiled="http://oiled.man.example.net/test#">
 <oiled:Unsatisfiable/>
</rdf:RDF>"#;
    let xmlns = parse_xmlns(input);
    assert_eq!(
        xmlns.get("oiled").as_ref(),
        Some(&"http://oiled.man.example.net/test#".to_owned())
    );
    let out = materialize_typed_node_elements(input);
    assert!(out.contains("#_:tn1"));
    assert!(!out.contains("<oiled:Unsatisfiable/>"));
}

#[test]
fn rdf_preprocess_tests_parse_xmlns_multiline_root_with_trailing_angle() {
    let input = r#"<rdf:RDF 
    xmlns:rdf="http://www.w3.org/1999/02/22-rdf-syntax-ns#"
    xmlns:oiled="http://oiled.man.example.net/test#">
 <oiled:Unsatisfiable/>
</rdf:RDF>"#;
    let xmlns = parse_xmlns(input);
    assert_eq!(
        xmlns.get("oiled").as_ref(),
        Some(&"http://oiled.man.example.net/test#".to_owned())
    );
    let out = materialize_typed_node_elements(input);
    assert!(out.contains("#_:tn1"));
    assert!(!out.contains("<oiled:Unsatisfiable/>"));
}
