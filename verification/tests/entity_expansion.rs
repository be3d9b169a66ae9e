use ontologos::entities::{expand_xml_entities, expand_xml_entities_with_limit};

#[test]
fn rdf_preprocess_expands_single_quoted_entity() {
    let input = r#"<?xml version="1.0"?>
<!DOCTYPE rdf:RDF [
    <!ENTITY owl 'http://www.w3.org/2002/07/owl#'>
]>
<rdf:RDF xmlns:owl="&owl;"><owl:Ontology rdf:about=""/></rdf:RDF>"#;
    let expanded = expand_xml_entities(input);
    assert!(!expanded.contains("<!ENTITY"));
    assert!(!expanded.contains("<!DOCTYPE"));
    assert!(expanded.contains("http://www.w3.org/2002/07/owl#"));
}

#[test]
fn rdf_preprocess_expands_simple_entity() {
    let xml = r#"<!ENTITY ex "http://example.org/">"#;
    let input = format!(
        r#"<?xml version="1.0"?>
<!DOCTYPE rdf:RDF [{xml}]>
<rdf:RDF>&ex;a</rdf:RDF>"#
    );
    let expanded = expand_xml_entities(&input);
    assert!(expanded.contains("http://example.org/"));
    assert!(!expanded.contains("&ex;"));
}

#[test]
fn rdf_preprocess_expansion_limit_rejects_blowup() {
    let xml = r#"<!ENTITY a "aaaaaaaaaa"><!ENTITY b "&a;&a;">"#;
    let input = format!(
        r#"<?xml version="1.0"?>
<!DOCTYPE rdf:RDF [{xml}]>
<rdf:RDF>&b;</rdf:RDF>"#
    );
    let err = expand_xml_entities_with_limit(&input, 64).expect_err("limit");
    assert!(err.to_string().contains("exceeds limit"));
}

#[test]
fn rdf_preprocess_tests_expands_single_quoted_entity() {
    let input = r#"<?xml version="1.0"?>
<!DOCTYPE rdf:RDF [
    <!ENTITY owl 'http://www.w3.org/2002/07/owl#'>
]>
<rdf:RDF xmlns:owl="&owl;"><owl:Ontology rdf:about=""/></rdf:RDF>"#;
    let expanded = expand_xml_entities(input);
    assert!(!expanded.contains("<!ENTITY"));
    assert!(!expanded.contains("<!DOCTYPE"));
    assert!(expanded.contains("http://www.w3.org/2002/07/owl#"));
}

#[test]
fn rdf_preprocess_tests_expands_simple_entity() {
    let xml = r#"<!ENTITY ex "http://example.org/">"#;
    let input = format!(
        r#"<?xml version="1.0"?>
<!DOCTYPE rdf:RDF [{xml}]>
<rdf:RDF>&ex;a</rdf:RDF>"#
    );
    let expanded = expand_xml_entities(&input);
    assert!(expanded.contains("http://example.org/"));
    assert!(!expanded.contains("&ex;"));
}

#[test]
fn rdf_preprocess_tests_expansion_limit_rejects_blowup() {
    let xml = r#"<!ENTITY a "aaaaaaaaaa"><!ENTITY b "&a;&a;">"#;
    let input = format!(
        r#"<?xml version="1.0"?>
<!DOCTYPE rdf:RDF [{xml}]>
<rdf:RDF>&b;</rdf:RDF>"#
    );
    let err = expand_xml_entities_with_limit(&input, 64).expect_err("limit");
    assert!(err.to_string().contains("exceeds limit"));
}
