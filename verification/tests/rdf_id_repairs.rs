use ontologos::ids::normalize_invalid_rdf_ids;

#[test]
fn rdf_preprocess_normalizes_numeric_rdf_ids() {
    let input = "<owl:Class rdf:ID=\"1.0\"/><owl:someValuesFrom rdf:resource=\"#1.0\"/>";
    let out = normalize_invalid_rdf_ids(input);
    assert!(out.contains("rdf:ID=\"_1_0\""));
    assert!(out.contains("rdf:resource=\"#_1_0\""));
    assert!(!out.contains("1.0"));
}

#[test]
fn rdf_preprocess_tests_normalizes_numeric_rdf_ids() {
    let input = "<owl:Class rdf:ID=\"1.0\"/><owl:someValuesFrom rdf:resource=\"#1.0\"/>";
    let out = normalize_invalid_rdf_ids(input);
    assert!(out.contains("rdf:ID=\"_1_0\""));
    assert!(out.contains("rdf:resource=\"#_1_0\""));
    assert!(!out.contains("1.0"));
}
