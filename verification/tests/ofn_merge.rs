use ontologos::ofn::merge_ofn_documents;

#[test]
fn merge_ofn_preserves_literal_with_closing_paren() {
    let base = "Prefix(:=<file:/c/test.owl#>)\n\
Ontology(<file:/c/test.owl#>\n\
Class(:A)\n\
AnnotationAssertion(rdfs:comment :A \"note with ) inside\")\n\
)";
    let incremental = "Prefix(:=<file:/c/test.owl#>)\n\
Ontology(<file:/c/test.owl#>\n\
ClassAssertion(:A :a)\n\
)";
    let merged = merge_ofn_documents(base, incremental).expect("merge");
    assert!(merged.contains("note with ) inside"));
    assert!(merged.contains("ClassAssertion(:A :a)"));
    assert!(merged.ends_with("ClassAssertion(:A :a))"));
}
