use ontologos::supplements::{
    asserted_as_object_property, datatype_same_as_supplement, functional_metacharacter_error,
    property_same_as_supplement, supplement_body_iris, supplement_plan, SupplementAction, SupplementStep,
};

const PREFIXES: &str = "Prefix(owl:=<http://www.w3.org/2002/07/owl#>)\nPrefix(xsd:=<http://www.w3.org/2001/XMLSchema#>)\nPrefix(rdf:=<http://www.w3.org/1999/02/22-rdf-syntax-ns#>)\n";

fn doc(body: &str) -> String {
    format!(
        "<rdf:RDF xml:base=\"http://ex.org/o\"\n xmlns:owl=\"http://www.w3.org/2002/07/owl#\"\n xmlns:rdf=\"http://www.w3.org/1999/02/22-rdf-syntax-ns#\"\n xmlns:rdfs=\"http://www.w3.org/2000/01/rdf-schema#\"\n xmlns:ex=\"http://ex.org/o#\">\n{body}\n</rdf:RDF>"
    )
}

fn plan(rdf: &str) -> Vec<SupplementStep> {
    supplement_plan(rdf, &vec![], &vec![], &vec![], false)
}

fn strings(v: &[&str]) -> Vec<String> {
    v.iter().map(|s| s.to_string()).collect()
}

fn merged(step: &SupplementStep) -> &str {
    match &step.action {
        SupplementAction::Merge(d) => d.as_str(),
        other => panic!("expected a merge, got {other:?}"),
    }
}

#[test]
fn same_as_pair_becomes_a_same_as_step() {
    let rdf = doc("<rdf:Description rdf:about=\"#a\"><owl:sameAs rdf:resource=\"#b\"/></rdf:Description>");
    let steps = plan(&rdf);
    assert_eq!(steps.len(), 1);
    assert_eq!(steps[0].iris, strings(&["http://ex.org/o#a", "http://ex.org/o#b"]));
    assert_eq!(steps[0].harvested, 1);
    assert_eq!(
        steps[0].action,
        SupplementAction::SameAs("http://ex.org/o#a".to_string(), "http://ex.org/o#b".to_string())
    );
}

#[test]
fn complement_subclass_document() {
    let rdf = doc("<rdf:Description rdf:about=\"#C\"><owl:complementOf rdf:resource=\"#D\"/></rdf:Description>");
    let steps = plan(&rdf);
    assert_eq!(steps.len(), 1);
    assert_eq!(steps[0].iris, strings(&["http://ex.org/o#C"]));
    assert_eq!(
        merged(&steps[0]),
        format!(
            "{PREFIXES}Ontology(<http://ex.org/o#C>\nDeclaration(Class(<http://ex.org/o#C>))\nSubClassOf(<http://ex.org/o#C> ObjectComplementOf(<http://ex.org/o#D>))\n)"
        )
    );
}

#[test]
fn disjoint_properties_precede_domains() {
    let rdf = doc(
        "<rdf:Description rdf:about=\"#p\"><rdfs:domain rdf:resource=\"#C\"/></rdf:Description>\n<rdf:Description rdf:about=\"#q\"><owl:propertyDisjointWith rdf:resource=\"#p\"/></rdf:Description>",
    );
    let steps = plan(&rdf);
    assert_eq!(steps.len(), 2);
    assert_eq!(
        steps[0].action,
        SupplementAction::DisjointProperties("http://ex.org/o#q".to_string(), "http://ex.org/o#p".to_string())
    );
    assert_eq!(
        merged(&steps[1]),
        "Prefix(owl:=<http://www.w3.org/2002/07/owl#>)\nOntology(<http://example.org/rdfs-domain-supplement>\nDeclaration(ObjectProperty(<http://ex.org/o#p>))\nDeclaration(Class(<http://ex.org/o#C>))\nObjectPropertyDomain(<http://ex.org/o#p> <http://ex.org/o#C>)\n)"
    );
}

#[test]
fn negative_object_assertion_document_with_positive_assertion() {
    let rdf = doc(
        "<rdf:Description>\n <owl:sourceIndividual><rdf:Description rdf:about=\"#a\"><ex:q rdf:resource=\"#c\"/></rdf:Description></owl:sourceIndividual>\n <owl:assertionProperty rdf:resource=\"#p\"/>\n <owl:targetIndividual rdf:resource=\"#b\"/>\n</rdf:Description>",
    );
    let steps = plan(&rdf);
    let last = steps.last().expect("npa step");
    assert_eq!(
        last.iris,
        strings(&["http://ex.org/o#a", "http://ex.org/o#b", "http://ex.org/o#p", "http://ex.org/o#q", "http://ex.org/o#c"])
    );
    assert_eq!(
        merged(last),
        "Prefix(owl:=<http://www.w3.org/2002/07/owl#>)\nOntology(<http://example.org/npa-supplement>\nDeclaration(NamedIndividual(<http://ex.org/o#a>))\nDeclaration(NamedIndividual(<http://ex.org/o#b>))\nDeclaration(ObjectProperty(<http://ex.org/o#p>))\nNegativeObjectPropertyAssertion(<http://ex.org/o#p> <http://ex.org/o#a> <http://ex.org/o#b>)\nObjectPropertyAssertion(<http://ex.org/o#q> <http://ex.org/o#a> <http://ex.org/o#c>)\n)"
    );
}

#[test]
fn plain_and_language_literals_of_descriptions() {
    let rdf = doc(
        "<rdf:Description rdf:about=\"#x\"><ex:name>Bob</ex:name><ex:note rdf:parseType=\"Literal\"><b xml:lang=\"en\">Hi  there</b></ex:note></rdf:Description>",
    );
    let steps = plan(&rdf);
    let docs: Vec<&str> = steps
        .iter()
        .filter_map(|s| match &s.action {
            SupplementAction::Merge(d) if d.contains("thing-data-literal") => Some(d.as_str()),
            _ => None,
        })
        .collect();
    assert_eq!(docs.len(), 2);
    assert!(docs[0].ends_with(
        "ClassAssertion(owl:Thing <http://ex.org/o#x>)\nDataPropertyAssertion(<http://ex.org/o#name> <http://ex.org/o#x> \"Bob\"^^rdf:PlainLiteral)\n)"
    ));
    assert!(docs[1].ends_with(
        "DataPropertyAssertion(<http://ex.org/o#note> <http://ex.org/o#x> \"Hi there\"@en)\n)"
    ));
    assert!(docs[0].starts_with(
        "Prefix(owl:=<http://www.w3.org/2002/07/owl#>)\nPrefix(xsd:=<http://www.w3.org/2001/XMLSchema#>)\nPrefix(rdf:=<http://www.w3.org/1999/02/22-rdf-syntax-ns#>)\n\nOntology(<http://example.org/thing-data-literal-supplement>\n"
    ));
}

#[test]
fn typed_literal_of_a_thing_is_split_at_its_datatype() {
    let rdf = doc("<owl:Thing><ex:age rdf:datatype=\"http://www.w3.org/2001/XMLSchema#integer\">42</ex:age></owl:Thing>");
    let steps = plan(&rdf);
    let step = steps.iter().find(|s| matches!(&s.action, SupplementAction::Merge(d) if d.contains("thing-data-literal"))).expect("literal step");
    // The datatype `xsd:integer` holds no `://`, so only subject and property are validated.
    assert_eq!(step.iris, strings(&["http://ex.org/o#_:thing1", "http://ex.org/o#age"]));
    assert!(merged(step).contains("\"42\""));
}

#[test]
fn caller_given_parts_and_ill_founded_list() {
    let steps = supplement_plan(
        &doc(""),
        &vec!["SubClassOf(<http://ex.org/o#A> <http://ex.org/o#B>)".to_string()],
        &vec![],
        &vec![("http://ex.org/o#s".to_string(), "http://ex.org/o#t".to_string())],
        true,
    );
    assert_eq!(steps.len(), 3);
    assert_eq!(steps[0].bodies, strings(&["SubClassOf(<http://ex.org/o#A> <http://ex.org/o#B>)"]));
    assert_eq!(
        merged(&steps[0]),
        format!(
            "{PREFIXES}Ontology(<http://example.org/anon-restriction-supplement>\nSubClassOf(<http://ex.org/o#A> <http://ex.org/o#B>)\n)"
        )
    );
    assert_eq!(
        merged(&steps[1]),
        "Prefix(owl:=<http://www.w3.org/2002/07/owl#>)\nOntology(<http://example.org/rdfs-subproperty-supplement>\nDeclaration(ObjectProperty(<http://ex.org/o#s>))\nDeclaration(ObjectProperty(<http://ex.org/o#t>))\nSubObjectPropertyOf(<http://ex.org/o#s> <http://ex.org/o#t>)\n)"
    );
    assert_eq!(steps[2].action, SupplementAction::IllFoundedList);
    assert_eq!(steps[2].harvested, 0);
}

#[test]
fn object_assertions_are_counted_then_merged_together() {
    let rdf = doc(
        "<rdf:Description rdf:about=\"#a\"><ex:p rdf:resource=\"#b\"/></rdf:Description>\n<rdf:Description rdf:about=\"#c\"><ex:p rdf:resource=\"#d\"/></rdf:Description>",
    );
    let steps = plan(&rdf);
    let counts: Vec<&SupplementStep> = steps.iter().filter(|s| s.action == SupplementAction::Count).collect();
    assert_eq!(counts.len(), 2);
    assert_eq!(counts[0].iris, strings(&["http://ex.org/o#a", "http://ex.org/o#p", "http://ex.org/o#b"]));
    let docs: Vec<&SupplementStep> = steps
        .iter()
        .filter(|s| matches!(&s.action, SupplementAction::Merge(d) if d.contains("opa-supplement")))
        .collect();
    assert_eq!(docs.len(), 1);
    assert_eq!(docs[0].harvested, 0);
    assert_eq!(
        merged(docs[0]),
        "Prefix(owl:=<http://www.w3.org/2002/07/owl#>)\nOntology(<http://example.org/opa-supplement>\nDeclaration(NamedIndividual(<http://ex.org/o#a>))\nDeclaration(NamedIndividual(<http://ex.org/o#b>))\nDeclaration(ObjectProperty(<http://ex.org/o#p>))\nObjectPropertyAssertion(<http://ex.org/o#p> <http://ex.org/o#a> <http://ex.org/o#b>)\nDeclaration(NamedIndividual(<http://ex.org/o#c>))\nDeclaration(NamedIndividual(<http://ex.org/o#d>))\nDeclaration(ObjectProperty(<http://ex.org/o#p>))\nObjectPropertyAssertion(<http://ex.org/o#p> <http://ex.org/o#c> <http://ex.org/o#d>)\n)"
    );
    assert!(asserted_as_object_property(&rdf, "http://ex.org/o#p"));
    assert!(!asserted_as_object_property(&rdf, "http://ex.org/o#a"));
}

#[test]
fn same_as_documents() {
    assert_eq!(datatype_same_as_supplement("http://ex.org/o#a", "http://ex.org/o#b"), None);
    let d = datatype_same_as_supplement("http://ex.org/o#age", "http://www.w3.org/2001/XMLSchema#integer")
        .expect("datatype alias");
    assert!(d.starts_with("Prefix(owl:=<http://www.w3.org/2002/07/owl#>)\nPrefix(xsd:=<http://www.w3.org/2001/XMLSchema#>)\n"));
    assert!(d.contains("Ontology(<http://example.org/datatype-sameas-supplement>\nDeclaration(Datatype("));
    assert!(d.contains("DatatypeDefinition("));
    assert_eq!(
        property_same_as_supplement("http://ex.org/o#p", "http://ex.org/o#q"),
        "Prefix(owl:=<http://www.w3.org/2002/07/owl#>)\nOntology(<http://example.org/property-sameas-supplement>\nDeclaration(ObjectProperty(<http://ex.org/o#p>))\nDeclaration(ObjectProperty(<http://ex.org/o#q>))\nEquivalentObjectProperties(<http://ex.org/o#p> <http://ex.org/o#q>)\n)"
    );
}

#[test]
fn supplement_iri_checks() {
    assert_eq!(functional_metacharacter_error("http://ex.org/o#a"), None);
    assert_eq!(
        functional_metacharacter_error("http://ex.org/o#a)b"),
        Some("supplement IRI contains OWL functional metacharacters: http://ex.org/o#a)b".to_string())
    );
    assert_eq!(
        supplement_body_iris("SubClassOf(<http://a> <http://b>)"),
        (strings(&["http://a", "http://b"]), true)
    );
    assert_eq!(supplement_body_iris("X(<http://a> <http://b"), (strings(&["http://a"]), false));
    assert_eq!(supplement_body_iris("no iris"), (vec![], true));
}
