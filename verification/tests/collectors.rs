use ontologos::booleans::{
    collect_anonymous_intersection_subclasses, collect_boolean_class_equivalences,
    collect_disjoint_union_axioms, contains_ill_founded_rdf_list,
};
use ontologos::class_assertions::collect_object_class_assertions;
use ontologos::literals::{
    collect_direct_data_literal_assertions, extract_xml_lang, ofn_literal_from_rdf_literal,
    strip_xml_tags,
};
use ontologos::pairs::{
    collect_complement_subclasses, collect_owl_same_as_pairs, collect_property_disjoint_pairs,
    collect_rdfs_object_property_domains,
};
use ontologos::properties::{
    collect_datatype_property_ranges, collect_functional_object_properties, collect_owl_imports,
    collect_rdfs_object_property_ranges, datatype_ofn_ref,
};
use ontologos::reified::collect_reified_npas;
use ontologos::self_disjoint::collect_self_disjoint_restriction_assertions;
use ontologos::subclasses::{
    collect_restriction_subclasses, collect_subclass_axioms, declared_datatype_property_iris,
};

fn doc(body: &str) -> String {
    format!(
        "<rdf:RDF xml:base=\"http://ex.org/o\"\n xmlns:owl=\"http://www.w3.org/2002/07/owl#\"\n xmlns:rdf=\"http://www.w3.org/1999/02/22-rdf-syntax-ns#\"\n xmlns:rdfs=\"http://www.w3.org/2000/01/rdf-schema#\"\n xmlns:ex=\"http://ex.org/o#\">\n{body}\n</rdf:RDF>"
    )
}

fn pair(a: &str, b: &str) -> (String, String) {
    (a.to_string(), b.to_string())
}

fn chars(s: &str) -> Vec<char> {
    s.chars().collect()
}

fn text(v: &[char]) -> String {
    v.iter().collect()
}

#[test]
fn same_as_pairs_resolve_against_base() {
    let rdf = doc("<rdf:Description rdf:about=\"#a\"><owl:sameAs rdf:resource=\"#b\"/></rdf:Description>");
    assert_eq!(
        collect_owl_same_as_pairs(&rdf),
        vec![pair("http://ex.org/o#a", "http://ex.org/o#b")]
    );
}

#[test]
fn description_without_name_gives_no_same_as_pair() {
    let rdf = doc("<rdf:Description><owl:sameAs rdf:resource=\"#b\"/></rdf:Description>");
    assert!(collect_owl_same_as_pairs(&rdf).is_empty());
}

#[test]
fn complement_subclass_is_written_as_complement() {
    let rdf = doc("<rdf:Description rdf:about=\"#C\"><owl:complementOf rdf:resource=\"#D\"/></rdf:Description>");
    assert_eq!(
        collect_complement_subclasses(&rdf),
        vec![pair("http://ex.org/o#C", "ObjectComplementOf(<http://ex.org/o#D>)")]
    );
}

#[test]
fn domains_and_disjoint_properties_are_collected() {
    let rdf = doc(
        "<rdf:Description rdf:about=\"#p\"><rdfs:domain rdf:resource=\"#C\"/></rdf:Description>\n<rdf:Description rdf:about=\"#q\"><owl:propertyDisjointWith rdf:resource=\"#p\"/></rdf:Description>",
    );
    assert_eq!(
        collect_rdfs_object_property_domains(&rdf),
        vec![pair("http://ex.org/o#p", "http://ex.org/o#C")]
    );
    assert_eq!(
        collect_property_disjoint_pairs(&rdf),
        vec![pair("http://ex.org/o#q", "http://ex.org/o#p")]
    );
}

#[test]
fn object_property_ranges_come_from_descriptions_then_elements() {
    let rdf = doc(
        "<rdf:Description rdf:about=\"#p\"><rdfs:range rdf:resource=\"#C\"/></rdf:Description>\n<owl:ObjectProperty rdf:about=\"#q\"><rdfs:range rdf:resource=\"#D\"/></owl:ObjectProperty>\n<owl:FunctionalProperty rdf:about=\"#f\"><rdfs:range rdf:resource=\"#E\"/></owl:FunctionalProperty>",
    );
    assert_eq!(
        collect_rdfs_object_property_ranges(&rdf),
        vec![
            pair("http://ex.org/o#p", "http://ex.org/o#C"),
            pair("http://ex.org/o#q", "http://ex.org/o#D"),
            pair("http://ex.org/o#f", "http://ex.org/o#E"),
        ]
    );
}

#[test]
fn functional_properties_are_sorted_without_repeats() {
    let rdf = doc(
        "<owl:FunctionalProperty rdf:about=\"#g\"/>\n<rdf:Description rdf:about=\"#f\"><rdf:type rdf:resource=\"http://www.w3.org/2002/07/owl#FunctionalProperty\"/></rdf:Description>\n<owl:FunctionalProperty rdf:about=\"#g\"/>",
    );
    assert_eq!(
        collect_functional_object_properties(&rdf),
        vec!["http://ex.org/o#f".to_string(), "http://ex.org/o#g".to_string()]
    );
}

#[test]
fn imports_are_read_from_resources() {
    let rdf = doc(
        "<owl:Ontology rdf:about=\"\"><owl:imports rdf:resource=\"http://ex.org/other\"/><owl:imports rdf:resource=\"http://ex.org/third\"/></owl:Ontology>",
    );
    assert_eq!(
        collect_owl_imports(&rdf),
        vec!["http://ex.org/other".to_string(), "http://ex.org/third".to_string()]
    );
}

#[test]
fn datatype_references_use_known_prefixes() {
    assert_eq!(
        text(&datatype_ofn_ref(&chars("http://www.w3.org/2001/XMLSchema#integer"))),
        "xsd:integer"
    );
    assert_eq!(
        text(&datatype_ofn_ref(&chars("http://www.w3.org/2000/01/rdf-schema#Literal"))),
        "rdfs:Literal"
    );
    assert_eq!(text(&datatype_ofn_ref(&chars("http://ex.org/o#dt"))), "<http://ex.org/o#dt>");
}

#[test]
fn datatype_property_ranges_from_elements_and_descriptions() {
    let rdf = doc(
        "<owl:DatatypeProperty rdf:about=\"#age\"><rdfs:range rdf:resource=\"http://www.w3.org/2001/XMLSchema#integer\"/></owl:DatatypeProperty>\n<rdf:Description rdf:about=\"#name\"><rdf:type rdf:resource=\"http://www.w3.org/2002/07/owl#DatatypeProperty\"/><rdfs:range rdf:resource=\"http://www.w3.org/2000/01/rdf-schema#Literal\"/></rdf:Description>",
    );
    assert_eq!(
        collect_datatype_property_ranges(&rdf),
        vec![pair("http://ex.org/o#age", "xsd:integer"), pair("http://ex.org/o#name", "rdfs:Literal")]
    );
}

#[test]
fn declared_datatype_properties_are_sorted_and_unique() {
    let rdf = doc(
        "<owl:DatatypeProperty rdf:about=\"#b\"/>\n<owl:DatatypeProperty rdf:ID=\"a\"/>\n<owl:DatatypeProperty rdf:about=\"#b\"/>",
    );
    assert_eq!(
        declared_datatype_property_iris(&rdf),
        vec!["http://ex.org/o#a".to_string(), "http://ex.org/o#b".to_string()]
    );
}

#[test]
fn restriction_subclasses_from_descriptions_and_classes() {
    let rdf = doc(
        "<rdf:Description rdf:about=\"#C\"><owl:onProperty rdf:resource=\"#p\"/><owl:someValuesFrom rdf:resource=\"#D\"/></rdf:Description>\n<owl:Class rdf:about=\"#E\"><rdfs:subClassOf><owl:Restriction><owl:onProperty rdf:resource=\"#p\"/><owl:allValuesFrom rdf:resource=\"#F\"/></owl:Restriction></rdfs:subClassOf></owl:Class>",
    );
    assert_eq!(
        collect_restriction_subclasses(&rdf),
        vec![
            pair("http://ex.org/o#C", "ObjectSomeValuesFrom(<http://ex.org/o#p> <http://ex.org/o%23D>)"),
            pair("http://ex.org/o#E", "ObjectAllValuesFrom(<http://ex.org/o#p> <http://ex.org/o%23F>)"),
        ]
    );
}

#[test]
fn restriction_on_declared_datatype_property_is_not_an_object_subclass() {
    let rdf = doc(
        "<owl:DatatypeProperty rdf:about=\"#p\"/>\n<rdf:Description rdf:about=\"#C\"><owl:onProperty rdf:resource=\"#p\"/><owl:someValuesFrom rdf:resource=\"#D\"/></rdf:Description>",
    );
    assert!(collect_restriction_subclasses(&rdf).is_empty());
}

#[test]
fn description_with_user_property_is_not_a_restriction() {
    let rdf = doc(
        "<rdf:Description rdf:about=\"#C\"><ex:label>x</ex:label><owl:onProperty rdf:resource=\"#p\"/><owl:someValuesFrom rdf:resource=\"#D\"/></rdf:Description>",
    );
    assert!(collect_restriction_subclasses(&rdf).is_empty());
}

#[test]
fn inline_cardinality_restriction_subclass() {
    let rdf = doc(
        "<rdf:Description rdf:about=\"#C\"><owl:onProperty rdf:resource=\"#p\"/><owl:cardinality> 2 </owl:cardinality></rdf:Description>",
    );
    assert_eq!(
        collect_restriction_subclasses(&rdf),
        vec![pair("http://ex.org/o#C", "ObjectExactCardinality(2 <http://ex.org/o#p>)")]
    );
}

#[test]
fn subclass_axioms_read_resources_and_nested_classes() {
    let rdf = doc(
        "<owl:Class rdf:about=\"#A\"><rdfs:subClassOf rdf:resource=\"#B\"/><rdfs:subClassOf><owl:Class rdf:about=\"#C\"/></rdfs:subClassOf></owl:Class>",
    );
    assert_eq!(
        collect_subclass_axioms(&rdf),
        vec![pair("http://ex.org/o#A", "<http://ex.org/o%23B>"), pair("http://ex.org/o#A", "<http://ex.org/o%23C>")]
    );
}

#[test]
fn self_disjoint_restriction_applies_to_property_subjects() {
    let rdf = doc(
        "<owl:Restriction rdf:nodeID=\"r1\"><owl:onProperty rdf:resource=\"#p\"/><owl:minCardinality>1</owl:minCardinality><owl:disjointWith rdf:nodeID=\"r1\"/></owl:Restriction>\n<rdf:Description rdf:about=\"#x\"><ex:p rdf:resource=\"#y\"/></rdf:Description>",
    );
    let opas = ontologos::object_assertions::collect_object_property_assertions(&rdf);
    assert_eq!(opas.len(), 1);
    assert_eq!(opas[0].1, "http://ex.org/o#p");
    let found = collect_self_disjoint_restriction_assertions(&rdf);
    assert_eq!(
        found,
        vec![(
            "http://ex.org/o#x".to_string(),
            "http://ex.org/o#_r1".to_string(),
            "ObjectMinCardinality(1 <http://ex.org/o#p> owl:Thing)".to_string()
        )]
    );
}

#[test]
fn no_self_disjoint_restriction_gives_nothing() {
    let rdf = doc("<rdf:Description rdf:about=\"#x\"><ex:p rdf:resource=\"#y\"/></rdf:Description>");
    assert!(collect_self_disjoint_restriction_assertions(&rdf).is_empty());
}

#[test]
fn reified_negative_object_assertion() {
    let rdf = doc(
        "<rdf:Description>\n <owl:sourceIndividual><rdf:Description rdf:about=\"#a\"><ex:q rdf:resource=\"#c\"/></rdf:Description></owl:sourceIndividual>\n <owl:assertionProperty rdf:resource=\"#p\"/>\n <owl:targetIndividual rdf:resource=\"#b\"/>\n</rdf:Description>",
    );
    let npas = collect_reified_npas(&rdf);
    assert_eq!(npas.len(), 1);
    assert_eq!(npas[0].subject, "http://ex.org/o#a");
    assert_eq!(npas[0].property, "http://ex.org/o#p");
    assert_eq!(npas[0].object, "http://ex.org/o#b");
    assert_eq!(
        npas[0].positive_property,
        Some(pair("http://ex.org/o#q", "http://ex.org/o#c"))
    );
}

#[test]
fn reified_assertion_with_target_value_is_not_an_object_one() {
    let rdf = doc(
        "<rdf:Description>\n <owl:sourceIndividual><rdf:Description rdf:about=\"#a\"/></owl:sourceIndividual>\n <owl:assertionProperty rdf:resource=\"#p\"/>\n <owl:targetValue>5</owl:targetValue>\n</rdf:Description>",
    );
    assert!(collect_reified_npas(&rdf).is_empty());
}

#[test]
fn direct_data_literals_on_things_and_descriptions() {
    let rdf = doc(
        "<owl:Thing><ex:age rdf:datatype=\"http://www.w3.org/2001/XMLSchema#integer\">42</ex:age></owl:Thing>\n<rdf:Description rdf:about=\"#x\"><ex:name>Bob</ex:name><ex:note rdf:parseType=\"Literal\"><b xml:lang=\"en\">Hi  there</b></ex:note></rdf:Description>",
    );
    let found = collect_direct_data_literal_assertions(&rdf);
    let got: Vec<(String, String, String)> = found
        .iter()
        .map(|a| (a.subject.clone(), a.property.clone(), a.value_literal.clone()))
        .collect();
    assert_eq!(
        got,
        vec![
            (
                "http://ex.org/o#_:thing1".to_string(),
                "http://ex.org/o#age".to_string(),
                "\"42\"^^xsd:integer".to_string()
            ),
            ("http://ex.org/o#x".to_string(), "http://ex.org/o#name".to_string(), "Bob".to_string()),
            (
                "http://ex.org/o#x".to_string(),
                "http://ex.org/o#note".to_string(),
                "\"Hi there\"@en".to_string()
            ),
        ]
    );
}

#[test]
fn xml_literal_helpers() {
    assert_eq!(extract_xml_lang(&chars("<b xml:lang='fr'>x</b>")).map(|v| text(&v)), Some("fr".to_string()));
    assert_eq!(extract_xml_lang(&chars("<b>x</b>")), None);
    assert_eq!(text(&strip_xml_tags(&chars("<b> a  b </b>\n c"))), "a b c");
    assert_eq!(
        text(&ofn_literal_from_rdf_literal(&chars("<p>Hi \"you\"</p>"))),
        "\"<p>Hi \\\"you\\\"</p>\"^^rdf:XMLLiteral"
    );
}

#[test]
fn boolean_equivalences_number_anonymous_classes() {
    let rdf = doc(
        "<rdf:Description><owl:intersectionOf rdf:parseType=\"Collection\"><owl:Class rdf:about=\"#A\"/><owl:Class rdf:about=\"#B\"/></owl:intersectionOf></rdf:Description>\n<owl:Class rdf:about=\"#U\"><owl:unionOf rdf:parseType=\"Collection\"><owl:Class rdf:about=\"#A\"/><owl:Class rdf:about=\"#B\"/></owl:unionOf></owl:Class>",
    );
    assert_eq!(
        collect_boolean_class_equivalences(&rdf),
        vec![
            pair("http://ex.org/o#_:anon1", "ObjectIntersectionOf(<http://ex.org/o%23A> <http://ex.org/o%23B>)"),
            pair("http://ex.org/o#U", "ObjectUnionOf(<http://ex.org/o%23A> <http://ex.org/o%23B>)"),
        ]
    );
}

#[test]
fn singleton_boolean_operand_is_the_member_itself() {
    let rdf = doc(
        "<owl:Class rdf:about=\"#U\"><owl:unionOf rdf:parseType=\"Collection\"><owl:Class rdf:about=\"#A\"/></owl:unionOf></owl:Class>",
    );
    assert_eq!(
        collect_boolean_class_equivalences(&rdf),
        vec![pair("http://ex.org/o#U", "<http://ex.org/o%23A>")]
    );
}

#[test]
fn rdf_list_walk_stops_at_a_rest_that_mentions_nil() {
    let rdf = doc(
        "<owl:Class rdf:about=\"#E\"><owl:unionOf><rdf:List><rdf:first rdf:resource=\"#a\"/><rdf:rest><rdf:List><rdf:first rdf:resource=\"#b\"/><rdf:rest rdf:resource=\"http://www.w3.org/1999/02/22-rdf-syntax-ns#nil\"/></rdf:List></rdf:rest></rdf:List></owl:unionOf></owl:Class>",
    );
    assert_eq!(
        collect_boolean_class_equivalences(&rdf),
        vec![pair("http://ex.org/o#E", "<http://ex.org/o%23a>")]
    );
}

#[test]
fn one_of_written_as_an_rdf_list_is_not_read() {
    let rdf = doc(
        "<owl:Class rdf:about=\"#E\"><owl:oneOf><rdf:List><rdf:first rdf:resource=\"#a\"/><rdf:rest rdf:resource=\"http://www.w3.org/1999/02/22-rdf-syntax-ns#nil\"/></rdf:List></owl:oneOf></owl:Class>",
    );
    assert!(collect_boolean_class_equivalences(&rdf).is_empty());
}

#[test]
fn one_of_collection_lists_its_members() {
    let rdf = doc(
        "<owl:Class rdf:about=\"#E\"><owl:oneOf rdf:parseType=\"Collection\"><owl:Thing rdf:about=\"#a\"/><owl:Thing rdf:about=\"#b\"/></owl:oneOf></owl:Class>",
    );
    assert_eq!(
        collect_boolean_class_equivalences(&rdf),
        vec![pair("http://ex.org/o#E", "ObjectOneOf(<http://ex.org/o%23a> <http://ex.org/o%23b>)")]
    );
}

#[test]
fn anonymous_intersection_subclass_axioms() {
    let rdf = doc(
        "<owl:Class><owl:intersectionOf rdf:parseType=\"Collection\"><owl:Class rdf:about=\"#A\"/><owl:Class rdf:about=\"#B\"/></owl:intersectionOf><rdfs:subClassOf><owl:Restriction><owl:onProperty rdf:resource=\"#p\"/><owl:someValuesFrom rdf:resource=\"#C\"/></owl:Restriction></rdfs:subClassOf></owl:Class>",
    );
    assert_eq!(
        collect_anonymous_intersection_subclasses(&rdf),
        vec!["Declaration(Class(<http://ex.org/o#_:anon1>))\nSubClassOf(<http://ex.org/o#_:anon1> ObjectIntersectionOf(<http://ex.org/o%23A> <http://ex.org/o%23B>))\nSubClassOf(<http://ex.org/o#_:anon1> ObjectSomeValuesFrom(<http://ex.org/o#p> <http://ex.org/o%23C>))".to_string()]
    );
}

#[test]
fn disjoint_union_axioms() {
    let rdf = doc(
        "<rdf:Description rdf:about=\"#C\"><owl:disjointUnionOf rdf:parseType=\"Collection\"><rdf:Description rdf:about=\"#A\"/><rdf:Description rdf:about=\"#B\"/></owl:disjointUnionOf></rdf:Description>",
    );
    assert_eq!(
        collect_disjoint_union_axioms(&rdf),
        vec!["Declaration(Class(<http://ex.org/o#C>))\nEquivalentClasses(<http://ex.org/o#C> ObjectUnionOf(<http://ex.org/o%23A> <http://ex.org/o%23B>))\nDisjointClasses(<http://ex.org/o%23A> <http://ex.org/o%23B>)".to_string()]
    );
}

#[test]
fn complex_class_assertion_from_typed_restriction() {
    let rdf = doc(
        "<rdf:Description rdf:about=\"#x\"><rdf:type><owl:Restriction><owl:onProperty rdf:resource=\"#p\"/><owl:someValuesFrom rdf:resource=\"#C\"/></owl:Restriction></rdf:type></rdf:Description>",
    );
    assert_eq!(
        collect_object_class_assertions(&rdf),
        vec![pair("http://ex.org/o#x", "ObjectSomeValuesFrom(<http://ex.org/o#p> <http://ex.org/o%23C>)")]
    );
}

#[test]
fn simple_type_gives_no_complex_class_assertion() {
    let rdf = doc("<rdf:Description rdf:about=\"#x\"><rdf:type rdf:resource=\"#C\"/></rdf:Description>");
    assert!(collect_object_class_assertions(&rdf).is_empty());
}

#[test]
fn ill_founded_list_needs_nil_and_list_element() {
    assert!(contains_ill_founded_rdf_list("<rdf:first/> 22-rdf-syntax-ns#nil"));
    assert!(!contains_ill_founded_rdf_list("22-rdf-syntax-ns#nil"));
    assert!(!contains_ill_founded_rdf_list("<rdf:rest/>"));
}
