use ontologos::ofn_terms::{
    normalize_supplement_boolean_ce, qualify_ce_ofn_for_supplement,
    qualify_datatype_ref_for_supplement,
};

fn chars(s: &str) -> Vec<char> {
    s.chars().collect()
}

fn text(v: &[char]) -> String {
    v.iter().collect()
}

fn qualify_ce(ce: &str) -> (String, String) {
    let (p, q) = qualify_ce_ofn_for_supplement(&chars(ce));
    (text(&p), text(&q))
}

fn normalize(ce: &str) -> String {
    text(&normalize_supplement_boolean_ce(&chars(ce)))
}

#[test]
fn qualify_ce_ofn_percent23_fragment_uses_hash_namespace() {
    let ce = "ObjectUnionOf(<http://www.w3.org/2002/03owlt/I5.5/premises005%23a>)";
    let (prefixes, qualified) = qualify_ce(ce);
    assert!(prefixes.contains("premises005#>"));
    assert_eq!(qualified, "ns1:a");
    let normalized = normalize(ce);
    assert_eq!(normalized, "<http://www.w3.org/2002/03owlt/I5.5/premises005%23a>");
}

#[test]
fn qualified_members_get_numbered_prefixes() {
    let (prefixes, qualified) = qualify_ce("ObjectIntersectionOf(<http://a.org/x#B> <http://a.org/y#C>)");
    assert_eq!(prefixes, "Prefix(ns1:=<http://a.org/x#>)\nPrefix(ns2:=<http://a.org/y#>)");
    assert_eq!(qualified, "ObjectIntersectionOf(ns1:B ns2:C)");
}

#[test]
fn owl_thing_and_hashless_iris_stay_bracketed() {
    let (prefixes, qualified) =
        qualify_ce("ObjectUnionOf(<http://www.w3.org/2002/07/owl#Thing> <http://a.org/plain> <http://a.org/x#B>)");
    assert_eq!(prefixes, "Prefix(ns1:=<http://a.org/x#>)");
    assert_eq!(qualified, "ObjectUnionOf(<http://www.w3.org/2002/07/owl#Thing> <http://a.org/plain> ns1:B)");
}

#[test]
fn non_word_local_names_stay_bracketed_with_escaped_hash() {
    let (prefixes, qualified) = qualify_ce("ObjectUnionOf(<http://a.org/x#b-c> <http://a.org/x#d>)");
    assert_eq!(prefixes, "Prefix(ns1:=<http://a.org/x#>)\nPrefix(ns2:=<http://a.org/x#>)");
    assert_eq!(qualified, "ObjectUnionOf(<http://a.org/x%23b-c> ns2:d)");
}

#[test]
fn several_operands_are_not_unwrapped() {
    assert_eq!(normalize("ObjectUnionOf(<a> <b>)"), "ObjectUnionOf(<a> <b>)");
    assert_eq!(normalize("ObjectIntersectionOf(<a>)"), "<a>");
}

#[test]
fn datatype_references_for_supplements() {
    let q = |iri: &str| {
        let (p, r) = qualify_datatype_ref_for_supplement(&chars(iri));
        (text(&p), text(&r))
    };
    assert_eq!(q("http://www.w3.org/2001/XMLSchema#string"), (String::new(), "xsd:string".to_string()));
    assert_eq!(q("http://www.w3.org/2002/07/owl#real"), (String::new(), "owl:real".to_string()));
    assert_eq!(
        q("http://ex.org/dt#myType"),
        ("Prefix(dtsame1:=<http://ex.org/dt#>)".to_string(), "dtsame1:myType".to_string())
    );
    assert_eq!(
        q("http://ex.org/dt%23x"),
        ("Prefix(dtsame1:=<http://ex.org/dt#>)".to_string(), "dtsame1:x".to_string())
    );
    assert_eq!(q("http://ex.org/plain"), (String::new(), "<http://ex.org/plain>".to_string()));
}
