use ontologos::budget::{
    bump_harvested_assertions, check_file_size, count_ofn_axiom_markers,
    count_turtle_statement_markers, count_xml_axiom_markers, prescan_axiom_estimate,
    PreprocessBudget,
};
use ontologos::error::Error;
use ontologos::format::Format;
use ontologos::lexical::{integer_in_range, validate_literal_lexical};
use ontologos::limits::ParseLimits;

fn parse_message(r: Result<(), Error>) -> String {
    match r {
        Err(Error::Parse(m)) => m,
        other => panic!("expected a parse error, got {other:?}"),
    }
}

#[test]
fn marker_counts_per_format() {
    assert_eq!(count_ofn_axiom_markers(b"Declaration(Class(:A))\nSubClassOf(:A :B)"), 2);
    assert_eq!(count_xml_axiom_markers(b"<owl:Class rdf:about=\"#A\"/><rdf:type/>"), 2);
    assert_eq!(count_turtle_statement_markers(b":a :b :c .\n:d :e :f ;\n"), 2);
    assert_eq!(count_turtle_statement_markers(b"\n\n\n\n\n\n\n\n"), 2);
}

#[test]
fn marker_counts_do_not_overlap() {
    assert_eq!(count_turtle_statement_markers(b" ; ; ;"), 3);
    assert_eq!(count_ofn_axiom_markers(b"SubClassOf(SubClassOf("), 2);
}

#[test]
fn prescan_rejects_estimates_over_the_axiom_limit() {
    let limits = ParseLimits { max_axioms: 1, ..ParseLimits::default() };
    let bytes = b"Declaration(Class(:A))\nSubClassOf(:A :B)";
    assert_eq!(
        parse_message(prescan_axiom_estimate(bytes, Format::Functional, limits)),
        "pre-scan estimate of 2 components exceeds axiom limit of 1"
    );
    assert!(prescan_axiom_estimate(bytes, Format::Turtle, limits).is_ok());
    let roomy = ParseLimits { max_axioms: 2, ..ParseLimits::default() };
    assert!(prescan_axiom_estimate(bytes, Format::Functional, roomy).is_ok());
}

#[test]
fn file_size_over_the_limit_is_rejected() {
    let limits = ParseLimits { max_file_bytes: 50, ..ParseLimits::default() };
    assert_eq!(parse_message(check_file_size(100, limits)), "file size 100 exceeds limit of 50 bytes");
    assert!(check_file_size(50, limits).is_ok());
}

#[test]
fn preprocess_budget_counts_utf8_bytes() {
    let mut budget = PreprocessBudget::new(10);
    assert!(budget.track("abcdef").is_ok());
    assert_eq!(budget.used, 6);
    assert!(budget.track("éé").is_ok());
    assert_eq!(budget.used, 10);
    assert_eq!(
        parse_message(budget.track("x")),
        "RDF/XML preprocessing allocation 11 bytes exceeds limit of 10 bytes"
    );
}

#[test]
fn harvested_assertions_over_the_limit_are_rejected() {
    let limits = ParseLimits { max_harvested_assertions: 1, ..ParseLimits::default() };
    let mut count = 0usize;
    assert!(bump_harvested_assertions(&mut count, limits).is_ok());
    assert_eq!(count, 1);
    assert_eq!(
        parse_message(bump_harvested_assertions(&mut count, limits)),
        "harvested assertion count 2 exceeds limit of 1"
    );
    assert_eq!(count, 2);
}

#[test]
fn integer_literals_must_parse_as_i64() {
    let int = "http://www.w3.org/2001/XMLSchema#integer";
    assert!(validate_literal_lexical(int, "-42").is_ok());
    assert!(validate_literal_lexical(int, "+42").is_ok());
    assert!(validate_literal_lexical(int, "9223372036854775807").is_ok());
    assert_eq!(
        parse_message(validate_literal_lexical(int, "9223372036854775808")),
        "invalid xsd:integer literal \"9223372036854775808\""
    );
    assert_eq!(parse_message(validate_literal_lexical(int, "12a")), "invalid xsd:integer literal \"12a\"");
    assert!(validate_literal_lexical(int, "").is_err());
    assert!(validate_literal_lexical(int, "-").is_err());
    assert!(validate_literal_lexical("http://ex.org/dt#int", " 1").is_err());
}

#[test]
fn short_literals_must_parse_as_i16() {
    let short = "http://www.w3.org/2001/XMLSchema#short";
    assert!(validate_literal_lexical(short, "-32768").is_ok());
    assert_eq!(
        parse_message(validate_literal_lexical(short, "40000")),
        "invalid xsd:short literal \"40000\""
    );
    assert!(validate_literal_lexical("http://www.w3.org/2001/XMLSchema#string", "anything").is_ok());
}

#[test]
fn exceeded_budget_stays_exceeded() {
    let mut budget = PreprocessBudget::new(3);
    assert!(budget.track("abcd").is_err());
    assert!(budget.track("").is_err());
    assert_eq!(budget.used, 4);
    let mut full = PreprocessBudget::new(usize::MAX - 1);
    full.used = usize::MAX - 1;
    assert!(full.track("ab").is_err());
    assert_eq!(full.used, usize::MAX);
    assert!(full.track("c").is_err());
}

#[test]
fn exceeded_harvest_limit_stays_exceeded() {
    let limits = ParseLimits { max_harvested_assertions: 0, ..ParseLimits::default() };
    let mut count = 0usize;
    assert!(bump_harvested_assertions(&mut count, limits).is_err());
    assert!(bump_harvested_assertions(&mut count, limits).is_err());
    assert_eq!(count, 2);
}

#[test]
fn decimal_renderings_read_back_in_range() {
    for n in [0u64, 7, 10, 32767, 123456789] {
        assert!(integer_in_range(&n.to_string(), i64::MIN as i128, i64::MAX as i128));
    }
    assert!(!integer_in_range("32768", i16::MIN as i128, i16::MAX as i128));
    assert!(integer_in_range("-32768", i16::MIN as i128, i16::MAX as i128));
}
