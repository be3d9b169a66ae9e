use ontologos::error::Error;
use ontologos::limits::ParseLimits;
use ontologos::supplement_checks::check_supplement_plan;
use ontologos::supplements::{SupplementAction, SupplementStep};

fn merge(iri: &str) -> SupplementStep {
    SupplementStep {
        iris: vec![iri.to_string()],
        bodies: vec![],
        harvested: 1,
        action: SupplementAction::Merge(format!("Ontology(<{iri}>)")),
    }
}

fn parse_message(r: Result<(), Error>) -> String {
    match r {
        Err(Error::Parse(m)) => m,
        other => panic!("expected a parse error, got {other:?}"),
    }
}

fn limits(max: usize) -> ParseLimits {
    ParseLimits { max_harvested_assertions: max, ..ParseLimits::default() }
}

#[test]
fn plan_within_harvest_limit_passes() {
    let plan = vec![merge("http://ex.org/a"), merge("http://ex.org/b")];
    assert!(check_supplement_plan(&plan, limits(2)).is_ok());
}

#[test]
fn one_counter_spans_every_kind_of_step() {
    let same_as = SupplementStep {
        iris: vec!["http://ex.org/x".to_string(), "http://ex.org/y".to_string()],
        bodies: vec![],
        harvested: 1,
        action: SupplementAction::SameAs("http://ex.org/x".to_string(), "http://ex.org/y".to_string()),
    };
    let plan = vec![merge("http://ex.org/a"), same_as, merge("http://ex.org/b")];
    assert_eq!(
        parse_message(check_supplement_plan(&plan, limits(2))),
        "harvested assertion count 3 exceeds limit of 2"
    );
}

#[test]
fn steps_that_harvest_nothing_do_not_count() {
    let count_only = SupplementStep {
        iris: vec![],
        bodies: vec![],
        harvested: 0,
        action: SupplementAction::IllFoundedList,
    };
    let plan = vec![merge("http://ex.org/a"), count_only];
    assert!(check_supplement_plan(&plan, limits(1)).is_ok());
}

#[test]
fn rejected_iri_fails_before_the_count() {
    let plan = vec![merge("http://ex.org/a"), merge("http://ex.org/b)")];
    assert_eq!(
        parse_message(check_supplement_plan(&plan, limits(1))),
        "supplement IRI contains OWL functional metacharacters: http://ex.org/b)"
    );
}

#[test]
fn unterminated_body_iri_is_rejected_after_earlier_iris() {
    let step = SupplementStep {
        iris: vec![],
        bodies: vec!["SubClassOf(<http://ex.org/A> <http://ex.org/B".to_string()],
        harvested: 1,
        action: SupplementAction::Merge(String::new()),
    };
    assert_eq!(
        parse_message(check_supplement_plan(&vec![step], limits(5))),
        "unterminated IRI in supplement OFN body"
    );
    let bad_first = SupplementStep {
        iris: vec![],
        bodies: vec!["SubClassOf(<http://ex.org/A)> <http://ex.org/B".to_string()],
        harvested: 1,
        action: SupplementAction::Merge(String::new()),
    };
    assert_eq!(
        parse_message(check_supplement_plan(&vec![bad_first], limits(5))),
        "supplement IRI contains OWL functional metacharacters: http://ex.org/A)"
    );
}
