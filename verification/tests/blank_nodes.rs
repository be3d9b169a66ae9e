use ontologos::blank_nodes::{check_blank_chains, is_blank_iri, mixes_named_and_blank};
use ontologos::error::Error;

#[test]
fn blank_iris_are_recognised() {
    assert!(is_blank_iri("http://ex.org/o#_b1"));
    assert!(is_blank_iri("http://ex.org/anon42"));
    assert!(is_blank_iri("http://ex.org/.genid-7"));
    assert!(is_blank_iri("urn:ontologos:anon:3"));
    assert!(!is_blank_iri("http://ex.org/o#alice"));
}

#[test]
fn acyclic_blank_chains_pass() {
    assert!(check_blank_chains(&vec![]).is_ok());
    assert!(check_blank_chains(&vec![(1, 2), (2, 3), (1, 3), (4, 3)]).is_ok());
}

#[test]
fn cyclic_blank_chains_are_rejected() {
    for edges in [vec![(1, 1)], vec![(1, 2), (2, 1)], vec![(5, 1), (1, 2), (2, 3), (3, 1), (3, 9)]] {
        match check_blank_chains(&edges) {
            Err(Error::Parse(m)) => assert_eq!(m, "cyclic blank-node object property chain"),
            other => panic!("expected a cycle error, got {other:?}"),
        }
    }
}

#[test]
fn named_and_blank_mixtures() {
    let named = "http://ex.org/o#alice".to_string();
    let blank = "http://ex.org/o#_b".to_string();
    assert!(mixes_named_and_blank(&vec![named.clone(), blank.clone()]));
    assert!(!mixes_named_and_blank(&vec![named.clone(), named.clone()]));
    assert!(!mixes_named_and_blank(&vec![blank.clone()]));
    assert!(!mixes_named_and_blank(&vec![]));
}
