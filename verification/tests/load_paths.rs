use ontologos::error::Error;
use ontologos::paths::{path_is_under_base, resolve_path_parts, resolve_under_base, PathPart};

fn parts(spec: &[&str]) -> Vec<PathPart> {
    spec.iter()
        .map(|p| match *p {
            "/" => PathPart::Root("/".to_string()),
            "." => PathPart::Current,
            ".." => PathPart::Parent,
            other => PathPart::Normal(other.to_string()),
        })
        .collect()
}

fn names(v: &[PathPart]) -> Vec<String> {
    v.iter()
        .map(|p| match p {
            PathPart::Root(s) | PathPart::Normal(s) => s.clone(),
            PathPart::Current => ".".to_string(),
            PathPart::Parent => "..".to_string(),
        })
        .collect()
}

#[test]
fn dots_are_resolved_lexically() {
    let r = resolve_path_parts(parts(&["/", "home"]), &parts(&[".", "a", "..", "b", "c.owl"])).unwrap();
    assert_eq!(names(&r), vec!["/", "home", "b", "c.owl"]);
}

#[test]
fn climbing_above_the_root_is_an_error() {
    match resolve_path_parts(parts(&[]), &parts(&["/", "..", "etc"])) {
        Err(Error::Parse(m)) => assert_eq!(m, "path escapes beyond filesystem root"),
        other => panic!("expected an error, got {other:?}"),
    }
}

#[test]
fn parent_of_a_relative_name_leaves_nothing() {
    let r = resolve_path_parts(parts(&[]), &parts(&["a", ".."])).unwrap();
    assert!(r.is_empty());
}

#[test]
fn under_base_compares_whole_components() {
    assert!(path_is_under_base(&parts(&["/", "data", "x.owl"]), &parts(&["/", "data"])));
    assert!(path_is_under_base(&parts(&["/", "data"]), &parts(&["/", "data"])));
    assert!(!path_is_under_base(&parts(&["/", "data2", "x.owl"]), &parts(&["/", "data"])));
    assert!(!path_is_under_base(&parts(&["/"]), &parts(&["/", "data"])));
}

#[test]
fn resolved_paths_hold_no_dots() {
    let r = resolve_path_parts(parts(&["/", "srv"]), &parts(&["a", ".", "b", "..", ".", "c"])).unwrap();
    assert!(r.iter().all(|p| !matches!(p, PathPart::Current | PathPart::Parent)));
    assert_eq!(names(&r), vec!["/", "srv", "a", "c"]);
}

#[test]
fn joining_without_parent_steps_stays_under_the_start() {
    let start = parts(&["/", "srv", "data"]);
    let r = resolve_path_parts(parts(&["/", "srv", "data"]), &parts(&["x", ".", "y.owl"])).unwrap();
    assert!(path_is_under_base(&r, &start));
    assert!(path_is_under_base(&start, &start));
}

#[test]
fn confinement_rejects_sibling_prefix_and_accepts_nested_paths() {
    let base = parts(&["tmp", "ontologos_uploads_base"]);
    let evil = resolve_under_base(parts(&["/"]), &parts(&["tmp", "ontologos_uploads_base_evil", "secret.owl"]), parts(&["/"]), &base);
    assert!(matches!(evil, Ok(None)));
    let nested = resolve_under_base(
        parts(&["/"]),
        &parts(&["tmp", "ontologos_uploads_base", "nested", ".", "ontology.owl"]),
        parts(&["/"]),
        &base,
    );
    match nested {
        Ok(Some(p)) => assert_eq!(names(&p), vec!["/", "tmp", "ontologos_uploads_base", "nested", "ontology.owl"]),
        other => panic!("expected the nested path, got {other:?}"),
    }
    let climb = resolve_under_base(parts(&["/"]), &parts(&["tmp", "ontologos_uploads_base", "..", "x.owl"]), parts(&["/"]), &base);
    assert!(matches!(climb, Ok(None)));
    assert!(matches!(
        resolve_under_base(parts(&[]), &parts(&["..", "x"]), parts(&["/"]), &base),
        Err(Error::Parse(_))
    ));
}
