use ontologos::constructs::{
    detect_profile_for_constructs, detect_profile_with_source, dl_diagnostics, el_classification_forbidden_in,
    el_diagnostics, el_forbidden_in, forbidden_for_profile, ql_diagnostics, rl_diagnostics, satisfies_el,
    satisfies_ql, satisfies_rl, source_only_diagnostics, construct_set, OwlConstruct,
};
use ontologos::profile::OwlProfile;

fn detect(constructs: &[OwlConstruct]) -> Option<OwlProfile> {
    detect_profile_for_constructs(&construct_set(&constructs.to_vec())).detected
}

#[test]
fn empty_construct_set_detects_ql() {
    let report = detect_profile_for_constructs(&Vec::new());
    assert_eq!(report.detected, Some(OwlProfile::Ql));
}

#[test]
fn object_all_values_from_detects_ql() {
    assert_eq!(detect(&[OwlConstruct::ObjectAllValuesFrom]), Some(OwlProfile::Ql));
}

#[test]
fn el_only_mapped_set_detects_el() {
    assert_eq!(
        detect(&[OwlConstruct::SubClassOfExistential, OwlConstruct::ObjectSomeValuesFrom]),
        Some(OwlProfile::El)
    );
}

#[test]
fn rl_marker_without_el_markers_detects_rl() {
    assert_eq!(detect(&[OwlConstruct::SymmetricObjectProperty]), Some(OwlProfile::Rl));
}

#[test]
fn both_el_and_rl_markers_prefers_el_when_el_markers_present() {
    assert_eq!(
        detect(&[
            OwlConstruct::SubClassOfExistential,
            OwlConstruct::ObjectSomeValuesFrom,
            OwlConstruct::TransitiveObjectProperty,
        ]),
        Some(OwlProfile::El)
    );
}

#[test]
fn both_el_and_rl_markers_without_el_markers_prefers_rl() {
    assert_eq!(
        detect(&[OwlConstruct::TransitiveObjectProperty, OwlConstruct::SymmetricObjectProperty]),
        Some(OwlProfile::Rl)
    );
}

#[test]
fn ql_forbidden_construct_escalates_to_dl() {
    assert_eq!(detect(&[OwlConstruct::ObjectUnionOf]), Some(OwlProfile::Dl));
}

#[test]
fn functional_object_property_detects_rl() {
    assert_eq!(detect(&[OwlConstruct::FunctionalObjectProperty]), Some(OwlProfile::Rl));
}

#[test]
fn inverse_object_properties_detects_rl() {
    assert_eq!(detect(&[OwlConstruct::InverseObjectProperties]), Some(OwlProfile::Rl));
}

#[test]
fn mixed_el_and_rl_forbidden_mapped_constructs_detect_dl_with_diagnostics() {
    let report = detect_profile_for_constructs(&vec![
        OwlConstruct::SubClassOfExistential,
        OwlConstruct::InverseObjectProperties,
    ]);
    assert_eq!(report.detected, Some(OwlProfile::Dl));
    assert!(report.diagnostics.len() >= 2);
}

#[test]
fn source_only_dl_construct_reported_in_diagnostics_while_detected_el() {
    let mapped = vec![OwlConstruct::SubClassOfExistential];
    let source = vec![OwlConstruct::SubClassOfExistential, OwlConstruct::ObjectAllValuesFrom];
    let report = detect_profile_with_source(&mapped, &source);
    assert_eq!(report.detected, Some(OwlProfile::El));
    assert!(report.diagnostics.iter().any(|diag| diag.construct.contains("ObjectAllValuesFrom")));
    assert!(report.diagnostics.iter().any(|diag| diag.message.contains("observed in source")));
}

#[test]
fn dl_report_lists_el_then_rl_then_dl_reasons() {
    let report = detect_profile_for_constructs(&vec![
        OwlConstruct::SubClassOfExistential,
        OwlConstruct::InverseObjectProperties,
        OwlConstruct::Unknown,
    ]);
    assert_eq!(report.detected, Some(OwlProfile::Dl));
    let pairs: Vec<(String, String)> =
        report.diagnostics.iter().map(|d| (d.construct.clone(), d.message.clone())).collect();
    assert_eq!(
        pairs,
        vec![
            (
                "InverseObjectProperties".to_string(),
                "construct is outside OWL 2 EL (mapped axiom rules out OWL 2 EL)".to_string()
            ),
            (
                "SubClassOfExistential".to_string(),
                "construct is outside OWL 2 RL (mapped axiom rules out OWL 2 RL)".to_string()
            ),
            ("Unknown".to_string(), "construct requires OWL 2 DL reasoning".to_string()),
        ]
    );
}

#[test]
fn dl_diagnostics_report_each_construct_once() {
    // SwrlRule rules out EL and RL and needs DL: reported once, under its first reason.
    let diags = dl_diagnostics(&construct_set(&vec![OwlConstruct::SwrlRule, OwlConstruct::SwrlRule]));
    assert_eq!(diags.len(), 1);
    assert_eq!(diags[0].construct, "SwrlRule");
    assert_eq!(diags[0].message, "construct is outside OWL 2 EL (mapped axiom rules out OWL 2 EL)");
}

#[test]
fn dl_diagnostics_skip_admitted_profiles() {
    // EL and RL both admit Unknown: only the DL reason remains.
    let diags = dl_diagnostics(&vec![OwlConstruct::Unknown]);
    assert_eq!(diags.len(), 1);
    assert_eq!(diags[0].message, "construct requires OWL 2 DL reasoning");
}

#[test]
fn satisfies_each_profile() {
    let cs = vec![OwlConstruct::ObjectAllValuesFrom];
    assert!(!satisfies_el(&cs));
    assert!(satisfies_ql(&cs));
    assert!(!satisfies_rl(&cs));
    assert!(satisfies_el(&vec![OwlConstruct::Annotation, OwlConstruct::Import]));
}

#[test]
fn el_forbidden_and_classification_blockers() {
    let cs = vec![
        OwlConstruct::ClassAssertion,
        OwlConstruct::ObjectUnionOf,
        OwlConstruct::SubClassOfNamed,
        OwlConstruct::HasKey,
    ];
    assert_eq!(
        el_forbidden_in(&cs),
        vec![OwlConstruct::ClassAssertion, OwlConstruct::ObjectUnionOf, OwlConstruct::HasKey]
    );
    assert_eq!(el_classification_forbidden_in(&cs), vec![OwlConstruct::ObjectUnionOf, OwlConstruct::HasKey]);
}

#[test]
fn profile_diagnostics_messages() {
    let cs = vec![OwlConstruct::ObjectHasSelf, OwlConstruct::TransitiveObjectProperty];
    let el = el_diagnostics(&cs);
    assert_eq!(el.len(), 1);
    assert_eq!(el[0].construct, "ObjectHasSelf");
    assert_eq!(el[0].message, "construct is outside OWL 2 EL");
    let ql = ql_diagnostics(&cs);
    assert_eq!(ql.len(), 2);
    assert_eq!(ql[1].construct, "TransitiveObjectProperty");
    assert_eq!(ql[1].message, "construct is outside OWL 2 QL");
    let rl = rl_diagnostics(&cs);
    assert_eq!(rl.len(), 1);
    assert_eq!(rl[0].message, "construct is outside OWL 2 RL");
}

#[test]
fn forbidden_tables_match_rules() {
    assert_eq!(forbidden_for_profile(OwlProfile::El).len(), 24);
    assert_eq!(forbidden_for_profile(OwlProfile::Ql).len(), 27);
    assert_eq!(forbidden_for_profile(OwlProfile::Rl).len(), 15);
    assert!(forbidden_for_profile(OwlProfile::Dl).is_empty());
    assert_eq!(forbidden_for_profile(OwlProfile::Rl)[0], OwlConstruct::ObjectComplementOf);
    for c in forbidden_for_profile(OwlProfile::El) {
        assert!(!satisfies_el(&vec![c]));
    }
}

#[test]
fn source_only_diagnostics_skip_mapped_and_neutral() {
    let source = vec![
        OwlConstruct::ObjectUnionOf,
        OwlConstruct::Unknown,
        OwlConstruct::ObjectCardinality,
        OwlConstruct::SubClassOfNamed,
    ];
    let mapped = vec![OwlConstruct::ObjectCardinality];
    let diags = source_only_diagnostics(OwlProfile::Rl, &source, &mapped);
    assert_eq!(diags.len(), 1);
    assert_eq!(diags[0].construct, "ObjectUnionOf");
    assert_eq!(
        diags[0].message,
        "construct observed in source but outside detected Rl profile (not mapped to core)"
    );
    assert!(source_only_diagnostics(OwlProfile::Dl, &source, &vec![]).is_empty());
}

#[test]
fn neutral_constructs_keep_detected_profile() {
    let base = vec![OwlConstruct::SymmetricObjectProperty];
    let mut with_neutral = base.clone();
    with_neutral.push(OwlConstruct::Annotation);
    with_neutral.push(OwlConstruct::Import);
    with_neutral.push(OwlConstruct::Unknown);
    assert_eq!(detect(&base), detect(&with_neutral));
}

#[test]
fn non_dl_reports_carry_no_diagnostics() {
    for cs in [
        vec![OwlConstruct::SymmetricObjectProperty],
        vec![OwlConstruct::ObjectSomeValuesFrom],
        vec![OwlConstruct::ObjectAllValuesFrom],
    ] {
        let report = detect_profile_for_constructs(&cs);
        assert_ne!(report.detected, Some(OwlProfile::Dl));
        assert!(report.diagnostics.is_empty());
    }
}

#[test]
fn construct_names_are_variant_names() {
    assert_eq!(OwlConstruct::SubObjectPropertyChain.name(), "SubObjectPropertyChain");
    assert_eq!(OwlConstruct::Annotation.name(), "Annotation");
}

#[test]
fn construct_set_keeps_each_construct_once_in_first_order() {
    let set = construct_set(&vec![
        OwlConstruct::HasKey,
        OwlConstruct::ObjectUnionOf,
        OwlConstruct::HasKey,
        OwlConstruct::Unknown,
        OwlConstruct::ObjectUnionOf,
    ]);
    assert_eq!(set, vec![OwlConstruct::HasKey, OwlConstruct::ObjectUnionOf, OwlConstruct::Unknown]);
    assert!(construct_set(&vec![]).is_empty());
}
