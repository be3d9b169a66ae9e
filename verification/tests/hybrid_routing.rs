use ontologos::constructs::{detect_profile_for_constructs, OwlConstruct};
use ontologos::hybrid::{
    auto_engine, classify_hybrid, explicit_engine, partition_axioms, EngineKind, ModuleAxiom, ReasonerProfile,
};
use ontologos::profile::OwlProfile;

fn module_axiom(id: u64, constructs: &[OwlConstruct], classes: &[u64]) -> ModuleAxiom {
    ModuleAxiom {
        id,
        constructs: constructs.to_vec(),
        classes: classes.to_vec(),
        class_iris: classes.iter().map(|c| format!("http://ex.org/C{c}")).collect(),
    }
}

#[test]
fn partitions_el_and_dl_axioms() {
    // A ⊑ B and A ⊑ C: named subclass axioms only, so one EL module.
    let axioms = vec![
        module_axiom(0, &[OwlConstruct::SubClassOfNamed], &[1, 2]),
        module_axiom(1, &[OwlConstruct::SubClassOfNamed], &[1, 3]),
    ];
    let modules = classify_hybrid(&axioms);
    assert_eq!(modules.len(), 1);
    assert_eq!(modules[0].profile, OwlProfile::El);
    assert_eq!(modules[0].axiom_ids, vec![0, 1]);
}

#[test]
fn explicit_el_route() {
    assert_eq!(explicit_engine(ReasonerProfile::El), Some(EngineKind::El));
    assert_eq!(explicit_engine(ReasonerProfile::Auto), None);
}

#[test]
fn explicit_dl_route() {
    assert_eq!(explicit_engine(ReasonerProfile::Dl), Some(EngineKind::Dl));
    assert_eq!(explicit_engine(ReasonerProfile::Swrl), Some(EngineKind::Dl));
    assert_eq!(explicit_engine(ReasonerProfile::Alc), Some(EngineKind::Dl));
    assert_eq!(explicit_engine(ReasonerProfile::Rdfs), Some(EngineKind::Rdfs));
}

#[test]
fn auto_el_fixture_routes_to_el() {
    // A ⊑ B between named classes.
    let report = detect_profile_for_constructs(&vec![OwlConstruct::SubClassOfNamed]);
    let detected = report.detected.unwrap();
    assert!(matches!(detected, OwlProfile::El | OwlProfile::Ql));
    assert_eq!(auto_engine(detected, &vec![]), EngineKind::El);
}

#[test]
fn residue_closes_over_shared_classes() {
    // Axiom 3 needs DL and mentions class 30; axiom 1 shares 30, axiom 0 shares 10 with axiom 1.
    let axioms = vec![
        module_axiom(100, &[OwlConstruct::SubClassOfNamed], &[10, 11]),
        module_axiom(101, &[OwlConstruct::SubClassOfExistential], &[10, 30]),
        module_axiom(102, &[OwlConstruct::SubClassOfNamed], &[50, 51]),
        module_axiom(103, &[OwlConstruct::ObjectUnionOf], &[30, 31]),
        module_axiom(104, &[OwlConstruct::ObjectAllValuesFrom], &[60]),
    ];
    let (el, dl) = partition_axioms(&axioms);
    assert_eq!(el, vec![102]);
    assert_eq!(dl, vec![103, 104, 101, 100]);
    let modules = classify_hybrid(&axioms);
    assert_eq!(modules.len(), 2);
    assert_eq!(modules[0].profile, OwlProfile::El);
    assert_eq!(modules[1].profile, OwlProfile::Dl);
    assert_eq!(modules[1].axiom_ids, vec![103, 104, 101, 100]);
}

#[test]
fn all_dl_axioms_form_one_dl_module() {
    let axioms = vec![module_axiom(7, &[OwlConstruct::HasKey], &[1]), module_axiom(8, &[OwlConstruct::SwrlRule], &[])];
    let modules = classify_hybrid(&axioms);
    assert_eq!(modules.len(), 1);
    assert_eq!(modules[0].profile, OwlProfile::Dl);
    assert_eq!(modules[0].axiom_ids, vec![7, 8]);
    let (el, dl) = partition_axioms(&vec![]);
    assert!(el.is_empty() && dl.is_empty());
}

#[test]
fn property_characteristics_stay_el_safe() {
    // Characteristics lie outside EL but do not block EL classification.
    let axioms = vec![module_axiom(1, &[OwlConstruct::TransitiveObjectProperty], &[])];
    let (el, dl) = partition_axioms(&axioms);
    assert_eq!(el, vec![1]);
    assert!(dl.is_empty());
}

#[test]
fn auto_route_for_dl_ontologies() {
    assert_eq!(auto_engine(OwlProfile::Dl, &vec![OwlProfile::El, OwlProfile::Dl]), EngineKind::Hybrid);
    assert_eq!(auto_engine(OwlProfile::Dl, &vec![OwlProfile::Dl]), EngineKind::Dl);
    assert_eq!(auto_engine(OwlProfile::Dl, &vec![OwlProfile::El]), EngineKind::El);
    assert_eq!(auto_engine(OwlProfile::Dl, &vec![]), EngineKind::Dl);
    assert_eq!(auto_engine(OwlProfile::Rl, &vec![]), EngineKind::Rl);
    assert_eq!(auto_engine(OwlProfile::Ql, &vec![]), EngineKind::El);
}

#[test]
fn hybrid_report_single_module() {
    let modules = classify_hybrid(&vec![]);
    assert_eq!(modules.len(), 1);
    assert_eq!(modules[0].profile, OwlProfile::El);
    assert!(modules[0].axiom_ids.is_empty());
    assert!(modules[0].signature.is_empty());
}

#[test]
fn module_signatures_are_sorted_class_iris() {
    let axioms = vec![
        module_axiom(1, &[OwlConstruct::SubClassOfNamed], &[3, 1]),
        module_axiom(2, &[OwlConstruct::SubClassOfNamed], &[1, 2]),
        module_axiom(3, &[OwlConstruct::ObjectUnionOf], &[9]),
    ];
    let modules = classify_hybrid(&axioms);
    assert_eq!(modules.len(), 2);
    assert_eq!(
        modules[0].signature,
        vec!["http://ex.org/C1".to_string(), "http://ex.org/C2".to_string(), "http://ex.org/C3".to_string()]
    );
    assert_eq!(modules[1].signature, vec!["http://ex.org/C9".to_string()]);
}

#[test]
fn residue_rounds_keep_position_order() {
    // Seeds 12 and 14 come first; round one takes 13 (shares class 5); round two takes 10
    // (shares class 6, added in round one) and then 11 (shares class 7, added with 10).
    let axioms = vec![
        module_axiom(10, &[OwlConstruct::SubClassOfNamed], &[6, 7]),
        module_axiom(11, &[OwlConstruct::SubClassOfNamed], &[7]),
        module_axiom(12, &[OwlConstruct::HasKey], &[5]),
        module_axiom(13, &[OwlConstruct::SubClassOfNamed], &[5, 6]),
        module_axiom(14, &[OwlConstruct::SwrlRule], &[]),
        module_axiom(15, &[OwlConstruct::SubClassOfNamed], &[8]),
    ];
    let (el, dl) = partition_axioms(&axioms);
    assert_eq!(dl, vec![12, 14, 13, 10, 11]);
    assert_eq!(el, vec![15]);
}
