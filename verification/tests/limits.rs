use ontologos::limits::ParseLimits;

#[test]
fn parse_limits_merge_imports_defaults_false() {
    let limits = ParseLimits::default();
    assert!(!limits.merge_imports);
    assert!(limits.strict);
}

#[test]
fn parse_limits_lenient_disables_strict() {
    let limits = ParseLimits::lenient();
    assert!(!limits.strict);
}
