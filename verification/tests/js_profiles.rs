use ontologos::hybrid::ReasonerProfile;
use ontologos::js::{parse_profile, JsError};

#[test]
fn parse_profile_aliases() {
    assert!(parse_profile(Some("dl-preview")).is_ok());
    assert!(matches!(parse_profile(Some("swrl")).ok().unwrap(), ReasonerProfile::Swrl));
}

#[test]
fn parse_profile_defaults_and_case() {
    assert!(matches!(parse_profile(None), Ok(ReasonerProfile::Auto)));
    assert!(matches!(parse_profile(Some("EL")), Ok(ReasonerProfile::El)));
    assert!(matches!(parse_profile(Some("Alc")), Ok(ReasonerProfile::Dl)));
    assert!(matches!(parse_profile(Some("DL_Preview")), Ok(ReasonerProfile::DlPreview)));
    assert!(matches!(parse_profile(Some("rdfs")), Ok(ReasonerProfile::Rdfs)));
    assert!(matches!(parse_profile(Some("RL")), Ok(ReasonerProfile::Rl)));
}

#[test]
fn unsupported_profile_is_reported_with_the_lowered_name() {
    match parse_profile(Some("OWL2")) {
        Err(JsError::Other(m)) => {
            assert_eq!(m, "unsupported profile \"owl2\"; use auto, rdfs, rl, el, dl, or dl-preview")
        },
        _ => panic!("expected an error"),
    }
}
