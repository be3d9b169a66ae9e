use ontologos::profile::{engine_for_profile, OwlProfile};

#[test]
fn engine_for_el_profile() {
    assert_eq!(engine_for_profile(OwlProfile::El), "el");
    assert_eq!(engine_for_profile(OwlProfile::Dl), "dl");
}
