use cargo_soothfast::buildcost::{buildcost_id, combo_flags, matrix_combos};
use cargo_soothfast::invoke::{scope_keeps, SaveScope};

#[test]
fn a_matrix_declares_its_trimmed_non_empty_combos() {
    assert_eq!(matrix_combos("default;full; a,b ;;"), vec!["default", "full", "a,b"]);
    assert_eq!(matrix_combos("default"), vec!["default"]);
    assert!(matrix_combos(" ; ").is_empty());
}

#[test]
fn each_combo_builds_with_its_own_features() {
    assert!(combo_flags("default").is_empty());
    assert_eq!(combo_flags("none"), vec!["--no-default-features"]);
    assert_eq!(combo_flags("a,b"), vec!["--features", "a,b"]);
}

#[test]
fn a_combo_measurement_lands_in_its_packages_buildcost_slice() {
    let id = buildcost_id("my-pkg", "full");
    assert_eq!(id, "buildcost::my-pkg::full");
    assert!(!scope_keeps(&SaveScope::Buildcost(Some("my-pkg".to_string())), &id));
    assert!(scope_keeps(&SaveScope::Buildcost(Some("other".to_string())), &id));
}
