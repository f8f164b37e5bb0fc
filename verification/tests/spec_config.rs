use cargo_soothfast::spec_config::{Mode, SpecConfig, SpecEntry};

fn generate(path: &str) -> SpecEntry {
    let mut e = SpecEntry::new(path.to_string());
    e.mode = Mode::Generate;
    e
}

#[test]
fn workspace_types_resolve_by_default() {
    let cfg = SpecConfig { entries: vec![generate("a.yaml")] };
    assert!(cfg.entries[0].workspace_types);
    assert!(cfg.workspace_types());
    assert!(cfg.workspace_crates().is_empty());
}

#[test]
fn workspace_resolution_can_be_turned_off_or_narrowed() {
    let mut e = generate("a.yaml");
    e.workspace_types = false;
    let off = SpecConfig { entries: vec![e] };
    assert!(!off.workspace_types());

    let mut e = generate("a.yaml");
    e.workspace_crates = vec!["finance-query".to_string()];
    let narrow = SpecConfig { entries: vec![e] };
    assert_eq!(narrow.workspace_crates(), vec!["finance-query".to_string()]);
}

#[test]
fn a_check_mode_entry_does_not_order_rustdoc_builds() {
    let cfg = SpecConfig { entries: vec![SpecEntry::new("vendor/x.yaml".to_string())] };
    assert!(!cfg.workspace_types());
}

#[test]
fn one_entry_wanting_every_crate_outranks_anothers_narrowing() {
    let mut a = generate("a.yaml");
    a.workspace_crates = vec!["core".to_string()];
    let cfg = SpecConfig { entries: vec![a, generate("b.yaml")] };
    assert!(cfg.workspace_crates().is_empty());
}

#[test]
fn a_spec_file_with_no_entry_is_checked() {
    let cfg = SpecConfig { entries: vec![] };
    assert_eq!(cfg.mode_of("specs/anything.yaml"), Mode::Check);
}

#[test]
fn a_missing_mode_defaults_to_check_so_nothing_is_clobbered() {
    let cfg = SpecConfig { entries: vec![SpecEntry::new("vendor/stripe.yaml".to_string())] };
    assert_eq!(cfg.entries[0].mode, Mode::Check);
    assert_eq!(cfg.mode_of("vendor/stripe.yaml"), Mode::Check);
}

#[test]
fn several_entries_keep_their_own_settings() {
    let cfg = SpecConfig {
        entries: vec![
            generate("specs/openapi.yaml"),
            SpecEntry::new("vendor/stripe.yaml".to_string()),
        ],
    };
    assert_eq!(cfg.mode_of("specs/openapi.yaml"), Mode::Generate);
    assert_eq!(cfg.mode_of("vendor/stripe.yaml"), Mode::Check);
    assert!(cfg.for_path("other.yaml").is_none());
}

#[test]
fn narrowed_crates_are_merged_sorted_and_deduplicated() {
    let mut a = generate("a.yaml");
    a.workspace_crates = vec!["zeta".to_string(), "core".to_string()];
    let mut b = generate("b.yaml");
    b.workspace_crates = vec!["core".to_string(), "alpha".to_string()];
    let cfg = SpecConfig { entries: vec![a, b] };
    assert_eq!(
        cfg.workspace_crates(),
        vec!["alpha".to_string(), "core".to_string(), "zeta".to_string()]
    );
}
