use cargo_soothfast::invoke::{
    harness_mismatches, id_pkg, lock_packages, merge_assertions, merge_items, scope_keeps, CommonArgs, SaveScope,
};

const HEAD: &str = r#"
version = 4

[[package]]
name = "serde"
version = "1.0.200"
source = "registry+https://github.com/rust-lang/crates.io-index"

[[package]]
name = "soothfast"
version = "0.1.7"
source = "registry+https://github.com/rust-lang/crates.io-index"
dependencies = [
 "soothfast-measure",
]

[[package]]
name = "soothfast-measure"
version = "0.1.7"
source = "registry+https://github.com/rust-lang/crates.io-index"
"#;

fn triple(a: &str, b: &str, c: &str) -> (String, String, String) {
    (a.to_string(), b.to_string(), c.to_string())
}

#[test]
fn pins_family_crates_to_heads_versions() {
    let base = HEAD.replace("0.1.7", "0.1.5");
    assert_eq!(
        harness_mismatches(HEAD, &base),
        vec![
            triple("soothfast", "0.1.5", "0.1.7"),
            triple("soothfast-measure", "0.1.5", "0.1.7"),
        ]
    );
}

#[test]
fn matching_locks_and_foreign_crates_need_nothing() {
    assert!(harness_mismatches(HEAD, HEAD).is_empty());
    // serde is measured code, not the harness — its bumps must stay gated.
    let base = HEAD.replace("1.0.200", "1.0.100");
    assert!(harness_mismatches(HEAD, &base).is_empty());
}

#[test]
fn path_dependencies_are_skipped() {
    // Gating soothfast itself: family crates are path deps, no source line.
    let no_source = HEAD.replace(
        "source = \"registry+https://github.com/rust-lang/crates.io-index\"",
        "",
    );
    let base = no_source.replace("0.1.7", "0.1.5");
    assert!(harness_mismatches(&no_source, &base).is_empty());
}

#[test]
fn lock_entries_are_read_in_file_order_with_their_source_flag() {
    let pkgs = lock_packages(HEAD);
    let names: Vec<(&str, &str, bool)> = pkgs
        .iter()
        .map(|p| (p.name.as_str(), p.version.as_str(), p.registry))
        .collect();
    assert_eq!(
        names,
        vec![
            ("serde", "1.0.200", true),
            ("soothfast", "0.1.7", true),
            ("soothfast-measure", "0.1.7", true),
        ]
    );
}

#[test]
fn a_block_without_a_version_is_not_an_entry_and_crlf_lines_are_read() {
    let text = "[[package]]\r\nname = \"a\"\r\n\r\n[[package]]\r\nname = \"b\"\r\nversion = \"2\"\r\n";
    let pkgs = lock_packages(text);
    assert_eq!(pkgs.len(), 1);
    assert_eq!(pkgs[0].name, "b");
    assert_eq!(pkgs[0].version, "2");
    assert!(!pkgs[0].registry);
}

#[test]
fn a_version_mismatch_with_a_path_head_entry_is_not_pinned() {
    let head = "[[package]]\nname = \"soothfast-x\"\nversion = \"1\"\n";
    let wt = "[[package]]\nname = \"soothfast-x\"\nversion = \"2\"\nsource = \"registry\"\n";
    assert!(harness_mismatches(head, wt).is_empty());
    let head_reg = "[[package]]\nname = \"soothfast-x\"\nversion = \"1\"\nsource = \"registry\"\n";
    assert_eq!(harness_mismatches(head_reg, wt), vec![triple("soothfast-x", "2", "1")]);
    // `soothfastish` is not a family crate.
    let other = wt.replace("soothfast-x", "soothfastish");
    let other_head = head_reg.replace("soothfast-x", "soothfastish");
    assert!(harness_mismatches(&other_head, &other).is_empty());
}

#[test]
fn common_flags_take_the_next_argument() {
    let mut c = CommonArgs::default();
    let v = "acme".to_string();
    assert!(c.try_parse("-p", Some(&v)));
    assert_eq!(c.pkg.as_deref(), Some("acme"));
    let t = "routes".to_string();
    assert!(c.try_parse("--bench", Some(&t)));
    assert_eq!(c.target.as_deref(), Some("routes"));
    assert!(c.try_parse("--target", None));
    assert_eq!(c.target, None);
    assert!(!c.try_parse("--baseline", Some(&v)));
    assert_eq!(c.pkg.as_deref(), Some("acme"));
}

#[test]
fn id_pkg_is_the_first_segment() {
    assert_eq!(id_pkg("finance_query::indicators::sma"), "finance_query");
    assert_eq!(id_pkg("plain"), "plain");
}

#[test]
fn a_full_run_replaces_only_its_own_slice() {
    let bench = SaveScope::BenchFull(Some("finance-query".to_string()));
    assert!(!scope_keeps(&bench, "finance_query::sma"));
    assert!(scope_keeps(&bench, "other::sma"));
    assert!(scope_keeps(&bench, "buildcost::finance-query::default"));
    let cost = SaveScope::Buildcost(Some("finance-query".to_string()));
    assert!(!scope_keeps(&cost, "buildcost::finance-query::default"));
    assert!(scope_keeps(&cost, "buildcost::other::default"));
    assert!(scope_keeps(&cost, "finance_query::sma"));
    assert!(scope_keeps(&SaveScope::BenchFiltered, "finance_query::sma"));
    assert!(!scope_keeps(&SaveScope::BenchFull(None), "x::y"));
    assert!(!scope_keeps(&SaveScope::Buildcost(None), "buildcost::x::y"));
}

fn items(v: &[(&str, i32)]) -> Vec<(String, i32)> {
    v.iter().map(|(k, x)| (k.to_string(), *x)).collect()
}

#[test]
fn a_full_package_save_replaces_only_that_packages_bench_slice() {
    let old = items(&[
        ("buildcost::my-pkg::default", 1),
        ("my_pkg::gone", 2),
        ("my_pkg::kept", 3),
        ("other::x", 4),
    ]);
    let new = items(&[("my_pkg::kept", 30), ("my_pkg::new", 50)]);
    let merged = merge_items(old, new, &SaveScope::BenchFull(Some("my-pkg".to_string())));
    assert_eq!(
        merged,
        items(&[
            ("buildcost::my-pkg::default", 1),
            ("my_pkg::kept", 30),
            ("my_pkg::new", 50),
            ("other::x", 4),
        ])
    );
}

#[test]
fn a_filtered_save_updates_in_place() {
    let old = items(&[("a::x", 1), ("a::y", 2)]);
    let new = items(&[("a::y", 20)]);
    assert_eq!(
        merge_items(old, new, &SaveScope::BenchFiltered),
        items(&[("a::x", 1), ("a::y", 20)])
    );
}

#[test]
fn a_buildcost_save_replaces_only_buildcost_entries_of_its_package() {
    let old = items(&[
        ("a::bench", 3),
        ("buildcost::a::default", 1),
        ("buildcost::b::default", 2),
    ]);
    let new = items(&[("buildcost::a::full", 9)]);
    assert_eq!(
        merge_items(old, new, &SaveScope::Buildcost(Some("a".to_string()))),
        items(&[("a::bench", 3), ("buildcost::a::full", 9), ("buildcost::b::default", 2)])
    );
}

#[test]
fn a_save_replaces_the_verdicts_of_the_items_it_measured() {
    let old = vec![
        (Some("a::x".to_string()), "old x"),
        (None, "no id"),
        (Some("a::y".to_string()), "old y"),
    ];
    let measured = vec!["a::x".to_string()];
    let merged = merge_assertions(old, &measured, vec!["new x"]);
    assert_eq!(merged, vec!["no id", "old y", "new x"]);
}
