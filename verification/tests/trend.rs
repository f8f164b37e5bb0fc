use cargo_soothfast::args::{parse_trend_args, ArgError};
use cargo_soothfast::invoke::{scope_keeps, SaveScope};
use cargo_soothfast::trend::{point_items, trend_ids, trend_keeps};

/// The item names of the baseline the original tests build a point from.
fn baseline_ids() -> Vec<String> {
    vec![
        "buildcost::finance-query::default".to_string(),
        "finance_query::indicators::sma".to_string(),
        "other_pkg::thing".to_string(),
    ]
}

fn strings(v: &[&str]) -> Vec<String> {
    v.iter().map(|s| s.to_string()).collect()
}

#[test]
fn out_of_scope_entries_are_dropped() {
    let items = point_items(&baseline_ids(), Some("finance-query")).unwrap();
    assert_eq!(items.len(), 1);
    assert!(items.contains(&"finance_query::indicators::sma".to_string()));
}

#[test]
fn no_package_keeps_every_bench_item_but_never_buildcost() {
    let items = point_items(&baseline_ids(), None).unwrap();
    assert_eq!(items.len(), 2);
    assert!(!items.contains(&"buildcost::finance-query::default".to_string()));
}

#[test]
fn an_empty_slice_is_an_error_not_an_empty_point() {
    let err = point_items(&baseline_ids(), Some("absent-pkg")).unwrap_err();
    assert!(err.contains("absent-pkg"), "unhelpful error: {err}");
    assert_eq!(err, "no bench items for package \"absent-pkg\" — measure into it first");
    assert_eq!(
        point_items(&strings(&["buildcost::p::default"]), None).unwrap_err(),
        "no bench items — measure into it first"
    );
}

#[test]
fn a_point_keeps_the_baselines_order() {
    let ids = strings(&["b::x", "a::y", "b::z"]);
    assert_eq!(point_items(&ids, Some("b")).unwrap(), strings(&["b::x", "b::z"]));
}

#[test]
fn a_point_is_what_a_full_run_of_the_package_replaces() {
    for id in ["finance_query::a", "other::b", "buildcost::finance-query::x", "buildcost::other::y"] {
        for pkg in [Some("finance-query"), None] {
            let scope = SaveScope::BenchFull(pkg.map(|p| p.to_string()));
            assert_eq!(trend_keeps(id, pkg), !scope_keeps(&scope, id), "{id} {pkg:?}");
        }
    }
}

#[test]
fn the_series_covers_every_item_once_in_name_order() {
    let points = vec![strings(&["b::x", "a::y"]), strings(&[]), strings(&["a::y", "c::z", "b::x"])];
    assert_eq!(trend_ids(&points), strings(&["a::y", "b::x", "c::z"]));
    assert!(trend_ids(&Vec::new()).is_empty());
}

#[test]
fn trend_append_reads_the_shared_flags_and_a_baseline_name() {
    let t = parse_trend_args(&strings(&["-p", "finance-query", "--from-baseline", "main"])).unwrap();
    assert_eq!(t.common.pkg.as_deref(), Some("finance-query"));
    assert_eq!(t.from_baseline.as_deref(), Some("main"));
    let t = parse_trend_args(&Vec::new()).unwrap();
    assert_eq!(t.common.pkg, None);
    assert_eq!(t.from_baseline, None);
    assert!(matches!(
        parse_trend_args(&strings(&["--from-baseline"])),
        Err(ArgError::MissingValue("--from-baseline needs a name"))
    ));
    assert!(matches!(parse_trend_args(&strings(&["--bogus"])), Err(ArgError::Unknown(a)) if a == "--bogus"));
}
