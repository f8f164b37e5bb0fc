use cargo_soothfast::args::{
    parse_accept_args, parse_gate_args, parse_measure_args, parse_probe_args, ArgError,
};
use cargo_soothfast::gate::triage_ids;

fn owned(v: &[&str]) -> Vec<String> {
    v.iter().map(|s| s.to_string()).collect()
}

#[test]
fn gate_defaults_compare_against_base() {
    let g = parse_gate_args(&Vec::new()).ok().unwrap();
    assert_eq!(g.baseline, "base");
    assert_eq!(g.matrix, "default");
    assert!(g.reuse_base && !g.deps && !g.allow_gone);
    assert!(g.ratchet.is_none() && g.against_ref.is_none() && g.save_baseline.is_none());
    assert!(g.common.pkg.is_none());
}

#[test]
fn gate_reads_its_own_and_the_shared_flags() {
    let g = parse_gate_args(&owned(&[
        "-p", "demo", "--against-ref", "origin/main", "--deps", "--allow-gone",
        "--no-reuse-base", "--ratchet", "v1", "--save-baseline", "next", "--baseline", "old",
        "--features-matrix", "default;full", "--filter", "parse",
    ]))
    .ok()
    .unwrap();
    assert_eq!(g.common.pkg.as_deref(), Some("demo"));
    assert_eq!(g.common.filter.as_deref(), Some("parse"));
    assert_eq!(g.against_ref.as_deref(), Some("origin/main"));
    assert!(g.deps && g.allow_gone && !g.reuse_base);
    assert_eq!(g.ratchet.as_deref(), Some("v1"));
    assert_eq!(g.save_baseline.as_deref(), Some("next"));
    assert_eq!(g.baseline, "old");
    assert_eq!(g.matrix, "default;full");
}

#[test]
fn a_later_flag_overrides_an_earlier_one() {
    let g = parse_gate_args(&owned(&["--baseline", "a", "--baseline", "b", "-p", "x", "--package", "y"]))
        .ok()
        .unwrap();
    assert_eq!(g.baseline, "b");
    assert_eq!(g.common.pkg.as_deref(), Some("y"));
}

#[test]
fn a_flag_missing_its_value_says_what_it_needs() {
    match parse_gate_args(&owned(&["--deps", "--ratchet"])) {
        Err(ArgError::MissingValue(m)) => assert_eq!(m, "--ratchet needs a baseline name"),
        _ => panic!("expected a missing value"),
    }
    match parse_measure_args(&owned(&["--features-matrix"])) {
        Err(ArgError::MissingValue(m)) => {
            assert_eq!(m, "--features-matrix needs combos like \"default;full\"")
        }
        _ => panic!("expected a missing value"),
    }
}

#[test]
fn a_shared_flag_at_the_end_simply_clears_its_slot() {
    let g = parse_gate_args(&owned(&["-p", "demo", "-p"])).ok().unwrap();
    assert!(g.common.pkg.is_none());
}

#[test]
fn an_unknown_argument_is_named() {
    match parse_gate_args(&owned(&["--deps", "--bogus", "--also-bogus"])) {
        Err(ArgError::Unknown(a)) => assert_eq!(a, "--bogus"),
        _ => panic!("expected an unknown argument"),
    }
    match parse_accept_args(&owned(&["--deps"])) {
        Err(ArgError::Unknown(a)) => assert_eq!(a, "--deps"),
        _ => panic!("accept takes no --deps"),
    }
}

#[test]
fn accept_collects_every_only_bench() {
    let a = parse_accept_args(&owned(&[
        "--only", "pkg::a", "--justification", "bug fix", "--only", "pkg::b", "-p", "pkg",
    ]))
    .ok()
    .unwrap();
    assert_eq!(a.only, owned(&["pkg::a", "pkg::b"]));
    assert_eq!(a.justification.as_deref(), Some("bug fix"));
    assert_eq!(a.common.pkg.as_deref(), Some("pkg"));
    assert_eq!(a.baseline, "base");
    match parse_accept_args(&owned(&["--justification"])) {
        Err(ArgError::MissingValue(m)) => assert_eq!(m, "--justification needs text"),
        _ => panic!("expected a missing value"),
    }
}

#[test]
fn measure_reads_its_save_name_and_matrix() {
    let m = parse_measure_args(&owned(&["--save-baseline", "main", "--backend", "buildcost"]))
        .ok()
        .unwrap();
    assert_eq!(m.save.as_deref(), Some("main"));
    assert_eq!(m.matrix, "default");
    assert_eq!(m.common.backend.as_deref(), Some("buildcost"));
    match parse_measure_args(&owned(&["--ratchet", "x"])) {
        Err(ArgError::Unknown(a)) => assert_eq!(a, "--ratchet"),
        _ => panic!("measure takes no --ratchet"),
    }
}

#[test]
fn triage_profiles_each_failing_bench_once_in_order() {
    let ids = owned(&["core::b", "buildcost::core::default", "core::a", "core::b"]);
    assert_eq!(triage_ids(&ids), owned(&["core::a", "core::b"]));
    assert!(triage_ids(&Vec::new()).is_empty());
}

#[test]
fn probe_needs_a_package_and_reads_its_own_filter() {
    match parse_probe_args(&owned(&["--accept"])) {
        Err(ArgError::Required(m)) => assert_eq!(m, "spec probe requires -p PKG"),
        _ => panic!("expected a refusal"),
    }
    let p = parse_probe_args(&owned(&[
        "-p", "svc", "--filter", "quote", "--accept-passing", "--base-url", "http://h:1",
    ]))
    .ok()
    .unwrap();
    assert_eq!(p.common.pkg.as_deref(), Some("svc"));
    assert_eq!(p.filter.as_deref(), Some("quote"));
    assert!(p.common.filter.is_none());
    assert!(p.accept_passing && !p.accept && !p.allow_gone);
    assert_eq!(p.base_url.as_deref(), Some("http://h:1"));
    match parse_probe_args(&owned(&["-p", "svc", "--base-url"])) {
        Err(ArgError::MissingValue(m)) => assert_eq!(m, "--base-url needs a URL"),
        _ => panic!("expected a missing value"),
    }
}
