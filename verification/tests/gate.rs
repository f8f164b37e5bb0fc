use cargo_soothfast::gate::{
    combine_counters, empty_run_error, gone_report, ref_plan, Counters, RefPlan, gone_ids, gone_in_scope, identical_pass_args, int_check, min_opt_u, plan_accept,
    rel_verdict, save_verdict, AcceptPlan, IntCheck, SaveVerdict, Verdict, ALLOC_THRESHOLD_PCT,
};

#[test]
fn a_named_gating_backend_keeps_its_counters_on_the_identical_pass() {
    assert!(identical_pass_args(Some("perfcnt")).is_empty());
    assert!(identical_pass_args(Some("callgrind")).is_empty());
}

#[test]
fn the_identical_pass_skips_counters_otherwise() {
    assert_eq!(identical_pass_args(None), ["--skip-gating-counters"]);
    assert_eq!(
        identical_pass_args(Some("walltime")),
        ["--skip-gating-counters"]
    );
}

#[test]
fn a_passing_full_run_is_baseline_material() {
    assert_eq!(save_verdict(0, false), SaveVerdict::Save);
}

#[test]
fn a_failing_run_is_never_saved() {
    // Saving it would ratify its own regression.
    assert_eq!(save_verdict(1, false), SaveVerdict::RefuseFailing);
    assert_eq!(save_verdict(3, true), SaveVerdict::RefuseFailing);
}

#[test]
fn a_short_circuit_run_lacks_counters_and_is_skipped() {
    assert_eq!(save_verdict(0, true), SaveVerdict::SkipShortCircuit);
}

#[test]
fn min_of_two_rounds_keeps_a_lone_counter() {
    assert_eq!(min_opt_u(Some(100), Some(90)), Some(90));
    assert_eq!(min_opt_u(Some(100), None), Some(100));
    assert_eq!(min_opt_u(None, Some(7)), Some(7));
    assert_eq!(min_opt_u(None, None), None);
}

#[test]
fn integer_metrics_allow_five_percent_rounded_down() {
    // 57 allocs allow 57 + 2 = 59.
    assert_eq!(
        int_check(Some(57), Some(59), ALLOC_THRESHOLD_PCT, None),
        Some(IntCheck { verdict: Verdict::Pass, allowed: 59 })
    );
    assert_eq!(
        int_check(Some(57), Some(60), ALLOC_THRESHOLD_PCT, None),
        Some(IntCheck { verdict: Verdict::Fail, allowed: 59 })
    );
    // A reviewed ceiling turns the failure into an accepted one.
    assert_eq!(
        int_check(Some(57), Some(60), ALLOC_THRESHOLD_PCT, Some(true)),
        Some(IntCheck { verdict: Verdict::Accepted, allowed: 59 })
    );
    assert_eq!(
        int_check(Some(57), Some(60), ALLOC_THRESHOLD_PCT, Some(false)),
        Some(IntCheck { verdict: Verdict::Fail, allowed: 59 })
    );
    assert_eq!(int_check(None, Some(60), ALLOC_THRESHOLD_PCT, None), None);
    assert_eq!(int_check(Some(57), None, ALLOC_THRESHOLD_PCT, None), None);
}

#[test]
fn zero_allocations_stay_zero() {
    assert_eq!(
        int_check(Some(0), Some(1), ALLOC_THRESHOLD_PCT, None),
        Some(IntCheck { verdict: Verdict::Fail, allowed: 0 })
    );
    assert_eq!(
        int_check(Some(0), Some(0), ALLOC_THRESHOLD_PCT, None),
        Some(IntCheck { verdict: Verdict::Pass, allowed: 0 })
    );
}

#[test]
fn only_in_scope_disappearances_count_as_gone() {
    // A plain bench run: every bench id is in scope, buildcost ids are not.
    assert!(gone_in_scope("pkg::bench", None, false, None));
    assert!(!gone_in_scope("buildcost::pkg::default", None, false, None));
    assert!(gone_in_scope("buildcost::pkg::default", None, true, None));
    // --filter only measures matching ids.
    assert!(!gone_in_scope("pkg::bench", Some("other"), false, None));
    assert!(gone_in_scope("pkg::bench", Some("ben"), false, None));
    // -p compares the normalized package for bench ids, the raw one for buildcost ids.
    assert!(gone_in_scope("finance_query::sma", None, false, Some("finance-query")));
    assert!(!gone_in_scope("other::sma", None, false, Some("finance-query")));
    assert!(gone_in_scope(
        "buildcost::finance-query::default",
        None,
        true,
        Some("finance-query")
    ));
    assert!(!gone_in_scope(
        "buildcost::other::default",
        None,
        true,
        Some("finance-query")
    ));
}

#[test]
fn a_relative_metric_within_its_limit_passes() {
    assert_eq!(rel_verdict(false, true, false, None), Verdict::Pass);
    assert_eq!(rel_verdict(false, true, true, Some(false)), Verdict::Pass);
}

#[test]
fn a_hard_failure_fails_unless_the_lock_accepts_it() {
    assert_eq!(rel_verdict(true, true, false, None), Verdict::Fail);
    assert_eq!(rel_verdict(true, true, false, Some(false)), Verdict::Fail);
    assert_eq!(rel_verdict(true, true, false, Some(true)), Verdict::Accepted);
}

#[test]
fn a_downgrade_outranks_an_accept_and_soft_metrics_only_warn() {
    assert_eq!(rel_verdict(true, true, true, Some(true)), Verdict::Soft);
    assert_eq!(rel_verdict(true, true, true, None), Verdict::Soft);
    assert_eq!(rel_verdict(true, false, false, Some(true)), Verdict::Soft);
}

fn owned(v: &[&str]) -> Vec<String> {
    v.iter().map(|s| s.to_string()).collect()
}

#[test]
fn a_vanished_item_in_scope_is_gone() {
    let reference = owned(&["core::a", "core::b", "core::c"]);
    let current = owned(&["core::a", "core::c"]);
    assert_eq!(gone_ids(&reference, &current, None, false, None), owned(&["core::b"]));
}

#[test]
fn out_of_scope_disappearances_are_not_gone() {
    let reference = owned(&["core::a", "core::b", "other::x", "buildcost::core::default"]);
    let current: Vec<String> = Vec::new();
    assert_eq!(
        gone_ids(&reference, &current, Some("a"), false, None),
        owned(&["core::a"])
    );
    assert_eq!(
        gone_ids(&reference, &current, None, false, Some("core")),
        owned(&["core::a", "core::b"])
    );
    assert_eq!(
        gone_ids(&reference, &current, None, true, None),
        owned(&["buildcost::core::default"])
    );
}

#[test]
fn accept_gathers_each_failing_benchs_metrics_in_id_order() {
    let failed = owned(&["pkg::z", "pkg::a", "pkg::z"]);
    match plan_accept(&failed, &Vec::new()) {
        AcceptPlan::Record(g) => {
            assert_eq!(g.len(), 2);
            assert_eq!(g[0].0, "pkg::a");
            assert_eq!(g[0].1, vec![1]);
            assert_eq!(g[1].0, "pkg::z");
            assert_eq!(g[1].1, vec![0, 2]);
        }
        _ => panic!("expected a plan"),
    }
}

#[test]
fn only_narrows_the_accept() {
    let failed = owned(&["pkg::z", "pkg::a", "pkg::z"]);
    match plan_accept(&failed, &owned(&["pkg::z"])) {
        AcceptPlan::Record(g) => {
            assert_eq!(g.len(), 1);
            assert_eq!(g[0].0, "pkg::z");
            assert_eq!(g[0].1, vec![0, 2]);
        }
        _ => panic!("expected a plan"),
    }
}

#[test]
fn an_only_bench_that_is_not_failing_refuses_the_accept() {
    let failed = owned(&["pkg::z"]);
    match plan_accept(&failed, &owned(&["pkg::z", "pkg::ok", "pkg::also-ok"])) {
        AcceptPlan::NotFailing(id) => assert_eq!(id, "pkg::ok"),
        _ => panic!("expected a refusal"),
    }
}

#[test]
fn nothing_failing_means_nothing_to_accept() {
    assert!(matches!(plan_accept(&Vec::new(), &Vec::new()), AcceptPlan::NothingFailing));
    assert!(matches!(
        plan_accept(&Vec::new(), &owned(&["pkg::a"])),
        AcceptPlan::NotFailing(_)
    ));
}

#[test]
fn two_rounds_keep_the_smaller_counter_and_any_lone_one() {
    let full = Counters {
        instructions: Some(200),
        cycles: Some(90),
        ir: Some(100),
        allocs: Some(3),
        bytes: Some(64),
    };
    let timing_only = Counters { instructions: None, cycles: None, ir: None, allocs: Some(2), bytes: None };
    let c = combine_counters(full, timing_only);
    assert_eq!(c, Counters { instructions: Some(200), cycles: Some(90), ir: Some(100), allocs: Some(2), bytes: Some(64) });
    assert_eq!(combine_counters(timing_only, full), c);
}

#[test]
fn the_reference_comes_from_the_cheapest_source_available() {
    assert_eq!(ref_plan(true, true, Some(("a", "a")), true), RefPlan::ReuseMergeBase);
    assert_eq!(ref_plan(false, true, Some(("a", "a")), true), RefPlan::NoBenchTarget);
    assert_eq!(ref_plan(false, false, Some(("a", "a")), true), RefPlan::IdenticalBinaries);
    assert_eq!(ref_plan(false, false, Some(("a", "b")), true), RefPlan::CachedBinary);
    assert_eq!(ref_plan(false, false, None, false), RefPlan::Rounds);
}

#[test]
fn each_gone_entry_is_one_failure_unless_allowed() {
    let gone = vec!["bench::a".to_string(), "bench::b".to_string()];
    let (failures, lines) = gone_report(&gone, "RATCHET ", false);
    assert_eq!(failures, 2);
    assert_eq!(
        lines,
        vec![
            "FAIL  RATCHET bench::a GONE (in reference, not measured now; pass --allow-gone if intentional)",
            "FAIL  RATCHET bench::b GONE (in reference, not measured now; pass --allow-gone if intentional)",
        ]
    );
    let (failures, lines) = gone_report(&gone, "", true);
    assert_eq!(failures, 0);
    assert_eq!(lines[1], "GONE  bench::b (in reference, not measured now \u{2014} allowed by --allow-gone)");
    assert_eq!(gone_report(&Vec::new(), "", false), (0, Vec::<String>::new()));
}

#[test]
fn a_run_that_measured_nothing_is_refused() {
    assert_eq!(
        empty_run_error(0, false).as_deref(),
        Some("measured 0 items \u{2014} check --filter / registry setup; refusing to gate")
    );
    assert_eq!(
        empty_run_error(0, true).as_deref(),
        Some("measured 0 items \u{2014} check --filter / registry setup; refusing to accept")
    );
    assert_eq!(empty_run_error(1, false), None);
    assert_eq!(empty_run_error(3, true), None);
}
