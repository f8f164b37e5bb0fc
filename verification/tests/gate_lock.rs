use cargo_soothfast::gate_lock::{
    accepted_value, is_stale, latest_justification, prune_absorbed, record_accept, Entries, Entry,
    Justification,
};

fn entry(base_fp: &str, head_fp: &str, metrics: &[(&str, f64)]) -> Entry<f64> {
    Entry {
        base_fingerprint: base_fp.into(),
        head_fingerprint: head_fp.into(),
        metrics: metrics.iter().map(|(k, v)| (k.to_string(), *v)).collect(),
        justifications: vec![Justification { text: "test".into(), accepted_unix: 1 }],
    }
}

fn one(id: &str, e: Entry<f64>) -> Entries<f64> {
    Entries { items: vec![(id.to_string(), e)] }
}

/// The one-sided ceiling held over an accepted value.
fn within(accepted: f64, new_value: f64, limit_pct: f64) -> bool {
    new_value <= accepted + accepted * limit_pct / 100.0
}

fn allows(
    entries: &Entries<f64>,
    id: &str,
    metric: &str,
    base: &str,
    new_value: f64,
    limit_pct: f64,
) -> Option<bool> {
    accepted_value(entries, id, metric, base).map(|a| within(a, new_value, limit_pct))
}

#[test]
fn allows_a_value_at_the_accepted_ceiling() {
    let entries = one("pkg::bench", entry("base-fp", "head-fp", &[("instructions", 100.0)]));
    assert_eq!(
        allows(&entries, "pkg::bench", "instructions", "base-fp", 105.0, 5.0),
        Some(true)
    );
}

#[test]
fn allows_an_improvement_past_the_accepted_value() {
    let entries = one("pkg::bench", entry("base-fp", "head-fp", &[("instructions", 100.0)]));
    assert_eq!(
        allows(&entries, "pkg::bench", "instructions", "base-fp", 10.0, 5.0),
        Some(true)
    );
}

#[test]
fn fails_beyond_the_accepted_ceiling() {
    let entries = one("pkg::bench", entry("base-fp", "head-fp", &[("instructions", 100.0)]));
    assert_eq!(
        allows(&entries, "pkg::bench", "instructions", "base-fp", 200.0, 5.0),
        Some(false)
    );
}

#[test]
fn a_stale_base_fingerprint_is_not_accepted() {
    let entries = one("pkg::bench", entry("old-base-fp", "head-fp", &[("instructions", 100.0)]));
    assert_eq!(
        allows(&entries, "pkg::bench", "instructions", "new-base-fp", 105.0, 5.0),
        None
    );
    assert!(is_stale(&entries, "pkg::bench", "new-base-fp"));
    assert!(!is_stale(&entries, "pkg::bench", "old-base-fp"));
    assert!(!is_stale(&entries, "pkg::other", "new-base-fp"));
}

#[test]
fn an_unaccepted_metric_is_not_covered() {
    let entries = one("pkg::bench", entry("base-fp", "head-fp", &[("instructions", 100.0)]));
    assert_eq!(allows(&entries, "pkg::bench", "allocs", "base-fp", 12.0, 5.0), None);
}

#[test]
fn prune_drops_entries_absorbed_by_a_new_baseline() {
    let entries = Entries {
        items: vec![
            (
                "pkg::absorbed".to_string(),
                entry("base-fp", "new-head-fp", &[("instructions", 100.0)]),
            ),
            (
                "pkg::still-open".to_string(),
                entry("base-fp", "other-head-fp", &[("instructions", 50.0)]),
            ),
        ],
    };
    let run = vec![("pkg::absorbed".to_string(), "new-head-fp".to_string())];
    let (pruned, removed) = prune_absorbed(entries, &run);
    assert_eq!(removed, vec!["pkg::absorbed".to_string()]);
    assert_eq!(accepted_value(&pruned, "pkg::absorbed", "instructions", "base-fp"), None);
    assert_eq!(
        accepted_value(&pruned, "pkg::still-open", "instructions", "base-fp"),
        Some(50.0)
    );
}

#[test]
fn an_empty_lock_covers_nothing() {
    let entries: Entries<f64> = Entries::new();
    assert_eq!(accepted_value(&entries, "pkg::bench", "instructions", "fp"), None);
    assert!(!is_stale(&entries, "pkg::bench", "fp"));
    assert_eq!(latest_justification(&entries, "pkg::bench"), None);
}

#[test]
fn an_accept_is_read_back_by_the_gate() {
    let mut entries: Entries<f64> = Entries::new();
    record_accept(
        &mut entries,
        "pkg::b",
        "base-1",
        "head-1",
        &vec![("instructions".to_string(), 120.0), ("allocs".to_string(), 7.0)],
        "bug fix",
        100,
    );
    assert_eq!(accepted_value(&entries, "pkg::b", "instructions", "base-1"), Some(120.0));
    assert_eq!(accepted_value(&entries, "pkg::b", "allocs", "base-1"), Some(7.0));
    assert_eq!(latest_justification(&entries, "pkg::b"), Some("bug fix"));
    assert!(!is_stale(&entries, "pkg::b", "base-1"));
}

#[test]
fn a_reaccept_keeps_earlier_metrics_and_appends_its_reason() {
    let mut entries: Entries<f64> = Entries::new();
    record_accept(
        &mut entries,
        "pkg::b",
        "base-1",
        "head-1",
        &vec![("allocs".to_string(), 7.0)],
        "first",
        1,
    );
    record_accept(
        &mut entries,
        "pkg::b",
        "base-2",
        "head-2",
        &vec![("instructions".to_string(), 99.0), ("instructions".to_string(), 120.0)],
        "second",
        2,
    );
    assert_eq!(accepted_value(&entries, "pkg::b", "instructions", "base-2"), Some(120.0));
    assert_eq!(accepted_value(&entries, "pkg::b", "allocs", "base-2"), Some(7.0));
    assert_eq!(accepted_value(&entries, "pkg::b", "allocs", "base-1"), None);
    assert_eq!(latest_justification(&entries, "pkg::b"), Some("second"));
    assert_eq!(entries.items.len(), 1);
    assert_eq!(entries.items[0].1.justifications.len(), 2);
}

#[test]
fn entries_stay_in_id_order_and_accepts_stay_local() {
    let mut entries: Entries<f64> = Entries::new();
    for id in ["pkg::c", "pkg::a", "pkg::b"] {
        record_accept(&mut entries, id, "base", "head", &vec![("ir".to_string(), 1.0)], "why", 3);
    }
    let ids: Vec<&str> = entries.items.iter().map(|(id, _)| id.as_str()).collect();
    assert_eq!(ids, vec!["pkg::a", "pkg::b", "pkg::c"]);
    record_accept(&mut entries, "pkg::b", "base", "head", &vec![("ir".to_string(), 9.0)], "why", 4);
    assert_eq!(accepted_value(&entries, "pkg::a", "ir", "base"), Some(1.0));
    assert_eq!(accepted_value(&entries, "pkg::b", "ir", "base"), Some(9.0));
    assert_eq!(accepted_value(&entries, "pkg::c", "ir", "base"), Some(1.0));
}

#[test]
fn a_baseline_from_the_accepted_build_absorbs_the_accept() {
    let mut entries: Entries<f64> = Entries::new();
    record_accept(&mut entries, "pkg::a", "b", "h-a", &vec![("ir".to_string(), 1.0)], "x", 1);
    record_accept(&mut entries, "pkg::z", "b", "h-z", &vec![("ir".to_string(), 1.0)], "x", 1);
    let run = vec![
        ("pkg::a".to_string(), "h-a".to_string()),
        ("pkg::m".to_string(), "h-m".to_string()),
        ("pkg::z".to_string(), "changed".to_string()),
    ];
    let (pruned, removed) = prune_absorbed(entries, &run);
    assert_eq!(removed, vec!["pkg::a".to_string()]);
    assert_eq!(pruned.items.len(), 1);
    assert_eq!(pruned.items[0].0, "pkg::z");
}
