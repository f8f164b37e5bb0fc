use cargo_soothfast::docs::{export_findings, fingerprint_hex, lock_verdict, LockVerdict};

#[test]
fn fingerprints_print_as_sixteen_lowercase_hex_digits() {
    assert_eq!(fingerprint_hex(0), "0000000000000000");
    assert_eq!(fingerprint_hex(0x1234_abcd), "000000001234abcd");
    assert_eq!(fingerprint_hex(u64::MAX), "ffffffffffffffff");
    assert_eq!(fingerprint_hex(0xdead_beef_0000_0001), format!("{:016x}", 0xdead_beef_0000_0001u64));
}

#[test]
fn a_bind_is_fresh_unlocked_or_stale() {
    assert_eq!(lock_verdict("00ab", Some("00ab")), LockVerdict::Fresh);
    assert_eq!(lock_verdict("00ab", None), LockVerdict::NotLocked);
    assert_eq!(lock_verdict("00ab", Some("00ac")), LockVerdict::Stale);
}

fn pairs(v: &[(&str, &str)]) -> Vec<(String, String)> {
    v.iter().map(|(a, b)| (a.to_string(), b.to_string())).collect()
}

#[test]
fn exports_are_reconciled_with_the_lock() {
    let fresh = pairs(&[("demo::a", "1"), ("demo::b", "2"), ("demo::c", "3")]);
    let locked = pairs(&[
        ("demo::a", "1"),
        ("demo::b", "9"),
        ("demo::gone", "4"),
        ("other::x", "5"),
    ]);
    let (verdicts, dropped) = export_findings(&fresh, &locked, "demo::");
    assert_eq!(
        verdicts,
        vec![LockVerdict::Fresh, LockVerdict::Stale, LockVerdict::NotLocked]
    );
    assert_eq!(dropped, vec!["demo::gone".to_string()]);
}

#[test]
fn nothing_exported_and_nothing_locked_is_clean() {
    let (verdicts, dropped) = export_findings(&Vec::new(), &Vec::new(), "demo::");
    assert!(verdicts.is_empty() && dropped.is_empty());
}
