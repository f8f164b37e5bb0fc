use cargo_soothfast::buildstamp::BuildStamp;
use cargo_soothfast::invoke::CommonArgs;
use cargo_soothfast::runcache::{cpu_model_of, harness_versions_of, join_strs, prune_victims, run_identity, KEEP};

fn stamp() -> BuildStamp {
    BuildStamp {
        rustc: "1.88.0 x86_64-unknown-linux-gnu".into(),
        codegen_units: "1".into(),
        profiles: "aaaa".into(),
        rustflags: "bbbb".into(),
    }
}

fn args() -> CommonArgs {
    let mut a = CommonArgs::new();
    a.pkg = Some("demo".into());
    a
}

fn key(sha: &str, stamp: &BuildStamp, common: &CommonArgs) -> String {
    run_identity(sha, stamp, common, "Test CPU", "soothfast@1.0.0")
}

#[test]
fn the_commit_is_part_of_the_identity() {
    assert_ne!(key("aaa", &stamp(), &args()), key("bbb", &stamp(), &args()));
}

#[test]
fn build_conditions_are_part_of_the_identity() {
    let mut other = stamp();
    other.codegen_units = "16".into();
    assert_ne!(key("aaa", &stamp(), &args()), key("aaa", &other, &args()));
}

#[test]
fn measurement_scope_is_part_of_the_identity() {
    let mut other = args();
    other.features = Some("full".into());
    assert_ne!(key("aaa", &stamp(), &args()), key("aaa", &stamp(), &other));
}

#[test]
fn the_reference_trees_profiles_are_not_hashed() {
    let mut other = stamp();
    other.profiles = "zzzz".into();
    assert_eq!(key("aaa", &stamp(), &args()), key("aaa", &other, &args()));
}

#[test]
fn the_identity_lists_every_field_in_order() {
    let id = key("aaa", &stamp(), &args());
    assert_eq!(
        id,
        "aaa\u{1}1.88.0 x86_64-unknown-linux-gnu\u{1}1\u{1}bbbb\u{1}Test CPU\u{1}soothfast@1.0.0\u{1}demo\u{1}\u{1}\u{1}\u{1}\u{1}"
    );
}

#[test]
fn join_matches_slice_join() {
    let parts: Vec<String> = vec!["a".into(), "".into(), "c".into()];
    assert_eq!(join_strs(&parts, ", "), parts.join(", "));
    assert_eq!(join_strs(&Vec::new(), ", "), "");
    assert_eq!(join_strs(&vec!["x".to_string()], "-"), "x");
}

#[test]
fn the_cpu_model_is_the_first_model_name_line() {
    let text = "processor\t: 0\nvendor_id\t: GenuineIntel\nmodel name\t: Intel(R) Xeon(R) CPU @ 2.20GHz\nmodel name\t: other\n";
    assert_eq!(cpu_model_of(text), "Intel(R) Xeon(R) CPU @ 2.20GHz");
    assert_eq!(cpu_model_of("processor : 0\n"), "");
    assert_eq!(cpu_model_of("model name without colon\nmodel name : later\n"), "");
    assert_eq!(cpu_model_of(""), "");
}

#[test]
fn harness_versions_lists_the_soothfast_crates_of_the_lock() {
    let lock = "\
[[package]]
name = \"serde\"
version = \"1.0.0\"

[[package]]
name = \"soothfast\"
version = \"0.3.0\"

[[package]]
name = \"soothfast-bench\"
version = \"0.3.1\"

[[package]]
name = \"soothfastish\"
version = \"9.9.9\"
";
    assert_eq!(harness_versions_of(lock), "soothfast@0.3.0\nsoothfast-bench@0.3.1");
    assert_eq!(harness_versions_of(""), "");
}

#[test]
fn pruning_drops_all_but_the_newest() {
    let few: Vec<u128> = (0..10).collect();
    assert!(prune_victims(&few).is_empty());
    let many: Vec<u128> = (0..(KEEP as u128 + 3)).collect();
    // Times increase with the index, so the three oldest are the first three.
    assert_eq!(prune_victims(&many), vec![0, 1, 2]);
    let mut reversed = many.clone();
    reversed.reverse();
    let n = reversed.len();
    assert_eq!(prune_victims(&reversed), vec![n - 3, n - 2, n - 1]);
}

#[test]
fn equal_times_keep_the_earlier_listed_run() {
    let same = vec![7u128; KEEP + 1];
    assert_eq!(prune_victims(&same), vec![KEEP]);
}
