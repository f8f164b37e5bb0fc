use cargo_soothfast::buildstamp::{
    capture, compare, digest_text, profile_lines, rustflag_lines, squeeze, stored_stamp_of, table_keys, BuildStamp, StoredStamp, TableSet,
};

fn stamp(profiles: &str) -> BuildStamp {
    BuildStamp {
        rustc: "1.88.0 x86_64-unknown-linux-gnu".into(),
        codegen_units: "1".into(),
        profiles: profiles.into(),
        rustflags: "0".into(),
    }
}

fn stored(s: &BuildStamp) -> StoredStamp {
    StoredStamp {
        rustc: s.rustc.clone(),
        codegen_units: s.codegen_units.clone(),
        profiles: s.profiles.clone(),
        rustflags: s.rustflags.clone(),
    }
}

#[test]
fn matching_stamps_compare_clean() {
    let s = stamp("aaaa");
    assert!(compare(&Some(stored(&s)), &s).is_none());
}

#[test]
fn differing_profiles_name_the_field() {
    let reference = Some(stored(&stamp("aaaa")));
    let why = compare(&reference, &stamp("bbbb")).expect("mismatch");
    assert!(why.reason.contains("profiles"), "{}", why.reason);
    assert!(why.detail.contains("aaaa -> bbbb"), "{}", why.detail);
}

#[test]
fn missing_stamp_asks_for_a_re_save() {
    let why = compare(&None, &stamp("aaaa")).expect("mismatch");
    assert!(why.detail.contains("measure --save-baseline"), "{}", why.detail);
}

#[test]
fn the_first_differing_field_is_the_one_named() {
    let mut cur = stamp("bbbb");
    cur.rustc = "1.89.0 x86_64-unknown-linux-gnu".into();
    let why = compare(&Some(stored(&stamp("aaaa"))), &cur).expect("mismatch");
    assert_eq!(why.reason, "build settings differ: rustc");
    assert_eq!(
        why.detail,
        "build settings differ: rustc (1.88.0 x86_64-unknown-linux-gnu -> 1.89.0 x86_64-unknown-linux-gnu)"
    );
}

#[test]
fn unpinned_codegen_units_read_inherit() {
    let s = capture(None, "r".into(), "p".into(), "f".into());
    assert_eq!(s.codegen_units, "inherit");
    let s = capture(Some("1"), "r".into(), "p".into(), "f".into());
    assert_eq!(s.codegen_units, "1");
    assert_eq!(s.rustc, "r");
}

#[test]
fn rustc_identity_is_release_and_host() {
    let text = "rustc 1.88.0 (6b00bc388 2025-06-23)\nbinary: rustc\ncommit-hash: 6b00bc3\nhost: x86_64-unknown-linux-gnu\nrelease: 1.88.0\nLLVM version: 20.1.5\n";
    assert_eq!(
        cargo_soothfast::buildstamp::rustc_identity(text),
        "1.88.0 x86_64-unknown-linux-gnu"
    );
    assert_eq!(cargo_soothfast::buildstamp::rustc_identity(""), "");
    assert_eq!(cargo_soothfast::buildstamp::rustc_identity("host: aarch64\r\n"), "aarch64");
}

fn ls(v: &[&str]) -> Vec<String> {
    v.iter().map(|s| s.to_string()).collect()
}

#[test]
fn moving_a_key_between_tables_changes_the_hash() {
    let bench = table_keys(&ls(&["[profile.bench]", "codegen-units = 1"]), TableSet::Profiles);
    let release = table_keys(&ls(&["[profile.release]", "codegen-units = 1"]), TableSet::Profiles);
    assert_ne!(bench, release);
}

#[test]
fn formatting_does_not_change_the_hash() {
    let tight = table_keys(&ls(&["[profile.bench]", "codegen-units = 1", "lto = false"]), TableSet::Profiles);
    let loose = table_keys(&ls(&["[profile.bench]", "lto   =   false", "codegen-units   =   1"]), TableSet::Profiles);
    assert_eq!(tight, loose);
    assert_eq!(tight, ls(&["profile.bench.codegen-units = 1", "profile.bench.lto = false"]));
}

#[test]
fn only_the_covered_tables_are_read() {
    let lines = ls(&["name = \"x\"", "[package]", "version = \"1\"", "[[bench]]", "harness = false", "[profile.dev]", "debug = 1"]);
    assert_eq!(table_keys(&lines, TableSet::Profiles), ls(&["profile.dev.debug = 1"]));
    let config = ls(&["[build]", "rustflags = [\"-C\", \"target-cpu=native\"]", "jobs = 4", "[target.x86_64-unknown-linux-gnu]", "linker = \"clang\"", "[alias]", "b = \"build\""]);
    assert_eq!(
        table_keys(&config, TableSet::BuildAndTargets),
        ls(&[
            "build.jobs = 4",
            "build.rustflags = [\"-C\", \"target-cpu=native\"]",
            "target.x86_64-unknown-linux-gnu.linker = \"clang\"",
        ])
    );
}

#[test]
fn rustflag_lines_keep_what_reaches_rustc_and_the_environment() {
    let config = ls(&["[build]", "rustflags = [\"-Dwarnings\"]", "jobs = 4", "[target.x]", "runner = \"r\""]);
    let env = vec![("RUSTFLAGS".to_string(), "-Copt-level=3".to_string())];
    assert_eq!(
        rustflag_lines(&config, &env),
        ls(&["RUSTFLAGS=-Copt-level=3", "build.rustflags = [\"-Dwarnings\"]", "target.x.runner = \"r\""])
    );
    assert!(rustflag_lines(&Vec::new(), &Vec::new()).is_empty());
}

#[test]
fn profile_lines_keep_the_manifest_before_the_config() {
    let manifest = ls(&["[profile.release]", "lto = true"]);
    let config = ls(&["[profile.bench]", "debug = 1"]);
    assert_eq!(profile_lines(&manifest, &config), ls(&["profile.release.lto = true", "profile.bench.debug = 1"]));
}

#[test]
fn squeeze_collapses_whitespace() {
    assert_eq!(squeeze("  a \t b\n c  "), "a b c");
    assert_eq!(squeeze(""), "");
    assert_eq!(squeeze("   "), "");
    assert_eq!(squeeze("x"), "x");
}

#[test]
fn the_digest_text_joins_the_four_fields() {
    let s = stamp("pp");
    assert_eq!(digest_text(&s), format!("{}\u{1}{}\u{1}pp\u{1}{}", s.rustc, s.codegen_units, s.rustflags));
}

#[test]
fn a_reference_stamp_is_read_field_by_field() {
    let doc = cargo_soothfast::json::parse_json(
        r#"{"build": {"rustc": "1.88.0", "codegen_units": "1", "profiles": 7}, "items": {}}"#,
    )
    .unwrap();
    let s = stored_stamp_of(&doc).unwrap();
    assert_eq!(s.rustc, "1.88.0");
    assert_eq!(s.codegen_units, "1");
    assert_eq!(s.profiles, "");
    assert_eq!(s.rustflags, "");
    let none = cargo_soothfast::json::parse_json(r#"{"build": null}"#).unwrap();
    assert!(stored_stamp_of(&none).is_none());
    let old = cargo_soothfast::json::parse_json(r#"{"items": {}}"#).unwrap();
    assert!(stored_stamp_of(&old).is_none());
    assert_eq!(compare(&stored_stamp_of(&old), &stamp("")).unwrap().reason, "reference predates build stamps");
}
