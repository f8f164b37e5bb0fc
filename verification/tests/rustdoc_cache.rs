use cargo_soothfast::json::{parse_json, to_text, Json};
use cargo_soothfast::rustdoc_cache::{
    cache_is_usable, cache_meta, cache_text_is_usable, local_crate_manifests, package_named, CrateNode, CratePkg,
};

fn pkg(name: &str, id: &str, manifest: Option<&str>, local: bool) -> CratePkg {
    CratePkg {
        name: Some(name.into()),
        id: Some(id.into()),
        manifest: manifest.map(String::from),
        source: if local { Json::Null } else { Json::Str("registry+https://github.com/rust-lang/crates.io-index".into()) },
    }
}

fn node(id: &str, deps: &[&str]) -> CrateNode {
    CrateNode { id: Some(id.into()), dependencies: deps.iter().map(|d| d.to_string()).collect() }
}

fn meta(text: &str) -> Json {
    parse_json(text).unwrap()
}

#[test]
fn the_walk_lists_local_crates_depth_first_from_the_package() {
    let pkgs = vec![
        pkg("app", "app 0.1", Some("/ws/app/Cargo.toml"), true),
        pkg("core", "core 0.1", Some("/ws/core/Cargo.toml"), true),
        pkg("util", "util 0.1", Some("/ws/util/Cargo.toml"), true),
        pkg("serde", "serde 1.0", Some("/reg/serde/Cargo.toml"), false),
        pkg("unused", "unused 0.1", Some("/ws/unused/Cargo.toml"), true),
    ];
    let nodes = vec![
        node("app 0.1", &["core 0.1", "serde 1.0", "util 0.1"]),
        node("core 0.1", &["util 0.1", "app 0.1"]),
        node("util 0.1", &[]),
        node("serde 1.0", &[]),
    ];
    // Stack pops the last pushed first: app, util, serde (not local), core.
    assert_eq!(local_crate_manifests(&pkgs, &nodes, "app"), ["/ws/app/Cargo.toml", "/ws/util/Cargo.toml", "/ws/core/Cargo.toml"]);
    assert_eq!(local_crate_manifests(&pkgs, &nodes, "util"), ["/ws/util/Cargo.toml"]);
    assert!(local_crate_manifests(&pkgs, &nodes, "missing").is_empty());
}

#[test]
fn a_package_without_an_id_or_a_manifest_contributes_nothing() {
    let mut pkgs = vec![pkg("app", "app 0.1", None, true), pkg("lib", "lib 0.1", Some("/ws/lib/Cargo.toml"), true)];
    let nodes = vec![node("app 0.1", &["lib 0.1"])];
    assert_eq!(local_crate_manifests(&pkgs, &nodes, "app"), ["/ws/lib/Cargo.toml"]);
    pkgs[0].id = None;
    assert!(local_crate_manifests(&pkgs, &nodes, "app").is_empty());
}

#[test]
fn the_last_entry_for_an_id_wins() {
    let pkgs = vec![
        pkg("app", "app 0.1", Some("/old/app/Cargo.toml"), true),
        pkg("app2", "app 0.1", Some("/new/app/Cargo.toml"), true),
    ];
    let nodes = vec![node("app 0.1", &["x"]), node("app 0.1", &[])];
    assert_eq!(local_crate_manifests(&pkgs, &nodes, "app"), ["/new/app/Cargo.toml"]);
}

#[test]
fn cache_meta_is_written_as_serde_writes_it() {
    assert_eq!(
        to_text(&cache_meta("nightly-2025-01-01", Some("full"), true)),
        r#"{"features":"full","private":true,"toolchain":"nightly-2025-01-01"}"#
    );
    assert_eq!(
        to_text(&cache_meta("nightly", None, false)),
        serde_json::from_str::<serde_json::Value>(r#"{"toolchain":"nightly","features":null,"private":false}"#)
            .unwrap()
            .to_string()
    );
}

#[test]
fn a_cache_is_reused_only_with_the_same_flags_and_no_newer_source() {
    let m = meta(r#"{"toolchain":"nightly","features":null,"private":false}"#);
    assert!(cache_is_usable(&m, "nightly", None, false, Some(10), Some(10)));
    assert!(!cache_is_usable(&m, "nightly", None, false, Some(10), Some(11)));
    assert!(!cache_is_usable(&m, "nightly", None, false, Some(10), None));
    assert!(!cache_is_usable(&m, "nightly", None, false, None, Some(1)));
    assert!(!cache_is_usable(&m, "nightly", Some("full"), false, Some(10), Some(1)));
    assert!(!cache_is_usable(&m, "nightly", None, true, Some(10), Some(1)));
    assert!(!cache_is_usable(&m, "stable", None, false, Some(10), Some(1)));
    let f = meta(r#"{"toolchain":"nightly","features":"full","private":true}"#);
    assert!(cache_is_usable(&f, "nightly", Some("full"), true, Some(10), Some(1)));
    assert!(!cache_is_usable(&meta("[]"), "nightly", None, false, Some(10), Some(1)));
}

#[test]
fn the_first_package_of_a_name_is_found() {
    let pkgs = vec![pkg("a", "a 1", None, true), pkg("b", "b 1", None, true), pkg("a", "a 2", None, true)];
    assert_eq!(package_named(&pkgs, "a"), Some(0));
    assert_eq!(package_named(&pkgs, "b"), Some(1));
    assert_eq!(package_named(&pkgs, "c"), None);
}

#[test]
fn a_sidecar_is_read_before_it_is_judged() {
    let text = r#"{"toolchain":"nightly","features":null,"private":false}"#;
    assert!(cache_text_is_usable(text, "nightly", None, false, Some(10), Some(10)));
    assert!(!cache_text_is_usable(text, "nightly", None, false, Some(10), Some(11)));
    assert!(!cache_text_is_usable(text, "nightly", Some("full"), false, Some(10), Some(1)));
    assert!(!cache_text_is_usable("{not json", "nightly", None, false, Some(10), Some(1)));
    assert!(!cache_text_is_usable("", "nightly", None, false, Some(10), Some(1)));
}
