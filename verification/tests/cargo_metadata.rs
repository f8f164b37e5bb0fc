use cargo_soothfast::cargo_metadata::{
    artifact_files, bench_executable_in, crate_graph_of, member_names, metadata_from_text, metadata_of, pkg_fields,
    target_directory,
};
use cargo_soothfast::json::{parse_json, Json};
use cargo_soothfast::rustdoc_cache::local_crate_manifests;
use cargo_soothfast::workspace::{has_bench_target, local_deps};

fn doc(text: &str) -> Json {
    parse_json(text).unwrap()
}

const WORKSPACE: &str = r#"{
  "packages": [
    {"name": "server", "id": "server 0.1", "version": "0.1.0", "description": "the server",
     "manifest_path": "/ws/server/Cargo.toml", "source": null,
     "targets": [{"name": "server", "kind": ["lib", 7]}, {"name": "soothfast", "kind": ["bench"]}]},
    {"name": "core", "id": "core 0.1", "manifest_path": "/ws/core/Cargo.toml",
     "targets": [{"name": "core", "kind": ["lib"]}]},
    {"name": "serde", "id": "serde 1.0", "version": "1.0.0", "manifest_path": "/reg/serde/Cargo.toml",
     "source": "registry+https://github.com/rust-lang/crates.io-index",
     "targets": [{"name": "serde", "kind": ["lib"]}]}
  ],
  "workspace_members": ["server 0.1", 3, "core 0.1"],
  "target_directory": "/ws/target",
  "resolve": {"nodes": [
    {"id": "server 0.1", "dependencies": ["core 0.1", 9, "serde 1.0"],
     "deps": [{"pkg": "core 0.1", "dep_kinds": [{"kind": null}]},
              {"pkg": "serde 1.0", "dep_kinds": [{"kind": "dev"}, {"kind": "build"}]}]},
    {"id": "core 0.1", "dependencies": [], "deps": []}
  ]}
}"#;

#[test]
fn cargo_metadata_output_is_read_member_by_member() {
    let m = metadata_of(&doc(WORKSPACE));
    assert_eq!(m.packages.len(), 3);
    assert_eq!(m.packages[0].name.as_deref(), Some("server"));
    assert_eq!(m.packages[0].id.as_deref(), Some("server 0.1"));
    assert_eq!(m.packages[0].targets.len(), 2);
    assert_eq!(m.packages[0].targets[0].kind, vec!["lib".to_string()]);
    assert_eq!(m.packages[0].targets[1].name.as_deref(), Some("soothfast"));
    assert_eq!(m.workspace_members, vec!["server 0.1".to_string(), "core 0.1".to_string()]);
    assert_eq!(m.nodes.len(), 2);
    assert_eq!(m.nodes[0].deps.len(), 2);
    assert_eq!(m.nodes[0].deps[0].pkg.as_deref(), Some("core 0.1"));
    assert_eq!(m.nodes[0].deps[0].kinds, vec![None]);
    assert_eq!(m.nodes[0].deps[1].kinds, vec![Some("dev".to_string()), Some("build".to_string())]);
    assert!(m.nodes[1].deps.is_empty());
}

#[test]
fn absent_or_mistyped_members_read_as_nothing() {
    let m = metadata_of(&doc(r#"{"packages": 3, "resolve": {"nodes": {}}}"#));
    assert!(m.packages.is_empty() && m.workspace_members.is_empty() && m.nodes.is_empty());
    let m = metadata_of(&doc(r#"{"packages": [{"name": 1, "targets": "x"}], "resolve": []}"#));
    assert_eq!(m.packages.len(), 1);
    assert_eq!(m.packages[0].name, None);
    assert!(m.packages[0].targets.is_empty());
    assert!(m.nodes.is_empty());
    let m = metadata_of(&doc(r#"{"resolve": {"nodes": [{"deps": [{"dep_kinds": [{}, {"kind": 2}]}]}]}}"#));
    assert_eq!(m.nodes[0].id, None);
    assert_eq!(m.nodes[0].deps[0].pkg, None);
    assert_eq!(m.nodes[0].deps[0].kinds, vec![None, None]);
}

#[test]
fn text_that_is_not_json_gives_no_metadata() {
    assert!(metadata_from_text("cargo: error").is_none());
    assert!(metadata_from_text("").is_none());
    assert!(metadata_from_text("[]").is_some_and(|m| m.packages.is_empty()));
}

#[test]
fn the_walk_runs_on_what_cargo_printed() {
    let m = metadata_from_text(WORKSPACE).unwrap();
    assert_eq!(local_deps(&m, "server").unwrap(), vec!["core".to_string()]);
    assert!(has_bench_target(&m, "server", "soothfast"));
    assert!(!has_bench_target(&m, "core", "soothfast"));
}

#[test]
fn a_package_gives_its_manifest_version_and_description() {
    let d = doc(WORKSPACE);
    assert_eq!(
        pkg_fields(&d, "server").unwrap(),
        ("/ws/server/Cargo.toml".to_string(), "0.1.0".to_string(), Some("the server".to_string()))
    );
    assert_eq!(pkg_fields(&d, "core").unwrap(), ("/ws/core/Cargo.toml".to_string(), "0.0.0".to_string(), None));
}

#[test]
fn a_missing_package_or_manifest_is_an_error() {
    let d = doc(WORKSPACE);
    assert_eq!(pkg_fields(&d, "absent").unwrap_err(), "no workspace package named \"absent\"");
    let d = doc(r#"{"packages": [{"name": "a", "manifest_path": 1}]}"#);
    assert_eq!(pkg_fields(&d, "a").unwrap_err(), "package \"a\" has no manifest path");
    assert_eq!(pkg_fields(&doc("{}"), "a").unwrap_err(), "no workspace package named \"a\"");
}

#[test]
fn the_first_package_of_a_name_gives_the_fields() {
    let d = doc(
        r#"{"packages": [{"name": "a", "manifest_path": "/one/Cargo.toml", "version": "1.0.0"},
                          {"name": "a", "manifest_path": "/two/Cargo.toml", "version": "2.0.0"}]}"#,
    );
    assert_eq!(pkg_fields(&d, "a").unwrap().0, "/one/Cargo.toml");
}

#[test]
fn members_come_in_name_order() {
    let d = doc(r#"{"packages": [{"name": "zeta"}, {"name": 4}, {"name": "alpha"}, {}, {"name": "mid"}, {"name": "alpha"}]}"#);
    assert_eq!(member_names(&d), vec!["alpha", "alpha", "mid", "zeta"]);
    assert!(member_names(&doc("{}")).is_empty());
    assert_eq!(member_names(&doc(WORKSPACE)), vec!["core", "serde", "server"]);
}

#[test]
fn the_target_directory_is_read_when_it_is_a_string() {
    assert_eq!(target_directory(&doc(WORKSPACE)).as_deref(), Some("/ws/target"));
    assert_eq!(target_directory(&doc(r#"{"target_directory": 1}"#)), None);
    assert_eq!(target_directory(&doc("{}")), None);
}

#[test]
fn the_crate_graph_is_read_entry_for_entry() {
    let (pkgs, nodes) = crate_graph_of(&doc(WORKSPACE));
    assert_eq!(pkgs.len(), 3);
    assert_eq!(pkgs[0].manifest.as_deref(), Some("/ws/server/Cargo.toml"));
    assert!(matches!(pkgs[0].source, Json::Null));
    assert!(matches!(pkgs[1].source, Json::Null));
    assert!(matches!(&pkgs[2].source, Json::Str(s) if s.starts_with("registry+")));
    assert_eq!(nodes.len(), 2);
    assert_eq!(nodes[0].dependencies, vec!["core 0.1".to_string(), "serde 1.0".to_string()]);
    assert_eq!(
        local_crate_manifests(&pkgs, &nodes, "server"),
        vec!["/ws/server/Cargo.toml".to_string(), "/ws/core/Cargo.toml".to_string()]
    );
    let (pkgs, nodes) = crate_graph_of(&doc("{}"));
    assert!(pkgs.is_empty() && nodes.is_empty());
}

const BUILD_MESSAGES: &str = "\
{\"reason\":\"compiler-artifact\",\"target\":{\"name\":\"my_crate\",\"kind\":[\"lib\"]},\"filenames\":[\"/t/libmy_crate.rlib\",\"/t/libmy_crate.rmeta\"]}\r
Compiling my-crate v0.1.0\n\
{\"reason\":\"compiler-artifact\",\"target\":{\"name\":\"other\",\"kind\":[\"lib\"]},\"filenames\":[\"/t/libother.rlib\"]}\n\
{\"reason\":\"build-script-executed\",\"target\":{\"name\":\"my-crate\"},\"filenames\":[\"/t/x\"]}\n\
{\"reason\":\"compiler-artifact\",\"target\":{\"name\":\"soothfast\",\"kind\":[\"bench\"]},\"filenames\":[],\"executable\":\"/t/soothfast-1\"}\n\
{\"reason\":\"compiler-artifact\",\"target\":{\"name\":\"my-crate\",\"kind\":[\"bin\"]},\"filenames\":[\"/t/my-crate\", 3]}\n";

#[test]
fn the_files_built_for_a_package_come_in_message_order() {
    assert_eq!(
        artifact_files(BUILD_MESSAGES, "my-crate"),
        vec!["/t/libmy_crate.rlib", "/t/libmy_crate.rmeta", "/t/my-crate"]
    );
    assert_eq!(artifact_files(BUILD_MESSAGES, "other"), vec!["/t/libother.rlib"]);
    assert!(artifact_files(BUILD_MESSAGES, "absent").is_empty());
    assert!(artifact_files("", "my-crate").is_empty());
}

#[test]
fn the_bench_executable_is_the_first_bench_artifact_of_the_target() {
    assert_eq!(bench_executable_in(BUILD_MESSAGES, "soothfast").as_deref(), Some("/t/soothfast-1"));
    assert_eq!(bench_executable_in(BUILD_MESSAGES, "my-crate"), None);
    let no_exe = "{\"reason\":\"compiler-artifact\",\"target\":{\"name\":\"b\",\"kind\":[\"bench\"]}}\n\
                  {\"reason\":\"compiler-artifact\",\"target\":{\"name\":\"b\",\"kind\":[\"bench\"]},\"executable\":\"/t/b-2\"}";
    assert_eq!(bench_executable_in(no_exe, "b").as_deref(), Some("/t/b-2"));
    let not_bench = "{\"reason\":\"compiler-artifact\",\"target\":{\"name\":\"b\",\"kind\":[\"bin\"]},\"executable\":\"/t/b\"}";
    assert_eq!(bench_executable_in(not_bench, "b"), None);
}
