use cargo_soothfast::workspace::{
    has_bench_target, has_lib_target, local_deps, DepEdge, Metadata, Package, ResolveNode, Target,
};

fn target(kind: &str, name: &str) -> Target {
    Target { name: Some(name.to_string()), kind: vec![kind.to_string()] }
}

fn lib(name: &str) -> Package {
    Package {
        name: Some(name.to_string()),
        id: Some(name.to_string()),
        targets: vec![target("lib", name)],
    }
}

fn meta(packages: Vec<Package>, members: Vec<&str>, nodes: Vec<ResolveNode>) -> Metadata {
    Metadata {
        packages,
        workspace_members: members.into_iter().map(String::from).collect(),
        nodes,
    }
}

fn node(id: &str, deps: Vec<(&str, Vec<Option<String>>)>) -> ResolveNode {
    ResolveNode {
        id: Some(id.to_string()),
        deps: deps
            .into_iter()
            .map(|(pkg, kinds)| DepEdge { pkg: Some(pkg.to_string()), kinds })
            .collect(),
    }
}

fn normal() -> Vec<Option<String>> {
    vec![None]
}

#[test]
fn a_registry_dependency_is_never_returned() {
    let m = meta(
        vec![lib("server"), lib("core"), lib("serde")],
        vec!["server", "core"],
        vec![node("server", vec![("core", normal()), ("serde", normal())])],
    );
    assert_eq!(local_deps(&m, "server").unwrap(), vec!["core".to_string()]);
}

#[test]
fn transitive_workspace_members_come_along() {
    let m = meta(
        vec![lib("server"), lib("core"), lib("model")],
        vec!["server", "core", "model"],
        vec![
            node("server", vec![("core", normal())]),
            node("core", vec![("model", normal())]),
        ],
    );
    assert_eq!(
        local_deps(&m, "server").unwrap(),
        vec!["core".to_string(), "model".to_string()]
    );
}

#[test]
fn dev_and_build_only_edges_are_skipped() {
    let dev = vec![Some("dev".to_string())];
    let m = meta(
        vec![lib("server"), lib("fixtures")],
        vec!["server", "fixtures"],
        vec![node("server", vec![("fixtures", dev)])],
    );
    assert!(local_deps(&m, "server").unwrap().is_empty());
}

#[test]
fn a_proc_macro_member_has_no_lib_to_document() {
    let macros = Package {
        name: Some("macros".to_string()),
        id: Some("macros".to_string()),
        targets: vec![target("proc-macro", "macros")],
    };
    assert!(!has_lib_target(&macros));
    let m = meta(
        vec![lib("server"), macros],
        vec!["server", "macros"],
        vec![node("server", vec![("macros", normal())])],
    );
    assert!(local_deps(&m, "server").unwrap().is_empty());
}

#[test]
fn a_dependency_cycle_terminates() {
    let m = meta(
        vec![lib("a"), lib("b")],
        vec!["a", "b"],
        vec![node("a", vec![("b", normal())]), node("b", vec![("a", normal())])],
    );
    assert_eq!(local_deps(&m, "a").unwrap(), vec!["b".to_string()]);
}

#[test]
fn a_bench_target_is_found_only_on_the_package_that_has_one() {
    let benched = Package {
        name: Some("server".to_string()),
        id: Some("server".to_string()),
        targets: vec![target("lib", "server"), target("bench", "soothfast")],
    };
    let m = meta(vec![benched, lib("plain")], vec!["server", "plain"], vec![]);
    assert!(has_bench_target(&m, "server", "soothfast"));
    assert!(!has_bench_target(&m, "plain", "soothfast"));
    assert!(!has_bench_target(&m, "server", "criterion"));
    assert!(!has_bench_target(&m, "absent", "soothfast"));
}

#[test]
fn an_unknown_package_is_an_error() {
    let m = meta(vec![lib("server")], vec!["server"], vec![]);
    assert!(local_deps(&m, "nope").is_err());
}

#[test]
fn a_member_reached_twice_is_listed_once_in_name_order() {
    let m = meta(
        vec![lib("app"), lib("zeta"), lib("alpha"), lib("shared")],
        vec!["app", "zeta", "alpha", "shared"],
        vec![
            node("app", vec![("zeta", normal()), ("alpha", normal())]),
            node("zeta", vec![("shared", normal())]),
            node("alpha", vec![("shared", normal())]),
        ],
    );
    assert_eq!(
        local_deps(&m, "app").unwrap(),
        vec!["alpha".to_string(), "shared".to_string(), "zeta".to_string()]
    );
}

#[test]
fn an_edge_both_normal_and_dev_counts_as_normal() {
    let m = meta(
        vec![lib("server"), lib("core")],
        vec!["server", "core"],
        vec![node("server", vec![("core", vec![Some("dev".to_string()), None])])],
    );
    assert_eq!(local_deps(&m, "server").unwrap(), vec!["core".to_string()]);
}
