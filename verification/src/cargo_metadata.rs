//! Reading what cargo prints as JSON: `cargo metadata` documents and the
//! build messages of `--message-format json`. Each reader keeps what the
//! workspace walk, the rustdoc cache, the spec defaults and the runners use:
//! an absent or ill-typed member reads as nothing, a member that is not an
//! array as an empty list, a message line that is not JSON is skipped.

use vstd::prelude::*;

use crate::buildstamp::{sort_strings, sorted_le};
use crate::json::{at, copy_json, json_get, jv, jv_items, lemma_jv_items, parse_json, serde_parse, str_of, Json, JsonV};
use crate::rustdoc_cache::{ostr, CrateNode, CratePkg};
use crate::spec_schema::strings_in;
use crate::text::{chars_of, copy_str, debug_quoted, debug_str, lines_chars, lines_of, replace_char, replaced, str_eq, string_of};
use crate::toml_lines::strs;
use crate::workspace::{ov, DepEdge, Metadata, Package, ResolveNode, Target};

verus! {

// ---------------------------------------------------------------- reading members

/// The items of an array; nothing for any other value.
pub open spec fn list(j: JsonV) -> Seq<JsonV> {
    match j {
        JsonV::Arr(s) => s,
        _ => Seq::empty(),
    }
}

/// The items of `j[k]` when it is an array.
fn items_at<'a>(j: &'a Json, k: &str) -> (r: Option<&'a Vec<Json>>)
    ensures
        match r {
            Some(v) => list(at(jv(*j), k@)) == jv_items(v@),
            None => list(at(jv(*j), k@)) == Seq::<JsonV>::empty(),
        },
{
    match json_get(j, k) {
        Some(Json::Arr(v)) => Some(v),
        _ => None,
    }
}

/// `j[k]` when it is a string.
fn str_at(j: &Json, k: &str) -> (r: Option<String>)
    ensures
        ov(r) == str_of(at(jv(*j), k@)),
{
    match json_get(j, k) {
        Some(Json::Str(t)) => Some(copy_str(t.as_str())),
        _ => None,
    }
}

/// The string items of `v`, in order.
fn strings_of(v: &Vec<Json>) -> (r: Vec<String>)
    ensures
        strs(r@) == strings_in(jv_items(v@)),
{
    proof {
        lemma_jv_items(v@);
    }
    let mut out: Vec<String> = Vec::new();
    let mut i: usize = 0;
    assert(strs(out@) =~= Seq::<Seq<char>>::empty());
    while i < v.len()
        invariant
            i <= v@.len(),
            jv_items(v@).len() == v@.len(),
            forall|x: int| 0 <= x < v@.len() ==> #[trigger] jv_items(v@)[x] == jv(v@[x]),
            strs(out@) == strings_in(jv_items(v@).take(i as int)),
        decreases v.len() - i,
    {
        let ghost s = jv_items(v@).take(i + 1);
        assert(s.drop_last() =~= jv_items(v@).take(i as int));
        assert(s.last() == jv(v@[i as int]));
        match &v[i] {
            Json::Str(t) => {
                let ghost before = strs(out@);
                out.push(copy_str(t.as_str()));
                assert(strs(out@) =~= before.push(t@));
            },
            _ => {},
        }
        i = i + 1;
    }
    assert(jv_items(v@).take(v@.len() as int) =~= jv_items(v@));
    out
}

/// The string items of `j[k]` when it is an array; nothing otherwise.
fn strings_at(j: &Json, k: &str) -> (r: Vec<String>)
    ensures
        strs(r@) == strings_in(list(at(jv(*j), k@))),
{
    match items_at(j, k) {
        Some(v) => strings_of(v),
        None => {
            let none: Vec<String> = Vec::new();
            assert(strs(none@) =~= Seq::<Seq<char>>::empty());
            none
        },
    }
}

// ---------------------------------------------------------------- the resolve graph

/// A build target as plain values.
pub struct TargetV {
    pub name: Option<Seq<char>>,
    pub kind: Seq<Seq<char>>,
}

/// A package as plain values.
pub struct PackageV {
    pub name: Option<Seq<char>>,
    pub id: Option<Seq<char>>,
    pub targets: Seq<TargetV>,
}

/// A resolve edge as plain values.
pub struct DepEdgeV {
    pub pkg: Option<Seq<char>>,
    pub kinds: Seq<Option<Seq<char>>>,
}

/// A resolve node as plain values.
pub struct ResolveNodeV {
    pub id: Option<Seq<char>>,
    pub deps: Seq<DepEdgeV>,
}

/// [`Metadata`] as plain values.
pub struct MetadataV {
    pub packages: Seq<PackageV>,
    pub workspace_members: Seq<Seq<char>>,
    pub nodes: Seq<ResolveNodeV>,
}

pub open spec fn target_view(t: Target) -> TargetV {
    TargetV { name: ov(t.name), kind: strs(t.kind@) }
}

pub open spec fn targets_view(s: Seq<Target>) -> Seq<TargetV> {
    s.map_values(|t: Target| target_view(t))
}

pub open spec fn package_view(p: Package) -> PackageV {
    PackageV { name: ov(p.name), id: ov(p.id), targets: targets_view(p.targets@) }
}

pub open spec fn packages_view(s: Seq<Package>) -> Seq<PackageV> {
    s.map_values(|p: Package| package_view(p))
}

pub open spec fn kinds_view(s: Seq<Option<String>>) -> Seq<Option<Seq<char>>> {
    s.map_values(|k: Option<String>| ov(k))
}

pub open spec fn edge_view(d: DepEdge) -> DepEdgeV {
    DepEdgeV { pkg: ov(d.pkg), kinds: kinds_view(d.kinds@) }
}

pub open spec fn edges_view(s: Seq<DepEdge>) -> Seq<DepEdgeV> {
    s.map_values(|d: DepEdge| edge_view(d))
}

pub open spec fn node_view(n: ResolveNode) -> ResolveNodeV {
    ResolveNodeV { id: ov(n.id), deps: edges_view(n.deps@) }
}

pub open spec fn nodes_view(s: Seq<ResolveNode>) -> Seq<ResolveNodeV> {
    s.map_values(|n: ResolveNode| node_view(n))
}

pub open spec fn metadata_view(m: Metadata) -> MetadataV {
    MetadataV {
        packages: packages_view(m.packages@),
        workspace_members: strs(m.workspace_members@),
        nodes: nodes_view(m.nodes@),
    }
}

/// A target entry: its `name` and the strings of its `kind`.
pub open spec fn target_in(t: JsonV) -> TargetV {
    TargetV { name: str_of(at(t, "name"@)), kind: strings_in(list(at(t, "kind"@))) }
}

pub open spec fn targets_in(s: Seq<JsonV>) -> Seq<TargetV> {
    s.map_values(|t: JsonV| target_in(t))
}

/// A package entry: its `name`, `id` and `targets`.
pub open spec fn package_in(p: JsonV) -> PackageV {
    PackageV {
        name: str_of(at(p, "name"@)),
        id: str_of(at(p, "id"@)),
        targets: targets_in(list(at(p, "targets"@))),
    }
}

pub open spec fn packages_in(s: Seq<JsonV>) -> Seq<PackageV> {
    s.map_values(|p: JsonV| package_in(p))
}

/// The `kind` of each `dep_kinds` entry, null where it is not a string.
pub open spec fn kinds_in(s: Seq<JsonV>) -> Seq<Option<Seq<char>>> {
    s.map_values(|k: JsonV| str_of(at(k, "kind"@)))
}

/// A `deps` entry: its `pkg` and its `dep_kinds`.
pub open spec fn edge_in(d: JsonV) -> DepEdgeV {
    DepEdgeV { pkg: str_of(at(d, "pkg"@)), kinds: kinds_in(list(at(d, "dep_kinds"@))) }
}

pub open spec fn edges_in(s: Seq<JsonV>) -> Seq<DepEdgeV> {
    s.map_values(|d: JsonV| edge_in(d))
}

/// A resolve node: its `id` and its `deps`.
pub open spec fn node_in(n: JsonV) -> ResolveNodeV {
    ResolveNodeV { id: str_of(at(n, "id"@)), deps: edges_in(list(at(n, "deps"@))) }
}

pub open spec fn nodes_in(s: Seq<JsonV>) -> Seq<ResolveNodeV> {
    s.map_values(|n: JsonV| node_in(n))
}

/// What the workspace walk reads of a `cargo metadata` document: its
/// `packages`, the strings of its `workspace_members`, and
/// `resolve.nodes`.
pub open spec fn spec_metadata_of(d: JsonV) -> MetadataV {
    MetadataV {
        packages: packages_in(list(at(d, "packages"@))),
        workspace_members: strings_in(list(at(d, "workspace_members"@))),
        nodes: nodes_in(list(at(at(d, "resolve"@), "nodes"@))),
    }
}

fn target_of(t: &Json) -> (r: Target)
    ensures
        target_view(r) == target_in(jv(*t)),
{
    Target { name: str_at(t, "name"), kind: strings_at(t, "kind") }
}

fn targets_of(t: Option<&Vec<Json>>) -> (r: Vec<Target>)
    ensures
        targets_view(r@) == targets_in(match t {
            Some(v) => jv_items(v@),
            None => Seq::empty(),
        }),
{
    let mut out: Vec<Target> = Vec::new();
    match t {
        None => {
            assert(targets_view(out@) =~= targets_in(Seq::empty()));
        },
        Some(v) => {
            proof {
                lemma_jv_items(v@);
            }
            let mut i: usize = 0;
            while i < v.len()
                invariant
                    i <= v@.len(),
                    out@.len() == i,
                    jv_items(v@).len() == v@.len(),
                    forall|x: int| 0 <= x < v@.len() ==> #[trigger] jv_items(v@)[x] == jv(v@[x]),
                    forall|x: int| 0 <= x < i ==> target_view(#[trigger] out@[x]) == target_in(jv(v@[x])),
                decreases v.len() - i,
            {
                out.push(target_of(&v[i]));
                i = i + 1;
            }
            assert(targets_view(out@) =~= targets_in(jv_items(v@)));
        },
    }
    out
}

fn package_of(p: &Json) -> (r: Package)
    ensures
        package_view(r) == package_in(jv(*p)),
{
    Package { name: str_at(p, "name"), id: str_at(p, "id"), targets: targets_of(items_at(p, "targets")) }
}

fn kinds_of(k: Option<&Vec<Json>>) -> (r: Vec<Option<String>>)
    ensures
        kinds_view(r@) == kinds_in(match k {
            Some(v) => jv_items(v@),
            None => Seq::empty(),
        }),
{
    let mut out: Vec<Option<String>> = Vec::new();
    match k {
        None => {
            assert(kinds_view(out@) =~= kinds_in(Seq::empty()));
        },
        Some(v) => {
            proof {
                lemma_jv_items(v@);
            }
            let mut i: usize = 0;
            while i < v.len()
                invariant
                    i <= v@.len(),
                    out@.len() == i,
                    jv_items(v@).len() == v@.len(),
                    forall|x: int| 0 <= x < v@.len() ==> #[trigger] jv_items(v@)[x] == jv(v@[x]),
                    forall|x: int| 0 <= x < i ==> ov(#[trigger] out@[x]) == str_of(at(jv(v@[x]), "kind"@)),
                decreases v.len() - i,
            {
                out.push(str_at(&v[i], "kind"));
                i = i + 1;
            }
            assert(kinds_view(out@) =~= kinds_in(jv_items(v@)));
        },
    }
    out
}

fn edge_of(d: &Json) -> (r: DepEdge)
    ensures
        edge_view(r) == edge_in(jv(*d)),
{
    DepEdge { pkg: str_at(d, "pkg"), kinds: kinds_of(items_at(d, "dep_kinds")) }
}

fn edges_of(e: Option<&Vec<Json>>) -> (r: Vec<DepEdge>)
    ensures
        edges_view(r@) == edges_in(match e {
            Some(v) => jv_items(v@),
            None => Seq::empty(),
        }),
{
    let mut out: Vec<DepEdge> = Vec::new();
    match e {
        None => {
            assert(edges_view(out@) =~= edges_in(Seq::empty()));
        },
        Some(v) => {
            proof {
                lemma_jv_items(v@);
            }
            let mut i: usize = 0;
            while i < v.len()
                invariant
                    i <= v@.len(),
                    out@.len() == i,
                    jv_items(v@).len() == v@.len(),
                    forall|x: int| 0 <= x < v@.len() ==> #[trigger] jv_items(v@)[x] == jv(v@[x]),
                    forall|x: int| 0 <= x < i ==> edge_view(#[trigger] out@[x]) == edge_in(jv(v@[x])),
                decreases v.len() - i,
            {
                out.push(edge_of(&v[i]));
                i = i + 1;
            }
            assert(edges_view(out@) =~= edges_in(jv_items(v@)));
        },
    }
    out
}

fn node_of(n: &Json) -> (r: ResolveNode)
    ensures
        node_view(r) == node_in(jv(*n)),
{
    ResolveNode { id: str_at(n, "id"), deps: edges_of(items_at(n, "deps")) }
}

/// What the workspace walk reads of a parsed `cargo metadata` document.
pub fn metadata_of(doc: &Json) -> (m: Metadata)
    ensures
        metadata_view(m) == spec_metadata_of(jv(*doc)),
{
    let mut packages: Vec<Package> = Vec::new();
    match items_at(doc, "packages") {
        None => {
            assert(packages_view(packages@) =~= packages_in(Seq::empty()));
        },
        Some(v) => {
            proof {
                lemma_jv_items(v@);
            }
            let mut i: usize = 0;
            while i < v.len()
                invariant
                    i <= v@.len(),
                    packages@.len() == i,
                    jv_items(v@).len() == v@.len(),
                    forall|x: int| 0 <= x < v@.len() ==> #[trigger] jv_items(v@)[x] == jv(v@[x]),
                    forall|x: int| 0 <= x < i ==> package_view(#[trigger] packages@[x]) == package_in(jv(v@[x])),
                decreases v.len() - i,
            {
                packages.push(package_of(&v[i]));
                i = i + 1;
            }
            assert(packages_view(packages@) =~= packages_in(jv_items(v@)));
        },
    }
    let workspace_members = strings_at(doc, "workspace_members");
    let mut nodes: Vec<ResolveNode> = Vec::new();
    let listed = match json_get(doc, "resolve") {
        Some(r) => items_at(r, "nodes"),
        None => None,
    };
    assert(list(at(at(jv(*doc), "resolve"@), "nodes"@)) == match listed {
        Some(v) => jv_items(v@),
        None => Seq::<JsonV>::empty(),
    });
    match listed {
        None => {
            assert(nodes_view(nodes@) =~= nodes_in(Seq::empty()));
        },
        Some(v) => {
            proof {
                lemma_jv_items(v@);
            }
            let mut i: usize = 0;
            while i < v.len()
                invariant
                    i <= v@.len(),
                    nodes@.len() == i,
                    jv_items(v@).len() == v@.len(),
                    forall|x: int| 0 <= x < v@.len() ==> #[trigger] jv_items(v@)[x] == jv(v@[x]),
                    forall|x: int| 0 <= x < i ==> node_view(#[trigger] nodes@[x]) == node_in(jv(v@[x])),
                decreases v.len() - i,
            {
                nodes.push(node_of(&v[i]));
                i = i + 1;
            }
            assert(nodes_view(nodes@) =~= nodes_in(jv_items(v@)));
        },
    }
    Metadata { packages, workspace_members, nodes }
}

/// [`metadata_of`] the text `cargo metadata` printed, read with
/// serde_json; nothing when the text is not JSON.
pub fn metadata_from_text(text: &str) -> (r: Option<Metadata>)
    ensures
        r is Some <==> serde_parse(text@) is Some,
        r is Some ==> metadata_view(r->0) == spec_metadata_of(serde_parse(text@)->0),
{
    match parse_json(text) {
        Some(doc) => Some(metadata_of(&doc)),
        None => None,
    }
}

// ---------------------------------------------------------------- workspace packages

/// The `name` of each package entry that has a string one, in order.
pub open spec fn package_names(d: JsonV) -> Seq<Seq<char>> {
    strings_in(list(at(d, "packages"@)).map_values(|p: JsonV| at(p, "name"@)))
}

/// Every package name a `--no-deps` document lists, in name order: the
/// workspace's members.
pub fn member_names(doc: &Json) -> (r: Vec<String>)
    ensures
        sorted_le(strs(r@)),
        strs(r@).to_multiset() == package_names(jv(*doc)).to_multiset(),
{
    let mut names: Vec<String> = Vec::new();
    let ghost ps = list(at(jv(*doc), "packages"@));
    let ghost ns = ps.map_values(|p: JsonV| at(p, "name"@));
    match items_at(doc, "packages") {
        None => {
            assert(ns =~= Seq::<JsonV>::empty());
            assert(strs(names@) =~= strings_in(ns));
        },
        Some(v) => {
            proof {
                lemma_jv_items(v@);
            }
            let mut i: usize = 0;
            assert(strs(names@) =~= Seq::<Seq<char>>::empty());
            assert(ns.take(0) =~= Seq::<JsonV>::empty());
            while i < v.len()
                invariant
                    i <= v@.len(),
                    ps == jv_items(v@),
                    ns == ps.map_values(|p: JsonV| at(p, "name"@)),
                    jv_items(v@).len() == v@.len(),
                    forall|x: int| 0 <= x < v@.len() ==> #[trigger] jv_items(v@)[x] == jv(v@[x]),
                    strs(names@) == strings_in(ns.take(i as int)),
                decreases v.len() - i,
            {
                let ghost s = ns.take(i + 1);
                assert(s.drop_last() =~= ns.take(i as int));
                assert(s.last() == at(jv(v@[i as int]), "name"@));
                let ghost before = strs(names@);
                match str_at(&v[i], "name") {
                    Some(n) => {
                        names.push(n);
                        assert(strs(names@) =~= before.push(str_of(s.last())->0));
                    },
                    None => {},
                }
                i = i + 1;
            }
            assert(ns.take(v@.len() as int) =~= ns);
        },
    }
    sort_strings(names)
}

/// Index of the first of `ps` (from `i` on) whose `name` is the string
/// `name`.
pub open spec fn first_named_in(ps: Seq<JsonV>, name: Seq<char>, i: int) -> Option<int>
    decreases ps.len() - i,
{
    if i < 0 || i >= ps.len() {
        None
    } else if str_of(at(ps[i], "name"@)) == Some(name) {
        Some(i)
    } else {
        first_named_in(ps, name, i + 1)
    }
}

/// The manifest path, version and description of the first package named
/// `pkg`: the version is `0.0.0` and the description nothing where the
/// entry has no such string. An error names the package when there is none
/// of that name, or when its `manifest_path` is not a string.
pub open spec fn spec_pkg_fields(d: JsonV, pkg: Seq<char>) -> Result<
    (Seq<char>, Seq<char>, Option<Seq<char>>),
    Seq<char>,
> {
    let ps = list(at(d, "packages"@));
    match first_named_in(ps, pkg, 0) {
        None => Err("no workspace package named "@ + debug_quoted(pkg)),
        Some(i) => match str_of(at(ps[i], "manifest_path"@)) {
            None => Err("package "@ + debug_quoted(pkg) + " has no manifest path"@),
            Some(m) => Ok(
                (
                    m,
                    match str_of(at(ps[i], "version"@)) {
                        Some(v) => v,
                        None => "0.0.0"@,
                    },
                    str_of(at(ps[i], "description"@)),
                ),
            ),
        },
    }
}

/// See [`first_named_in`].
fn first_named_of(v: &Vec<Json>, pkg: &str) -> (r: Option<usize>)
    ensures
        match r {
            Some(i) => first_named_in(jv_items(v@), pkg@, 0) == Some(i as int) && i < v.len()
                && jv_items(v@)[i as int] == jv(v@[i as int]),
            None => first_named_in(jv_items(v@), pkg@, 0) is None,
        },
{
    proof {
        lemma_jv_items(v@);
    }
    let mut i: usize = 0;
    while i < v.len()
        invariant
            i <= v@.len(),
            jv_items(v@).len() == v@.len(),
            forall|x: int| 0 <= x < v@.len() ==> #[trigger] jv_items(v@)[x] == jv(v@[x]),
            first_named_in(jv_items(v@), pkg@, i as int) == first_named_in(jv_items(v@), pkg@, 0),
        decreases v.len() - i,
    {
        let named = match str_at(&v[i], "name") {
            Some(n) => crate::text::str_eq(n.as_str(), pkg),
            None => false,
        };
        if named {
            return Some(i);
        }
        i = i + 1;
    }
    None
}

/// See [`spec_pkg_fields`].
pub fn pkg_fields(doc: &Json, pkg: &str) -> (r: Result<(String, String, Option<String>), String>)
    ensures
        match r {
            Ok(f) => spec_pkg_fields(jv(*doc), pkg@) == Ok::<(Seq<char>, Seq<char>, Option<Seq<char>>), Seq<char>>(
                (f.0@, f.1@, ov(f.2)),
            ),
            Err(e) => spec_pkg_fields(jv(*doc), pkg@) == Err::<(Seq<char>, Seq<char>, Option<Seq<char>>), Seq<char>>(
                e@,
            ),
        },
{
    let ghost ps = list(at(jv(*doc), "packages"@));
    let found: Option<&Json> = match items_at(doc, "packages") {
        None => None,
        Some(v) => match first_named_of(v, pkg) {
            Some(i) => Some(&v[i]),
            None => None,
        },
    };
    assert(match found {
        Some(p) => first_named_in(ps, pkg@, 0) is Some && ps[first_named_in(ps, pkg@, 0)->0] == jv(*p),
        None => first_named_in(ps, pkg@, 0) is None,
    });
    match found {
        None => {
            let mut e = copy_str("no workspace package named ");
            e.append(debug_str(pkg).as_str());
            Err(e)
        },
        Some(p) => match str_at(p, "manifest_path") {
            None => {
                let mut e = copy_str("package ");
                e.append(debug_str(pkg).as_str());
                e.append(" has no manifest path");
                Err(e)
            },
            Some(m) => {
                let version = match str_at(p, "version") {
                    Some(v) => v,
                    None => copy_str("0.0.0"),
                };
                Ok((m, version, str_at(p, "description")))
            },
        },
    }
}

/// `target_directory`, when it is a string.
pub fn target_directory(doc: &Json) -> (r: Option<String>)
    ensures
        ov(r) == str_of(at(jv(*doc), "target_directory"@)),
{
    str_at(doc, "target_directory")
}

// ---------------------------------------------------------------- the crate graph

/// What the rustdoc cache reads of a package entry: its `name`, `id`,
/// `manifest_path` and `source` (null when it has none).
pub open spec fn crate_pkg_in(c: CratePkg, p: JsonV) -> bool {
    &&& ostr(c.name) == str_of(at(p, "name"@))
    &&& ostr(c.id) == str_of(at(p, "id"@))
    &&& ostr(c.manifest) == str_of(at(p, "manifest_path"@))
    &&& jv(c.source) == at(p, "source"@)
}

/// What the rustdoc cache reads of a resolve node: its `id` and the
/// strings of its `dependencies`.
pub open spec fn crate_node_in(c: CrateNode, n: JsonV) -> bool {
    &&& ostr(c.id) == str_of(at(n, "id"@))
    &&& strs(c.dependencies@) == strings_in(list(at(n, "dependencies"@)))
}

fn crate_pkg_of(p: &Json) -> (r: CratePkg)
    ensures
        crate_pkg_in(r, jv(*p)),
{
    let source = match json_get(p, "source") {
        Some(s) => copy_json(s),
        None => Json::Null,
    };
    CratePkg { name: str_at(p, "name"), id: str_at(p, "id"), manifest: str_at(p, "manifest_path"), source }
}

/// The package entries and resolve nodes of a `cargo metadata` document,
/// one for one and in order, as the rustdoc cache reads them.
pub fn crate_graph_of(doc: &Json) -> (r: (Vec<CratePkg>, Vec<CrateNode>))
    ensures
        r.0@.len() == list(at(jv(*doc), "packages"@)).len(),
        forall|i: int| 0 <= i < r.0@.len() ==> crate_pkg_in(#[trigger] r.0@[i], list(at(jv(*doc), "packages"@))[i]),
        r.1@.len() == list(at(at(jv(*doc), "resolve"@), "nodes"@)).len(),
        forall|i: int|
            0 <= i < r.1@.len() ==> crate_node_in(#[trigger] r.1@[i], list(at(at(jv(*doc), "resolve"@), "nodes"@))[i]),
{
    let mut pkgs: Vec<CratePkg> = Vec::new();
    match items_at(doc, "packages") {
        None => {},
        Some(v) => {
            proof {
                lemma_jv_items(v@);
            }
            let mut i: usize = 0;
            while i < v.len()
                invariant
                    i <= v@.len(),
                    pkgs@.len() == i,
                    list(at(jv(*doc), "packages"@)) == jv_items(v@),
                    jv_items(v@).len() == v@.len(),
                    forall|x: int| 0 <= x < v@.len() ==> #[trigger] jv_items(v@)[x] == jv(v@[x]),
                    forall|x: int| 0 <= x < i ==> crate_pkg_in(#[trigger] pkgs@[x], jv(v@[x])),
                decreases v.len() - i,
            {
                pkgs.push(crate_pkg_of(&v[i]));
                i = i + 1;
            }
        },
    }
    let mut nodes: Vec<CrateNode> = Vec::new();
    let listed = match json_get(doc, "resolve") {
        Some(r) => items_at(r, "nodes"),
        None => None,
    };
    match listed {
        None => {},
        Some(v) => {
            proof {
                lemma_jv_items(v@);
            }
            let mut i: usize = 0;
            while i < v.len()
                invariant
                    i <= v@.len(),
                    nodes@.len() == i,
                    list(at(at(jv(*doc), "resolve"@), "nodes"@)) == jv_items(v@),
                    jv_items(v@).len() == v@.len(),
                    forall|x: int| 0 <= x < v@.len() ==> #[trigger] jv_items(v@)[x] == jv(v@[x]),
                    forall|x: int| 0 <= x < i ==> crate_node_in(#[trigger] nodes@[x], jv(v@[x])),
                decreases v.len() - i,
            {
                let n = CrateNode { id: str_at(&v[i], "id"), dependencies: strings_at(&v[i], "dependencies") };
                nodes.push(n);
                i = i + 1;
            }
        },
    }
    (pkgs, nodes)
}

// ---------------------------------------------------------------- build messages

/// Each line of a message stream, read as JSON where it is JSON.
pub open spec fn messages(text: Seq<char>) -> Seq<Option<JsonV>> {
    lines_of(text).map_values(|l: Seq<char>| serde_parse(l))
}

/// Whether a message is the `compiler-artifact` message of a target named
/// `name`.
pub open spec fn artifact_of(m: JsonV, name: Seq<char>) -> bool {
    &&& at(m, "reason"@) == JsonV::Str("compiler-artifact"@)
    &&& str_of(at(at(m, "target"@), "name"@)) == Some(name)
}

/// The executable of the first message, from `i` on, that builds the bench
/// target `target` (a target whose kinds list `bench`) and names one.
pub open spec fn bench_executable_from(ms: Seq<Option<JsonV>>, target: Seq<char>, i: int) -> Option<Seq<char>>
    decreases ms.len() - i,
{
    if i < 0 || i >= ms.len() {
        None
    } else {
        match ms[i] {
            Some(m) => if artifact_of(m, target) && list(at(at(m, "target"@), "kind"@)).contains(
                JsonV::Str("bench"@),
            ) && str_of(at(m, "executable"@)) is Some {
                str_of(at(m, "executable"@))
            } else {
                bench_executable_from(ms, target, i + 1)
            },
            None => bench_executable_from(ms, target, i + 1),
        }
    }
}

/// Whether `v` holds the string `x`.
fn holds_str(v: &Vec<Json>, x: &str) -> (r: bool)
    ensures
        r == jv_items(v@).contains(JsonV::Str(x@)),
{
    proof {
        lemma_jv_items(v@);
    }
    let mut i: usize = 0;
    while i < v.len()
        invariant
            i <= v@.len(),
            jv_items(v@).len() == v@.len(),
            forall|j: int| 0 <= j < v@.len() ==> #[trigger] jv_items(v@)[j] == jv(v@[j]),
            forall|j: int| 0 <= j < i ==> jv_items(v@)[j] != JsonV::Str(x@),
        decreases v.len() - i,
    {
        let hit = match &v[i] {
            Json::Str(t) => str_eq(t.as_str(), x),
            _ => false,
        };
        if hit {
            assert(jv_items(v@)[i as int] == JsonV::Str(x@));
            return true;
        }
        i = i + 1;
    }
    false
}

fn is_artifact_of(m: &Json, name: &str) -> (r: bool)
    ensures
        r == artifact_of(jv(*m), name@),
{
    let reason_ok = match json_get(m, "reason") {
        Some(Json::Str(t)) => str_eq(t.as_str(), "compiler-artifact"),
        _ => false,
    };
    let name_ok = match json_get(m, "target") {
        Some(t) => match str_at(t, "name") {
            Some(n) => str_eq(n.as_str(), name),
            None => false,
        },
        None => false,
    };
    reason_ok && name_ok
}

/// The lines of `text`, each as a string.
fn line_strings(text: &str) -> (r: Vec<String>)
    ensures
        strs(r@) == lines_of(text@),
{
    let ls = lines_chars(&chars_of(text));
    let mut out: Vec<String> = Vec::new();
    let mut i: usize = 0;
    while i < ls.len()
        invariant
            i <= ls@.len(),
            ls@.map_values(|p: Vec<char>| p@) == lines_of(text@),
            out@.len() == i,
            forall|j: int| 0 <= j < i ==> #[trigger] out@[j]@ == ls@[j]@,
        decreases ls.len() - i,
    {
        out.push(string_of(ls[i].as_slice()));
        i = i + 1;
    }
    assert(strs(out@) =~= lines_of(text@)) by {
        assert forall|j: int| 0 <= j < out@.len() implies #[trigger] strs(out@)[j] == lines_of(text@)[j] by {
            assert(ls@.map_values(|p: Vec<char>| p@)[j] == ls@[j]@);
        }
    }
    out
}

/// Where the bench target `target` was built, from the messages of
/// `cargo bench --no-run --message-format json`; see
/// [`bench_executable_from`].
pub fn bench_executable_in(messages_text: &str, target: &str) -> (r: Option<String>)
    ensures
        ov(r) == bench_executable_from(messages(messages_text@), target@, 0),
{
    let lines = line_strings(messages_text);
    let ghost ms = messages(messages_text@);
    let mut i: usize = 0;
    while i < lines.len()
        invariant
            i <= lines@.len(),
            strs(lines@) == lines_of(messages_text@),
            ms == messages(messages_text@),
            bench_executable_from(ms, target@, i as int) == bench_executable_from(ms, target@, 0),
        decreases lines.len() - i,
    {
        assert(ms[i as int] == serde_parse(lines@[i as int]@)) by {
            assert(strs(lines@)[i as int] == lines@[i as int]@);
        }
        match parse_json(lines[i].as_str()) {
            Some(m) => {
                if is_artifact_of(&m, target) {
                    let benched = match json_get(&m, "target") {
                        Some(t) => match items_at(t, "kind") {
                            Some(k) => holds_str(k, "bench"),
                            None => false,
                        },
                        None => false,
                    };
                    if benched {
                        match str_at(&m, "executable") {
                            Some(e) => {
                                return Some(e);
                            },
                            None => {},
                        }
                    }
                }
            },
            None => {},
        }
        i = i + 1;
    }
    None
}

/// The files of the `compiler-artifact` messages, from `i` on, of a target
/// named `pkg` or `norm`, message by message.
pub open spec fn artifact_files_from(ms: Seq<Option<JsonV>>, pkg: Seq<char>, norm: Seq<char>, i: int) -> Seq<
    Seq<char>,
>
    decreases ms.len() - i,
{
    if i < 0 || i >= ms.len() {
        Seq::empty()
    } else {
        match ms[i] {
            Some(m) => if artifact_of(m, pkg) || artifact_of(m, norm) {
                strings_in(list(at(m, "filenames"@))) + artifact_files_from(ms, pkg, norm, i + 1)
            } else {
                artifact_files_from(ms, pkg, norm, i + 1)
            },
            None => artifact_files_from(ms, pkg, norm, i + 1),
        }
    }
}

/// The files cargo built for package `pkg` (its target named `pkg`, or
/// `pkg` with `-` read as `_`), from the messages of
/// `cargo build --message-format json`, in message order.
pub fn artifact_files(messages_text: &str, pkg: &str) -> (r: Vec<String>)
    ensures
        strs(r@) == artifact_files_from(messages(messages_text@), pkg@, replaced(pkg@, '-', '_'), 0),
{
    let norm = string_of(replace_char(pkg, '-', '_').as_slice());
    let lines = line_strings(messages_text);
    let ghost ms = messages(messages_text@);
    let ghost nv = replaced(pkg@, '-', '_');
    let mut out: Vec<String> = Vec::new();
    let mut i: usize = 0;
    assert(strs(out@) =~= Seq::<Seq<char>>::empty());
    while i < lines.len()
        invariant
            i <= lines@.len(),
            norm@ == nv,
            strs(lines@) == lines_of(messages_text@),
            ms == messages(messages_text@),
            strs(out@) + artifact_files_from(ms, pkg@, nv, i as int) == artifact_files_from(ms, pkg@, nv, 0),
        decreases lines.len() - i,
    {
        assert(ms[i as int] == serde_parse(lines@[i as int]@)) by {
            assert(strs(lines@)[i as int] == lines@[i as int]@);
        }
        match parse_json(lines[i].as_str()) {
            Some(m) => {
                if is_artifact_of(&m, pkg) || is_artifact_of(&m, norm.as_str()) {
                    let fs = strings_at(&m, "filenames");
                    let ghost before = strs(out@);
                    let mut k: usize = 0;
                    while k < fs.len()
                        invariant
                            k <= fs@.len(),
                            strs(out@) == before + strs(fs@).take(k as int),
                        decreases fs.len() - k,
                    {
                        let ghost o = out@;
                        out.push(copy_str(fs[k].as_str()));
                        assert(strs(out@) =~= strs(o).push(fs@[k as int]@));
                        assert(strs(fs@).take(k + 1) =~= strs(fs@).take(k as int).push(fs@[k as int]@));
                        assert(strs(out@) =~= before + strs(fs@).take(k + 1));
                        k = k + 1;
                    }
                    assert(strs(fs@).take(fs@.len() as int) =~= strs(fs@));
                    assert(strs(out@) + artifact_files_from(ms, pkg@, nv, i + 1) =~= before
                        + artifact_files_from(ms, pkg@, nv, i as int));
                }
            },
            None => {},
        }
        i = i + 1;
    }
    assert(strs(out@) + artifact_files_from(ms, pkg@, nv, lines@.len() as int) =~= strs(out@));
    out
}

} // verus!
