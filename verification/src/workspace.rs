//! Which crates of this cargo workspace a package's types can come from,
//! decided over the `cargo metadata` graph held as plain values.
//!
//! Spec generation walks one package's rustdoc JSON, but its wire types
//! routinely live in a sibling crate of the same workspace. Those crates are
//! the only ones worth documenting for that purpose: a registry dependency
//! has no source tree here, and documenting the whole dependency graph would
//! cost a nightly rustdoc build per crate for types no route ever names.

use vstd::prelude::*;

use crate::text::{chars_eq, chars_lt, chars_of, lemma_lex_total, lemma_lex_transitive, lex_lt, str_eq};

verus! {

/// One build target of a package: its name and its `kind` list.
pub struct Target {
    pub name: Option<String>,
    pub kind: Vec<String>,
}

/// One entry of `packages`.
pub struct Package {
    pub name: Option<String>,
    pub id: Option<String>,
    pub targets: Vec<Target>,
}

/// One edge of a resolve node: the package id it points at and its
/// `dep_kinds`, where `None` is cargo's null kind (a normal dependency).
pub struct DepEdge {
    pub pkg: Option<String>,
    pub kinds: Vec<Option<String>>,
}

/// One entry of `resolve.nodes`.
pub struct ResolveNode {
    pub id: Option<String>,
    pub deps: Vec<DepEdge>,
}

/// The parts of `cargo metadata` output the walk reads.
pub struct Metadata {
    pub packages: Vec<Package>,
    pub workspace_members: Vec<String>,
    pub nodes: Vec<ResolveNode>,
}

/// An optional string as plain values.
pub open spec fn ov(o: Option<String>) -> Option<Seq<char>> {
    match o {
        Some(s) => Some(s@),
        None => None,
    }
}

/// Whether `kinds` lists `k`.
pub open spec fn lists_kind(kinds: Vec<String>, k: Seq<char>) -> bool {
    exists|i: int| 0 <= i < kinds@.len() && kinds@[i]@ == k
}

/// Whether a package has a library target `cargo rustdoc --lib` can
/// document: a target whose kinds include `lib`, `rlib` or `dylib`.
pub open spec fn spec_has_lib(p: Package) -> bool {
    exists|t: int|
        0 <= t < p.targets.len() && (lists_kind(p.targets[t].kind, "lib"@) || lists_kind(
            p.targets[t].kind,
            "rlib"@,
        ) || lists_kind(p.targets[t].kind, "dylib"@))
}

/// Whether some package named `pkg` has a target named `target` of kind
/// `bench`.
pub open spec fn spec_bench_target_in(m: Metadata, pkg: Seq<char>, target: Seq<char>) -> bool {
    exists|p: int, t: int|
        0 <= p < m.packages.len() && ov(m.packages[p].name) == Some(pkg) && 0 <= t
            < m.packages[p].targets.len() && ov(m.packages[p].targets[t].name) == Some(target)
            && lists_kind(m.packages[p].targets[t].kind, "bench"@)
}

/// Index of the first resolve node (from `i` on) whose id is `id`.
pub open spec fn first_node(nodes: Seq<ResolveNode>, id: Seq<char>, i: int) -> Option<int>
    decreases nodes.len() - i,
{
    if i < 0 || i >= nodes.len() {
        None
    } else if ov(nodes[i].id) == Some(id) {
        Some(i)
    } else {
        first_node(nodes, id, i + 1)
    }
}

/// Index of the first package (from `i` on) whose id is `id`.
pub open spec fn first_pkg_with_id(pkgs: Seq<Package>, id: Seq<char>, i: int) -> Option<int>
    decreases pkgs.len() - i,
{
    if i < 0 || i >= pkgs.len() {
        None
    } else if ov(pkgs[i].id) == Some(id) {
        Some(i)
    } else {
        first_pkg_with_id(pkgs, id, i + 1)
    }
}

/// Index of the first package (from `i` on) named `name`.
pub open spec fn first_pkg_named(pkgs: Seq<Package>, name: Seq<char>, i: int) -> Option<int>
    decreases pkgs.len() - i,
{
    if i < 0 || i >= pkgs.len() {
        None
    } else if ov(pkgs[i].name) == Some(name) {
        Some(i)
    } else {
        first_pkg_named(pkgs, name, i + 1)
    }
}

/// Whether an edge is a normal dependency (some kind is null).
pub open spec fn dep_is_normal(d: DepEdge) -> bool {
    exists|k: int| 0 <= k < d.kinds.len() && d.kinds[k] is None
}

/// The package ids of the normal edges of `deps` from `i` on.
pub open spec fn normal_from(deps: Seq<DepEdge>, i: int) -> Seq<Seq<char>>
    decreases deps.len() - i,
{
    if i < 0 || i >= deps.len() {
        Seq::empty()
    } else if dep_is_normal(deps[i]) && deps[i].pkg is Some {
        seq![deps[i].pkg->0@] + normal_from(deps, i + 1)
    } else {
        normal_from(deps, i + 1)
    }
}

/// The ids the first resolve node for `id` depends on outside dev- and
/// build-only edges; nothing when no node has that id.
pub open spec fn spec_normal_deps(m: Metadata, id: Seq<char>) -> Seq<Seq<char>> {
    match first_node(m.nodes@, id, 0) {
        Some(k) => normal_from(m.nodes@[k].deps@, 0),
        None => Seq::empty(),
    }
}

/// Whether `id` is a workspace member.
pub open spec fn is_member(m: Metadata, id: Seq<char>) -> bool {
    exists|j: int| 0 <= j < m.workspace_members.len() && m.workspace_members[j]@ == id
}

/// One step of the walk: a normal edge into a workspace member.
pub open spec fn step(m: Metadata, a: Seq<char>, b: Seq<char>) -> bool {
    spec_normal_deps(m, a).contains(b) && is_member(m, b)
}

/// `path` starts at `root` and follows [`step`]s.
pub open spec fn is_walk(m: Metadata, root: Seq<char>, path: Seq<Seq<char>>) -> bool {
    &&& path.len() >= 1
    &&& path[0] == root
    &&& forall|i: int| 0 <= i < path.len() - 1 ==> step(m, #[trigger] path[i], path[i + 1])
}

/// Whether `id` is reachable from `root` through normal edges into
/// workspace members.
pub open spec fn reachable(m: Metadata, root: Seq<char>, id: Seq<char>) -> bool {
    exists|path: Seq<Seq<char>>| is_walk(m, root, path) && path.last() == id
}

/// The library name the walk reports for package id `id`: the name of the
/// first package with that id, when it has a library target.
pub open spec fn lib_name_of(m: Metadata, id: Seq<char>) -> Option<Seq<char>> {
    match first_pkg_with_id(m.packages@, id, 0) {
        Some(j) => if spec_has_lib(m.packages@[j]) {
            ov(m.packages@[j].name)
        } else {
            None
        },
        None => None,
    }
}

/// The id of the first package named `pkg`, if it has one.
pub open spec fn root_id(m: Metadata, pkg: Seq<char>) -> Option<Seq<char>> {
    match first_pkg_named(m.packages@, pkg, 0) {
        Some(j) => ov(m.packages@[j].id),
        None => None,
    }
}

/// Library names of the workspace members reachable from `root`, `root`
/// itself excluded.
pub open spec fn spec_local_deps(m: Metadata, root: Seq<char>) -> Set<Seq<char>> {
    Set::new(
        |n: Seq<char>|
            exists|d: Seq<char>| reachable(m, root, d) && d != root && lib_name_of(m, d) == Some(n),
    )
}

/// Strictly increasing in [`lex_lt`] order.
pub open spec fn sorted_strict(s: Seq<Seq<char>>) -> bool {
    forall|i: int, j: int| 0 <= i < j < s.len() ==> lex_lt(s[i], s[j])
}

/// Whether a target's kinds list `k`.
fn lists(kind: &Vec<String>, k: &str) -> (r: bool)
    ensures
        r == lists_kind(*kind, k@),
{
    let mut i: usize = 0;
    while i < kind.len()
        invariant
            i <= kind.len(),
            forall|j: int| 0 <= j < i ==> kind@[j]@ != k@,
        decreases kind.len() - i,
    {
        if str_eq(kind[i].as_str(), k) {
            return true;
        }
        i = i + 1;
    }
    false
}

fn opt_is(o: &Option<String>, s: &str) -> (r: bool)
    ensures
        r == (ov(*o) == Some(s@)),
{
    match o {
        Some(x) => str_eq(x.as_str(), s),
        None => false,
    }
}

/// Whether a package has a library target rustdoc can document.
pub fn has_lib_target(p: &Package) -> (r: bool)
    ensures
        r == spec_has_lib(*p),
{
    let mut t: usize = 0;
    while t < p.targets.len()
        invariant
            t <= p.targets.len(),
            forall|u: int|
                0 <= u < t ==> !(lists_kind(p.targets[u].kind, "lib"@) || lists_kind(
                    p.targets[u].kind,
                    "rlib"@,
                ) || lists_kind(p.targets[u].kind, "dylib"@)),
        decreases p.targets.len() - t,
    {
        let k = &p.targets[t].kind;
        if lists(k, "lib") || lists(k, "rlib") || lists(k, "dylib") {
            return true;
        }
        t = t + 1;
    }
    false
}

/// Whether `pkg` has a `[[bench]]` target named `target` in this metadata.
/// Asked of the merge-base tree, where a missing bench target
/// means the crate has no earlier measurement to compare against.
pub fn has_bench_target(m: &Metadata, pkg: &str, target: &str) -> (r: bool)
    ensures
        r == spec_bench_target_in(*m, pkg@, target@),
{
    let mut p: usize = 0;
    while p < m.packages.len()
        invariant
            p <= m.packages.len(),
            forall|q: int, t: int|
                0 <= q < p && ov(m.packages[q].name) == Some(pkg@) && 0 <= t
                    < m.packages[q].targets.len() ==> !(ov(m.packages[q].targets[t].name) == Some(
                    target@,
                ) && lists_kind(m.packages[q].targets[t].kind, "bench"@)),
        decreases m.packages.len() - p,
    {
        let pk = &m.packages[p];
        if opt_is(&pk.name, pkg) {
            let mut t: usize = 0;
            while t < pk.targets.len()
                invariant
                    p < m.packages.len(),
                    *pk == m.packages@[p as int],
                    ov(pk.name) == Some(pkg@),
                    t <= pk.targets.len(),
                    forall|u: int|
                        0 <= u < t ==> !(ov(pk.targets[u].name) == Some(target@) && lists_kind(
                            pk.targets[u].kind,
                            "bench"@,
                        )),
                decreases pk.targets.len() - t,
            {
                if opt_is(&pk.targets[t].name, target) && lists(&pk.targets[t].kind, "bench") {
                    assert(0 <= p < m.packages.len() && ov(m.packages[p as int].name) == Some(pkg@)
                        && 0 <= t < m.packages[p as int].targets.len() && ov(
                        m.packages[p as int].targets[t as int].name,
                    ) == Some(target@) && lists_kind(
                        m.packages[p as int].targets[t as int].kind,
                        "bench"@,
                    ));
                    return true;
                }
                t = t + 1;
            }
        }
        p = p + 1;
    }
    false
}

} // verus!

verus! {

/// Character vectors as plain values.
pub open spec fn cv(s: Seq<Vec<char>>) -> Seq<Seq<char>> {
    s.map_values(|v: Vec<char>| v@)
}

/// A sequence of distinct elements, all drawn from `pool`, is no longer
/// than `pool`.
proof fn lemma_distinct_within(vis: Seq<Seq<char>>, pool: Seq<Seq<char>>)
    requires
        vis.no_duplicates(),
        forall|i: int| 0 <= i < vis.len() ==> pool.contains(#[trigger] vis[i]),
    ensures
        vis.len() <= pool.len(),
{
    broadcast use vstd::seq_lib::seq_to_set_is_finite;

    vis.unique_seq_to_set();
    pool.lemma_cardinality_of_set();
    assert forall|x: Seq<char>| vis.to_set().contains(x) implies pool.to_set().contains(x) by {
        let i = choose|i: int| 0 <= i < vis.len() && vis[i] == x;
    }
    vstd::set_lib::lemma_len_subset(vis.to_set(), pool.to_set());
}

fn copy_chars(v: &Vec<char>) -> (r: Vec<char>)
    ensures
        r@ == v@,
{
    crate::text::slice_chars(v, 0, v.len())
}

fn opt_chars(o: &Option<String>) -> (r: Option<Vec<char>>)
    ensures
        match r {
            Some(v) => ov(*o) == Some(v@),
            None => o is None,
        },
{
    match o {
        Some(s) => Some(chars_of(s.as_str())),
        None => None,
    }
}

fn opt_eq_chars(o: &Option<String>, v: &Vec<char>) -> (r: bool)
    ensures
        r == (ov(*o) == Some(v@)),
{
    match o {
        Some(s) => chars_eq(&chars_of(s.as_str()), v),
        None => false,
    }
}

fn find_node(nodes: &Vec<ResolveNode>, id: &Vec<char>) -> (r: Option<usize>)
    ensures
        match r {
            Some(k) => first_node(nodes@, id@, 0) == Some(k as int) && k < nodes.len(),
            None => first_node(nodes@, id@, 0) is None,
        },
{
    let mut i: usize = 0;
    while i < nodes.len()
        invariant
            i <= nodes.len(),
            first_node(nodes@, id@, i as int) == first_node(nodes@, id@, 0),
        decreases nodes.len() - i,
    {
        if opt_eq_chars(&nodes[i].id, id) {
            return Some(i);
        }
        i = i + 1;
    }
    None
}

fn find_pkg_with_id(pkgs: &Vec<Package>, id: &Vec<char>) -> (r: Option<usize>)
    ensures
        match r {
            Some(k) => first_pkg_with_id(pkgs@, id@, 0) == Some(k as int) && k < pkgs.len(),
            None => first_pkg_with_id(pkgs@, id@, 0) is None,
        },
{
    let mut i: usize = 0;
    while i < pkgs.len()
        invariant
            i <= pkgs.len(),
            first_pkg_with_id(pkgs@, id@, i as int) == first_pkg_with_id(pkgs@, id@, 0),
        decreases pkgs.len() - i,
    {
        if opt_eq_chars(&pkgs[i].id, id) {
            return Some(i);
        }
        i = i + 1;
    }
    None
}

fn find_pkg_named(pkgs: &Vec<Package>, name: &Vec<char>) -> (r: Option<usize>)
    ensures
        match r {
            Some(k) => first_pkg_named(pkgs@, name@, 0) == Some(k as int) && k < pkgs.len(),
            None => first_pkg_named(pkgs@, name@, 0) is None,
        },
{
    let mut i: usize = 0;
    while i < pkgs.len()
        invariant
            i <= pkgs.len(),
            first_pkg_named(pkgs@, name@, i as int) == first_pkg_named(pkgs@, name@, 0),
        decreases pkgs.len() - i,
    {
        if opt_eq_chars(&pkgs[i].name, name) {
            return Some(i);
        }
        i = i + 1;
    }
    None
}

fn edge_is_normal(d: &DepEdge) -> (r: bool)
    ensures
        r == dep_is_normal(*d),
{
    let mut k: usize = 0;
    while k < d.kinds.len()
        invariant
            k <= d.kinds.len(),
            forall|j: int| 0 <= j < k ==> d.kinds@[j] is Some,
        decreases d.kinds.len() - k,
    {
        if d.kinds[k].is_none() {
            return true;
        }
        k = k + 1;
    }
    false
}

/// The ids the resolve node for `id` depends on outside dev- and
/// build-only edges.
fn normal_deps(m: &Metadata, id: &Vec<char>) -> (r: Vec<Vec<char>>)
    ensures
        cv(r@) == spec_normal_deps(*m, id@),
{
    let mut out: Vec<Vec<char>> = Vec::new();
    match find_node(&m.nodes, id) {
        None => {
            assert(cv(out@) =~= Seq::<Seq<char>>::empty());
        },
        Some(k) => {
            let deps = &m.nodes[k].deps;
            let mut i: usize = 0;
            while i < deps.len()
                invariant
                    i <= deps.len(),
                    cv(out@) + normal_from(deps@, i as int) == normal_from(deps@, 0),
                decreases deps.len() - i,
            {
                let ghost before = cv(out@);
                if edge_is_normal(&deps[i]) {
                    match &deps[i].pkg {
                        Some(p) => {
                            let pc = chars_of(p.as_str());
                            out.push(pc);
                            assert(cv(out@) =~= before.push(pc@));
                            assert(before + normal_from(deps@, i as int) =~= before.push(pc@)
                                + normal_from(deps@, i + 1));
                        },
                        None => {},
                    }
                }
                i = i + 1;
            }
            assert(cv(out@) + normal_from(deps@, deps.len() as int) =~= cv(out@));
        },
    }
    out
}

fn member(m: &Metadata, id: &Vec<char>) -> (r: bool)
    ensures
        r == is_member(*m, id@),
{
    let mut j: usize = 0;
    while j < m.workspace_members.len()
        invariant
            j <= m.workspace_members.len(),
            forall|k: int| 0 <= k < j ==> m.workspace_members@[k]@ != id@,
        decreases m.workspace_members.len() - j,
    {
        if chars_eq(&chars_of(m.workspace_members[j].as_str()), id) {
            return true;
        }
        j = j + 1;
    }
    false
}

fn seq_has(vs: &Vec<Vec<char>>, x: &Vec<char>) -> (r: bool)
    ensures
        r == cv(vs@).contains(x@),
{
    let mut i: usize = 0;
    while i < vs.len()
        invariant
            i <= vs.len(),
            forall|k: int| 0 <= k < i ==> vs@[k]@ != x@,
        decreases vs.len() - i,
    {
        if chars_eq(&vs[i], x) {
            assert(cv(vs@)[i as int] == x@);
            return true;
        }
        i = i + 1;
    }
    assert forall|k: int| 0 <= k < cv(vs@).len() implies cv(vs@)[k] != x@ by {
        assert(cv(vs@)[k] == vs@[k]@);
    }
    false
}

/// Adds `x` to a strictly sorted list unless it is already there.
pub(crate) fn insert_sorted(found: &mut Vec<Vec<char>>, x: Vec<char>)
    requires
        sorted_strict(cv(old(found)@)),
    ensures
        sorted_strict(cv(final(found)@)),
        cv(final(found)@).to_set() == cv(old(found)@).to_set().insert(x@),
{
    let ghost f0 = cv(found@);
    let mut i: usize = 0;
    while i < found.len() && chars_lt(&found[i], &x)
        invariant
            f0 == cv(found@),
            i <= found.len(),
            forall|k: int| 0 <= k < i ==> lex_lt(f0[k], x@),
        decreases found.len() - i,
    {
        i = i + 1;
    }
    if i < found.len() && chars_eq(&found[i], &x) {
        assert(f0[i as int] == x@);
        assert(f0.to_set().contains(x@));
        assert(f0.to_set().insert(x@) =~= f0.to_set());
        return;
    }
    proof {
        if i < found.len() {
            lemma_lex_total(f0[i as int], x@);
        }
    }
    let ghost xv = x@;
    found.insert(i, x);
    let ghost f1 = cv(found@);
    assert(f1 =~= f0.insert(i as int, xv));
    proof {
        assert forall|b: int| i < b < f1.len() implies lex_lt(xv, f1[b]) by {
            assert(f1[b] == f0[b - 1]);
            if b - 1 > i {
                lemma_lex_transitive(xv, f0[i as int], f0[b - 1]);
            }
        }
        assert forall|a: int, b: int| 0 <= a < b < f1.len() implies lex_lt(f1[a], f1[b]) by {
            if b < i {
            } else if b == i {
            } else if a < i {
                lemma_lex_transitive(f1[a], xv, f1[b]);
            } else if a == i {
            } else {
            }
        }
        assert forall|y: Seq<char>| f1.to_set().contains(y) <==> f0.to_set().insert(xv).contains(y)
            by {
            if f1.contains(y) {
                let k = choose|k: int| 0 <= k < f1.len() && f1[k] == y;
                if k < i {
                    assert(f0[k] == y);
                } else if k > i {
                    assert(f0[k - 1] == y);
                }
            }
            if f0.contains(y) {
                let k = choose|k: int| 0 <= k < f0.len() && f0[k] == y;
                if k < i {
                    assert(f1[k] == y);
                } else {
                    assert(f1[k + 1] == y);
                }
            }
            if y == xv {
                assert(f1[i as int] == y);
            }
        }
        assert(f1.to_set() =~= f0.to_set().insert(xv));
    }
}

} // verus!

verus! {

/// The workspace members' ids as plain values.
pub open spec fn members_view(m: Metadata) -> Seq<Seq<char>> {
    m.workspace_members@.map_values(|s: String| s@)
}

proof fn lemma_member_in_view(m: Metadata, id: Seq<char>)
    requires
        is_member(m, id),
    ensures
        members_view(m).contains(id),
{
    let j = choose|j: int| 0 <= j < m.workspace_members.len() && m.workspace_members[j]@ == id;
    assert(members_view(m)[j] == id);
}

proof fn lemma_step_extends(m: Metadata, root: Seq<char>, a: Seq<char>, b: Seq<char>)
    requires
        reachable(m, root, a),
        step(m, a, b),
    ensures
        reachable(m, root, b),
{
    let path = choose|path: Seq<Seq<char>>| is_walk(m, root, path) && path.last() == a;
    let p2 = path.push(b);
    assert forall|i: int| 0 <= i < p2.len() - 1 implies step(m, #[trigger] p2[i], p2[i + 1]) by {
        if i < path.len() - 1 {
            assert(p2[i] == path[i] && p2[i + 1] == path[i + 1]);
        } else {
            assert(p2[i] == a && p2[i + 1] == b);
        }
    }
    assert(is_walk(m, root, p2) && p2.last() == b);
}

proof fn lemma_walk_prefix_in(m: Metadata, root: Seq<char>, path: Seq<Seq<char>>, vis: Seq<Seq<char>>, k: int)
    requires
        is_walk(m, root, path),
        0 <= k < path.len(),
        vis.contains(root),
        forall|x: Seq<char>, y: Seq<char>| vis.contains(x) && step(m, x, y) ==> vis.contains(y),
    ensures
        vis.contains(path[k]),
    decreases k,
{
    if k > 0 {
        lemma_walk_prefix_in(m, root, path, vis, k - 1);
        assert(step(m, path[k - 1], path[k]));
    }
}

/// Why a package's local dependencies cannot be listed.
#[derive(Debug)]
pub enum WalkError {
    /// No package of that name, or the first one has no id.
    NoSuchPackage(String),
}

fn lib_name(m: &Metadata, id: &Vec<char>) -> (r: Option<Vec<char>>)
    ensures
        match r {
            Some(n) => lib_name_of(*m, id@) == Some(n@),
            None => lib_name_of(*m, id@) is None,
        },
{
    match find_pkg_with_id(&m.packages, id) {
        Some(k) => {
            if has_lib_target(&m.packages[k]) {
                opt_chars(&m.packages[k].name)
            } else {
                None
            }
        },
        None => None,
    }
}

/// The set the walk has reported once `vis` is visited.
pub open spec fn reported(m: Metadata, vis: Seq<Seq<char>>) -> Set<Seq<char>> {
    Set::new(|n: Seq<char>| exists|k: int| 1 <= k < vis.len() && lib_name_of(m, vis[k]) == Some(n))
}

/// Workspace members `pkg` depends on, transitively, in name order.
///
/// Only members with a plain library target qualify: a proc-macro crate's
/// rustdoc JSON describes macros rather than wire types, and a binary-only
/// member has no `--lib` for rustdoc to document. Dev- and build-only
/// dependencies are excluded. The order is alphabetical rather than graph
/// order, so two crates that both define a type of the same name always
/// disambiguate the same way.
pub fn local_deps(m: &Metadata, pkg: &str) -> (r: Result<Vec<String>, WalkError>)
    ensures
        match r {
            Ok(names) => {
                &&& root_id(*m, pkg@) is Some
                &&& names@.map_values(|s: String| s@).to_set() == spec_local_deps(
                    *m,
                    root_id(*m, pkg@)->0,
                )
                &&& sorted_strict(names@.map_values(|s: String| s@))
            },
            Err(WalkError::NoSuchPackage(p)) => root_id(*m, pkg@) is None && p@ == pkg@,
        },
{
    let name = chars_of(pkg);
    let root = match find_pkg_named(&m.packages, &name) {
        Some(j) => match opt_chars(&m.packages[j].id) {
            Some(id) => id,
            None => return Err(WalkError::NoSuchPackage(crate::text::copy_str(pkg))),
        },
        None => return Err(WalkError::NoSuchPackage(crate::text::copy_str(pkg))),
    };
    let ghost rv = root@;
    let ghost mem = members_view(*m);
    let mut vis: Vec<Vec<char>> = Vec::new();
    vis.push(root);
    let mut found: Vec<Vec<char>> = Vec::new();
    let mut head: usize = 0;
    proof {
        assert(cv(vis@) =~= seq![rv]);
        let path = seq![rv];
        assert(is_walk(*m, rv, path) && path.last() == rv);
        assert(reported(*m, cv(vis@)) =~= Set::empty());
        assert(cv(found@).to_set() =~= Set::empty());
        assert(cv(vis@).drop_first() =~= Seq::<Seq<char>>::empty());
    }
    while head < vis.len()
        invariant
            rv == root_id(*m, pkg@)->0,
            root_id(*m, pkg@) is Some,
            mem == members_view(*m),
            head <= vis.len(),
            vis.len() >= 1,
            cv(vis@)[0] == rv,
            cv(vis@).no_duplicates(),
            forall|k: int| 1 <= k < vis.len() ==> is_member(*m, #[trigger] cv(vis@)[k]),
            forall|k: int| 0 <= k < vis.len() ==> reachable(*m, rv, #[trigger] cv(vis@)[k]),
            forall|k: int, y: Seq<char>|
                0 <= k < head && #[trigger] step(*m, cv(vis@)[k], y) ==> cv(vis@).contains(y),
            sorted_strict(cv(found@)),
            cv(found@).to_set() == reported(*m, cv(vis@)),
            vis.len() <= mem.len() + 1,
        decreases mem.len() + 1 - vis.len(), vis.len() - head,
    {
        let cur = copy_chars(&vis[head]);
        assert(cv(vis@)[head as int] == cur@);
        let deps = normal_deps(m, &cur);
        let mut j: usize = 0;
        let ghost len0 = vis.len();
        while j < deps.len()
            invariant
                rv == root_id(*m, pkg@)->0,
                mem == members_view(*m),
                head < vis.len(),
                len0 <= vis.len(),
                cv(vis@)[head as int] == cur@,
                cv(deps@) == spec_normal_deps(*m, cur@),
                j <= deps.len(),
                cv(vis@)[0] == rv,
                cv(vis@).no_duplicates(),
                forall|k: int| 1 <= k < vis.len() ==> is_member(*m, #[trigger] cv(vis@)[k]),
                forall|k: int| 0 <= k < vis.len() ==> reachable(*m, rv, #[trigger] cv(vis@)[k]),
                forall|k: int, y: Seq<char>|
                    0 <= k < head && #[trigger] step(*m, cv(vis@)[k], y) ==> cv(vis@).contains(y),
                forall|k: int|
                    0 <= k < j && is_member(*m, #[trigger] cv(deps@)[k]) ==> cv(vis@).contains(
                        cv(deps@)[k],
                    ),
                sorted_strict(cv(found@)),
                cv(found@).to_set() == reported(*m, cv(vis@)),
                vis.len() <= mem.len() + 1,
            decreases deps.len() - j,
        {
            let d = &deps[j];
            assert(cv(deps@)[j as int] == d@);
            if member(m, d) && !seq_has(&vis, d) {
                let ghost v0 = cv(vis@);
                let dc = copy_chars(d);
                vis.push(dc);
                let ghost v1 = cv(vis@);
                proof {
                    assert(v1 =~= v0.push(d@));
                    assert(spec_normal_deps(*m, cur@).contains(d@)) by {
                        assert(cv(deps@)[j as int] == d@);
                    }
                    lemma_step_extends(*m, rv, cur@, d@);
                    assert forall|k: int| 0 <= k < v1.len() implies reachable(*m, rv, #[trigger] v1[k]) by {
                        if k < v0.len() {
                            assert(v1[k] == v0[k]);
                        }
                    }
                    assert forall|k: int| 1 <= k < v1.len() implies is_member(*m, #[trigger] v1[k]) by {
                        if k < v0.len() {
                            assert(v1[k] == v0[k]);
                        }
                    }
                    assert forall|a: int, b: int| 0 <= a < v1.len() && 0 <= b < v1.len() && a != b
                        implies v1[a] != v1[b] by {
                        if a == v0.len() {
                            assert(!v0.contains(d@));
                            assert(v1[b] == v0[b]);
                        } else if b == v0.len() {
                            assert(v1[a] == v0[a]);
                        }
                    }
                    assert forall|k: int, y: Seq<char>|
                        0 <= k < head && #[trigger] step(*m, v1[k], y) implies v1.contains(y) by {
                        assert(v1[k] == v0[k]);
                        let w = choose|w: int| 0 <= w < v0.len() && v0[w] == y;
                        assert(v1[w] == y);
                    }
                    assert forall|k: int| 0 <= k < j + 1 && is_member(*m, #[trigger] cv(deps@)[k])
                        implies v1.contains(cv(deps@)[k]) by {
                        if k < j {
                            let w = choose|w: int| 0 <= w < v0.len() && v0[w] == cv(deps@)[k];
                            assert(v1[w] == v0[w]);
                        } else {
                            assert(v1[v0.len() as int] == d@);
                        }
                    }
                    lemma_member_in_view(*m, d@);
                    let tail = v1.drop_first();
                    assert forall|i: int| 0 <= i < tail.len() implies mem.contains(#[trigger] tail[i]) by {
                        assert(tail[i] == v1[i + 1]);
                        lemma_member_in_view(*m, v1[i + 1]);
                    }
                    assert(tail.no_duplicates()) by {
                        assert forall|a: int, b: int| 0 <= a < tail.len() && 0 <= b < tail.len() && a != b
                            implies tail[a] != tail[b] by {
                            assert(tail[a] == v1[a + 1] && tail[b] == v1[b + 1]);
                        }
                    }
                    lemma_distinct_within(tail, mem);
                }
                let ghost fset = cv(found@).to_set();
                match lib_name(m, d) {
                    Some(n) => {
                        insert_sorted(&mut found, n);
                    },
                    None => {},
                }
                proof {
                    assert forall|n: Seq<char>| cv(found@).to_set().contains(n) <==> reported(*m, v1).contains(n) by {
                        if reported(*m, v1).contains(n) {
                            let k = choose|k: int| 1 <= k < v1.len() && lib_name_of(*m, v1[k]) == Some(n);
                            if k < v0.len() {
                                assert(v1[k] == v0[k]);
                                assert(reported(*m, v0).contains(n));
                            }
                        }
                        if reported(*m, v0).contains(n) {
                            let k = choose|k: int| 1 <= k < v0.len() && lib_name_of(*m, v0[k]) == Some(n);
                            assert(v1[k] == v0[k]);
                        }
                        if lib_name_of(*m, d@) == Some(n) {
                            assert(v1[v0.len() as int] == d@);
                        }
                    }
                    assert(cv(found@).to_set() =~= reported(*m, v1));
                }
            } else {
                proof {
                    if is_member(*m, d@) {
                        assert(cv(vis@).contains(d@));
                    }
                }
            }
            j = j + 1;
        }
        proof {
            assert forall|k: int, y: Seq<char>|
                0 <= k < head + 1 && #[trigger] step(*m, cv(vis@)[k], y) implies cv(vis@).contains(y) by {
                if k == head {
                    let w = choose|w: int| 0 <= w < cv(deps@).len() && cv(deps@)[w] == y;
                    assert(is_member(*m, cv(deps@)[w]));
                }
            }
        }
        head = head + 1;
    }
    proof {
        let vs = cv(vis@);
        assert(vs.contains(rv)) by {
            assert(vs[0] == rv);
        }
        assert forall|x: Seq<char>, y: Seq<char>| vs.contains(x) && step(*m, x, y) implies vs.contains(y) by {
            let k = choose|k: int| 0 <= k < vs.len() && vs[k] == x;
        }
        assert forall|n: Seq<char>| reported(*m, vs).contains(n) <==> spec_local_deps(*m, rv).contains(n) by {
            if spec_local_deps(*m, rv).contains(n) {
                let d = choose|d: Seq<char>| reachable(*m, rv, d) && d != rv && lib_name_of(*m, d) == Some(n);
                let path = choose|path: Seq<Seq<char>>| is_walk(*m, rv, path) && path.last() == d;
                lemma_walk_prefix_in(*m, rv, path, vs, path.len() - 1);
                let k = choose|k: int| 0 <= k < vs.len() && vs[k] == d;
                assert(k != 0);
            }
            if reported(*m, vs).contains(n) {
                let k = choose|k: int| 1 <= k < vs.len() && lib_name_of(*m, vs[k]) == Some(n);
                assert(vs[k] != vs[0]);
            }
        }
        assert(reported(*m, vs) =~= spec_local_deps(*m, rv));
    }
    let mut out: Vec<String> = Vec::new();
    let mut i: usize = 0;
    while i < found.len()
        invariant
            i <= found.len(),
            out@.map_values(|s: String| s@) == cv(found@).take(i as int),
        decreases found.len() - i,
    {
        let s = crate::text::string_of(found[i].as_slice());
        let ghost before = out@.map_values(|s: String| s@);
        out.push(s);
        assert(out@.map_values(|s: String| s@) =~= before.push(s@));
        assert(cv(found@).take(i + 1) =~= cv(found@).take(i as int).push(found@[i as int]@));
        i = i + 1;
    }
    assert(cv(found@).take(found.len() as int) =~= cv(found@));
    Ok(out)
}

/// A registry dependency is never reported: every name the walk yields is
/// the library of a workspace member.
pub proof fn law_only_members_are_reported(m: Metadata, root: Seq<char>, n: Seq<char>)
    requires
        spec_local_deps(m, root).contains(n),
    ensures
        exists|d: Seq<char>| is_member(m, d) && lib_name_of(m, d) == Some(n),
{
    let d = choose|d: Seq<char>| reachable(m, root, d) && d != root && lib_name_of(m, d) == Some(n);
    let path = choose|path: Seq<Seq<char>>| is_walk(m, root, path) && path.last() == d;
    assert(path.len() >= 2);
    assert(step(m, path[path.len() - 2], path[path.len() - 1]));
}

} // verus!
