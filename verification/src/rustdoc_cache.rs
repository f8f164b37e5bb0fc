//! When a package's rustdoc JSON from an earlier run can be reused.
//!
//! It can when it was built with the flags asked for now (toolchain,
//! features, private items) and no source it covers is newer: the
//! package's own crate directory and that of every workspace-local (path)
//! package it depends on, transitively, found by a depth-first walk of the
//! `cargo metadata` resolve graph.

use vstd::prelude::*;

use crate::json::{at, jv, jv_members, lemma_jv_members, member_from, parse_json, serde_parse, str_of, Json, JsonV};
use crate::text::{copy_str, str_eq};
use crate::toml_lines::strs;

verus! {

/// One entry of `packages`, as the walk reads it.
pub struct CratePkg {
    pub name: Option<String>,
    pub id: Option<String>,
    /// Its `manifest_path`, when that is a string; the crate's directory
    /// is the one holding it.
    pub manifest: Option<String>,
    /// Its `source`; null for a package of this workspace.
    pub source: Json,
}

/// One entry of `resolve.nodes`: its id and the ids of its `dependencies`
/// that are strings.
pub struct CrateNode {
    pub id: Option<String>,
    pub dependencies: Vec<String>,
}

pub open spec fn ostr(o: Option<String>) -> Option<Seq<char>> {
    match o {
        Some(s) => Some(s@),
        None => None,
    }
}

/// Index of the first package (from `i` on) named `name`.
pub open spec fn first_named(pkgs: Seq<CratePkg>, name: Seq<char>, i: int) -> Option<int>
    decreases pkgs.len() - i,
{
    if i < 0 || i >= pkgs.len() {
        None
    } else if ostr(pkgs[i].name) == Some(name) {
        Some(i)
    } else {
        first_named(pkgs, name, i + 1)
    }
}

/// Whether some package with id `id` has a null source.
pub open spec fn is_local(pkgs: Seq<CratePkg>, id: Seq<char>) -> bool {
    exists|i: int| 0 <= i < pkgs.len() && ostr(pkgs[i].id) == Some(id) && jv(pkgs[i].source) == JsonV::Null
}

/// The manifest of the last package (before `j`) with id `id` that has
/// one: a later entry for the same id replaces an earlier one.
pub open spec fn manifest_before(pkgs: Seq<CratePkg>, id: Seq<char>, j: int) -> Option<Seq<char>>
    decreases j,
{
    if j <= 0 || j > pkgs.len() {
        None
    } else if ostr(pkgs[j - 1].id) == Some(id) && pkgs[j - 1].manifest is Some {
        ostr(pkgs[j - 1].manifest)
    } else {
        manifest_before(pkgs, id, j - 1)
    }
}

/// The dependencies of the last node (before `j`) with id `id`, or none.
pub open spec fn deps_before(nodes: Seq<CrateNode>, id: Seq<char>, j: int) -> Seq<Seq<char>>
    decreases j,
{
    if j <= 0 || j > nodes.len() {
        Seq::empty()
    } else if ostr(nodes[j - 1].id) == Some(id) {
        strs(nodes[j - 1].dependencies@)
    } else {
        deps_before(nodes, id, j - 1)
    }
}

/// What `id` depends on: the dependencies of its last resolve node.
pub open spec fn deps_of(nodes: Seq<CrateNode>, id: Seq<char>) -> Seq<Seq<char>> {
    deps_before(nodes, id, nodes.len() as int)
}

/// Every dependency id any node lists, node by node.
pub open spec fn all_deps(nodes: Seq<CrateNode>) -> Seq<Seq<char>>
    decreases nodes.len(),
{
    if nodes.len() == 0 {
        Seq::empty()
    } else {
        all_deps(nodes.drop_last()) + strs(nodes.last().dependencies@)
    }
}

/// Every id the walk from `root` can reach is among these.
pub open spec fn universe(nodes: Seq<CrateNode>, root: Seq<char>) -> Seq<Seq<char>> {
    seq![root] + all_deps(nodes)
}

/// The walk's state is sound: what it has seen is distinct and, like what
/// is left on its stack, drawn from `u`.
pub open spec fn walk_ok(u: Seq<Seq<char>>, stack: Seq<Seq<char>>, seen: Seq<Seq<char>>) -> bool {
    &&& seen.no_duplicates()
    &&& forall|i: int| 0 <= i < seen.len() ==> u.contains(#[trigger] seen[i])
    &&& forall|i: int| 0 <= i < stack.len() ==> u.contains(#[trigger] stack[i])
}

/// A sequence of distinct elements, all drawn from `pool`, is no longer
/// than `pool`.
pub proof fn lemma_distinct_within(vis: Seq<Seq<char>>, pool: Seq<Seq<char>>)
    requires
        vis.no_duplicates(),
        forall|i: int| 0 <= i < vis.len() ==> pool.contains(#[trigger] vis[i]),
    ensures
        vis.len() <= pool.len(),
{
    broadcast use vstd::seq_lib::seq_to_set_is_finite;

    vis.unique_seq_to_set();
    pool.lemma_cardinality_of_set();
    assert forall|x: Seq<char>| vis.to_set().contains(x) implies pool.to_set().contains(x) by {
        let i = choose|i: int| 0 <= i < vis.len() && vis[i] == x;
    }
    vstd::set_lib::lemma_len_subset(vis.to_set(), pool.to_set());
}

/// The ids a depth-first walk visits, in order: pop the last id on the
/// stack; skip it when already seen, else visit it and push what it
/// depends on.
pub open spec fn walk(
    nodes: Seq<CrateNode>,
    u: Seq<Seq<char>>,
    stack: Seq<Seq<char>>,
    seen: Seq<Seq<char>>,
) -> Seq<Seq<char>>
    decreases u.len() - seen.len(), stack.len(),
    when walk_ok(u, stack, seen)
{
    if stack.len() == 0 {
        Seq::empty()
    } else {
        let x = stack.last();
        if seen.contains(x) {
            walk(nodes, u, stack.drop_last(), seen)
        } else {
            proof {
                assert(u.contains(stack[stack.len() - 1]));
                assert(seen.push(x).no_duplicates()) by {
                    assert forall|i: int, j: int|
                        0 <= i < seen.push(x).len() && 0 <= j < seen.push(x).len() && i != j implies seen.push(
                        x,
                    )[i] != seen.push(x)[j] by {
                        if i < seen.len() && j < seen.len() {
                        } else if i < seen.len() {
                            assert(seen[i] == seen.push(x)[i]);
                        } else {
                            assert(seen[j] == seen.push(x)[j]);
                        }
                    }
                }
                assert forall|i: int| 0 <= i < seen.push(x).len() implies u.contains(#[trigger] seen.push(x)[i]) by {
                    if i < seen.len() {
                        assert(seen.push(x)[i] == seen[i]);
                    }
                }
                lemma_distinct_within(seen.push(x), u);
            }
            seq![x] + walk(nodes, u, stack.drop_last() + deps_of(nodes, x), seen.push(x))
        }
    }
}

/// The manifests of the visited ids that are workspace-local and have
/// one, in visit order.
pub open spec fn local_manifests(pkgs: Seq<CratePkg>, visits: Seq<Seq<char>>) -> Seq<Seq<char>>
    decreases visits.len(),
{
    if visits.len() == 0 {
        Seq::empty()
    } else {
        let id = visits.last();
        local_manifests(pkgs, visits.drop_last()) + match manifest_before(pkgs, id, pkgs.len() as int) {
            Some(d) => if is_local(pkgs, id) {
                seq![d]
            } else {
                Seq::empty()
            },
            None => Seq::empty(),
        }
    }
}

/// The manifest of `pkg`'s own crate plus that of every workspace-local
/// package it depends on, transitively, in the order a depth-first walk
/// from it visits them (the directories holding them are the source trees
/// the cache covers); nothing when no package is named `pkg` or its id is not a
/// string.
pub open spec fn crate_manifests(pkgs: Seq<CratePkg>, nodes: Seq<CrateNode>, pkg: Seq<char>) -> Seq<Seq<char>> {
    match first_named(pkgs, pkg, 0) {
        None => Seq::empty(),
        Some(i) => match ostr(pkgs[i].id) {
            None => Seq::empty(),
            Some(r) => local_manifests(pkgs, walk(nodes, universe(nodes, r), seq![r], Seq::empty())),
        },
    }
}

proof fn lemma_all_deps_hold(nodes: Seq<CrateNode>, k: int, j: int)
    requires
        0 <= k < nodes.len(),
        0 <= j < nodes[k].dependencies@.len(),
    ensures
        all_deps(nodes).contains(nodes[k].dependencies@[j]@),
    decreases nodes.len(),
{
    let prev = nodes.drop_last();
    let last = strs(nodes.last().dependencies@);
    assert(all_deps(nodes) == all_deps(prev) + last);
    if k == nodes.len() - 1 {
        assert(last[j] == nodes[k].dependencies@[j]@);
        assert((all_deps(prev) + last)[all_deps(prev).len() + j] == last[j]);
    } else {
        assert(prev[k] == nodes[k]);
        lemma_all_deps_hold(prev, k, j);
        let q = choose|q: int| 0 <= q < all_deps(prev).len() && all_deps(prev)[q] == nodes[k].dependencies@[j]@;
        assert((all_deps(prev) + last)[q] == all_deps(prev)[q]);
    }
}

proof fn lemma_deps_before_held(nodes: Seq<CrateNode>, id: Seq<char>, j: int, root: Seq<char>)
    requires
        0 <= j <= nodes.len(),
    ensures
        forall|i: int|
            0 <= i < deps_before(nodes, id, j).len() ==> universe(nodes, root).contains(
                #[trigger] deps_before(nodes, id, j)[i],
            ),
    decreases j,
{
    if j > 0 {
        if ostr(nodes[j - 1].id) == Some(id) {
            assert(deps_before(nodes, id, j) == strs(nodes[j - 1].dependencies@));
            assert forall|i: int|
                0 <= i < deps_before(nodes, id, j).len() implies universe(nodes, root).contains(
                #[trigger] deps_before(nodes, id, j)[i],
            ) by {
                let x = nodes[j - 1].dependencies@[i]@;
                assert(deps_before(nodes, id, j)[i] == x);
                lemma_all_deps_hold(nodes, j - 1, i);
                let q = choose|q: int| 0 <= q < all_deps(nodes).len() && all_deps(nodes)[q] == x;
                assert(universe(nodes, root)[q + 1] == x);
            }
        } else {
            assert(deps_before(nodes, id, j) == deps_before(nodes, id, j - 1));
            lemma_deps_before_held(nodes, id, j - 1, root);
        }
    }
}

/// Whatever a node depends on is in the walk's universe.
proof fn lemma_universe_covers(nodes: Seq<CrateNode>, root: Seq<char>)
    ensures
        forall|id: Seq<char>, i: int|
            0 <= i < deps_of(nodes, id).len() ==> universe(nodes, root).contains(#[trigger] deps_of(nodes, id)[i]),
{
    assert forall|id: Seq<char>, i: int|
        0 <= i < deps_of(nodes, id).len() implies universe(nodes, root).contains(#[trigger] deps_of(nodes, id)[i]) by {
        lemma_deps_before_held(nodes, id, nodes.len() as int, root);
    }
}

/// The first package named `name`; see [`first_named`].
pub fn package_named(pkgs: &Vec<CratePkg>, name: &str) -> (r: Option<usize>)
    ensures
        match r {
            Some(k) => first_named(pkgs@, name@, 0) == Some(k as int) && k < pkgs.len(),
            None => first_named(pkgs@, name@, 0) is None,
        },
{
    let mut i: usize = 0;
    while i < pkgs.len()
        invariant
            i <= pkgs.len(),
            first_named(pkgs@, name@, i as int) == first_named(pkgs@, name@, 0),
        decreases pkgs.len() - i,
    {
        match &pkgs[i].name {
            Some(n) => {
                if str_eq(n.as_str(), name) {
                    return Some(i);
                }
            },
            None => {},
        }
        i = i + 1;
    }
    None
}

fn local_exec(pkgs: &Vec<CratePkg>, id: &str) -> (r: bool)
    ensures
        r == is_local(pkgs@, id@),
{
    let mut i: usize = 0;
    while i < pkgs.len()
        invariant
            i <= pkgs.len(),
            forall|k: int| 0 <= k < i ==> !(ostr(pkgs@[k].id) == Some(id@) && jv(pkgs@[k].source) == JsonV::Null),
        decreases pkgs.len() - i,
    {
        match &pkgs[i].id {
            Some(p) => {
                if str_eq(p.as_str(), id) {
                    match &pkgs[i].source {
                        Json::Null => {
                            return true;
                        },
                        _ => {},
                    }
                }
            },
            None => {},
        }
        i = i + 1;
    }
    false
}

fn manifest_exec(pkgs: &Vec<CratePkg>, id: &str) -> (r: Option<String>)
    ensures
        ostr(r) == manifest_before(pkgs@, id@, pkgs@.len() as int),
{
    let mut j: usize = pkgs.len();
    while j > 0
        invariant
            j <= pkgs.len(),
            manifest_before(pkgs@, id@, j as int) == manifest_before(pkgs@, id@, pkgs@.len() as int),
        decreases j,
    {
        match &pkgs[j - 1].id {
            Some(p) => {
                if str_eq(p.as_str(), id) {
                    match &pkgs[j - 1].manifest {
                        Some(d) => {
                            return Some(copy_str(d.as_str()));
                        },
                        None => {},
                    }
                }
            },
            None => {},
        }
        j = j - 1;
    }
    None
}

fn deps_exec(nodes: &Vec<CrateNode>, id: &str) -> (r: Vec<String>)
    ensures
        strs(r@) == deps_of(nodes@, id@),
{
    let mut j: usize = nodes.len();
    while j > 0
        invariant
            j <= nodes.len(),
            deps_before(nodes@, id@, j as int) == deps_of(nodes@, id@),
        decreases j,
    {
        match &nodes[j - 1].id {
            Some(p) => {
                if str_eq(p.as_str(), id) {
                    let src = &nodes[j - 1].dependencies;
                    let mut out: Vec<String> = Vec::new();
                    let mut k: usize = 0;
                    while k < src.len()
                        invariant
                            k <= src@.len(),
                            strs(out@) == strs(src@).take(k as int),
                        decreases src.len() - k,
                    {
                        let ghost before = out@;
                        let c = copy_str(src[k].as_str());
                        assert(c@ == strs(src@)[k as int]);
                        out.push(c);
                        assert(strs(out@) =~= strs(before).push(c@));
                        assert(strs(src@).take(k + 1) =~= strs(src@).take(k as int).push(strs(src@)[k as int]));
                        k = k + 1;
                    }
                    assert(strs(src@).take(src@.len() as int) =~= strs(src@));
                    return out;
                }
            },
            None => {},
        }
        j = j - 1;
    }
    let out: Vec<String> = Vec::new();
    assert(strs(out@) =~= Seq::<Seq<char>>::empty());
    out
}

fn seen_has(seen: &Vec<String>, x: &str) -> (r: bool)
    ensures
        r == strs(seen@).contains(x@),
{
    let mut i: usize = 0;
    while i < seen.len()
        invariant
            i <= seen@.len(),
            forall|k: int| 0 <= k < i ==> strs(seen@)[k] != x@,
        decreases seen.len() - i,
    {
        if str_eq(seen[i].as_str(), x) {
            assert(strs(seen@)[i as int] == x@);
            return true;
        }
        i = i + 1;
    }
    false
}

/// See [`crate_manifests`].
pub fn local_crate_manifests(pkgs: &Vec<CratePkg>, nodes: &Vec<CrateNode>, pkg: &str) -> (r: Vec<String>)
    ensures
        strs(r@) == crate_manifests(pkgs@, nodes@, pkg@),
{
    let i = match package_named(pkgs, pkg) {
        Some(i) => i,
        None => {
            let none: Vec<String> = Vec::new();
            assert(strs(none@) =~= Seq::<Seq<char>>::empty());
            return none;
        },
    };
    let root = match &pkgs[i].id {
        Some(r) => copy_str(r.as_str()),
        None => {
            let none: Vec<String> = Vec::new();
            assert(strs(none@) =~= Seq::<Seq<char>>::empty());
            return none;
        },
    };
    let ghost rv = root@;
    let ghost u = universe(nodes@, rv);
    proof {
        lemma_universe_covers(nodes@, rv);
        assert(u[0] == rv);
    }
    let ghost total = walk(nodes@, u, seq![rv], Seq::empty());
    let mut stack: Vec<String> = Vec::new();
    stack.push(root);
    let mut seen: Vec<String> = Vec::new();
    let mut manifests: Vec<String> = Vec::new();
    assert(strs(stack@) =~= seq![rv]);
    assert(strs(seen@) =~= Seq::<Seq<char>>::empty());
    assert(strs(manifests@) =~= Seq::<Seq<char>>::empty());
    assert(local_manifests(pkgs@, strs(seen@)) =~= Seq::<Seq<char>>::empty());
    while stack.len() > 0
        invariant
            u == universe(nodes@, rv),
            forall|id: Seq<char>, k: int|
                0 <= k < deps_of(nodes@, id).len() ==> u.contains(#[trigger] deps_of(nodes@, id)[k]),
            walk_ok(u, strs(stack@), strs(seen@)),
            total == strs(seen@) + walk(nodes@, u, strs(stack@), strs(seen@)),
            strs(manifests@) == local_manifests(pkgs@, strs(seen@)),
            total == walk(nodes@, universe(nodes@, rv), seq![rv], Seq::empty()),
        decreases u.len() - seen@.len(), stack@.len(),
    {
        let ghost sv = strs(stack@);
        let ghost dv = strs(seen@);
        proof {
            lemma_distinct_within(dv, u);
        }
        let x = stack.pop().unwrap();
        assert(strs(stack@) =~= sv.drop_last());
        assert(sv.last() == x@);
        if seen_has(&seen, x.as_str()) {
            assert(walk(nodes@, u, sv, dv) == walk(nodes@, u, sv.drop_last(), dv));
        } else {
            if local_exec(pkgs, x.as_str()) {
                match manifest_exec(pkgs, x.as_str()) {
                    Some(d) => {
                        let ghost before = manifests@;
                        manifests.push(d);
                        assert(strs(manifests@) =~= strs(before).push(d@));
                    },
                    None => {},
                }
            }
            let ds = deps_exec(nodes, x.as_str());
            let ghost xv = x@;
            seen.push(x);
            assert(strs(seen@) =~= dv.push(xv));
            assert(dv.push(xv).drop_last() =~= dv);
            assert(strs(manifests@) == local_manifests(pkgs@, strs(seen@)));
            let ghost base = strs(stack@);
            let mut k: usize = 0;
            while k < ds.len()
                invariant
                    k <= ds@.len(),
                    strs(stack@) == base + strs(ds@).take(k as int),
                decreases ds.len() - k,
            {
                let ghost before = stack@;
                let c = copy_str(ds[k].as_str());
                assert(c@ == strs(ds@)[k as int]);
                stack.push(c);
                assert(strs(stack@) =~= strs(before).push(c@));
                assert(strs(ds@).take(k + 1) =~= strs(ds@).take(k as int).push(strs(ds@)[k as int]));
                assert(strs(stack@) =~= base + strs(ds@).take(k + 1));
                k = k + 1;
            }
            assert(strs(ds@).take(ds@.len() as int) =~= strs(ds@));
            assert(walk(nodes@, u, sv, dv) == seq![xv] + walk(
                nodes@,
                u,
                sv.drop_last() + deps_of(nodes@, xv),
                dv.push(xv),
            ));
            assert(strs(seen@) + walk(nodes@, u, strs(stack@), strs(seen@)) =~= dv + walk(nodes@, u, sv, dv));
            assert forall|q: int| 0 <= q < strs(stack@).len() implies u.contains(#[trigger] strs(stack@)[q]) by {
                if q < base.len() {
                    assert(strs(stack@)[q] == sv[q]);
                } else {
                    assert(strs(stack@)[q] == deps_of(nodes@, xv)[q - base.len()]);
                }
            }
            assert(dv.push(xv).no_duplicates()) by {
                assert forall|a: int, b: int|
                    0 <= a < dv.push(xv).len() && 0 <= b < dv.push(xv).len() && a != b implies dv.push(xv)[a]
                    != dv.push(xv)[b] by {
                    if a < dv.len() && b < dv.len() {
                    } else if a < dv.len() {
                        assert(dv[a] == dv.push(xv)[a]);
                    } else {
                        assert(dv[b] == dv.push(xv)[b]);
                    }
                }
            }
            assert forall|q: int| 0 <= q < dv.push(xv).len() implies u.contains(#[trigger] dv.push(xv)[q]) by {
                if q < dv.len() {
                    assert(dv.push(xv)[q] == dv[q]);
                } else {
                    assert(sv[sv.len() - 1] == xv);
                }
            }
            proof {
                lemma_distinct_within(dv.push(xv), u);
            }
        }
    }
    assert(walk(nodes@, u, strs(stack@), strs(seen@)) =~= Seq::<Seq<char>>::empty());
    assert(total =~= strs(seen@));
    manifests
}

proof fn lemma_walk_fresh(nodes: Seq<CrateNode>, u: Seq<Seq<char>>, stack: Seq<Seq<char>>, seen: Seq<Seq<char>>)
    requires
        walk_ok(u, stack, seen),
        forall|id: Seq<char>, k: int| 0 <= k < deps_of(nodes, id).len() ==> u.contains(#[trigger] deps_of(nodes, id)[k]),
    ensures
        (seen + walk(nodes, u, stack, seen)).no_duplicates(),
    decreases u.len() - seen.len(), stack.len(),
{
    if stack.len() == 0 {
        assert(seen + walk(nodes, u, stack, seen) =~= seen);
    } else {
        let x = stack.last();
        let rest = stack.drop_last();
        if seen.contains(x) {
            assert(walk_ok(u, rest, seen)) by {
                assert forall|i: int| 0 <= i < rest.len() implies u.contains(#[trigger] rest[i]) by {
                    assert(rest[i] == stack[i]);
                }
            }
            lemma_walk_fresh(nodes, u, rest, seen);
        } else {
            let seen2 = seen.push(x);
            let stack2 = rest + deps_of(nodes, x);
            assert(u.contains(stack[stack.len() - 1]));
            assert(seen2.no_duplicates()) by {
                assert forall|a: int, b: int| 0 <= a < seen2.len() && 0 <= b < seen2.len() && a != b implies seen2[a]
                    != seen2[b] by {
                    if a < seen.len() && b < seen.len() {
                    } else if a < seen.len() {
                        assert(seen[a] == seen2[a]);
                    } else {
                        assert(seen[b] == seen2[b]);
                    }
                }
            }
            assert forall|i: int| 0 <= i < seen2.len() implies u.contains(#[trigger] seen2[i]) by {
                if i < seen.len() {
                    assert(seen2[i] == seen[i]);
                }
            }
            assert forall|i: int| 0 <= i < stack2.len() implies u.contains(#[trigger] stack2[i]) by {
                if i < rest.len() {
                    assert(stack2[i] == stack[i]);
                } else {
                    assert(stack2[i] == deps_of(nodes, x)[i - rest.len()]);
                }
            }
            lemma_distinct_within(seen2, u);
            lemma_walk_fresh(nodes, u, stack2, seen2);
            assert(walk(nodes, u, stack, seen) == seq![x] + walk(nodes, u, stack2, seen2));
            assert(seen + walk(nodes, u, stack, seen) =~= seen2 + walk(nodes, u, stack2, seen2));
        }
    }
}

/// The walk visits no id twice, and visits the package itself first.
pub proof fn law_walk_visits_each_id_once(nodes: Seq<CrateNode>, root: Seq<char>)
    ensures
        walk(nodes, universe(nodes, root), seq![root], Seq::empty()).no_duplicates(),
        walk(nodes, universe(nodes, root), seq![root], Seq::empty()).len() > 0,
        walk(nodes, universe(nodes, root), seq![root], Seq::empty())[0] == root,
{
    let u = universe(nodes, root);
    let e = Seq::<Seq<char>>::empty();
    assert(u[0] == root);
    assert(walk_ok(u, seq![root], e));
    lemma_universe_covers(nodes, root);
    lemma_walk_fresh(nodes, u, seq![root], e);
    assert(e + walk(nodes, u, seq![root], e) =~= walk(nodes, u, seq![root], e));
    assert(!e.contains(root));
    assert(walk(nodes, u, seq![root], e) == seq![root] + walk(
        nodes,
        u,
        seq![root].drop_last() + deps_of(nodes, root),
        e.push(root),
    ));
}

// ---------------------------------------------------------------- the cache's flags

/// The sidecar recording which flags produced a cached extraction:
/// `{"features": features or null, "private": private, "toolchain": toolchain}`.
pub open spec fn cache_meta_value(toolchain: Seq<char>, features: Option<Seq<char>>, private: bool) -> JsonV {
    JsonV::Obj(
        seq![
            ("features"@, match features {
                Some(f) => JsonV::Str(f),
                None => JsonV::Null,
            }),
            ("private"@, JsonV::Bool(private)),
            ("toolchain"@, JsonV::Str(toolchain)),
        ],
    )
}

/// An optional string slice as plain values.
pub open spec fn osv(o: Option<&str>) -> Option<Seq<char>> {
    match o {
        Some(s) => Some(s@),
        None => None,
    }
}

/// See [`cache_meta_value`].
pub fn cache_meta(toolchain: &str, features: Option<&str>, private: bool) -> (r: Json)
    ensures
        jv(r) == cache_meta_value(toolchain@, osv(features), private),
{
    let f = match features {
        Some(s) => Json::Str(copy_str(s)),
        None => Json::Null,
    };
    let ghost fj = jv(f);
    assert(fj == match osv(features) {
        Some(x) => JsonV::Str(x),
        None => JsonV::Null,
    });
    let mut v: Vec<(String, Json)> = Vec::new();
    v.push((copy_str("features"), f));
    v.push((copy_str("private"), Json::Bool(private)));
    v.push((copy_str("toolchain"), Json::Str(copy_str(toolchain))));
    proof {
        lemma_jv_members(v@);
    }
    assert(jv_members(v@) =~= seq![
        ("features"@, fj),
        ("private"@, JsonV::Bool(private)),
        ("toolchain"@, JsonV::Str(toolchain@)),
    ]);
    let r = Json::Obj(v);
    assert(jv(r) == JsonV::Obj(jv_members(v@)));
    let ghost expect = cache_meta_value(toolchain@, osv(features), private);
    proof {
        let ms = expect->Obj_0;
        assert(ms.len() == 3);
        assert(ms[0] == ("features"@, fj));
        assert(ms[1] == ("private"@, JsonV::Bool(private)));
        assert(ms[2] == ("toolchain"@, JsonV::Str(toolchain@)));
        assert(ms =~= jv_members(v@));
        assert(expect is Obj);
        assert(expect == JsonV::Obj(ms));
    }
    r
}

/// `value[k].as_bool()`.
pub open spec fn bool_at(j: JsonV, k: Seq<char>) -> Option<bool> {
    match at(j, k) {
        JsonV::Bool(b) => Some(b),
        _ => None,
    }
}

/// Whether a cached extraction can be reused: its sidecar records the
/// toolchain, features and visibility asked for now, the newest source it
/// covers is known, and that source is no newer than the extraction.
pub open spec fn cache_usable(
    meta: JsonV,
    toolchain: Seq<char>,
    features: Option<Seq<char>>,
    private: bool,
    json_mtime: Option<u128>,
    newest_source: Option<u128>,
) -> bool {
    &&& str_of(at(meta, "toolchain"@)) == Some(toolchain)
    &&& str_of(at(meta, "features"@)) == features
    &&& bool_at(meta, "private"@) == Some(private)
    &&& json_mtime is Some
    &&& newest_source is Some
    &&& newest_source->0 <= json_mtime->0
}

/// A cached extraction is reused only when its sidecar records exactly the
/// toolchain, features and visibility asked for now, and the newest source
/// it covers is known and no newer than it.
pub proof fn law_reuse_needs_the_recorded_flags(
    meta: JsonV,
    toolchain: Seq<char>,
    features: Option<Seq<char>>,
    private: bool,
    json_mtime: Option<u128>,
    newest_source: Option<u128>,
)
    requires
        cache_usable(meta, toolchain, features, private, json_mtime, newest_source),
    ensures
        at(meta, "toolchain"@) == JsonV::Str(toolchain),
        str_of(at(meta, "features"@)) == features,
        at(meta, "private"@) == JsonV::Bool(private),
        json_mtime is Some && newest_source is Some && newest_source->0 <= json_mtime->0,
{
}

/// A sidecar written for one set of flags lets a later call reuse the
/// extraction exactly when that call asks for the same toolchain, features
/// and visibility, and no covered source is newer.
pub proof fn law_a_sidecar_matches_only_its_own_flags(
    toolchain: Seq<char>,
    features: Option<Seq<char>>,
    private: bool,
    toolchain2: Seq<char>,
    features2: Option<Seq<char>>,
    private2: bool,
    json_mtime: u128,
    newest_source: u128,
)
    ensures
        cache_usable(
            cache_meta_value(toolchain, features, private),
            toolchain2,
            features2,
            private2,
            Some(json_mtime),
            Some(newest_source),
        ) <==> (toolchain == toolchain2 && features == features2 && private == private2 && newest_source
            <= json_mtime),
{
    reveal_strlit("features");
    reveal_strlit("private");
    reveal_strlit("toolchain");
    let m = cache_meta_value(toolchain, features, private);
    let ms = m->Obj_0;
    let fv = match features {
        Some(f) => JsonV::Str(f),
        None => JsonV::Null,
    };
    assert(ms[0].0 == "features"@ && ms[1].0 == "private"@ && ms[2].0 == "toolchain"@);
    assert("features"@ != "private"@ && "features"@ != "toolchain"@ && "private"@ != "toolchain"@);
    assert(member_from(ms, "toolchain"@, 3) is None);
    assert(member_from(ms, "toolchain"@, 2) == Some(JsonV::Str(toolchain)));
    assert(member_from(ms, "toolchain"@, 1) == Some(JsonV::Str(toolchain)));
    assert(member_from(ms, "toolchain"@, 0) == Some(JsonV::Str(toolchain)));
    assert(member_from(ms, "private"@, 1) == Some(JsonV::Bool(private)));
    assert(member_from(ms, "private"@, 0) == Some(JsonV::Bool(private)));
    assert(member_from(ms, "features"@, 0) == Some(fv));
    assert(at(m, "toolchain"@) == JsonV::Str(toolchain));
    assert(at(m, "private"@) == JsonV::Bool(private));
    assert(at(m, "features"@) == fv);
}

fn str_member<'a>(j: &'a Json, k: &str) -> (r: Option<&'a String>)
    ensures
        match r {
            Some(s) => str_of(at(jv(*j), k@)) == Some(s@),
            None => str_of(at(jv(*j), k@)) is None,
        },
{
    match crate::json::json_get(j, k) {
        Some(Json::Str(s)) => Some(s),
        _ => None,
    }
}

/// See [`cache_usable`]; the times are in nanoseconds since the epoch,
/// `None` where they could not be read.
pub fn cache_is_usable(
    meta: &Json,
    toolchain: &str,
    features: Option<&str>,
    private: bool,
    json_mtime: Option<u128>,
    newest_source: Option<u128>,
) -> (r: bool)
    ensures
        r == cache_usable(jv(*meta), toolchain@, osv(features), private, json_mtime, newest_source),
{
    let tool_ok = match str_member(meta, "toolchain") {
        Some(t) => str_eq(t.as_str(), toolchain),
        None => false,
    };
    let feat_ok = match (str_member(meta, "features"), features) {
        (Some(a), Some(b)) => str_eq(a.as_str(), b),
        (None, None) => true,
        _ => false,
    };
    let priv_ok = match crate::json::json_get(meta, "private") {
        Some(Json::Bool(b)) => *b == private,
        _ => false,
    };
    let fresh = match (json_mtime, newest_source) {
        (Some(j), Some(n)) => n <= j,
        _ => false,
    };
    tool_ok && feat_ok && priv_ok && fresh
}


/// Whether a cached extraction can be reused, given the text of its
/// sidecar: never when that text is not JSON, else as [`cache_usable`]
/// judges the parsed sidecar.
pub open spec fn sidecar_usable(
    meta_text: Seq<char>,
    toolchain: Seq<char>,
    features: Option<Seq<char>>,
    private: bool,
    json_mtime: Option<u128>,
    newest_source: Option<u128>,
) -> bool {
    match serde_parse(meta_text) {
        Some(meta) => cache_usable(meta, toolchain, features, private, json_mtime, newest_source),
        None => false,
    }
}

/// See [`sidecar_usable`]; the sidecar is read with serde_json.
pub fn cache_text_is_usable(
    meta_text: &str,
    toolchain: &str,
    features: Option<&str>,
    private: bool,
    json_mtime: Option<u128>,
    newest_source: Option<u128>,
) -> (r: bool)
    ensures
        r == sidecar_usable(meta_text@, toolchain@, osv(features), private, json_mtime, newest_source),
{
    match parse_json(meta_text) {
        Some(meta) => cache_is_usable(&meta, toolchain, features, private, json_mtime, newest_source),
        None => false,
    }
}

} // verus!
