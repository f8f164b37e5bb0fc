//! An OpenAPI document's reference page: its endpoints grouped by the
//! resource their path names, groups in key order, verbs in reading order.

use vstd::prelude::*;

use crate::json::{at, get, json_get, jv, jv_members, lemma_jv_members, str_of, Json, JsonV};
use crate::spec_html::{group_key, group_title, spec_group_key, spec_group_title};
use crate::spec_render::{
    components_at, components_of, gaps_notes, info_head, members_or_empty, op_row, operation_row_html, push_gaps_notes,
    push_info_head, push_servers, schemas_at, schemas_part, schemas_section, servers_part, str_at, members_at, Info,
};
use crate::spec_schema::{members_of, or_text};
use crate::text::{
    lemma_lex_transitive, chars_lt, chars_of, copy_str, decimal, decimal_string, lemma_lex_asymmetric, lemma_lex_irreflexive, lemma_lex_total,
    lex_lt, str_eq,
};
use crate::toml_lines::{ostr, strs};

verus! {

// ---------------------------------------------------------------- OpenAPI endpoints

/// Path-item verbs in the order a reader expects them, not alphabetical.
pub open spec fn verbs() -> Seq<Seq<char>> {
    seq!["get"@, "post"@, "put"@, "patch"@, "delete"@, "options"@, "head"@, "trace"@]
}

fn verb_at(i: usize) -> (r: &'static str)
    requires
        i < 8,
    ensures
        r@ == verbs()[i as int],
{
    if i == 0 {
        "get"
    } else if i == 1 {
        "post"
    } else if i == 2 {
        "put"
    } else if i == 3 {
        "patch"
    } else if i == 4 {
        "delete"
    } else if i == 5 {
        "options"
    } else if i == 6 {
        "head"
    } else {
        "trace"
    }
}

/// The operations of one path item, as (path, verb, operation), for each
/// of `vs` that the item has.
pub open spec fn item_ops(path: Seq<char>, item: JsonV, vs: Seq<Seq<char>>) -> Seq<(Seq<char>, Seq<char>, JsonV)>
    decreases vs.len(),
{
    if vs.len() == 0 {
        Seq::empty()
    } else {
        item_ops(path, item, vs.drop_last()) + match get(item, vs.last()) {
            Some(op) => seq![(path, vs.last(), op)],
            None => Seq::empty(),
        }
    }
}

/// Every operation of a document's paths, path by path, verbs in reading
/// order; a path item that is not an object has none.
pub open spec fn path_ops(ps: Seq<(Seq<char>, JsonV)>) -> Seq<(Seq<char>, Seq<char>, JsonV)>
    decreases ps.len(),
{
    if ps.len() == 0 {
        Seq::empty()
    } else {
        path_ops(ps.drop_last()) + match ps.last().1 {
            JsonV::Obj(_) => item_ops(ps.last().0, ps.last().1, verbs()),
            _ => Seq::empty(),
        }
    }
}

/// `ks` with `k` added where it sorts, unless it is there already — as a
/// `BTreeMap` keeps its keys.
pub open spec fn key_insert(ks: Seq<Seq<char>>, k: Seq<char>) -> Seq<Seq<char>>
    decreases ks.len(),
{
    if ks.len() == 0 {
        seq![k]
    } else if ks[0] == k {
        ks
    } else if lex_lt(k, ks[0]) {
        seq![k] + ks
    } else {
        seq![ks[0]] + key_insert(ks.drop_first(), k)
    }
}

/// The groups the operations fall in, in the order their keys sort.
pub open spec fn group_keys(ops: Seq<(Seq<char>, Seq<char>, JsonV)>) -> Seq<Seq<char>>
    decreases ops.len(),
{
    if ops.len() == 0 {
        Seq::empty()
    } else {
        key_insert(group_keys(ops.drop_last()), spec_group_key(ops.last().0))
    }
}

/// The operations whose path falls in group `k`, in order.
pub open spec fn ops_in(ops: Seq<(Seq<char>, Seq<char>, JsonV)>, k: Seq<char>) -> Seq<(Seq<char>, Seq<char>, JsonV)>
    decreases ops.len(),
{
    if ops.len() == 0 {
        Seq::empty()
    } else {
        ops_in(ops.drop_last(), k) + if spec_group_key(ops.last().0) == k {
            seq![ops.last()]
        } else {
            Seq::empty()
        }
    }
}

/// A row per operation, ids handed out in order.
pub open spec fn op_rows(
    ops: Seq<(Seq<char>, Seq<char>, JsonV)>,
    servers: Seq<Seq<char>>,
    defs: Seq<(Seq<char>, JsonV)>,
    id: u32,
) -> (Seq<char>, u32)
    decreases ops.len(),
{
    if ops.len() == 0 {
        (Seq::empty(), id)
    } else {
        let prev = op_rows(ops.drop_last(), servers, defs, id);
        let r = op_row(ops.last().1, ops.last().0, ops.last().2, servers, defs, prev.1);
        (prev.0 + r.0, r.1)
    }
}

/// One group's heading and rows.
pub open spec fn group_section(
    k: Seq<char>,
    ops: Seq<(Seq<char>, Seq<char>, JsonV)>,
    servers: Seq<Seq<char>>,
    defs: Seq<(Seq<char>, JsonV)>,
    id: u32,
) -> (Seq<char>, u32) {
    let g = ops_in(ops, k);
    let rows = op_rows(g, servers, defs, id);
    (
        "\n### "@ + spec_group_title(k) + " <sup>"@ + decimal(g.len()) + " endpoint(s)</sup>\n\n<div class=\"spec-rowlist\">"@
            + rows.0 + "</div>\n"@,
        rows.1,
    )
}

/// The sections of the groups `keys`, in order.
pub open spec fn group_sections(
    keys: Seq<Seq<char>>,
    ops: Seq<(Seq<char>, Seq<char>, JsonV)>,
    servers: Seq<Seq<char>>,
    defs: Seq<(Seq<char>, JsonV)>,
    id: u32,
) -> (Seq<char>, u32)
    decreases keys.len(),
{
    if keys.len() == 0 {
        (Seq::empty(), id)
    } else {
        let prev = group_sections(keys.drop_last(), ops, servers, defs, id);
        let g = group_section(keys.last(), ops, servers, defs, prev.1);
        (prev.0 + g.0, g.1)
    }
}


proof fn lemma_key_insert_at(ks: Seq<Seq<char>>, k: Seq<char>, i: int)
    requires
        0 <= i <= ks.len(),
        forall|j: int| 0 <= j < i ==> lex_lt(#[trigger] ks[j], k),
        i < ks.len() ==> !lex_lt(ks[i], k),
    ensures
        key_insert(ks, k) == if i < ks.len() && ks[i] == k {
            ks
        } else {
            ks.take(i) + seq![k] + ks.skip(i)
        },
    decreases i,
{
    if i == 0 {
        if ks.len() > 0 && ks[0] != k {
            lemma_lex_total(ks[0], k);
        }
        assert(ks.take(0) =~= Seq::<Seq<char>>::empty());
        assert(ks.skip(0) =~= ks);
    } else {
        lemma_lex_irreflexive(k);
        assert(lex_lt(ks[0], k));
        lemma_lex_asymmetric(ks[0], k);
        let rest = ks.drop_first();
        assert forall|j: int| 0 <= j < i - 1 implies lex_lt(#[trigger] rest[j], k) by {
            assert(rest[j] == ks[j + 1]);
        }
        lemma_key_insert_at(rest, k, i - 1);
        if i < ks.len() && ks[i] == k {
            assert(seq![ks[0]] + rest =~= ks);
        } else {
            assert(ks.take(i) + seq![k] + ks.skip(i) =~= seq![ks[0]] + (rest.take(i - 1) + seq![k] + rest.skip(
                i - 1,
            )));
        }
    }
}

/// Adds `k` to the sorted keys `ks`; see [`key_insert`].
fn insert_key(ks: &mut Vec<String>, k: String)
    ensures
        strs(final(ks)@) == key_insert(strs(old(ks)@), k@),
{
    let ghost k0 = strs(ks@);
    let kc = chars_of(k.as_str());
    let mut i: usize = 0;
    while i < ks.len() && chars_lt(&chars_of(ks[i].as_str()), &kc)
        invariant
            i <= ks@.len(),
            kc@ == k@,
            k0 == strs(ks@),
            forall|j: int| 0 <= j < i ==> lex_lt(#[trigger] k0[j], k@),
        decreases ks.len() - i,
    {
        i = i + 1;
    }
    proof {
        lemma_key_insert_at(k0, k@, i as int);
    }
    let ghost kv = k@;
    if i < ks.len() && str_eq(ks[i].as_str(), k.as_str()) {
    } else {
        ks.insert(i, k);
        assert(strs(ks@) =~= k0.take(i as int) + seq![kv] + k0.skip(i as int));
    }
}

/// The operations `ops` names by (path index, verb index), as values.
spec fn ops_view(pv: Seq<(Seq<char>, JsonV)>, ops: Seq<(usize, usize)>) -> Seq<(Seq<char>, Seq<char>, JsonV)> {
    ops.map_values(
        |o: (usize, usize)| (pv[o.0 as int].0, verbs()[o.1 as int], at(pv[o.0 as int].1, verbs()[o.1 as int])),
    )
}

fn collect_ops(ps: &Vec<(String, Json)>) -> (ops: Vec<(usize, usize)>)
    ensures
        forall|x: int| 0 <= x < ops@.len() ==> #[trigger] ops@[x].0 < ps@.len() && ops@[x].1 < 8,
        ops_view(jv_members(ps@), ops@) == path_ops(jv_members(ps@)),
{
    proof {
        lemma_jv_members(ps@);
    }
    let ghost pv = jv_members(ps@);
    let mut ops: Vec<(usize, usize)> = Vec::new();
    let mut i: usize = 0;
    while i < ps.len()
        invariant
            i <= ps@.len(),
            pv == jv_members(ps@),
            pv.len() == ps@.len(),
            forall|x: int| 0 <= x < ps@.len() ==> #[trigger] pv[x] == (ps@[x].0@, jv(ps@[x].1)),
            forall|x: int| 0 <= x < ops@.len() ==> #[trigger] ops@[x].0 < ps@.len() && ops@[x].1 < 8,
            ops_view(pv, ops@) == path_ops(pv.take(i as int)),
        decreases ps.len() - i,
    {
        assert(pv.take(i + 1).drop_last() =~= pv.take(i as int));
        assert(pv.take(i + 1).last() == pv[i as int]);
        let ghost base = ops_view(pv, ops@);
        match &ps[i].1 {
            Json::Obj(_) => {
                let mut j: usize = 0;
                while j < 8
                    invariant
                        i < ps@.len(),
                        j <= 8,
                        pv == jv_members(ps@),
                        pv.len() == ps@.len(),
                        pv[i as int] == (ps@[i as int].0@, jv(ps@[i as int].1)),
                        forall|x: int| 0 <= x < ops@.len() ==> #[trigger] ops@[x].0 < ps@.len() && ops@[x].1 < 8,
                        ops_view(pv, ops@) == base + item_ops(pv[i as int].0, pv[i as int].1, verbs().take(j as int)),
                    decreases 8 - j,
                {
                    let verb = verb_at(j);
                    assert(verbs().take(j + 1).drop_last() =~= verbs().take(j as int));
                    assert(verbs().take(j + 1).last() == verbs()[j as int]);
                    match json_get(&ps[i].1, verb) {
                        Some(_) => {
                            let ghost before = ops@;
                            ops.push((i, j));
                            assert(ops_view(pv, ops@) =~= ops_view(pv, before).push(
                                (pv[i as int].0, verbs()[j as int], at(pv[i as int].1, verbs()[j as int])),
                            ));
                        },
                        None => {},
                    }
                    j = j + 1;
                }
                assert(verbs().take(8) =~= verbs());
            },
            _ => {},
        }
        i = i + 1;
    }
    assert(pv.take(ps@.len() as int) =~= pv);
    ops
}

fn collect_keys(ps: &Vec<(String, Json)>, ops: &Vec<(usize, usize)>) -> (ks: Vec<String>)
    requires
        forall|x: int| 0 <= x < ops@.len() ==> #[trigger] ops@[x].0 < ps@.len() && ops@[x].1 < 8,
    ensures
        strs(ks@) == group_keys(ops_view(jv_members(ps@), ops@)),
{
    proof {
        lemma_jv_members(ps@);
    }
    let ghost pv = jv_members(ps@);
    let ghost ov = ops_view(pv, ops@);
    let mut ks: Vec<String> = Vec::new();
    assert(strs(ks@) =~= Seq::<Seq<char>>::empty());
    let mut m: usize = 0;
    while m < ops.len()
        invariant
            m <= ops@.len(),
            pv == jv_members(ps@),
            pv.len() == ps@.len(),
            forall|x: int| 0 <= x < ps@.len() ==> #[trigger] pv[x] == (ps@[x].0@, jv(ps@[x].1)),
            forall|x: int| 0 <= x < ops@.len() ==> #[trigger] ops@[x].0 < ps@.len() && ops@[x].1 < 8,
            ov == ops_view(pv, ops@),
            strs(ks@) == group_keys(ov.take(m as int)),
        decreases ops.len() - m,
    {
        assert(ov.take(m + 1).drop_last() =~= ov.take(m as int));
        assert(ov.take(m + 1).last() == ov[m as int]);
        let pi = ops[m].0;
        assert(ov[m as int].0 == ps@[pi as int].0@);
        insert_key(&mut ks, group_key(ps[pi].0.as_str()));
        m = m + 1;
    }
    assert(ov.take(ops@.len() as int) =~= ov);
    ks
}

fn group_html(
    k: &str,
    ps: &Vec<(String, Json)>,
    ops: &Vec<(usize, usize)>,
    servers: &Vec<String>,
    defs: &Vec<(String, Json)>,
    id: &mut u32,
) -> (r: String)
    requires
        forall|x: int| 0 <= x < ops@.len() ==> #[trigger] ops@[x].0 < ps@.len() && ops@[x].1 < 8,
    ensures
        r@ == group_section(
            k@,
            ops_view(jv_members(ps@), ops@),
            strs(servers@),
            jv_members(defs@),
            *old(id),
        ).0,
        *final(id) == group_section(
            k@,
            ops_view(jv_members(ps@), ops@),
            strs(servers@),
            jv_members(defs@),
            *old(id),
        ).1,
{
    proof {
        lemma_jv_members(ps@);
        reveal_strlit("");
    }
    let ghost pv = jv_members(ps@);
    let ghost ov = ops_view(pv, ops@);
    let ghost sv = strs(servers@);
    let ghost dv = jv_members(defs@);
    let ghost id0 = *id;
    assert(sv =~= servers@.map_values(|x: String| x@));
    let null = Json::Null;
    let mut rows = copy_str("");
    let mut n: usize = 0;
    let mut j: usize = 0;
    while j < ops.len()
        invariant
            j <= ops@.len(),
            n <= j,
            pv == jv_members(ps@),
            pv.len() == ps@.len(),
            forall|x: int| 0 <= x < ps@.len() ==> #[trigger] pv[x] == (ps@[x].0@, jv(ps@[x].1)),
            forall|x: int| 0 <= x < ops@.len() ==> #[trigger] ops@[x].0 < ps@.len() && ops@[x].1 < 8,
            ov == ops_view(pv, ops@),
            sv == servers@.map_values(|x: String| x@),
            dv == jv_members(defs@),
            null == Json::Null,
            n == ops_in(ov.take(j as int), k@).len(),
            rows@ == op_rows(ops_in(ov.take(j as int), k@), sv, dv, id0).0,
            *id == op_rows(ops_in(ov.take(j as int), k@), sv, dv, id0).1,
        decreases ops.len() - j,
    {
        assert(ov.take(j + 1).drop_last() =~= ov.take(j as int));
        assert(ov.take(j + 1).last() == ov[j as int]);
        let pi = ops[j].0;
        let vi = ops[j].1;
        let path = ps[pi].0.as_str();
        assert(ov[j as int].0 == path@);
        if str_eq(group_key(path).as_str(), k) {
            let verb = verb_at(vi);
            let op: &Json = match json_get(&ps[pi].1, verb) {
                Some(o) => o,
                None => &null,
            };
            assert(ov[j as int] == (path@, verb@, jv(*op)));
            let ghost g = ops_in(ov.take(j as int), k@);
            assert(ops_in(ov.take(j + 1), k@) == g.push(ov[j as int]));
            assert(g.push(ov[j as int]).drop_last() =~= g);
            rows.append(operation_row_html(verb, path, op, servers, defs, id).as_str());
            n = n + 1;
        }
        j = j + 1;
    }
    assert(ov.take(ops@.len() as int) =~= ov);
    let mut out = copy_str("\n### ");
    out.append(group_title(k).as_str());
    out.append(" <sup>");
    out.append(decimal_string(n as u64).as_str());
    out.append(" endpoint(s)</sup>\n\n<div class=\"spec-rowlist\">");
    out.append(rows.as_str());
    out.append("</div>\n");
    out
}

/// The endpoints part of an OpenAPI page: the count line, then each
/// group's section; also gives the next tab id.
pub open spec fn endpoints_part(
    ps: Seq<(Seq<char>, JsonV)>,
    servers: Seq<Seq<char>>,
    defs: Seq<(Seq<char>, JsonV)>,
    id: u32,
) -> (Seq<char>, u32) {
    let ops = path_ops(ps);
    let keys = group_keys(ops);
    let g = group_sections(keys, ops, servers, defs, id);
    (
        "\n## Endpoints <sup>"@ + decimal(ops.len()) + " endpoint(s), "@ + decimal(keys.len()) + " group(s)</sup>\n"@
            + g.0,
        g.1,
    )
}

/// An OpenAPI document's page: its head, servers, gaps and notes, the
/// endpoints grouped by resource (groups in key order, each with its
/// operations path by path, verbs in reading order), then its schemas;
/// also gives the next tab id.
pub open spec fn openapi_page(
    spec_file: Seq<char>,
    title: Seq<char>,
    version: Seq<char>,
    description: Option<Seq<char>>,
    servers: Seq<Seq<char>>,
    value: JsonV,
    gaps: Seq<Seq<char>>,
    notes: Seq<Seq<char>>,
    id: u32,
) -> (Seq<char>, u32) {
    let e = endpoints_part(members_or_empty(members_of(get(value, "paths"@))), servers, components_of(value), id);
    (
        info_head(title, version, description, spec_file, "OpenAPI "@ + or_text(str_of(at(value, "openapi"@)), "3.1.0"@))
            + servers_part(servers) + gaps_notes(gaps, notes) + e.0 + schemas_part(
            at(at(value, "components"@), "schemas"@),
        ),
        e.1,
    )
}

fn push_endpoints(
    out: &mut String,
    ps: &Vec<(String, Json)>,
    servers: &Vec<String>,
    defs: &Vec<(String, Json)>,
    id: &mut u32,
)
    ensures
        final(out)@ == old(out)@ + endpoints_part(jv_members(ps@), strs(servers@), jv_members(defs@), *old(id)).0,
        *final(id) == endpoints_part(jv_members(ps@), strs(servers@), jv_members(defs@), *old(id)).1,
{
    let ghost start = out@;
    let ghost id0 = *id;
    let ghost pv = jv_members(ps@);
    let ghost sv = strs(servers@);
    let ghost dv = jv_members(defs@);
    let ops = collect_ops(ps);
    let keys = collect_keys(ps, &ops);
    let ghost ov = ops_view(pv, ops@);
    let ghost kv = strs(keys@);
    out.append("\n## Endpoints <sup>");
    out.append(decimal_string(ops.len() as u64).as_str());
    out.append(" endpoint(s), ");
    out.append(decimal_string(keys.len() as u64).as_str());
    out.append(" group(s)</sup>\n");
    let ghost head = out@;
    assert(ov.len() == ops@.len());
    assert(kv.len() == keys@.len());
    let mut m: usize = 0;
    while m < keys.len()
        invariant
            m <= keys@.len(),
            forall|x: int| 0 <= x < ops@.len() ==> #[trigger] ops@[x].0 < ps@.len() && ops@[x].1 < 8,
            pv == jv_members(ps@),
            ov == ops_view(pv, ops@),
            kv == strs(keys@),
            sv == strs(servers@),
            dv == jv_members(defs@),
            out@ == head + group_sections(kv.take(m as int), ov, sv, dv, id0).0,
            *id == group_sections(kv.take(m as int), ov, sv, dv, id0).1,
        decreases keys.len() - m,
    {
        assert(kv.take(m + 1).drop_last() =~= kv.take(m as int));
        assert(kv.take(m + 1).last() == keys@[m as int]@);
        let g = group_html(keys[m].as_str(), ps, &ops, servers, defs, id);
        out.append(g.as_str());
        m = m + 1;
    }
    assert(kv.take(keys@.len() as int) =~= kv);
    assert(out@ =~= start + endpoints_part(pv, sv, dv, id0).0);
}

/// See [`openapi_page`]; `id` is the next tab id, and is moved on past the
/// ids used.
pub fn render_openapi(
    spec_file: &str,
    info: &Info,
    value: &Json,
    gaps: &[String],
    notes: &[String],
    id: &mut u32,
) -> (r: String)
    ensures
        r@ == openapi_page(
            spec_file@,
            info.title@,
            info.version@,
            ostr(info.description),
            strs(info.servers@),
            jv(*value),
            strs(gaps@),
            strs(notes@),
            *old(id),
        ).0,
        *final(id) == openapi_page(
            spec_file@,
            info.title@,
            info.version@,
            ostr(info.description),
            strs(info.servers@),
            jv(*value),
            strs(gaps@),
            strs(notes@),
            *old(id),
        ).1,
{
    proof {
        reveal_strlit("");
    }
    let ghost id0 = *id;
    let mut label = copy_str("OpenAPI ");
    match str_at(value, "openapi") {
        Some(v) => label.append(v.as_str()),
        None => label.append("3.1.0"),
    }
    let mut out = copy_str("");
    push_info_head(&mut out, info, spec_file, label.as_str());
    push_servers(&mut out, &info.servers);
    push_gaps_notes(&mut out, gaps, notes);
    let empty: Vec<(String, Json)> = Vec::new();
    assert(jv_members(empty@) =~= Seq::<(Seq<char>, JsonV)>::empty());
    let ps: &Vec<(String, Json)> = match members_at(value, "paths") {
        Some(m) => m,
        None => &empty,
    };
    let comps = components_at(value, &empty);
    let ghost head = out@;
    assert(head =~= info_head(
        info.title@,
        info.version@,
        ostr(info.description),
        spec_file@,
        "OpenAPI "@ + or_text(str_of(at(jv(*value), "openapi"@)), "3.1.0"@),
    ) + servers_part(strs(info.servers@)) + gaps_notes(strs(gaps@), strs(notes@)));
    push_endpoints(&mut out, ps, &info.servers, comps, id);
    let null = Json::Null;
    out.append(schemas_section(schemas_at(value, &null)).as_str());
    out
}

// ---------------------------------------------------------------- groups

/// Keys in strictly increasing order, so none repeats.
pub open spec fn keys_sorted(ks: Seq<Seq<char>>) -> bool {
    forall|i: int, j: int| 0 <= i < j < ks.len() ==> lex_lt(ks[i], ks[j])
}

proof fn lemma_key_insert(ks: Seq<Seq<char>>, k: Seq<char>)
    requires
        keys_sorted(ks),
    ensures
        keys_sorted(key_insert(ks, k)),
        forall|x: Seq<char>| #[trigger] key_insert(ks, k).contains(x) <==> (ks.contains(x) || x == k),
    decreases ks.len(),
{
    if ks.len() == 0 {
        assert(key_insert(ks, k) =~= seq![k]);
        assert(seq![k][0] == k);
    } else if ks[0] == k {
    } else if lex_lt(k, ks[0]) {
        let r = seq![k] + ks;
        assert(key_insert(ks, k) == r);
        assert forall|i: int, j: int| 0 <= i < j < r.len() implies lex_lt(r[i], r[j]) by {
            if i == 0 && j > 1 {
                lemma_lex_transitive(k, ks[0], ks[j - 1]);
            }
        }
        assert forall|x: Seq<char>| r.contains(x) <==> (ks.contains(x) || x == k) by {
            if r.contains(x) {
                let i = choose|i: int| 0 <= i < r.len() && r[i] == x;
                if i > 0 {
                    assert(ks[i - 1] == x);
                }
            }
            if ks.contains(x) {
                let i = choose|i: int| 0 <= i < ks.len() && ks[i] == x;
                assert(r[i + 1] == x);
            }
            if x == k {
                assert(r[0] == x);
            }
        }
    } else {
        lemma_lex_total(k, ks[0]);
        assert(lex_lt(ks[0], k));
        let rest = ks.drop_first();
        assert forall|i: int, j: int| 0 <= i < j < rest.len() implies lex_lt(rest[i], rest[j]) by {
            assert(rest[i] == ks[i + 1] && rest[j] == ks[j + 1]);
        }
        lemma_key_insert(rest, k);
        let sub = key_insert(rest, k);
        let r = seq![ks[0]] + sub;
        assert(key_insert(ks, k) == r);
        assert forall|i: int, j: int| 0 <= i < j < r.len() implies lex_lt(r[i], r[j]) by {
            let x = r[j];
            assert(sub[j - 1] == x);
            if i == 0 {
                assert(sub.contains(x));
                if x != k {
                    assert(rest.contains(x));
                    let q = choose|q: int| 0 <= q < rest.len() && rest[q] == x;
                    assert(ks[q + 1] == x);
                }
            } else {
                assert(sub[i - 1] == r[i]);
            }
        }
        assert forall|x: Seq<char>| r.contains(x) <==> (ks.contains(x) || x == k) by {
            if r.contains(x) {
                let i = choose|i: int| 0 <= i < r.len() && r[i] == x;
                if i > 0 {
                    assert(sub[i - 1] == x);
                    assert(sub.contains(x));
                    if x != k {
                        assert(rest.contains(x));
                        let q = choose|q: int| 0 <= q < rest.len() && rest[q] == x;
                        assert(ks[q + 1] == x);
                    }
                } else {
                    assert(ks[0] == x);
                }
            }
            if ks.contains(x) || x == k {
                if x == ks[0] {
                    assert(r[0] == x);
                } else {
                    if x != k {
                        let i = choose|i: int| 0 <= i < ks.len() && ks[i] == x;
                        assert(rest[i - 1] == x);
                        assert(rest.contains(x));
                    }
                    assert(sub.contains(x));
                    let q = choose|q: int| 0 <= q < sub.len() && sub[q] == x;
                    assert(r[q + 1] == x);
                }
            }
        }
    }
}

proof fn lemma_group_keys(ops: Seq<(Seq<char>, Seq<char>, JsonV)>)
    ensures
        keys_sorted(group_keys(ops)),
        forall|k: Seq<char>|
            group_keys(ops).contains(k) <==> exists|i: int| 0 <= i < ops.len() && spec_group_key(ops[i].0) == k,
    decreases ops.len(),
{
    if ops.len() > 0 {
        let prev = ops.drop_last();
        lemma_group_keys(prev);
        lemma_key_insert(group_keys(prev), spec_group_key(ops.last().0));
        assert forall|k: Seq<char>|
            group_keys(ops).contains(k) <==> exists|i: int| 0 <= i < ops.len() && spec_group_key(ops[i].0) == k by {
            if group_keys(prev).contains(k) {
                let i = choose|i: int| 0 <= i < prev.len() && spec_group_key(prev[i].0) == k;
                assert(ops[i] == prev[i]);
            }
            if exists|i: int| 0 <= i < ops.len() && spec_group_key(ops[i].0) == k {
                let i = choose|i: int| 0 <= i < ops.len() && spec_group_key(ops[i].0) == k;
                if i < ops.len() - 1 {
                    assert(prev[i] == ops[i]);
                }
            }
        }
    }
}

proof fn lemma_ops_in(ops: Seq<(Seq<char>, Seq<char>, JsonV)>, k: Seq<char>)
    ensures
        forall|x: (Seq<char>, Seq<char>, JsonV)|
            ops_in(ops, k).contains(x) <==> (ops.contains(x) && spec_group_key(x.0) == k),
    decreases ops.len(),
{
    if ops.len() > 0 {
        let prev = ops.drop_last();
        lemma_ops_in(prev, k);
        let g = ops_in(prev, k);
        let last = ops[ops.len() - 1];
        assert(ops.last() == last);
        let tail = if spec_group_key(last.0) == k {
            seq![last]
        } else {
            Seq::empty()
        };
        let all = g + tail;
        assert(ops_in(ops, k) == all);
        assert forall|x: (Seq<char>, Seq<char>, JsonV)|
            all.contains(x) <==> (ops.contains(x) && spec_group_key(x.0) == k) by {
            if all.contains(x) {
                let i = choose|i: int| 0 <= i < all.len() && all[i] == x;
                if i < g.len() {
                    assert(g[i] == x);
                    assert(g.contains(x));
                    assert(prev.contains(x));
                    let q = choose|q: int| 0 <= q < prev.len() && prev[q] == x;
                    assert(ops[q] == x);
                } else {
                    assert(tail[i - g.len()] == x);
                    assert(ops[ops.len() - 1] == x);
                }
            }
            if ops.contains(x) && spec_group_key(x.0) == k {
                let i = choose|i: int| 0 <= i < ops.len() && ops[i] == x;
                if i < ops.len() - 1 {
                    assert(prev[i] == x);
                    assert(prev.contains(x));
                    assert(g.contains(x));
                    let q = choose|q: int| 0 <= q < g.len() && g[q] == x;
                    assert(all[q] == x);
                } else {
                    assert(x == last);
                    assert(all[g.len() as int] == x);
                }
            }
        }
    }
}

/// Every endpoint of an OpenAPI page is listed under exactly one group:
/// the group keys come in strictly increasing order (so none repeats), a
/// key heads a group exactly when some endpoint's path falls in it, and a
/// group holds exactly the endpoints whose path falls in it.
pub proof fn law_groups_partition_endpoints(ps: Seq<(Seq<char>, JsonV)>)
    ensures
        keys_sorted(group_keys(path_ops(ps))),
        forall|k: Seq<char>|
            group_keys(path_ops(ps)).contains(k) <==> exists|i: int|
                0 <= i < path_ops(ps).len() && spec_group_key(path_ops(ps)[i].0) == k,
        forall|k: Seq<char>, x: (Seq<char>, Seq<char>, JsonV)|
            ops_in(path_ops(ps), k).contains(x) <==> (path_ops(ps).contains(x) && spec_group_key(x.0) == k),
{
    lemma_group_keys(path_ops(ps));
    assert forall|k: Seq<char>, x: (Seq<char>, Seq<char>, JsonV)|
        ops_in(path_ops(ps), k).contains(x) <==> (path_ops(ps).contains(x) && spec_group_key(x.0) == k) by {
        lemma_ops_in(path_ops(ps), k);
    }
}

} // verus!
