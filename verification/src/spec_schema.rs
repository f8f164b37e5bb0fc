//! JSON Schema as the API reference pages show it: the short type of a
//! schema fragment, the one-line hint beside a collapsed schema, and the
//! plain text of a value typed into a form.
//!
//! Request, response and tool schemas are all draft 2020-12 JSON Schema
//! underneath, so the three dialects share these.

use vstd::prelude::*;

use crate::invoke::opt_view;
use crate::json::{
    at, copy_json, get, json_get, jv, jv_items, jv_members, str_of, lemma_get_smaller, lemma_jv_items, lemma_jv_members,
    member_from, member_get, obj_insert, obj_put, serde_pretty, serde_text, to_pretty, to_text, Json, JsonV,
};
use crate::runcache::{join_sep, join_strs};
use crate::spec_html::after_last_slash;
use crate::text::{
    chars_of, copy_str, decimal, decimal_string, escape, escaped, rfind_char, slice_chars, str_eq, string_of,
};

verus! {

/// The name a `$ref` points at: what follows its last `/`.
pub open spec fn ref_name(schema: JsonV) -> Option<Seq<char>> {
    match get(schema, "$ref"@) {
        Some(JsonV::Str(r)) => Some(after_last_slash(r)),
        _ => None,
    }
}

/// See [`ref_name`].
pub fn ref_name_of(schema: &Json) -> (r: Option<String>)
    ensures
        opt_view(r) == ref_name(jv(*schema)),
{
    match json_get(schema, "$ref") {
        Some(Json::Str(r)) => {
            let v = chars_of(r.as_str());
            let tail = match rfind_char(&v, '/') {
                Some(i) => slice_chars(&v, i + 1, v.len()),
                None => slice_chars(&v, 0, v.len()),
            };
            assert(tail@ == after_last_slash(v@)) by {
                if crate::text::last_index_of(v@, '/', v@.len() as int) is None {
                    assert(v@.subrange(0, v@.len() as int) =~= v@);
                }
            }
            Some(string_of(tail.as_slice()))
        },
        _ => None,
    }
}

/// The schema a `$ref` points at among `defs`, when `schema` is one.
pub open spec fn resolved(schema: JsonV, defs: Seq<(Seq<char>, JsonV)>) -> Option<JsonV> {
    match ref_name(schema) {
        Some(n) => member_from(defs, n, 0),
        None => None,
    }
}

/// See [`resolved`].
pub fn resolve_ref<'a>(schema: &Json, defs: &'a Vec<(String, Json)>) -> (r: Option<&'a Json>)
    ensures
        match r {
            Some(x) => resolved(jv(*schema), jv_members(defs@)) == Some(jv(*x)),
            None => resolved(jv(*schema), jv_members(defs@)) is None,
        },
{
    match ref_name_of(schema) {
        Some(n) => member_get(defs, n.as_str()),
        None => None,
    }
}

/// A value as a caller would type it: a string as it is, nothing for null,
/// the JSON text of anything else.
pub open spec fn plain(v: JsonV) -> Seq<char> {
    match v {
        JsonV::Str(s) => s,
        JsonV::Null => Seq::empty(),
        _ => serde_text(v),
    }
}

/// See [`plain`].
pub fn json_plain(v: &Json) -> (r: String)
    ensures
        r@ == plain(jv(*v)),
{
    match v {
        Json::Str(s) => copy_str(s.as_str()),
        Json::Null => {
            proof {
                reveal_strlit("");
            }
            let e = copy_str("");
            assert(e@ =~= Seq::<char>::empty());
            e
        },
        _ => to_text(v),
    }
}


/// `oneOf`, or failing that `anyOf`, when the schema has either.
pub open spec fn alternatives(s: JsonV) -> Option<JsonV> {
    match get(s, "oneOf"@) {
        Some(x) => Some(x),
        None => get(s, "anyOf"@),
    }
}

/// The string entries of a `type` array, in order.
pub open spec fn strings_in(ts: Seq<JsonV>) -> Seq<Seq<char>>
    decreases ts.len(),
{
    if ts.len() == 0 {
        Seq::empty()
    } else {
        match ts.last() {
            JsonV::Str(t) => strings_in(ts.drop_last()).push(t),
            _ => strings_in(ts.drop_last()),
        }
    }
}

/// The named type of a schema: its `type` (a union for a `type` array),
/// else `object` when it has properties, else `any`.
pub open spec fn type_base(s: JsonV) -> Seq<char> {
    match get(s, "type"@) {
        Some(JsonV::Str(t)) => t,
        Some(JsonV::Arr(ts)) => join_sep(strings_in(ts), " | "@),
        _ => if get(s, "properties"@) is Some {
            "object"@
        } else {
            "any"@
        },
    }
}

/// A short type description for a schema fragment: the name a `$ref`
/// points at, a union (`|`) of `oneOf`/`anyOf` members, an intersection
/// (`&`) of `allOf` members, a `const`'s literal, or its type, with
/// `items[]` for an array.
pub open spec fn type_str(s: JsonV) -> Seq<char>
    decreases s,
{
    match ref_name(s) {
        Some(n) => n,
        None => match alternatives(s) {
            Some(JsonV::Arr(vs)) => {
                proof {
                    if get(s, "oneOf"@) is Some {
                        lemma_get_smaller(s, "oneOf"@);
                    } else {
                        lemma_get_smaller(s, "anyOf"@);
                    }
                    let a = alternatives(s)->0;
                    assert(decreases_to!(a => a->Arr_0));
                }
                join_sep(type_strs(vs), " | "@)
            },
            _ => match get(s, "allOf"@) {
                Some(JsonV::Arr(vs)) => {
                    proof {
                        lemma_get_smaller(s, "allOf"@);
                        let a = get(s, "allOf"@)->0;
                        assert(decreases_to!(a => a->Arr_0));
                    }
                    join_sep(type_strs(vs), " & "@)
                },
                _ => match get(s, "const"@) {
                    Some(c) => serde_text(c),
                    None => if type_base(s) == "array"@ {
                        match get(s, "items"@) {
                            Some(i) => {
                                proof {
                                    lemma_get_smaller(s, "items"@);
                                }
                                type_str(i) + "[]"@
                            },
                            None => "any[]"@,
                        }
                    } else {
                        type_base(s)
                    },
                },
            },
        },
    }
}

pub open spec fn type_strs(vs: Seq<JsonV>) -> Seq<Seq<char>>
    decreases vs,
{
    if vs.len() == 0 {
        Seq::empty()
    } else {
        type_strs(vs.drop_last()).push(type_str(vs[vs.len() - 1]))
    }
}


proof fn lemma_type_strs(vs: Seq<JsonV>)
    ensures
        type_strs(vs).len() == vs.len(),
        forall|i: int| 0 <= i < vs.len() ==> #[trigger] type_strs(vs)[i] == type_str(vs[i]),
    decreases vs.len(),
{
    if vs.len() > 0 {
        lemma_type_strs(vs.drop_last());
    }
}

/// The types of `vs` joined with `sep`.
fn types_joined(vs: &Vec<Json>, sep: &str) -> (r: String)
    ensures
        r@ == join_sep(type_strs(crate::json::jv_items(vs@)), sep@),
    decreases vs,
{
    proof {
        lemma_jv_items(vs@);
        lemma_type_strs(crate::json::jv_items(vs@));
    }
    let ghost items = crate::json::jv_items(vs@);
    let mut parts: Vec<String> = Vec::new();
    let mut i: usize = 0;
    while i < vs.len()
        invariant
            i <= vs@.len(),
            items == crate::json::jv_items(vs@),
            items.len() == vs@.len(),
            forall|x: int| 0 <= x < vs@.len() ==> #[trigger] items[x] == jv(vs@[x]),
            type_strs(items).len() == items.len(),
            forall|x: int| 0 <= x < items.len() ==> #[trigger] type_strs(items)[x] == type_str(items[x]),
            parts@.map_values(|p: String| p@) == type_strs(items).take(i as int),
        decreases vs.len() - i,
    {
        proof {
            assert(decreases_to!(*vs => vs@));
            assert(decreases_to!(vs@ => vs@[i as int]));
        }
        let t = type_of(&vs[i]);
        let ghost before = parts@.map_values(|p: String| p@);
        parts.push(t);
        assert(parts@.map_values(|p: String| p@) =~= before.push(t@));
        assert(t@ == type_strs(items)[i as int]);
        assert(type_strs(items).take(i + 1) =~= type_strs(items).take(i as int).push(type_strs(items)[i as int]));
        i = i + 1;
    }
    assert(type_strs(items).take(vs@.len() as int) =~= type_strs(items));
    join_strs(&parts, sep)
}

/// See [`type_str`].
pub fn type_of(schema: &Json) -> (r: String)
    ensures
        r@ == type_str(jv(*schema)),
    decreases schema,
{
    match ref_name_of(schema) {
        Some(n) => {
            return n;
        },
        None => {},
    }
    let alt = match json_get(schema, "oneOf") {
        Some(x) => Some(x),
        None => json_get(schema, "anyOf"),
    };
    match alt {
        Some(Json::Arr(vs)) => {
            proof {
                let a = alt->0;
                assert(decreases_to!(*a => (*a)->Arr_0));
            }
            return types_joined(vs, " | ");
        },
        _ => {},
    }
    let all = json_get(schema, "allOf");
    match all {
        Some(Json::Arr(vs)) => {
            proof {
                let a = all->0;
                assert(decreases_to!(*a => (*a)->Arr_0));
            }
            return types_joined(vs, " & ");
        },
        _ => {},
    }
    match json_get(schema, "const") {
        Some(c) => {
            return to_text(c);
        },
        None => {},
    }
    let base = type_base_of(schema);
    if str_eq(base.as_str(), "array") {
        match json_get(schema, "items") {
            Some(i) => {
                let mut t = type_of(i);
                t.append("[]");
                t
            },
            None => copy_str("any[]"),
        }
    } else {
        base
    }
}

/// See [`type_base`].
fn type_base_of(schema: &Json) -> (r: String)
    ensures
        r@ == type_base(jv(*schema)),
{
    match json_get(schema, "type") {
        Some(Json::Str(t)) => copy_str(t.as_str()),
        Some(Json::Arr(ts)) => {
            proof {
                lemma_jv_items(ts@);
            }
            let ghost items = crate::json::jv_items(ts@);
            let mut names: Vec<String> = Vec::new();
            let mut i: usize = 0;
            while i < ts.len()
                invariant
                    i <= ts@.len(),
                    items == crate::json::jv_items(ts@),
                    items.len() == ts@.len(),
                    forall|x: int| 0 <= x < ts@.len() ==> #[trigger] items[x] == jv(ts@[x]),
                    names@.map_values(|p: String| p@) == strings_in(items.take(i as int)),
                decreases ts.len() - i,
            {
                let ghost before = names@.map_values(|p: String| p@);
                assert(items.take(i + 1).drop_last() =~= items.take(i as int));
                assert(items.take(i + 1).last() == jv(ts@[i as int]));
                match &ts[i] {
                    Json::Str(t) => {
                        names.push(copy_str(t.as_str()));
                        assert(names@.map_values(|p: String| p@) =~= before.push(t@));
                    },
                    _ => {},
                }
                i = i + 1;
            }
            assert(items.take(ts@.len() as int) =~= items);
            join_strs(&names, " | ")
        },
        _ => {
            if json_get(schema, "properties").is_some() {
                copy_str("object")
            } else {
                copy_str("any")
            }
        },
    }
}


// ---------------------------------------------------------------- hints and tables

/// An object's members, when `j` is an object.
pub open spec fn members_of(j: Option<JsonV>) -> Option<Seq<(Seq<char>, JsonV)>> {
    match j {
        Some(JsonV::Obj(ms)) => Some(ms),
        _ => None,
    }
}

/// An array's items, when `j` is an array.
pub open spec fn items_of(j: Option<JsonV>) -> Option<Seq<JsonV>> {
    match j {
        Some(JsonV::Arr(vs)) => Some(vs),
        _ => None,
    }
}

/// `n thing` or `n things`.
pub open spec fn counted(n: nat, thing: Seq<char>) -> Seq<char> {
    decimal(n) + " "@ + thing + if n == 1 {
        Seq::empty()
    } else {
        "s"@
    }
}

/// The line shown beside a collapsed schema: `object · N fields` for an
/// object with properties, `oneOf · N variants` for a union, `enum` for an
/// enumeration, else its type.
pub open spec fn schema_hint(s: JsonV) -> Seq<char> {
    match members_of(get(s, "properties"@)) {
        Some(ps) if ps.len() > 0 => "object · "@ + counted(ps.len(), "field"@),
        _ => match items_of(get(s, "oneOf"@)) {
            Some(vs) => "oneOf · "@ + counted(vs.len(), "variant"@),
            None => if get(s, "enum"@) is Some {
                "enum"@
            } else {
                type_str(s)
            },
        },
    }
}

fn counted_exec(n: usize, thing: &str) -> (r: String)
    ensures
        r@ == counted(n as nat, thing@),
{
    let mut r = decimal_string(n as u64);
    r.append(" ");
    r.append(thing);
    if n != 1 {
        r.append("s");
    }
    proof {
        reveal_strlit("");
        if n == 1 {
            assert(r@ =~= counted(n as nat, thing@));
        }
    }
    r
}

/// See [`schema_hint`].
pub fn hint_of(schema: &Json) -> (r: String)
    ensures
        r@ == schema_hint(jv(*schema)),
{
    match json_get(schema, "properties") {
        Some(Json::Obj(ps)) => {
            proof {
                crate::json::lemma_jv_members(ps@);
            }
            if ps.len() > 0 {
                let mut r = copy_str("object · ");
                r.append(counted_exec(ps.len(), "field").as_str());
                return r;
            }
        },
        _ => {},
    }
    match json_get(schema, "oneOf") {
        Some(Json::Arr(vs)) => {
            proof {
                lemma_jv_items(vs@);
            }
            let mut r = copy_str("oneOf · ");
            r.append(counted_exec(vs.len(), "variant").as_str());
            return r;
        },
        _ => {},
    }
    if json_get(schema, "enum").is_some() {
        copy_str("enum")
    } else {
        type_of(schema)
    }
}

/// Each value's JSON text, code-formatted and escaped, joined with `, `.
pub open spec fn code_list(vs: Seq<JsonV>) -> Seq<char> {
    join_sep(codes(vs), ", "@)
}

pub open spec fn codes(vs: Seq<JsonV>) -> Seq<Seq<char>>
    decreases vs.len(),
{
    if vs.len() == 0 {
        Seq::empty()
    } else {
        codes(vs.drop_last()).push("<code>"@ + escaped(serde_text(vs.last())) + "</code>"@)
    }
}

fn code_list_of(vs: &Vec<Json>) -> (r: String)
    ensures
        r@ == code_list(crate::json::jv_items(vs@)),
{
    proof {
        lemma_jv_items(vs@);
    }
    let ghost items = crate::json::jv_items(vs@);
    let mut parts: Vec<String> = Vec::new();
    let mut i: usize = 0;
    while i < vs.len()
        invariant
            i <= vs@.len(),
            items == crate::json::jv_items(vs@),
            items.len() == vs@.len(),
            forall|x: int| 0 <= x < vs@.len() ==> #[trigger] items[x] == jv(vs@[x]),
            parts@.map_values(|p: String| p@) == codes(items.take(i as int)),
        decreases vs.len() - i,
    {
        let ghost before = parts@.map_values(|p: String| p@);
        let mut c = copy_str("<code>");
        c.append(escape(to_text(&vs[i]).as_str()).as_str());
        c.append("</code>");
        parts.push(c);
        assert(items.take(i + 1).drop_last() =~= items.take(i as int));
        assert(items.take(i + 1).last() == jv(vs@[i as int]));
        assert(parts@.map_values(|p: String| p@) =~= before.push(c@));
        i = i + 1;
    }
    assert(items.take(vs@.len() as int) =~= items);
    join_strs(&parts, ", ")
}


/// The names a schema's `required` array lists.
pub open spec fn required_of(s: JsonV) -> Seq<Seq<char>> {
    match items_of(get(s, "required"@)) {
        Some(vs) => strings_in(vs),
        None => Seq::empty(),
    }
}

/// A property's description, or nothing.
pub open spec fn desc_of(p: JsonV) -> Seq<char> {
    match get(p, "description"@) {
        Some(JsonV::Str(d)) => d,
        _ => Seq::empty(),
    }
}

/// ` · one of …` after a property with a non-empty `enum`.
pub open spec fn enum_suffix(p: JsonV) -> Seq<char> {
    match items_of(get(p, "enum"@)) {
        Some(vs) => if vs.len() > 0 {
            " · one of "@ + code_list(vs)
        } else {
            Seq::empty()
        },
        None => Seq::empty(),
    }
}

/// One property's row: its name, type, whether it is required, and its
/// description.
pub open spec fn prop_row(name: Seq<char>, p: JsonV, req: Seq<Seq<char>>) -> Seq<char> {
    "<tr><td><code>"@ + escaped(name) + "</code></td><td><code>"@ + escaped(type_str(p))
        + "</code></td><td>"@ + (if req.contains(name) {
        "<span class=\"spec-required\">required</span>"@
    } else {
        "<span class=\"spec-optional\">optional</span>"@
    }) + "</td><td>"@ + escaped(desc_of(p)) + enum_suffix(p) + "</td></tr>"@
}

pub open spec fn prop_rows(ms: Seq<(Seq<char>, JsonV)>, req: Seq<Seq<char>>) -> Seq<char>
    decreases ms.len(),
{
    if ms.len() == 0 {
        Seq::empty()
    } else {
        prop_rows(ms.drop_last(), req) + prop_row(ms.last().0, ms.last().1, req)
    }
}

/// A schema as the reference shows it: a table of an object's properties,
/// else a list of a union's members, else its enumeration, else its type.
pub open spec fn schema_html(s: JsonV) -> Seq<char>
    decreases s,
{
    match members_of(get(s, "properties"@)) {
        Some(ps) if ps.len() > 0 => "<div class=\"tablewrap\"><table><thead><tr><th>field</th><th>type</th><th>required</th><th>description</th></tr></thead><tbody>"@
            + prop_rows(ps, required_of(s)) + "</tbody></table></div>"@,
        _ => match items_of(get(s, "oneOf"@)) {
            Some(vs) => {
                proof {
                    lemma_get_smaller(s, "oneOf"@);
                    let a = get(s, "oneOf"@)->0;
                    assert(decreases_to!(a => a->Arr_0));
                }
                "<p>one of:</p><ul class=\"spec-oneof\">"@ + oneof_items(vs) + "</ul>"@
            },
            None => match items_of(get(s, "enum"@)) {
                Some(vs) => if vs.len() > 0 {
                    "<p>one of: "@ + code_list(vs) + "</p>"@
                } else {
                    "<p><code>"@ + escaped(type_str(s)) + "</code></p>"@
                },
                None => "<p><code>"@ + escaped(type_str(s)) + "</code></p>"@,
            },
        },
    }
}

pub open spec fn oneof_items(vs: Seq<JsonV>) -> Seq<char>
    decreases vs,
{
    if vs.len() == 0 {
        Seq::empty()
    } else {
        oneof_items(vs.drop_last()) + "<li>"@ + schema_html(vs[vs.len() - 1]) + "</li>"@
    }
}

fn required_of_exec(schema: &Json) -> (r: Vec<String>)
    ensures
        r@.map_values(|p: String| p@) == required_of(jv(*schema)),
{
    match json_get(schema, "required") {
        Some(Json::Arr(vs)) => {
            proof {
                lemma_jv_items(vs@);
            }
            let ghost items = crate::json::jv_items(vs@);
            let mut names: Vec<String> = Vec::new();
            let mut i: usize = 0;
            while i < vs.len()
                invariant
                    i <= vs@.len(),
                    items == crate::json::jv_items(vs@),
                    items.len() == vs@.len(),
                    forall|x: int| 0 <= x < vs@.len() ==> #[trigger] items[x] == jv(vs@[x]),
                    names@.map_values(|p: String| p@) == strings_in(items.take(i as int)),
                decreases vs.len() - i,
            {
                let ghost before = names@.map_values(|p: String| p@);
                assert(items.take(i + 1).drop_last() =~= items.take(i as int));
                assert(items.take(i + 1).last() == jv(vs@[i as int]));
                match &vs[i] {
                    Json::Str(t) => {
                        names.push(copy_str(t.as_str()));
                        assert(names@.map_values(|p: String| p@) =~= before.push(t@));
                    },
                    _ => {},
                }
                i = i + 1;
            }
            assert(items.take(vs@.len() as int) =~= items);
            names
        },
        _ => {
            let names: Vec<String> = Vec::new();
            assert(names@.map_values(|p: String| p@) =~= Seq::<Seq<char>>::empty());
            names
        },
    }
}

fn listed(names: &Vec<String>, name: &str) -> (r: bool)
    ensures
        r == names@.map_values(|p: String| p@).contains(name@),
{
    let ghost ns = names@.map_values(|p: String| p@);
    let mut i: usize = 0;
    while i < names.len()
        invariant
            i <= names@.len(),
            ns == names@.map_values(|p: String| p@),
            forall|x: int| 0 <= x < i ==> ns[x] != name@,
        decreases names.len() - i,
    {
        if str_eq(names[i].as_str(), name) {
            assert(ns[i as int] == name@);
            return true;
        }
        i = i + 1;
    }
    false
}

fn prop_row_exec(name: &str, p: &Json, req: &Vec<String>) -> (r: String)
    ensures
        r@ == prop_row(name@, jv(*p), req@.map_values(|x: String| x@)),
{
    let mut r = copy_str("<tr><td><code>");
    r.append(escape(name).as_str());
    r.append("</code></td><td><code>");
    r.append(escape(type_of(p).as_str()).as_str());
    r.append("</code></td><td>");
    if listed(req, name) {
        r.append("<span class=\"spec-required\">required</span>");
    } else {
        r.append("<span class=\"spec-optional\">optional</span>");
    }
    r.append("</td><td>");
    match json_get(p, "description") {
        Some(Json::Str(d)) => {
            r.append(escape(d.as_str()).as_str());
        },
        _ => {
            proof {
                reveal_strlit("");
                assert(escaped(Seq::<char>::empty()) =~= Seq::<char>::empty());
            }
        },
    }
    match json_get(p, "enum") {
        Some(Json::Arr(vs)) => {
            proof {
                lemma_jv_items(vs@);
            }
            if vs.len() > 0 {
                r.append(" · one of ");
                r.append(code_list_of(vs).as_str());
            }
        },
        _ => {},
    }
    r.append("</td></tr>");
    proof {
        reveal_strlit("");
    }
    assert(r@ =~= prop_row(name@, jv(*p), req@.map_values(|x: String| x@)));
    r
}

/// See [`schema_html`].
pub fn schema_html_of(schema: &Json) -> (r: String)
    ensures
        r@ == schema_html(jv(*schema)),
    decreases schema,
{
    match json_get(schema, "properties") {
        Some(Json::Obj(ps)) => {
            proof {
                crate::json::lemma_jv_members(ps@);
            }
            if ps.len() > 0 {
                let req = required_of_exec(schema);
                let ghost ms = jv_members(ps@);
                let ghost rq = req@.map_values(|x: String| x@);
                let mut rows = copy_str("");
                proof {
                    reveal_strlit("");
                    assert(rows@ =~= prop_rows(ms.take(0), rq));
                }
                let mut i: usize = 0;
                while i < ps.len()
                    invariant
                        i <= ps@.len(),
                        ms == jv_members(ps@),
                        ms.len() == ps@.len(),
                        forall|x: int| 0 <= x < ps@.len() ==> #[trigger] ms[x] == (ps@[x].0@, jv(ps@[x].1)),
                        rq == req@.map_values(|x: String| x@),
                        rows@ == prop_rows(ms.take(i as int), rq),
                    decreases ps.len() - i,
                {
                    let row = prop_row_exec(ps[i].0.as_str(), &ps[i].1, &req);
                    rows.append(row.as_str());
                    assert(ms.take(i + 1).drop_last() =~= ms.take(i as int));
                    assert(ms.take(i + 1).last() == (ps@[i as int].0@, jv(ps@[i as int].1)));
                    i = i + 1;
                }
                assert(ms.take(ps@.len() as int) =~= ms);
                let mut r = copy_str(
                    "<div class=\"tablewrap\"><table><thead><tr><th>field</th><th>type</th><th>required</th><th>description</th></tr></thead><tbody>",
                );
                r.append(rows.as_str());
                r.append("</tbody></table></div>");
                return r;
            }
        },
        _ => {},
    }
    let one = json_get(schema, "oneOf");
    match one {
        Some(Json::Arr(vs)) => {
            proof {
                let a = one->0;
                assert(decreases_to!(*a => (*a)->Arr_0));
            }
            let mut r = copy_str("<p>one of:</p><ul class=\"spec-oneof\">");
            r.append(oneof_items_of(vs).as_str());
            r.append("</ul>");
            return r;
        },
        _ => {},
    }
    match json_get(schema, "enum") {
        Some(Json::Arr(vs)) => {
            proof {
                lemma_jv_items(vs@);
            }
            if vs.len() > 0 {
                let mut r = copy_str("<p>one of: ");
                r.append(code_list_of(vs).as_str());
                r.append("</p>");
                return r;
            }
        },
        _ => {},
    }
    let mut r = copy_str("<p><code>");
    r.append(escape(type_of(schema).as_str()).as_str());
    r.append("</code></p>");
    r
}

fn oneof_items_of(vs: &Vec<Json>) -> (r: String)
    ensures
        r@ == oneof_items(crate::json::jv_items(vs@)),
    decreases vs,
{
    proof {
        lemma_jv_items(vs@);
    }
    let ghost items = crate::json::jv_items(vs@);
    let mut r = copy_str("");
    proof {
        reveal_strlit("");
        assert(r@ =~= oneof_items(items.take(0)));
    }
    let mut i: usize = 0;
    while i < vs.len()
        invariant
            i <= vs@.len(),
            items == crate::json::jv_items(vs@),
            items.len() == vs@.len(),
            forall|x: int| 0 <= x < vs@.len() ==> #[trigger] items[x] == jv(vs@[x]),
            r@ == oneof_items(items.take(i as int)),
        decreases vs.len() - i,
    {
        proof {
            assert(decreases_to!(*vs => vs@));
            assert(decreases_to!(vs@ => vs@[i as int]));
        }
        r.append("<li>");
        r.append(schema_html_of(&vs[i]).as_str());
        r.append("</li>");
        assert(items.take(i + 1).drop_last() =~= items.take(i as int));
        assert(items.take(i + 1)[i as int] == jv(vs@[i as int]));
        i = i + 1;
    }
    assert(items.take(vs@.len() as int) =~= items);
    r
}


// ---------------------------------------------------------------- examples

/// The names `defs` defines.
pub open spec fn def_names(defs: Seq<(Seq<char>, JsonV)>) -> Set<Seq<char>> {
    defs.map_values(|p: (Seq<char>, JsonV)| p.0).to_set()
}

/// How many of the names `defs` defines are not yet being expanded.
pub open spec fn unseen(defs: Seq<(Seq<char>, JsonV)>, seen: Set<Seq<char>>) -> nat {
    def_names(defs).difference(seen).len()
}

pub proof fn lemma_member_named(defs: Seq<(Seq<char>, JsonV)>, n: Seq<char>, i: int)
    requires
        member_from(defs, n, i) is Some,
    ensures
        def_names(defs).contains(n),
    decreases defs.len() - i,
{
    if defs[i].0 == n {
        assert(defs.map_values(|p: (Seq<char>, JsonV)| p.0)[i] == n);
    } else {
        lemma_member_named(defs, n, i + 1);
    }
}

pub proof fn lemma_unseen_shrinks(defs: Seq<(Seq<char>, JsonV)>, seen: Set<Seq<char>>, n: Seq<char>)
    requires
        member_from(defs, n, 0) is Some,
        !seen.contains(n),
    ensures
        unseen(defs, seen.insert(n)) < unseen(defs, seen),
{
    lemma_member_named(defs, n, 0);
    let names = def_names(defs);
    vstd::seq_lib::seq_to_set_is_finite(defs.map_values(|p: (Seq<char>, JsonV)| p.0));
    assert(names.difference(seen.insert(n)) =~= names.difference(seen).remove(n));
    assert(names.difference(seen).contains(n));
    assert(names.difference(seen).finite());
}

/// A schema's example ends on a recursive `$ref`: a reference to a name
/// already being expanded on the way here gives null; a reference to a
/// defined name not yet on the way gives that definition's example with the
/// name now marked, and leaves strictly fewer names to expand, so every
/// expansion ends, a self-referential schema included. The names being
/// expanded are the caller's own: [`example_of`] reads `seen` through a
/// shared reference and hands each nested expansion a copy with the name
/// added, so the caller's list is the same after the call.
pub proof fn law_example_value_ends_on_a_recursive_ref(
    s: JsonV,
    defs: Seq<(Seq<char>, JsonV)>,
    seen: Set<Seq<char>>,
    n: Seq<char>,
)
    requires
        ref_name(s) == Some(n),
    ensures
        seen.contains(n) ==> example(s, defs, seen) == JsonV::Null,
        !seen.contains(n) && member_from(defs, n, 0) is Some ==> {
            &&& example(s, defs, seen) == example(member_from(defs, n, 0)->0, defs, seen.insert(n))
            &&& unseen(defs, seen.insert(n)) < unseen(defs, seen)
        },
        !seen.contains(n) && member_from(defs, n, 0) is None ==> example(s, defs, seen) == JsonV::Null,
{
    if !seen.contains(n) && member_from(defs, n, 0) is Some {
        lemma_unseen_shrinks(defs, seen, n);
    }
}

/// The first string of `ts`, from `i` on, other than `null`.
pub open spec fn first_real_type(ts: Seq<JsonV>, i: int) -> Option<Seq<char>>
    decreases ts.len() - i,
{
    if i < 0 || i >= ts.len() {
        None
    } else {
        match ts[i] {
            JsonV::Str(t) => if t != "null"@ {
                Some(t)
            } else {
                first_real_type(ts, i + 1)
            },
            _ => first_real_type(ts, i + 1),
        }
    }
}

/// The type an example is built for: `type`, or the first string of a
/// `type` array other than `null` (its first entry, when a string, if
/// there is none).
pub open spec fn example_type(s: JsonV) -> Option<Seq<char>> {
    match get(s, "type"@) {
        Some(JsonV::Str(t)) => Some(t),
        Some(JsonV::Arr(ts)) => match first_real_type(ts, 0) {
            Some(t) => Some(t),
            None => if ts.len() > 0 && ts[0] is Str {
                Some(ts[0]->Str_0)
            } else {
                None
            },
        },
        _ => None,
    }
}

/// A plausible instance of a schema, as an API explorer synthesizes one:
/// the schema's own `example` or `default`, else its first `enum` value or
/// first `oneOf`/`anyOf` member's example, else the merged examples of its
/// `allOf` members, else an object of its properties' examples, else a
/// placeholder of its type. A `$ref` is followed into `defs`, except to a
/// name already being expanded on the way here (`seen`), which gives null:
/// that is what makes a self-referential schema end.
pub open spec fn example(s: JsonV, defs: Seq<(Seq<char>, JsonV)>, seen: Set<Seq<char>>) -> JsonV
    decreases unseen(defs, seen), s,
{
    match ref_name(s) {
        Some(n) => if seen.contains(n) {
            JsonV::Null
        } else {
            match member_from(defs, n, 0) {
                Some(r) => {
                    proof {
                        lemma_unseen_shrinks(defs, seen, n);
                    }
                    example(r, defs, seen.insert(n))
                },
                None => JsonV::Null,
            }
        },
        None => match get(s, "example"@) {
            Some(e) => e,
            None => match get(s, "default"@) {
                Some(d) => d,
                None => match items_of(get(s, "enum"@)) {
                    Some(vs) => if vs.len() > 0 {
                        vs[0]
                    } else {
                        JsonV::Null
                    },
                    None => match items_of(alternatives(s)) {
                        Some(vs) => if vs.len() > 0 {
                            proof {
                                if get(s, "oneOf"@) is Some {
                                    lemma_get_smaller(s, "oneOf"@);
                                } else {
                                    lemma_get_smaller(s, "anyOf"@);
                                }
                                let a = alternatives(s)->0;
                                assert(decreases_to!(a => a->Arr_0));
                                assert(decreases_to!(a->Arr_0 => a->Arr_0[0]));
                            }
                            example(vs[0], defs, seen)
                        } else {
                            JsonV::Null
                        },
                        None => match items_of(get(s, "allOf"@)) {
                            Some(vs) => {
                                proof {
                                    lemma_get_smaller(s, "allOf"@);
                                    let a = get(s, "allOf"@)->0;
                                    assert(decreases_to!(a => a->Arr_0));
                                }
                                JsonV::Obj(merged(vs, defs, seen))
                            },
                            None => match members_of(get(s, "properties"@)) {
                                Some(ps) => {
                                    proof {
                                        lemma_get_smaller(s, "properties"@);
                                        let a = get(s, "properties"@)->0;
                                        assert(decreases_to!(a => a->Obj_0));
                                    }
                                    JsonV::Obj(prop_examples(ps, defs, seen))
                                },
                                None => match example_type(s) {
                                    Some(t) => if t == "string"@ {
                                        JsonV::Str("string"@)
                                    } else if t == "integer"@ {
                                        JsonV::Num("0"@)
                                    } else if t == "number"@ {
                                        JsonV::Num("0.0"@)
                                    } else if t == "boolean"@ {
                                        JsonV::Bool(true)
                                    } else if t == "array"@ {
                                        match get(s, "items"@) {
                                            Some(i) => {
                                                proof {
                                                    lemma_get_smaller(s, "items"@);
                                                }
                                                JsonV::Arr(seq![example(i, defs, seen)])
                                            },
                                            None => JsonV::Arr(seq![JsonV::Null]),
                                        }
                                    } else if t == "null"@ {
                                        JsonV::Null
                                    } else if t == "object"@ {
                                        JsonV::Obj(Seq::empty())
                                    } else {
                                        JsonV::Null
                                    },
                                    None => JsonV::Obj(Seq::empty()),
                                },
                            },
                        },
                    },
                },
            },
        },
    }
}

/// Every member of `o` set into `acc` in turn.
pub open spec fn insert_all(acc: Seq<(Seq<char>, JsonV)>, o: Seq<(Seq<char>, JsonV)>) -> Seq<
    (Seq<char>, JsonV),
>
    decreases o.len(),
{
    if o.len() == 0 {
        acc
    } else {
        obj_insert(insert_all(acc, o.drop_last()), o.last().0, o.last().1)
    }
}

/// The examples of `allOf` members that are objects, merged in order (a
/// later member's field wins).
pub open spec fn merged(vs: Seq<JsonV>, defs: Seq<(Seq<char>, JsonV)>, seen: Set<Seq<char>>) -> Seq<
    (Seq<char>, JsonV),
>
    decreases unseen(defs, seen), vs,
{
    if vs.len() == 0 {
        Seq::empty()
    } else {
        match example(vs[vs.len() - 1], defs, seen) {
            JsonV::Obj(o) => insert_all(merged(vs.drop_last(), defs, seen), o),
            _ => merged(vs.drop_last(), defs, seen),
        }
    }
}

/// Each property set to its example, in order.
pub open spec fn prop_examples(ps: Seq<(Seq<char>, JsonV)>, defs: Seq<(Seq<char>, JsonV)>, seen: Set<Seq<char>>) -> Seq<
    (Seq<char>, JsonV),
>
    decreases unseen(defs, seen), ps,
{
    if ps.len() == 0 {
        Seq::empty()
    } else {
        obj_insert(
            prop_examples(ps.drop_last(), defs, seen),
            ps[ps.len() - 1].0,
            example(ps[ps.len() - 1].1, defs, seen),
        )
    }
}


/// The names being expanded, as a set.
pub open spec fn seen_set(seen: Seq<String>) -> Set<Seq<char>> {
    seen.map_values(|x: String| x@).to_set()
}

fn example_type_of(schema: &Json) -> (r: Option<String>)
    ensures
        opt_view(r) == example_type(jv(*schema)),
{
    match json_get(schema, "type") {
        Some(Json::Str(t)) => Some(copy_str(t.as_str())),
        Some(Json::Arr(ts)) => {
            proof {
                lemma_jv_items(ts@);
            }
            let ghost items = jv_items(ts@);
            assert(get(jv(*schema), "type"@) == Some(JsonV::Arr(items)));
            let mut i: usize = 0;
            while i < ts.len()
                invariant
                    i <= ts@.len(),
                    items == jv_items(ts@),
                    items.len() == ts@.len(),
                    forall|x: int| 0 <= x < ts@.len() ==> #[trigger] items[x] == jv(ts@[x]),
                    get(jv(*schema), "type"@) == Some(JsonV::Arr(items)),
                    first_real_type(items, i as int) == first_real_type(items, 0),
                decreases ts.len() - i,
            {
                assert(items[i as int] == jv(ts@[i as int]));
                match &ts[i] {
                    Json::Str(t) => {
                        if !str_eq(t.as_str(), "null") {
                            return Some(copy_str(t.as_str()));
                        }
                    },
                    _ => {},
                }
                i = i + 1;
            }
            if ts.len() > 0 {
                assert(items[0] == jv(ts@[0]));
                match &ts[0] {
                    Json::Str(t) => {
                        return Some(copy_str(t.as_str()));
                    },
                    _ => {},
                }
            }
            None
        },
        _ => None,
    }
}

/// See [`example`]; `seen` lists the names being expanded.
pub fn example_of(schema: &Json, defs: &Vec<(String, Json)>, seen: &Vec<String>) -> (r: Json)
    ensures
        jv(r) == example(jv(*schema), jv_members(defs@), seen_set(seen@)),
    decreases unseen(jv_members(defs@), seen_set(seen@)), schema,
{
    let ghost d = jv_members(defs@);
    let ghost sn = seen_set(seen@);
    match ref_name_of(schema) {
        Some(n) => {
            if listed(seen, n.as_str()) {
                proof {
                    assert(sn.contains(n@));
                }
                return Json::Null;
            }
            proof {
                assert(!sn.contains(n@)) by {
                    if sn.contains(n@) {
                        assert(seen@.map_values(|x: String| x@).contains(n@));
                    }
                }
            }
            match member_get(defs, n.as_str()) {
                Some(r) => {
                    let mut more: Vec<String> = Vec::new();
                    let mut i: usize = 0;
                    while i < seen.len()
                        invariant
                            i <= seen@.len(),
                            more@.map_values(|x: String| x@) == seen@.map_values(|x: String| x@).take(
                                i as int,
                            ),
                        decreases seen.len() - i,
                    {
                        let ghost before = more@.map_values(|x: String| x@);
                        more.push(copy_str(seen[i].as_str()));
                        assert(more@.map_values(|x: String| x@) =~= before.push(seen@[i as int]@));
                        assert(seen@.map_values(|x: String| x@).take(i + 1) =~= seen@.map_values(
                            |x: String| x@,
                        ).take(i as int).push(seen@[i as int]@));
                        i = i + 1;
                    }
                    let ghost nv = n@;
                    more.push(n);
                    proof {
                        assert(seen@.map_values(|x: String| x@).take(seen@.len() as int)
                            =~= seen@.map_values(|x: String| x@));
                        assert(more@.map_values(|x: String| x@) =~= seen@.map_values(|x: String| x@).push(
                            nv,
                        ));
                        let old_s = seen@.map_values(|x: String| x@);
                        let new_s = more@.map_values(|x: String| x@);
                        assert forall|y: Seq<char>| new_s.contains(y) <==> (old_s.contains(y) || y == nv) by {
                            if new_s.contains(y) {
                                let k = choose|k: int| 0 <= k < new_s.len() && new_s[k] == y;
                                if k < old_s.len() {
                                    assert(old_s[k] == y);
                                }
                            }
                            if old_s.contains(y) {
                                let k = choose|k: int| 0 <= k < old_s.len() && old_s[k] == y;
                                assert(new_s[k] == y);
                            }
                            if y == nv {
                                assert(new_s[old_s.len() as int] == y);
                            }
                        }
                        assert(seen_set(more@) =~= sn.insert(nv));
                        lemma_unseen_shrinks(d, sn, nv);
                    }
                    return example_of(r, defs, &more);
                },
                None => {
                    return Json::Null;
                },
            }
        },
        None => {},
    }
    match json_get(schema, "example") {
        Some(e) => {
            return copy_json(e);
        },
        None => {},
    }
    match json_get(schema, "default") {
        Some(e) => {
            return copy_json(e);
        },
        None => {},
    }
    match json_get(schema, "enum") {
        Some(Json::Arr(vs)) => {
            proof {
                lemma_jv_items(vs@);
            }
            if vs.len() > 0 {
                return copy_json(&vs[0]);
            }
            return Json::Null;
        },
        _ => {},
    }
    let alt = match json_get(schema, "oneOf") {
        Some(x) => Some(x),
        None => json_get(schema, "anyOf"),
    };
    match alt {
        Some(Json::Arr(vs)) => {
            proof {
                lemma_jv_items(vs@);
            }
            if vs.len() > 0 {
                proof {
                    let a = alt->0;
                    assert(decreases_to!(*a => (*a)->Arr_0));
                    assert(decreases_to!((*a)->Arr_0 => (*a)->Arr_0@));
                    assert(decreases_to!((*a)->Arr_0@ => (*a)->Arr_0@[0]));
                }
                return example_of(&vs[0], defs, seen);
            }
            return Json::Null;
        },
        _ => {},
    }
    let all = json_get(schema, "allOf");
    match all {
        Some(Json::Arr(vs)) => {
            proof {
                lemma_jv_items(vs@);
            }
            let ghost items = jv_items(vs@);
            let mut acc: Vec<(String, Json)> = Vec::new();
            assert(jv_members(acc@) =~= merged(items.take(0), d, sn));
            let mut i: usize = 0;
            while i < vs.len()
                invariant
                    i <= vs@.len(),
                    items == jv_items(vs@),
                    items.len() == vs@.len(),
                    forall|x: int| 0 <= x < vs@.len() ==> #[trigger] items[x] == jv(vs@[x]),
                    d == jv_members(defs@),
                    sn == seen_set(seen@),
                    all is Some,
                    decreases_to!(*schema => *all->0),
                    *all->0 == Json::Arr(*vs),
                    jv_members(acc@) == merged(items.take(i as int), d, sn),
                decreases vs.len() - i,
            {
                proof {
                    let a = all->0;
                    assert(decreases_to!(*a => (*a)->Arr_0));
                    assert(decreases_to!((*a)->Arr_0 => (*a)->Arr_0@));
                    assert(decreases_to!((*a)->Arr_0@ => (*a)->Arr_0@[i as int]));
                }
                let e = example_of(&vs[i], defs, seen);
                let ghost base = jv_members(acc@);
                assert(items.take(i + 1).drop_last() =~= items.take(i as int));
                assert(items.take(i + 1)[i as int] == jv(vs@[i as int]));
                match e {
                    Json::Obj(o) => {
                        proof {
                            lemma_jv_members(o@);
                        }
                        let ghost ov = jv_members(o@);
                        let mut k: usize = 0;
                        assert(ov.take(0) =~= Seq::<(Seq<char>, JsonV)>::empty());
                        while k < o.len()
                            invariant
                                k <= o@.len(),
                                ov == jv_members(o@),
                                ov.len() == o@.len(),
                                forall|x: int| 0 <= x < o@.len() ==> #[trigger] ov[x] == (o@[x].0@, jv(o@[x].1)),
                                jv_members(acc@) == insert_all(base, ov.take(k as int)),
                            decreases o.len() - k,
                        {
                            obj_put(&mut acc, copy_str(o[k].0.as_str()), copy_json(&o[k].1));
                            assert(ov.take(k + 1).drop_last() =~= ov.take(k as int));
                            assert(ov.take(k + 1).last() == (o@[k as int].0@, jv(o@[k as int].1)));
                            k = k + 1;
                        }
                        assert(ov.take(o@.len() as int) =~= ov);
                    },
                    _ => {},
                }
                i = i + 1;
            }
            assert(items.take(vs@.len() as int) =~= items);
            return Json::Obj(acc);
        },
        _ => {},
    }
    let props = json_get(schema, "properties");
    match props {
        Some(Json::Obj(ps)) => {
            proof {
                lemma_jv_members(ps@);
            }
            let ghost pv = jv_members(ps@);
            let mut acc: Vec<(String, Json)> = Vec::new();
            assert(jv_members(acc@) =~= prop_examples(pv.take(0), d, sn));
            let mut i: usize = 0;
            while i < ps.len()
                invariant
                    i <= ps@.len(),
                    pv == jv_members(ps@),
                    pv.len() == ps@.len(),
                    forall|x: int| 0 <= x < ps@.len() ==> #[trigger] pv[x] == (ps@[x].0@, jv(ps@[x].1)),
                    d == jv_members(defs@),
                    sn == seen_set(seen@),
                    props is Some,
                    decreases_to!(*schema => *props->0),
                    *props->0 == Json::Obj(*ps),
                    jv_members(acc@) == prop_examples(pv.take(i as int), d, sn),
                decreases ps.len() - i,
            {
                proof {
                    let a = props->0;
                    assert(decreases_to!(*a => (*a)->Obj_0));
                    assert(decreases_to!((*a)->Obj_0 => (*a)->Obj_0@));
                    assert(decreases_to!((*a)->Obj_0@ => (*a)->Obj_0@[i as int]));
                    assert(decreases_to!((*a)->Obj_0@[i as int] => (*a)->Obj_0@[i as int].1));
                }
                let e = example_of(&ps[i].1, defs, seen);
                obj_put(&mut acc, copy_str(ps[i].0.as_str()), e);
                assert(pv.take(i + 1).drop_last() =~= pv.take(i as int));
                assert(pv.take(i + 1)[i as int] == (ps@[i as int].0@, jv(ps@[i as int].1)));
                i = i + 1;
            }
            assert(pv.take(ps@.len() as int) =~= pv);
            return Json::Obj(acc);
        },
        _ => {},
    }
    match example_type_of(schema) {
        Some(t) => {
            if str_eq(t.as_str(), "string") {
                Json::Str(copy_str("string"))
            } else if str_eq(t.as_str(), "integer") {
                Json::Num(copy_str("0"))
            } else if str_eq(t.as_str(), "number") {
                Json::Num(copy_str("0.0"))
            } else if str_eq(t.as_str(), "boolean") {
                Json::Bool(true)
            } else if str_eq(t.as_str(), "array") {
                match json_get(schema, "items") {
                    Some(i) => {
                        let item = example_of(i, defs, seen);
                        let mut v: Vec<Json> = Vec::new();
                        v.push(item);
                        proof {
                            lemma_jv_items(v@);
                            assert(jv_items(v@) =~= seq![jv(item)]);
                        }
                        Json::Arr(v)
                    },
                    None => {
                        let mut v: Vec<Json> = Vec::new();
                        v.push(Json::Null);
                        proof {
                            lemma_jv_items(v@);
                            assert(jv_items(v@) =~= seq![JsonV::Null]);
                        }
                        Json::Arr(v)
                    },
                }
            } else if str_eq(t.as_str(), "null") {
                Json::Null
            } else if str_eq(t.as_str(), "object") {
                let v: Vec<(String, Json)> = Vec::new();
                assert(jv_members(v@) =~= Seq::<(Seq<char>, JsonV)>::empty());
                Json::Obj(v)
            } else {
                Json::Null
            }
        },
        None => {
            let v: Vec<(String, Json)> = Vec::new();
            assert(jv_members(v@) =~= Seq::<(Seq<char>, JsonV)>::empty());
            Json::Obj(v)
        },
    }
}


/// A schema's example, nothing being expanded yet.
pub fn schema_example(schema: &Json, defs: &Vec<(String, Json)>) -> (r: Json)
    ensures
        jv(r) == example(jv(*schema), jv_members(defs@), Set::empty()),
{
    let seen: Vec<String> = Vec::new();
    assert(seen_set(seen@) =~= Set::<Seq<char>>::empty());
    example_of(schema, defs, &seen)
}

/// A schema shown two ways, one click apart: its example, pretty-printed,
/// and its property table. `id` tells this pair of tabs from every other
/// on the page.
pub open spec fn example_tabs(schema: JsonV, defs: Seq<(Seq<char>, JsonV)>, id: nat) -> Seq<char> {
    let n = decimal(id);
    "<div class=\"tabs\"><input type=\"radio\" name=\"tabs-"@ + n + "\" id=\"tab-"@ + n
        + "-0\" checked><label for=\"tab-"@ + n + "-0\">Example Value</label><input type=\"radio\" name=\"tabs-"@
        + n + "\" id=\"tab-"@ + n + "-1\"><label for=\"tab-"@ + n
        + "-1\">Schema</label><section class=\"tab-panel\"><pre class=\"spec-example\">"@ + escaped(
        serde_pretty(example(schema, defs, Set::empty())),
    ) + "</pre></section><section class=\"tab-panel\">"@ + schema_html(schema) + "</section></div>"@
}

/// See [`example_tabs`].
pub fn schema_with_example_html(schema: &Json, defs: &Vec<(String, Json)>, id: u32) -> (r: String)
    ensures
        r@ == example_tabs(jv(*schema), jv_members(defs@), id as nat),
{
    let n = decimal_string(id as u64);
    let example = schema_example(schema, defs);
    let mut r = copy_str("<div class=\"tabs\"><input type=\"radio\" name=\"tabs-");
    r.append(n.as_str());
    r.append("\" id=\"tab-");
    r.append(n.as_str());
    r.append("-0\" checked><label for=\"tab-");
    r.append(n.as_str());
    r.append("-0\">Example Value</label><input type=\"radio\" name=\"tabs-");
    r.append(n.as_str());
    r.append("\" id=\"tab-");
    r.append(n.as_str());
    r.append("-1\"><label for=\"tab-");
    r.append(n.as_str());
    r.append("-1\">Schema</label><section class=\"tab-panel\"><pre class=\"spec-example\">");
    r.append(escape(to_pretty(&example).as_str()).as_str());
    r.append("</pre></section><section class=\"tab-panel\">");
    r.append(schema_html_of(schema).as_str());
    r.append("</section></div>");
    r
}


// ---------------------------------------------------------------- parameters and try-it-out

/// A text, or `d` when there is none.
pub open spec fn or_text(o: Option<Seq<char>>, d: Seq<char>) -> Seq<char> {
    match o {
        Some(t) => t,
        None => d,
    }
}

/// An array's items when there are any.
pub open spec fn nonempty_items(j: Option<JsonV>) -> Option<Seq<JsonV>> {
    match items_of(j) {
        Some(vs) => if vs.len() > 0 {
            Some(vs)
        } else {
            None
        },
        None => None,
    }
}

/// A parameter's description: its schema's own, else the one of the schema
/// its `$ref` points at.
pub open spec fn param_desc(schema: JsonV, target: Option<JsonV>) -> Seq<char> {
    match str_of(at(schema, "description"@)) {
        Some(d) => d,
        None => match target {
            Some(r) => or_text(str_of(at(r, "description"@)), Seq::empty()),
            None => Seq::empty(),
        },
    }
}

/// A parameter's allowed values: its schema's `enum`, else the referenced
/// schema's.
pub open spec fn param_enum(schema: JsonV, target: Option<JsonV>) -> Seq<JsonV> {
    match nonempty_items(get(schema, "enum"@)) {
        Some(vs) => vs,
        None => match target {
            Some(r) => match nonempty_items(get(r, "enum"@)) {
                Some(vs) => vs,
                None => Seq::empty(),
            },
            None => Seq::empty(),
        },
    }
}

/// A parameter's default: its schema's, else the referenced schema's.
pub open spec fn param_default(schema: JsonV, target: Option<JsonV>) -> JsonV {
    if !(at(schema, "default"@) is Null) {
        at(schema, "default"@)
    } else {
        match target {
            Some(r) => at(r, "default"@),
            None => JsonV::Null,
        }
    }
}

pub open spec fn plains(vs: Seq<JsonV>) -> Seq<Seq<char>>
    decreases vs.len(),
{
    if vs.len() == 0 {
        Seq::empty()
    } else {
        plains(vs.drop_last()).push(plain(vs.last()))
    }
}

/// The available values and default shown under a parameter.
pub open spec fn param_meta(vals: Seq<JsonV>, dflt: JsonV) -> Seq<char> {
    (if vals.len() > 0 {
        "<p class=\"spec-param-meta\"><em>Available values</em>: "@ + escaped(join_sep(plains(vals), ", "@))
            + "</p>"@
    } else {
        Seq::empty()
    }) + if dflt is Null {
        Seq::empty()
    } else {
        "<p class=\"spec-param-meta\"><em>Default value</em>: <code>"@ + escaped(plain(dflt)) + "</code></p>"@
    }
}

/// The choices of an enum parameter's dropdown, its default selected.
pub open spec fn select_options(vals: Seq<JsonV>, dflt: Seq<char>) -> Seq<char>
    decreases vals.len(),
{
    if vals.len() == 0 {
        Seq::empty()
    } else {
        let v = plain(vals.last());
        select_options(vals.drop_last(), dflt) + "<option value=\""@ + escaped(v) + "\""@ + (if v == dflt {
            " selected"@
        } else {
            Seq::empty()
        }) + ">"@ + escaped(v) + "</option>"@
    }
}

/// The hidden value cell of a parameter's row: a dropdown for an enum, a
/// text box otherwise, for a path or query parameter when there is a
/// server to try it against.
pub open spec fn try_cell(can_try: bool, loc: Seq<char>, name: Seq<char>, vals: Seq<JsonV>, dflt: JsonV) -> Seq<
    char,
> {
    if can_try && (loc == "path"@ || loc == "query"@) {
        let field = if vals.len() > 0 {
            "<select data-name=\""@ + escaped(name) + "\">"@ + select_options(vals, plain(dflt)) + "</select>"@
        } else {
            "<input type=\"text\" data-name=\""@ + escaped(name) + "\""@ + (if dflt is Null {
                Seq::empty()
            } else {
                " value=\""@ + escaped(plain(dflt)) + "\""@
            }) + ">"@
        };
        "<td class=\"spec-try-col\" data-param=\""@ + loc + "\" hidden>"@ + field + "</td>"@
    } else if can_try {
        "<td class=\"spec-try-col\" hidden></td>"@
    } else {
        Seq::empty()
    }
}

/// One parameter's row: name, required badge, type and location, the
/// description with its available values and default, and the value cell.
pub open spec fn param_row(p: JsonV, can_try: bool, defs: Seq<(Seq<char>, JsonV)>) -> Seq<char> {
    let name = or_text(str_of(at(p, "name"@)), Seq::empty());
    let loc = or_text(str_of(at(p, "in"@)), "query"@);
    let schema = at(p, "schema"@);
    let target = resolved(schema, defs);
    let vals = param_enum(schema, target);
    let dflt = param_default(schema, target);
    "<tr><td><code>"@ + escaped(name) + "</code> "@ + (if at(p, "required"@) == JsonV::Bool(true) {
        "<span class=\"spec-required\">required</span>"@
    } else {
        "<span class=\"spec-optional\">optional</span>"@
    }) + "<div class=\"spec-param-meta-type\">"@ + escaped(type_str(schema)) + " ("@ + escaped(loc)
        + ")</div></td><td>"@ + escaped(param_desc(schema, target)) + param_meta(vals, dflt) + "</td>"@
        + try_cell(can_try, loc, name, vals, dflt) + "</tr>"@
}

pub open spec fn param_rows(ps: Seq<JsonV>, can_try: bool, defs: Seq<(Seq<char>, JsonV)>) -> Seq<char>
    decreases ps.len(),
{
    if ps.len() == 0 {
        Seq::empty()
    } else {
        param_rows(ps.drop_last(), can_try, defs) + param_row(ps.last(), can_try, defs)
    }
}

pub open spec fn server_options(servers: Seq<Seq<char>>) -> Seq<char>
    decreases servers.len(),
{
    if servers.len() == 0 {
        Seq::empty()
    } else {
        server_options(servers.drop_last()) + "<option value=\""@ + escaped(servers.last()) + "\">"@
            + escaped(servers.last()) + "</option>"@
    }
}

/// An operation's parameters table and "try it out" panel: the reference
/// columns always, and (with a server to send to) a hidden value column,
/// a request-body editor prefilled with the body's example, and the
/// server picker and Execute button. Nothing at all with no parameters
/// and no server.
pub open spec fn params_html(
    params: Seq<JsonV>,
    request: Option<JsonV>,
    servers: Seq<Seq<char>>,
    defs: Seq<(Seq<char>, JsonV)>,
) -> Seq<char> {
    let can_try = servers.len() > 0;
    if params.len() == 0 && !can_try {
        Seq::empty()
    } else {
        "<p class=\"spec-subhead\">Parameters"@ + (if can_try {
            " <button type=\"button\" class=\"spec-try-toggle\">Try it out</button>"@
        } else {
            Seq::empty()
        }) + "</p>"@ + (if params.len() > 0 {
            "<div class=\"tablewrap\"><table><thead><tr><th>name</th><th>description</th>"@ + (if can_try {
                "<th class=\"spec-try-col\" hidden>value</th>"@
            } else {
                Seq::empty()
            }) + "</tr></thead><tbody>"@ + param_rows(params, can_try, defs) + "</tbody></table></div>"@
        } else {
            Seq::empty()
        }) + if can_try {
            try_panel(request, servers, defs)
        } else {
            Seq::empty()
        }
    }
}


/// An optional document as plain values.
pub open spec fn opt_jv(o: Option<&Json>) -> Option<JsonV> {
    match o {
        Some(j) => Some(jv(*j)),
        None => None,
    }
}

fn str_at(j: &Json, k: &str) -> (r: Option<String>)
    ensures
        opt_view(r) == str_of(at(jv(*j), k@)),
{
    match json_get(j, k) {
        Some(Json::Str(t)) => Some(copy_str(t.as_str())),
        _ => None,
    }
}

fn copy_items(v: &Vec<Json>) -> (r: Vec<Json>)
    ensures
        jv_items(r@) == jv_items(v@),
{
    proof {
        lemma_jv_items(v@);
    }
    let mut out: Vec<Json> = Vec::new();
    let mut i: usize = 0;
    while i < v.len()
        invariant
            i <= v@.len(),
            jv_items(v@).len() == v@.len(),
            forall|x: int| 0 <= x < v@.len() ==> #[trigger] jv_items(v@)[x] == jv(v@[x]),
            jv_items(out@) == jv_items(v@).take(i as int),
        decreases v.len() - i,
    {
        let c = copy_json(&v[i]);
        let ghost before = out@;
        out.push(c);
        assert(out@.drop_last() =~= before);
        assert(jv_items(out@) =~= jv_items(v@).take(i + 1));
        i = i + 1;
    }
    assert(jv_items(v@).take(v@.len() as int) =~= jv_items(v@));
    out
}

/// The items of `j[k]` when it is a non-empty array.
fn nonempty_items_at(j: &Json, k: &str) -> (r: Option<Vec<Json>>)
    ensures
        match r {
            Some(v) => nonempty_items(get(jv(*j), k@)) == Some(jv_items(v@)),
            None => nonempty_items(get(jv(*j), k@)) is None,
        },
{
    match json_get(j, k) {
        Some(Json::Arr(vs)) => {
            proof {
                lemma_jv_items(vs@);
            }
            if vs.len() > 0 {
                Some(copy_items(vs))
            } else {
                None
            }
        },
        _ => None,
    }
}

fn param_desc_of(schema: &Json, target: Option<&Json>) -> (r: String)
    ensures
        r@ == param_desc(jv(*schema), opt_jv(target)),
{
    match str_at(schema, "description") {
        Some(d) => d,
        None => match target {
            Some(t) => match str_at(t, "description") {
                Some(d) => d,
                None => string_of(Vec::<char>::new().as_slice()),
            },
            None => string_of(Vec::<char>::new().as_slice()),
        },
    }
}

fn param_enum_of(schema: &Json, target: Option<&Json>) -> (r: Vec<Json>)
    ensures
        jv_items(r@) == param_enum(jv(*schema), opt_jv(target)),
{
    match nonempty_items_at(schema, "enum") {
        Some(v) => v,
        None => {
            let none: Vec<Json> = Vec::new();
            assert(jv_items(none@) =~= Seq::<JsonV>::empty());
            match target {
                Some(t) => match nonempty_items_at(t, "enum") {
                    Some(v) => v,
                    None => none,
                },
                None => none,
            }
        },
    }
}

fn param_default_of(schema: &Json, target: Option<&Json>) -> (r: Json)
    ensures
        jv(r) == param_default(jv(*schema), opt_jv(target)),
{
    match json_get(schema, "default") {
        Some(d) => {
            match d {
                Json::Null => {},
                _ => {
                    return copy_json(d);
                },
            }
        },
        None => {},
    }
    match target {
        Some(t) => match json_get(t, "default") {
            Some(d) => copy_json(d),
            None => Json::Null,
        },
        None => Json::Null,
    }
}

fn plains_of(vs: &Vec<Json>) -> (r: Vec<String>)
    ensures
        r@.map_values(|x: String| x@) == plains(jv_items(vs@)),
{
    proof {
        lemma_jv_items(vs@);
    }
    let ghost items = jv_items(vs@);
    let mut out: Vec<String> = Vec::new();
    let mut i: usize = 0;
    while i < vs.len()
        invariant
            i <= vs@.len(),
            items == jv_items(vs@),
            items.len() == vs@.len(),
            forall|x: int| 0 <= x < vs@.len() ==> #[trigger] items[x] == jv(vs@[x]),
            out@.map_values(|x: String| x@) == plains(items.take(i as int)),
        decreases vs.len() - i,
    {
        let ghost before = out@.map_values(|x: String| x@);
        let t = json_plain(&vs[i]);
        out.push(t);
        assert(items.take(i + 1).drop_last() =~= items.take(i as int));
        assert(items.take(i + 1).last() == jv(vs@[i as int]));
        assert(out@.map_values(|x: String| x@) =~= before.push(t@));
        i = i + 1;
    }
    assert(items.take(vs@.len() as int) =~= items);
    out
}

fn param_meta_of(vals: &Vec<Json>, dflt: &Json) -> (r: String)
    ensures
        r@ == param_meta(jv_items(vals@), jv(*dflt)),
{
    proof {
        lemma_jv_items(vals@);
        reveal_strlit("");
    }
    let mut r = copy_str("");
    if vals.len() > 0 {
        r.append("<p class=\"spec-param-meta\"><em>Available values</em>: ");
        r.append(escape(join_strs(&plains_of(vals), ", ").as_str()).as_str());
        r.append("</p>");
    }
    match dflt {
        Json::Null => {},
        _ => {
            r.append("<p class=\"spec-param-meta\"><em>Default value</em>: <code>");
            r.append(escape(json_plain(dflt).as_str()).as_str());
            r.append("</code></p>");
        },
    }
    assert(r@ =~= param_meta(jv_items(vals@), jv(*dflt)));
    r
}

fn select_options_of(vals: &Vec<Json>, dflt: &str) -> (r: String)
    ensures
        r@ == select_options(jv_items(vals@), dflt@),
{
    proof {
        lemma_jv_items(vals@);
        reveal_strlit("");
    }
    let ghost items = jv_items(vals@);
    let mut r = copy_str("");
    assert(r@ =~= select_options(items.take(0), dflt@));
    let mut i: usize = 0;
    while i < vals.len()
        invariant
            i <= vals@.len(),
            items == jv_items(vals@),
            items.len() == vals@.len(),
            forall|x: int| 0 <= x < vals@.len() ==> #[trigger] items[x] == jv(vals@[x]),
            r@ == select_options(items.take(i as int), dflt@),
        decreases vals.len() - i,
    {
        let v = json_plain(&vals[i]);
        let e = escape(v.as_str());
        r.append("<option value=\"");
        r.append(e.as_str());
        r.append("\"");
        if str_eq(v.as_str(), dflt) {
            r.append(" selected");
        }
        r.append(">");
        r.append(e.as_str());
        r.append("</option>");
        assert(items.take(i + 1).drop_last() =~= items.take(i as int));
        assert(items.take(i + 1).last() == jv(vals@[i as int]));
        i = i + 1;
    }
    assert(items.take(vals@.len() as int) =~= items);
    r
}

fn try_cell_of(can_try: bool, loc: &str, name: &str, vals: &Vec<Json>, dflt: &Json) -> (r: String)
    ensures
        r@ == try_cell(can_try, loc@, name@, jv_items(vals@), jv(*dflt)),
{
    proof {
        lemma_jv_items(vals@);
        reveal_strlit("");
        reveal_strlit("path");
        reveal_strlit("query");
    }
    if can_try && (str_eq(loc, "path") || str_eq(loc, "query")) {
        let mut field = copy_str("");
        if vals.len() > 0 {
            field.append("<select data-name=\"");
            field.append(escape(name).as_str());
            field.append("\">");
            field.append(select_options_of(vals, json_plain(dflt).as_str()).as_str());
            field.append("</select>");
        } else {
            field.append("<input type=\"text\" data-name=\"");
            field.append(escape(name).as_str());
            field.append("\"");
            match dflt {
                Json::Null => {},
                _ => {
                    field.append(" value=\"");
                    field.append(escape(json_plain(dflt).as_str()).as_str());
                    field.append("\"");
                },
            }
            field.append(">");
        }
        let mut r = copy_str("<td class=\"spec-try-col\" data-param=\"");
        r.append(loc);
        r.append("\" hidden>");
        r.append(field.as_str());
        r.append("</td>");
        assert(r@ =~= try_cell(can_try, loc@, name@, jv_items(vals@), jv(*dflt)));
        r
    } else if can_try {
        copy_str("<td class=\"spec-try-col\" hidden></td>")
    } else {
        let r = copy_str("");
        assert(r@ =~= Seq::<char>::empty());
        r
    }
}

fn param_row_of(p: &Json, can_try: bool, defs: &Vec<(String, Json)>) -> (r: String)
    ensures
        r@ == param_row(jv(*p), can_try, jv_members(defs@)),
{
    proof {
        reveal_strlit("");
        reveal_strlit("query");
    }
    let name = match str_at(p, "name") {
        Some(n) => n,
        None => copy_str(""),
    };
    let loc = match str_at(p, "in") {
        Some(l) => l,
        None => copy_str("query"),
    };
    let null = Json::Null;
    let schema: &Json = match json_get(p, "schema") {
        Some(x) => x,
        None => &null,
    };
    let target = resolve_ref(schema, defs);
    let vals = param_enum_of(schema, target);
    let dflt = param_default_of(schema, target);
    let required = match json_get(p, "required") {
        Some(Json::Bool(b)) => *b,
        _ => false,
    };
    let mut r = copy_str("<tr><td><code>");
    r.append(escape(name.as_str()).as_str());
    r.append("</code> ");
    if required {
        r.append("<span class=\"spec-required\">required</span>");
    } else {
        r.append("<span class=\"spec-optional\">optional</span>");
    }
    r.append("<div class=\"spec-param-meta-type\">");
    r.append(escape(type_of(schema).as_str()).as_str());
    r.append(" (");
    r.append(escape(loc.as_str()).as_str());
    r.append(")</div></td><td>");
    r.append(escape(param_desc_of(schema, target).as_str()).as_str());
    r.append(param_meta_of(&vals, &dflt).as_str());
    r.append("</td>");
    r.append(try_cell_of(can_try, loc.as_str(), name.as_str(), &vals, &dflt).as_str());
    r.append("</tr>");
    proof {
        let pv = jv(*p);
        assert(name@ == or_text(str_of(at(pv, "name"@)), Seq::empty())) by {
            if str_of(at(pv, "name"@)) is None {
                assert(name@ =~= Seq::<char>::empty());
            }
        }
        assert(jv(*schema) == at(pv, "schema"@));
        assert(required == (at(pv, "required"@) == JsonV::Bool(true)));
    }
    assert(r@ =~= param_row(jv(*p), can_try, jv_members(defs@)));
    r
}

fn param_rows_of(ps: &Vec<Json>, can_try: bool, defs: &Vec<(String, Json)>) -> (r: String)
    ensures
        r@ == param_rows(jv_items(ps@), can_try, jv_members(defs@)),
{
    proof {
        lemma_jv_items(ps@);
        reveal_strlit("");
    }
    let ghost pv = jv_items(ps@);
    let mut rows = copy_str("");
    assert(rows@ =~= param_rows(pv.take(0), can_try, jv_members(defs@)));
    let mut i: usize = 0;
    while i < ps.len()
        invariant
            i <= ps@.len(),
            pv == jv_items(ps@),
            pv.len() == ps@.len(),
            forall|x: int| 0 <= x < ps@.len() ==> #[trigger] pv[x] == jv(ps@[x]),
            rows@ == param_rows(pv.take(i as int), can_try, jv_members(defs@)),
        decreases ps.len() - i,
    {
        rows.append(param_row_of(&ps[i], can_try, defs).as_str());
        assert(pv.take(i + 1).drop_last() =~= pv.take(i as int));
        assert(pv.take(i + 1).last() == jv(ps@[i as int]));
        i = i + 1;
    }
    assert(pv.take(ps@.len() as int) =~= pv);
    rows
}

fn server_options_of(servers: &Vec<String>) -> (r: String)
    ensures
        r@ == server_options(servers@.map_values(|x: String| x@)),
{
    proof {
        reveal_strlit("");
    }
    let ghost sv = servers@.map_values(|x: String| x@);
    let mut options = copy_str("");
    assert(options@ =~= server_options(sv.take(0)));
    let mut i: usize = 0;
    while i < servers.len()
        invariant
            i <= servers@.len(),
            sv == servers@.map_values(|x: String| x@),
            options@ == server_options(sv.take(i as int)),
        decreases servers.len() - i,
    {
        let e = escape(servers[i].as_str());
        options.append("<option value=\"");
        options.append(e.as_str());
        options.append("\">");
        options.append(e.as_str());
        options.append("</option>");
        assert(sv.take(i + 1).drop_last() =~= sv.take(i as int));
        assert(sv.take(i + 1).last() == servers@[i as int]@);
        i = i + 1;
    }
    assert(sv.take(servers@.len() as int) =~= sv);
    options
}

/// The try-it-out panel below the table: the request-body editor, then the
/// server picker and Execute button.
pub open spec fn try_panel(request: Option<JsonV>, servers: Seq<Seq<char>>, defs: Seq<(Seq<char>, JsonV)>) -> Seq<
    char,
> {
    (match request {
        Some(r) => "<div class=\"spec-try-body\" hidden><p class=\"spec-subhead\">Request body</p><textarea class=\"spec-try-bodytext\">"@
            + escaped(serde_pretty(example(r, defs, Set::empty()))) + "</textarea></div>"@,
        None => Seq::empty(),
    }) + "<div class=\"spec-try-actions\" hidden><select class=\"spec-try-server\">"@ + server_options(servers)
        + "</select><button type=\"button\" class=\"spec-try-send\">Execute</button></div><div class=\"spec-try-result\" hidden><div class=\"spec-try-status\"></div><pre class=\"spec-try-out\"></pre></div>"@
}

fn try_panel_of(request: Option<&Json>, servers: &Vec<String>, defs: &Vec<(String, Json)>) -> (r: String)
    ensures
        r@ == try_panel(opt_jv(request), servers@.map_values(|x: String| x@), jv_members(defs@)),
{
    proof {
        reveal_strlit("");
    }
    let mut out = copy_str("");
    match request {
        Some(sc) => {
            let example = schema_example(sc, defs);
            out.append(
                "<div class=\"spec-try-body\" hidden><p class=\"spec-subhead\">Request body</p><textarea class=\"spec-try-bodytext\">",
            );
            out.append(escape(to_pretty(&example).as_str()).as_str());
            out.append("</textarea></div>");
        },
        None => {},
    }
    out.append("<div class=\"spec-try-actions\" hidden><select class=\"spec-try-server\">");
    out.append(server_options_of(servers).as_str());
    out.append(
        "</select><button type=\"button\" class=\"spec-try-send\">Execute</button></div><div class=\"spec-try-result\" hidden><div class=\"spec-try-status\"></div><pre class=\"spec-try-out\"></pre></div>",
    );
    assert(out@ =~= try_panel(opt_jv(request), servers@.map_values(|x: String| x@), jv_members(defs@)));
    out
}

/// See [`params_html`]. `params` is the operation's `parameters` array,
/// when it has one; `request` the schema of its request body.
pub fn parameters_and_try_html(
    params: Option<&Vec<Json>>,
    request: Option<&Json>,
    servers: &Vec<String>,
    defs: &Vec<(String, Json)>,
) -> (r: String)
    ensures
        r@ == params_html(
            match params {
                Some(v) => jv_items(v@),
                None => Seq::empty(),
            },
            opt_jv(request),
            servers@.map_values(|x: String| x@),
            jv_members(defs@),
        ),
{
    proof {
        reveal_strlit("");
    }
    let none: Vec<Json> = Vec::new();
    let ps: &Vec<Json> = match params {
        Some(v) => v,
        None => &none,
    };
    proof {
        lemma_jv_items(ps@);
        assert(jv_items(none@) =~= Seq::<JsonV>::empty());
    }
    let can_try = servers.len() > 0;
    if ps.len() == 0 && !can_try {
        let r = copy_str("");
        assert(r@ =~= Seq::<char>::empty());
        return r;
    }
    let mut out = copy_str("<p class=\"spec-subhead\">Parameters");
    if can_try {
        out.append(" <button type=\"button\" class=\"spec-try-toggle\">Try it out</button>");
    }
    out.append("</p>");
    if ps.len() > 0 {
        out.append("<div class=\"tablewrap\"><table><thead><tr><th>name</th><th>description</th>");
        if can_try {
            out.append("<th class=\"spec-try-col\" hidden>value</th>");
        }
        out.append("</tr></thead><tbody>");
        out.append(param_rows_of(ps, can_try, defs).as_str());
        out.append("</tbody></table></div>");
    }
    if can_try {
        out.append(try_panel_of(request, servers, defs).as_str());
    }
    assert(out@ =~= params_html(
        jv_items(ps@),
        opt_jv(request),
        servers@.map_values(|x: String| x@),
        jv_members(defs@),
    ));
    out
}

} // verus!
