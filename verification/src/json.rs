//! JSON values as plain data: what the spec renderers and the MCP server
//! read of a parsed document. Reading and writing JSON text is left to
//! serde_json.

use vstd::prelude::*;

use crate::text::{
    chars_lt, chars_of, copy_str, lemma_lex_asymmetric, lemma_lex_irreflexive, lemma_lex_total, lex_lt,
    str_eq,
};

verus! {

/// A parsed JSON document. Numbers keep the text serde_json writes for
/// them; object members keep the order the document's map gave them.
#[derive(Debug)]
pub enum Json {
    Null,
    Bool(bool),
    Num(String),
    Str(String),
    Arr(Vec<Json>),
    Obj(Vec<(String, Json)>),
}

/// [`Json`] as plain values.
pub enum JsonV {
    Null,
    Bool(bool),
    Num(Seq<char>),
    Str(Seq<char>),
    Arr(Seq<JsonV>),
    Obj(Seq<(Seq<char>, JsonV)>),
}

/// The plain value of a document.
pub open spec fn jv(j: Json) -> JsonV
    decreases j,
{
    match j {
        Json::Null => JsonV::Null,
        Json::Bool(b) => JsonV::Bool(b),
        Json::Num(n) => JsonV::Num(n@),
        Json::Str(s) => JsonV::Str(s@),
        Json::Arr(v) => JsonV::Arr(jv_items(v@)),
        Json::Obj(m) => JsonV::Obj(jv_members(m@)),
    }
}

pub open spec fn jv_items(s: Seq<Json>) -> Seq<JsonV>
    decreases s,
{
    if s.len() == 0 {
        Seq::empty()
    } else {
        jv_items(s.drop_last()).push(jv(s[s.len() - 1]))
    }
}

pub open spec fn jv_members(s: Seq<(String, Json)>) -> Seq<(Seq<char>, JsonV)>
    decreases s,
{
    if s.len() == 0 {
        Seq::empty()
    } else {
        jv_members(s.drop_last()).push((s[s.len() - 1].0@, jv(s[s.len() - 1].1)))
    }
}


pub proof fn lemma_jv_items(s: Seq<Json>)
    ensures
        jv_items(s).len() == s.len(),
        forall|i: int| 0 <= i < s.len() ==> #[trigger] jv_items(s)[i] == jv(s[i]),
    decreases s.len(),
{
    if s.len() > 0 {
        lemma_jv_items(s.drop_last());
    }
}

pub proof fn lemma_jv_members(s: Seq<(String, Json)>)
    ensures
        jv_members(s).len() == s.len(),
        forall|i: int| 0 <= i < s.len() ==> #[trigger] jv_members(s)[i] == (s[i].0@, jv(s[i].1)),
    decreases s.len(),
{
    if s.len() > 0 {
        lemma_jv_members(s.drop_last());
    }
}

/// The value of the first member, from `i` on, named `k`.
pub open spec fn member_from(ms: Seq<(Seq<char>, JsonV)>, k: Seq<char>, i: int) -> Option<JsonV>
    decreases ms.len() - i,
{
    if i < 0 || i >= ms.len() {
        None
    } else if ms[i].0 == k {
        Some(ms[i].1)
    } else {
        member_from(ms, k, i + 1)
    }
}

/// `value.get(k)`: an object's member named `k`; nothing for any other value.
pub open spec fn get(j: JsonV, k: Seq<char>) -> Option<JsonV> {
    match j {
        JsonV::Obj(ms) => member_from(ms, k, 0),
        _ => None,
    }
}

/// `value[k]`: the member, or null when there is none.
pub open spec fn at(j: JsonV, k: Seq<char>) -> JsonV {
    match get(j, k) {
        Some(v) => v,
        None => JsonV::Null,
    }
}

/// `as_str`: the text of a string value.
pub open spec fn str_of(j: JsonV) -> Option<Seq<char>> {
    match j {
        JsonV::Str(s) => Some(s),
        _ => None,
    }
}

/// A member's value is smaller than the object holding it.
pub proof fn lemma_member_smaller(ms: Seq<(Seq<char>, JsonV)>, k: Seq<char>, i: int)
    requires
        member_from(ms, k, i) is Some,
    ensures
        decreases_to!(JsonV::Obj(ms) => member_from(ms, k, i)->0),
    decreases ms.len() - i,
{
    if ms[i].0 == k {
        let j = JsonV::Obj(ms);
        assert(decreases_to!(j => j->Obj_0));
        assert(decreases_to!(j->Obj_0 => j->Obj_0[i]));
        assert(decreases_to!(j->Obj_0[i] => j->Obj_0[i].1));
    } else {
        lemma_member_smaller(ms, k, i + 1);
    }
}

/// See [`get`].
pub fn json_get<'a>(j: &'a Json, k: &str) -> (r: Option<&'a Json>)
    ensures
        match r {
            Some(x) => get(jv(*j), k@) == Some(jv(*x)) && decreases_to!(*j => *x),
            None => get(jv(*j), k@) is None,
        },
{
    match j {
        Json::Obj(m) => {
            proof {
                lemma_jv_members(m@);
            }
            let ghost ms = jv_members(m@);
            assert(jv(*j) == JsonV::Obj(ms));
            let mut i: usize = 0;
            while i < m.len()
                invariant
                    *j == Json::Obj(*m),
                    jv(*j) == JsonV::Obj(ms),
                    i <= m@.len(),
                    ms == jv_members(m@),
                    ms.len() == m@.len(),
                    forall|x: int| 0 <= x < m@.len() ==> #[trigger] ms[x] == (m@[x].0@, jv(m@[x].1)),
                    member_from(ms, k@, i as int) == member_from(ms, k@, 0),
                decreases m.len() - i,
            {
                assert(ms[i as int] == (m@[i as int].0@, jv(m@[i as int].1)));
                if crate::text::str_eq(m[i].0.as_str(), k) {
                    proof {
                        assert(decreases_to!(*j => (*j)->Obj_0));
                        assert(decreases_to!((*j)->Obj_0 => (*j)->Obj_0@));
                        assert(decreases_to!((*j)->Obj_0@ => (*j)->Obj_0@[i as int]));
                        assert(decreases_to!((*j)->Obj_0@[i as int] => (*j)->Obj_0@[i as int].1));
                    }
                    return Some(&m[i].1);
                }
                i = i + 1;
            }
            None
        },
        _ => None,
    }
}


// ---------------------------------------------------------------- serde_json

/// serde_json's document type, carried through unread.
#[verifier::external_type_specification]
#[verifier::external_body]
pub struct ExValue(serde_json::Value);

/// A document as serde_json holds it: a value for a value, an object's
/// members collected into serde_json's map, a number read from its text
/// (null when the text is not a JSON number). Nothing is stated of the
/// result; it is only handed to serde_json.
#[verifier::external_body]
fn value_of(j: &Json) -> serde_json::Value {
    match j {
        Json::Null => serde_json::Value::Null,
        Json::Bool(b) => serde_json::Value::Bool(*b),
        Json::Num(n) => match n.parse::<serde_json::Number>() {
            Ok(x) => serde_json::Value::Number(x),
            Err(_) => serde_json::Value::Null,
        },
        Json::Str(t) => serde_json::Value::String(t.clone()),
        Json::Arr(v) => serde_json::Value::Array(v.iter().map(value_of).collect()),
        Json::Obj(m) => serde_json::Value::Object(m.iter().map(|(k, v)| (k.clone(), value_of(v))).collect()),
    }
}

/// A serde_json document as plain data: each value for its value, an
/// object's members in the order serde_json's map gives them, a number by
/// the text serde_json writes for it. Nothing is stated of the result
/// beyond what [`parse_json`] names.
#[verifier::external_body]
fn json_of(v: &serde_json::Value) -> Json {
    match v {
        serde_json::Value::Null => Json::Null,
        serde_json::Value::Bool(b) => Json::Bool(*b),
        serde_json::Value::Number(n) => Json::Num(n.to_string()),
        serde_json::Value::String(t) => Json::Str(t.clone()),
        serde_json::Value::Array(a) => Json::Arr(a.iter().map(json_of).collect()),
        serde_json::Value::Object(m) => Json::Obj(m.iter().map(|(k, v)| (k.clone(), json_of(v))).collect()),
    }
}

/// The compact text serde_json's `Value::to_string` writes for a value; a
/// function of the value alone.
pub uninterp spec fn serde_text(j: JsonV) -> Seq<char>;

/// The text `serde_json::to_string_pretty` writes for a value; a function
/// of the value alone.
pub uninterp spec fn serde_pretty(j: JsonV) -> Seq<char>;

/// What `serde_json::from_str::<Value>` reads from a text: the document
/// when the text is JSON, nothing otherwise; a function of the text alone.
pub uninterp spec fn serde_parse(text: Seq<char>) -> Option<JsonV>;

/// `Value::to_string` of the document; the contract claims only that the
/// result is [`serde_text`] of the value, not what serde_json writes.
#[verifier::external_body]
pub fn to_text(j: &Json) -> (r: String)
    ensures
        r@ == serde_text(jv(*j)),
{
    value_of(j).to_string()
}

/// `serde_json::to_string_pretty` of the document (empty if it fails);
/// the contract claims only that the result is [`serde_pretty`] of the
/// value, not what serde_json writes.
#[verifier::external_body]
pub fn to_pretty(j: &Json) -> (r: String)
    ensures
        r@ == serde_pretty(jv(*j)),
{
    serde_json::to_string_pretty(&value_of(j)).unwrap_or_default()
}

/// `serde_json::from_str::<Value>` of a text, the parsed document when it
/// is JSON; the contract claims only that the result is [`serde_parse`]
/// of the text, not what serde_json accepts.
#[verifier::external_body]
pub fn parse_json(text: &str) -> (r: Option<Json>)
    ensures
        match r {
            Some(j) => serde_parse(text@) == Some(jv(j)),
            None => serde_parse(text@) is None,
        },
{
    match serde_json::from_str::<serde_json::Value>(text) {
        Ok(v) => Some(json_of(&v)),
        Err(_) => None,
    }
}

/// A present member is smaller than its object.
pub proof fn lemma_get_smaller(j: JsonV, k: Seq<char>)
    requires
        get(j, k) is Some,
    ensures
        decreases_to!(j => get(j, k)->0),
{
    match j {
        JsonV::Obj(ms) => lemma_member_smaller(ms, k, 0),
        _ => {},
    }
}

/// The value of the first of `m`'s members named `k`.
pub fn member_get<'a>(m: &'a Vec<(String, Json)>, k: &str) -> (r: Option<&'a Json>)
    ensures
        match r {
            Some(x) => member_from(jv_members(m@), k@, 0) == Some(jv(*x)),
            None => member_from(jv_members(m@), k@, 0) is None,
        },
{
    proof {
        lemma_jv_members(m@);
    }
    let ghost ms = jv_members(m@);
    let mut i: usize = 0;
    while i < m.len()
        invariant
            i <= m@.len(),
            ms == jv_members(m@),
            ms.len() == m@.len(),
            forall|x: int| 0 <= x < m@.len() ==> #[trigger] ms[x] == (m@[x].0@, jv(m@[x].1)),
            member_from(ms, k@, i as int) == member_from(ms, k@, 0),
        decreases m.len() - i,
    {
        assert(ms[i as int] == (m@[i as int].0@, jv(m@[i as int].1)));
        if crate::text::str_eq(m[i].0.as_str(), k) {
            return Some(&m[i].1);
        }
        i = i + 1;
    }
    None
}


// ---------------------------------------------------------------- building

/// A copy of a document.
pub fn copy_json(j: &Json) -> (r: Json)
    ensures
        jv(r) == jv(*j),
    decreases j,
{
    match j {
        Json::Null => Json::Null,
        Json::Bool(b) => Json::Bool(*b),
        Json::Num(n) => Json::Num(copy_str(n.as_str())),
        Json::Str(t) => Json::Str(copy_str(t.as_str())),
        Json::Arr(v) => {
            proof {
                lemma_jv_items(v@);
            }
            let mut out: Vec<Json> = Vec::new();
            let mut i: usize = 0;
            while i < v.len()
                invariant
                    i <= v@.len(),
                    *j == Json::Arr(*v),
                    jv_items(v@).len() == v@.len(),
                    forall|x: int| 0 <= x < v@.len() ==> #[trigger] jv_items(v@)[x] == jv(v@[x]),
                    jv_items(out@) == jv_items(v@).take(i as int),
                decreases v.len() - i,
            {
                proof {
                    assert(decreases_to!(*j => (*j)->Arr_0));
                    assert(decreases_to!((*j)->Arr_0 => (*j)->Arr_0@));
                    assert(decreases_to!((*j)->Arr_0@ => (*j)->Arr_0@[i as int]));
                }
                let c = copy_json(&v[i]);
                let ghost before = out@;
                out.push(c);
                proof {
                    assert(out@.drop_last() =~= before);
                    assert(jv_items(out@) =~= jv_items(v@).take(i + 1));
                }
                i = i + 1;
            }
            assert(jv_items(v@).take(v@.len() as int) =~= jv_items(v@));
            Json::Arr(out)
        },
        Json::Obj(m) => {
            proof {
                lemma_jv_members(m@);
            }
            let mut out: Vec<(String, Json)> = Vec::new();
            let mut i: usize = 0;
            while i < m.len()
                invariant
                    i <= m@.len(),
                    *j == Json::Obj(*m),
                    jv_members(m@).len() == m@.len(),
                    forall|x: int| 0 <= x < m@.len() ==> #[trigger] jv_members(m@)[x] == (m@[x].0@, jv(m@[x].1)),
                    jv_members(out@) == jv_members(m@).take(i as int),
                decreases m.len() - i,
            {
                proof {
                    assert(decreases_to!(*j => (*j)->Obj_0));
                    assert(decreases_to!((*j)->Obj_0 => (*j)->Obj_0@));
                    assert(decreases_to!((*j)->Obj_0@ => (*j)->Obj_0@[i as int]));
                    assert(decreases_to!((*j)->Obj_0@[i as int] => (*j)->Obj_0@[i as int].1));
                }
                let c = copy_json(&m[i].1);
                let ghost before = out@;
                out.push((copy_str(m[i].0.as_str()), c));
                proof {
                    assert(out@.drop_last() =~= before);
                    assert(jv_members(out@) =~= jv_members(m@).take(i + 1));
                }
                i = i + 1;
            }
            assert(jv_members(m@).take(m@.len() as int) =~= jv_members(m@));
            Json::Obj(out)
        },
    }
}

/// `ms` with `k` set to `v`, as a `BTreeMap` insert leaves its members:
/// a member named `k` has its value replaced, else one is inserted where
/// its name sorts.
pub open spec fn obj_insert(ms: Seq<(Seq<char>, JsonV)>, k: Seq<char>, v: JsonV) -> Seq<(Seq<char>, JsonV)>
    decreases ms.len(),
{
    if ms.len() == 0 {
        seq![(k, v)]
    } else if ms[0].0 == k {
        seq![(k, v)] + ms.drop_first()
    } else if lex_lt(k, ms[0].0) {
        seq![(k, v)] + ms
    } else {
        seq![ms[0]] + obj_insert(ms.drop_first(), k, v)
    }
}

proof fn lemma_obj_insert_at(ms: Seq<(Seq<char>, JsonV)>, k: Seq<char>, v: JsonV, i: int)
    requires
        0 <= i <= ms.len(),
        forall|j: int| 0 <= j < i ==> lex_lt(#[trigger] ms[j].0, k),
        i < ms.len() ==> !lex_lt(ms[i].0, k),
    ensures
        obj_insert(ms, k, v) == if i < ms.len() && ms[i].0 == k {
            ms.take(i) + seq![(k, v)] + ms.skip(i + 1)
        } else {
            ms.take(i) + seq![(k, v)] + ms.skip(i)
        },
    decreases i,
{
    if i == 0 {
        if ms.len() > 0 {
            if ms[0].0 != k {
                lemma_lex_total(ms[0].0, k);
            }
            assert(ms.skip(1) =~= ms.drop_first());
            assert(ms.skip(0) =~= ms);
        }
        assert(ms.take(0) =~= Seq::<(Seq<char>, JsonV)>::empty());
    } else {
        lemma_lex_irreflexive(k);
        assert(lex_lt(ms[0].0, k));
        lemma_lex_asymmetric(ms[0].0, k);
        let rest = ms.drop_first();
        assert forall|j: int| 0 <= j < i - 1 implies lex_lt(#[trigger] rest[j].0, k) by {
            assert(rest[j] == ms[j + 1]);
        }
        lemma_obj_insert_at(rest, k, v, i - 1);
        if i < ms.len() && ms[i].0 == k {
            assert(ms.take(i) + seq![(k, v)] + ms.skip(i + 1) =~= seq![ms[0]] + (rest.take(i - 1) + seq![(k, v)]
                + rest.skip(i)));
        } else {
            assert(ms.take(i) + seq![(k, v)] + ms.skip(i) =~= seq![ms[0]] + (rest.take(i - 1) + seq![(k, v)]
                + rest.skip(i - 1)));
        }
    }
}

/// Sets `k` to `v` in `ms`; see [`obj_insert`].
pub fn obj_put(ms: &mut Vec<(String, Json)>, k: String, v: Json)
    ensures
        jv_members(final(ms)@) == obj_insert(jv_members(old(ms)@), k@, jv(v)),
{
    proof {
        lemma_jv_members(ms@);
    }
    let ghost m0 = jv_members(ms@);
    let kc = chars_of(k.as_str());
    let mut i: usize = 0;
    while i < ms.len() && chars_lt(&chars_of(ms[i].0.as_str()), &kc)
        invariant
            i <= ms@.len(),
            kc@ == k@,
            m0 == jv_members(ms@),
            m0.len() == ms@.len(),
            forall|x: int| 0 <= x < ms@.len() ==> #[trigger] m0[x] == (ms@[x].0@, jv(ms@[x].1)),
            forall|j: int| 0 <= j < i ==> lex_lt(#[trigger] m0[j].0, k@),
        decreases ms.len() - i,
    {
        i = i + 1;
    }
    proof {
        lemma_obj_insert_at(m0, k@, jv(v), i as int);
    }
    let ghost kv = k@;
    let ghost vv = jv(v);
    if i < ms.len() && str_eq(ms[i].0.as_str(), k.as_str()) {
        let _ = ms.remove(i);
        ms.insert(i, (k, v));
    } else {
        ms.insert(i, (k, v));
    }
    proof {
        lemma_jv_members(ms@);
        assert(jv_members(ms@) =~= obj_insert(m0, kv, vv));
    }
}

} // verus!
