//! Pieces the API reference pages share: the page head, the gap and note
//! admonitions, request bodies and responses, collapsed rows, the schemas
//! section and an OpenAPI operation's row.
//!
//! Every request, response, payload and argument schema is shown as a pair
//! of tabs; `id` counts those pairs through a page, the way a process-wide
//! `AtomicU32` counter would, so that no two pairs share a name.

use vstd::prelude::*;

use crate::json::{at, get, json_get, jv, jv_items, jv_members, lemma_jv_members, str_of, Json, JsonV};
use crate::spec_html::{after_last_slash, method_badge, spec_method_badge, spec_status_class, status_class};
use crate::spec_schema::{
    example_tabs, hint_of, items_of, members_of, or_text, params_html, parameters_and_try_html, schema_hint, schema_html,
    schema_html_of, schema_with_example_html,
};
use crate::text::{
    chars_of, copy_str, decimal, decimal_string, escape, escaped, last_index_of, rfind_char, slice_chars, string_of,
    upper_str, uppered,
};
use crate::toml_lines::{ostr, strs};

verus! {

/// What a spec document says of the API it describes, beside its paths.
#[derive(Clone, Debug, Default)]
pub struct Info {
    pub title: String,
    pub version: String,
    pub description: Option<String>,
    pub servers: Vec<String>,
}

/// The tab id after `id`; the counter wraps as `AtomicU32::fetch_add` does.
pub open spec fn next_id(id: u32) -> u32 {
    if id == 0xffff_ffffu32 {
        0
    } else {
        (id + 1) as u32
    }
}

/// Hands out the current id and moves the counter on.
pub(crate) fn take_id(id: &mut u32) -> (r: u32)
    ensures
        r == *old(id),
        *final(id) == next_id(*old(id)),
{
    let r = *id;
    if r == 0xffff_ffffu32 {
        *id = 0;
    } else {
        *id = r + 1;
    }
    r
}

/// The members of an object, or none for any other value.
pub open spec fn members_or_empty(o: Option<Seq<(Seq<char>, JsonV)>>) -> Seq<(Seq<char>, JsonV)> {
    match o {
        Some(ms) => ms,
        None => Seq::empty(),
    }
}

/// The members of `j[k]` when it is an object.
pub(crate) fn members_at<'a>(j: &'a Json, k: &str) -> (r: Option<&'a Vec<(String, Json)>>)
    ensures
        match r {
            Some(m) => members_of(get(jv(*j), k@)) == Some(jv_members(m@)),
            None => members_of(get(jv(*j), k@)) is None,
        },
{
    match json_get(j, k) {
        Some(Json::Obj(m)) => Some(m),
        _ => None,
    }
}

/// The text of `j[k]` when it is a string.
pub(crate) fn str_at<'a>(j: &'a Json, k: &str) -> (r: Option<&'a String>)
    ensures
        match r {
            Some(s) => str_of(at(jv(*j), k@)) == Some(s@),
            None => str_of(at(jv(*j), k@)) is None,
        },
{
    match json_get(j, k) {
        Some(Json::Str(s)) => Some(s),
        _ => None,
    }
}

// ---------------------------------------------------------------- gaps and notes

/// One `    - item` line per item.
pub open spec fn bullets(items: Seq<Seq<char>>) -> Seq<char>
    decreases items.len(),
{
    if items.len() == 0 {
        Seq::empty()
    } else {
        bullets(items.drop_last()) + "    - "@ + items.last() + "\n"@
    }
}

/// The admonitions every page opens with: what the extractor could not
/// derive from the code (a warning) and what the dialect cannot express as
/// precisely as the code states it (a note), each only when there is any.
pub open spec fn gaps_notes(gaps: Seq<Seq<char>>, notes: Seq<Seq<char>>) -> Seq<char> {
    (if gaps.len() == 0 {
        Seq::empty()
    } else {
        "!!! warning \""@ + decimal(gaps.len()) + " gap(s) the extractor could not derive\"\n"@ + bullets(gaps)
            + "\n"@
    }) + (if notes.len() == 0 {
        Seq::empty()
    } else {
        "!!! note \""@ + decimal(notes.len())
            + " note(s): shapes this dialect cannot express as precisely as the code states them\"\n"@
            + bullets(notes) + "\n"@
    })
}

fn push_bullets(out: &mut String, items: &[String])
    ensures
        final(out)@ == old(out)@ + bullets(strs(items@)),
{
    let ghost start = out@;
    let mut i: usize = 0;
    while i < items.len()
        invariant
            i <= items@.len(),
            out@ == start + bullets(strs(items@).take(i as int)),
        decreases items.len() - i,
    {
        out.append("    - ");
        out.append(items[i].as_str());
        out.append("\n");
        assert(strs(items@).take(i + 1).drop_last() =~= strs(items@).take(i as int));
        i = i + 1;
    }
    assert(strs(items@).take(items@.len() as int) =~= strs(items@));
}

/// Appends the page's gap and note admonitions; see [`gaps_notes`].
pub fn push_gaps_notes(out: &mut String, gaps: &[String], notes: &[String])
    ensures
        final(out)@ == old(out)@ + gaps_notes(strs(gaps@), strs(notes@)),
{
    let ghost start = out@;
    if gaps.len() > 0 {
        out.append("!!! warning \"");
        out.append(decimal_string(gaps.len() as u64).as_str());
        out.append(" gap(s) the extractor could not derive\"\n");
        push_bullets(out, gaps);
        out.append("\n");
    }
    let ghost mid = out@;
    assert(mid =~= start + (if gaps@.len() == 0 {
        Seq::empty()
    } else {
        "!!! warning \""@ + decimal(gaps@.len()) + " gap(s) the extractor could not derive\"\n"@ + bullets(
            strs(gaps@),
        ) + "\n"@
    }));
    if notes.len() > 0 {
        out.append("!!! note \"");
        out.append(decimal_string(notes.len() as u64).as_str());
        out.append(" note(s): shapes this dialect cannot express as precisely as the code states them\"\n");
        push_bullets(out, notes);
        out.append("\n");
    }
    assert(out@ =~= start + gaps_notes(strs(gaps@), strs(notes@)));
}

// ---------------------------------------------------------------- bodies and responses

/// One `content-type` line and schema tabs per media type, ids handed out
/// in order; also gives the id after the last.
pub open spec fn media_tabs(ms: Seq<(Seq<char>, JsonV)>, defs: Seq<(Seq<char>, JsonV)>, id: u32) -> (
    Seq<char>,
    u32,
)
    decreases ms.len(),
{
    if ms.len() == 0 {
        (Seq::empty(), id)
    } else {
        let prev = media_tabs(ms.drop_last(), defs, id);
        (
            prev.0 + "<p class=\"spec-ct\">"@ + escaped(ms.last().0) + "</p>"@ + example_tabs(
                at(ms.last().1, "schema"@),
                defs,
                prev.1 as nat,
            ),
            next_id(prev.1),
        )
    }
}

fn push_medium(out: &mut String, ct: &str, media: &Json, defs: &Vec<(String, Json)>, id: &mut u32)
    ensures
        final(out)@ == old(out)@ + "<p class=\"spec-ct\">"@ + escaped(ct@) + "</p>"@ + example_tabs(
            at(jv(*media), "schema"@),
            jv_members(defs@),
            *old(id) as nat,
        ),
        *final(id) == next_id(*old(id)),
{
    let null = Json::Null;
    out.append("<p class=\"spec-ct\">");
    out.append(escape(ct).as_str());
    out.append("</p>");
    let sc: &Json = match json_get(media, "schema") {
        Some(s) => s,
        None => &null,
    };
    let t = take_id(id);
    out.append(schema_with_example_html(sc, defs, t).as_str());
}

#[verifier::rlimit(40)]
fn push_media(out: &mut String, ms: &Vec<(String, Json)>, defs: &Vec<(String, Json)>, id: &mut u32)
    ensures
        final(out)@ == old(out)@ + media_tabs(jv_members(ms@), jv_members(defs@), *old(id)).0,
        *final(id) == media_tabs(jv_members(ms@), jv_members(defs@), *old(id)).1,
{
    proof {
        lemma_jv_members(ms@);
    }
    let ghost start = out@;
    let ghost id0 = *id;
    let ghost mv = jv_members(ms@);
    let ghost dv = jv_members(defs@);
    let mut i: usize = 0;
    while i < ms.len()
        invariant
            i <= ms@.len(),
            mv == jv_members(ms@),
            dv == jv_members(defs@),
            mv.len() == ms@.len(),
            forall|x: int| 0 <= x < ms@.len() ==> #[trigger] mv[x] == (ms@[x].0@, jv(ms@[x].1)),
            out@ == start + media_tabs(mv.take(i as int), dv, id0).0,
            *id == media_tabs(mv.take(i as int), dv, id0).1,
        decreases ms.len() - i,
    {
        assert(mv.take(i + 1).drop_last() =~= mv.take(i as int));
        assert(mv.take(i + 1).last() == mv[i as int]);
        push_medium(out, ms[i].0.as_str(), &ms[i].1, defs, id);
        i = i + 1;
    }
    assert(mv.take(ms@.len() as int) =~= mv);
}

/// The request-body section of an operation: each media type's schema.
pub open spec fn request_body(rb: JsonV, defs: Seq<(Seq<char>, JsonV)>, id: u32) -> (Seq<char>, u32) {
    let m = media_tabs(members_or_empty(members_of(get(rb, "content"@))), defs, id);
    ("<p class=\"spec-subhead\">Request body</p>"@ + m.0, m.1)
}

/// See [`request_body`]; `id` is the next tab id, and is moved on past the
/// ids used.
pub fn request_body_html(rb: &Json, defs: &Vec<(String, Json)>, id: &mut u32) -> (r: String)
    ensures
        r@ == request_body(jv(*rb), jv_members(defs@), *old(id)).0,
        *final(id) == request_body(jv(*rb), jv_members(defs@), *old(id)).1,
{
    let mut out = copy_str("<p class=\"spec-subhead\">Request body</p>");
    let empty: Vec<(String, Json)> = Vec::new();
    let ms: &Vec<(String, Json)> = match members_at(rb, "content") {
        Some(m) => m,
        None => &empty,
    };
    assert(jv_members(empty@) =~= Seq::<(Seq<char>, JsonV)>::empty());
    push_media(&mut out, ms, defs, id);
    out
}

/// One response's status line, followed by its media types' schemas.
pub open spec fn response_block(code: Seq<char>, resp: JsonV, defs: Seq<(Seq<char>, JsonV)>, id: u32) -> (
    Seq<char>,
    u32,
) {
    let m = media_tabs(members_or_empty(members_of(get(resp, "content"@))), defs, id);
    (
        "<div class=\"spec-status-line\"><code class=\"spec-status-code "@ + spec_status_class(code) + "\">"@
            + escaped(code) + "</code><span class=\"spec-status-desc\">"@ + escaped(
            or_text(str_of(at(resp, "description"@)), Seq::empty()),
        ) + "</span></div>"@ + m.0,
        m.1,
    )
}

/// Each response's block in turn, ids handed out in order.
pub open spec fn response_blocks(rs: Seq<(Seq<char>, JsonV)>, defs: Seq<(Seq<char>, JsonV)>, id: u32) -> (
    Seq<char>,
    u32,
)
    decreases rs.len(),
{
    if rs.len() == 0 {
        (Seq::empty(), id)
    } else {
        let prev = response_blocks(rs.drop_last(), defs, id);
        let b = response_block(rs.last().0, rs.last().1, defs, prev.1);
        (prev.0 + b.0, b.1)
    }
}

fn push_response(out: &mut String, code: &str, resp: &Json, defs: &Vec<(String, Json)>, id: &mut u32)
    ensures
        final(out)@ == old(out)@ + response_block(code@, jv(*resp), jv_members(defs@), *old(id)).0,
        *final(id) == response_block(code@, jv(*resp), jv_members(defs@), *old(id)).1,
{
    proof {
        reveal_strlit("");
    }
    let ghost before = out@;
    out.append("<div class=\"spec-status-line\"><code class=\"spec-status-code ");
    out.append(status_class(code));
    out.append("\">");
    out.append(escape(code).as_str());
    out.append("</code><span class=\"spec-status-desc\">");
    match str_at(resp, "description") {
        Some(d) => out.append(escape(d.as_str()).as_str()),
        None => out.append(escape("").as_str()),
    }
    out.append("</span></div>");
    let empty: Vec<(String, Json)> = Vec::new();
    assert(jv_members(empty@) =~= Seq::<(Seq<char>, JsonV)>::empty());
    let ms: &Vec<(String, Json)> = match members_at(resp, "content") {
        Some(m) => m,
        None => &empty,
    };
    push_media(out, ms, defs, id);
    assert(final(out)@ =~= before + response_block(code@, jv(*resp), jv_members(defs@), *old(id)).0);
}

/// The responses section of an operation.
pub open spec fn responses(rs: Seq<(Seq<char>, JsonV)>, defs: Seq<(Seq<char>, JsonV)>, id: u32) -> (Seq<char>, u32) {
    let b = response_blocks(rs, defs, id);
    ("<p class=\"spec-subhead\">Responses</p>"@ + b.0, b.1)
}

/// See [`responses`]; `id` is the next tab id, and is moved on past the
/// ids used.
pub fn responses_html(rs: &Vec<(String, Json)>, defs: &Vec<(String, Json)>, id: &mut u32) -> (r: String)
    ensures
        r@ == responses(jv_members(rs@), jv_members(defs@), *old(id)).0,
        *final(id) == responses(jv_members(rs@), jv_members(defs@), *old(id)).1,
{
    proof {
        lemma_jv_members(rs@);
    }
    let ghost id0 = *id;
    let ghost mv = jv_members(rs@);
    let ghost dv = jv_members(defs@);
    let mut out = copy_str("<p class=\"spec-subhead\">Responses</p>");
    let ghost start = out@;
    let mut i: usize = 0;
    while i < rs.len()
        invariant
            i <= rs@.len(),
            mv == jv_members(rs@),
            dv == jv_members(defs@),
            mv.len() == rs@.len(),
            forall|x: int| 0 <= x < rs@.len() ==> #[trigger] mv[x] == (rs@[x].0@, jv(rs@[x].1)),
            out@ == start + response_blocks(mv.take(i as int), dv, id0).0,
            *id == response_blocks(mv.take(i as int), dv, id0).1,
        decreases rs.len() - i,
    {
        assert(mv.take(i + 1).drop_last() =~= mv.take(i as int));
        assert(mv.take(i + 1).last() == mv[i as int]);
        push_response(&mut out, rs[i].0.as_str(), &rs[i].1, defs, id);
        i = i + 1;
    }
    assert(mv.take(rs@.len() as int) =~= mv);
    out
}

// ---------------------------------------------------------------- rows

/// A row's disclosure chevron.
pub open spec fn chevron() -> Seq<char> {
    "<svg class=\"spec-row-chevron\" width=\"11\" height=\"11\" viewBox=\"0 0 16 16\" fill=\"none\" aria-hidden=\"true\"><path d=\"M5 2.5 L11 8 L5 13.5\" stroke=\"currentColor\" stroke-width=\"1.6\" stroke-linecap=\"round\" stroke-linejoin=\"round\"/></svg>"@
}

pub(crate) fn push_chevron(out: &mut String)
    ensures
        final(out)@ == old(out)@ + chevron(),
{
    out.append(
        "<svg class=\"spec-row-chevron\" width=\"11\" height=\"11\" viewBox=\"0 0 16 16\" fill=\"none\" aria-hidden=\"true\"><path d=\"M5 2.5 L11 8 L5 13.5\" stroke=\"currentColor\" stroke-width=\"1.6\" stroke-linecap=\"round\" stroke-linejoin=\"round\"/></svg>",
    );
}

/// A collapsed row with a name and a one-line description, opening on
/// `body`.
pub open spec fn named_row(name: Seq<char>, desc: Seq<char>, body: Seq<char>) -> Seq<char> {
    "<details class=\"spec-row\"><summary><span class=\"spec-row-name\">"@ + escaped(name)
        + "</span><span class=\"spec-row-desc\">"@ + escaped(desc) + "</span>"@ + chevron()
        + "</summary><div class=\"spec-body\">"@ + body + "</div></details>"@
}

pub(crate) fn named_row_html(name: &str, desc: &str, body: &str) -> (r: String)
    ensures
        r@ == named_row(name@, desc@, body@),
{
    let mut out = copy_str("<details class=\"spec-row\"><summary><span class=\"spec-row-name\">");
    out.append(escape(name).as_str());
    out.append("</span><span class=\"spec-row-desc\">");
    out.append(escape(desc).as_str());
    out.append("</span>");
    push_chevron(&mut out);
    out.append("</summary><div class=\"spec-body\">");
    out.append(body);
    out.append("</div></details>");
    out
}

/// A named schema's row body: its description, when it has one, then its
/// property table.
pub open spec fn schema_body(schema: JsonV) -> Seq<char> {
    (match str_of(at(schema, "description"@)) {
        Some(d) => "<p>"@ + escaped(d) + "</p>"@,
        None => Seq::empty(),
    }) + schema_html(schema)
}

/// One collapsed row per named schema.
pub open spec fn schema_rows(ms: Seq<(Seq<char>, JsonV)>) -> Seq<char>
    decreases ms.len(),
{
    if ms.len() == 0 {
        Seq::empty()
    } else {
        schema_rows(ms.drop_last()) + named_row(ms.last().0, schema_hint(ms.last().1), schema_body(ms.last().1))
    }
}

/// The schemas section closing a page: a row per named schema, or nothing
/// when there are none.
pub open spec fn schemas_part(schemas: JsonV) -> Seq<char> {
    match schemas {
        JsonV::Obj(ms) => if ms.len() > 0 {
            "\n## Schemas <sup>"@ + decimal(ms.len()) + " type(s)</sup>\n\n<div class=\"spec-rowlist\">"@
                + schema_rows(ms) + "</div>\n"@
        } else {
            Seq::empty()
        },
        _ => Seq::empty(),
    }
}

fn schema_row_html(name: &str, schema: &Json) -> (r: String)
    ensures
        r@ == named_row(name@, schema_hint(jv(*schema)), schema_body(jv(*schema))),
{
    proof {
        reveal_strlit("");
    }
    let mut body = copy_str("");
    match str_at(schema, "description") {
        Some(d) => {
            body.append("<p>");
            body.append(escape(d.as_str()).as_str());
            body.append("</p>");
        },
        None => {},
    }
    body.append(schema_html_of(schema).as_str());
    assert(body@ =~= schema_body(jv(*schema)));
    named_row_html(name, hint_of(schema).as_str(), body.as_str())
}

/// See [`schemas_part`].
pub fn schemas_section(schemas: &Json) -> (r: String)
    ensures
        r@ == schemas_part(jv(*schemas)),
{
    proof {
        reveal_strlit("");
    }
    match schemas {
        Json::Obj(ms) => {
            proof {
                lemma_jv_members(ms@);
            }
            let ghost mv = jv_members(ms@);
            if ms.len() == 0 {
                return copy_str("");
            }
            let mut rows = copy_str("");
            let mut i: usize = 0;
            while i < ms.len()
                invariant
                    i <= ms@.len(),
                    mv == jv_members(ms@),
                    mv.len() == ms@.len(),
                    forall|x: int| 0 <= x < ms@.len() ==> #[trigger] mv[x] == (ms@[x].0@, jv(ms@[x].1)),
                    rows@ == schema_rows(mv.take(i as int)),
                decreases ms.len() - i,
            {
                assert(mv.take(i + 1).drop_last() =~= mv.take(i as int));
                assert(mv.take(i + 1).last() == mv[i as int]);
                rows.append(schema_row_html(ms[i].0.as_str(), &ms[i].1).as_str());
                i = i + 1;
            }
            assert(mv.take(ms@.len() as int) =~= mv);
            let mut out = copy_str("\n## Schemas <sup>");
            out.append(decimal_string(ms.len() as u64).as_str());
            out.append(" type(s)</sup>\n\n<div class=\"spec-rowlist\">");
            out.append(rows.as_str());
            out.append("</div>\n");
            out
        },
        _ => copy_str(""),
    }
}

// ---------------------------------------------------------------- OpenAPI operations

/// An operation's `parameters` array, or none.
pub open spec fn params_of(op: JsonV) -> Seq<JsonV> {
    match items_of(get(op, "parameters"@)) {
        Some(vs) => vs,
        None => Seq::empty(),
    }
}

/// The schema of an operation's first request-body media type.
pub open spec fn request_schema(op: JsonV) -> Option<JsonV> {
    match members_of(get(at(op, "requestBody"@), "content"@)) {
        Some(ms) => if ms.len() > 0 {
            Some(at(ms[0].1, "schema"@))
        } else {
            None
        },
        None => None,
    }
}

/// A collapsed operation row: method badge, path and summary, opening on
/// the parameters (with the try-it-out panel), the request body and the
/// responses; also gives the next tab id.
pub open spec fn op_row(
    verb: Seq<char>,
    path: Seq<char>,
    op: JsonV,
    servers: Seq<Seq<char>>,
    defs: Seq<(Seq<char>, JsonV)>,
    id: u32,
) -> (Seq<char>, u32) {
    let rb = match get(op, "requestBody"@) {
        Some(b) => request_body(b, defs, id),
        None => (Seq::empty(), id),
    };
    let rs = match members_of(get(op, "responses"@)) {
        Some(ms) => responses(ms, defs, rb.1),
        None => (Seq::empty(), rb.1),
    };
    let body = params_html(params_of(op), request_schema(op), servers, defs) + rb.0 + rs.0;
    (
        "<details class=\"spec-row\" data-method=\""@ + escaped(uppered(verb)) + "\" data-path=\""@ + escaped(path)
            + "\"><summary>"@ + spec_method_badge(verb) + "<code class=\"spec-row-path\" title=\""@ + escaped(
            or_text(str_of(at(op, "operationId"@)), path),
        ) + "\">"@ + escaped(path) + "</code><span class=\"spec-row-desc\">"@ + escaped(
            or_text(str_of(at(op, "summary"@)), Seq::empty()),
        ) + "</span>"@ + chevron() + "</summary><div class=\"spec-body\">"@ + body + "</div></details>"@,
        rs.1,
    )
}

/// The items of `j[k]` when it is an array.
pub(crate) fn items_at<'a>(j: &'a Json, k: &str) -> (r: Option<&'a Vec<Json>>)
    ensures
        match r {
            Some(v) => items_of(get(jv(*j), k@)) == Some(jv_items(v@)),
            None => items_of(get(jv(*j), k@)) is None,
        },
{
    match json_get(j, k) {
        Some(Json::Arr(v)) => Some(v),
        _ => None,
    }
}

fn request_schema_of<'a>(op: &'a Json, null: &'a Json) -> (r: Option<&'a Json>)
    requires
        *null == Json::Null,
    ensures
        match r {
            Some(s) => request_schema(jv(*op)) == Some(jv(*s)),
            None => request_schema(jv(*op)) is None,
        },
{
    match json_get(op, "requestBody") {
        Some(rb) => match members_at(rb, "content") {
            Some(ms) => {
                proof {
                    lemma_jv_members(ms@);
                }
                if ms.len() > 0 {
                    match json_get(&ms[0].1, "schema") {
                        Some(sc) => Some(sc),
                        None => Some(null),
                    }
                } else {
                    None
                }
            },
            None => None,
        },
        None => None,
    }
}

/// See [`op_row`]; `id` is the next tab id, and is moved on past the ids
/// used.
pub fn operation_row_html(
    verb: &str,
    path: &str,
    op: &Json,
    servers: &Vec<String>,
    defs: &Vec<(String, Json)>,
    id: &mut u32,
) -> (r: String)
    ensures
        r@ == op_row(verb@, path@, jv(*op), servers@.map_values(|x: String| x@), jv_members(defs@), *old(id)).0,
        *final(id) == op_row(verb@, path@, jv(*op), servers@.map_values(|x: String| x@), jv_members(defs@), *old(id)).1,
{
    proof {
        reveal_strlit("");
    }
    let null = Json::Null;
    let req = request_schema_of(op, &null);
    let mut body = parameters_and_try_html(items_at(op, "parameters"), req, servers, defs);
    match json_get(op, "requestBody") {
        Some(rb) => body.append(request_body_html(rb, defs, id).as_str()),
        None => {},
    }
    match members_at(op, "responses") {
        Some(rs) => body.append(responses_html(rs, defs, id).as_str()),
        None => {},
    }
    let up = string_of(upper_str(verb).as_slice());
    let mut out = copy_str("<details class=\"spec-row\" data-method=\"");
    out.append(escape(up.as_str()).as_str());
    out.append("\" data-path=\"");
    out.append(escape(path).as_str());
    out.append("\"><summary>");
    out.append(method_badge(verb).as_str());
    out.append("<code class=\"spec-row-path\" title=\"");
    match str_at(op, "operationId") {
        Some(t) => out.append(escape(t.as_str()).as_str()),
        None => out.append(escape(path).as_str()),
    }
    out.append("\">");
    out.append(escape(path).as_str());
    out.append("</code><span class=\"spec-row-desc\">");
    match str_at(op, "summary") {
        Some(t) => out.append(escape(t.as_str()).as_str()),
        None => out.append(escape("").as_str()),
    }
    out.append("</span>");
    push_chevron(&mut out);
    out.append("</summary><div class=\"spec-body\">");
    out.append(body.as_str());
    out.append("</div></details>");
    out
}

// ---------------------------------------------------------------- page heads

/// The line under a page's title saying where it came from.
pub open spec fn generated_note(spec_file: Seq<char>, label: Seq<char>) -> Seq<char> {
    "> Generated by `cargo soothfast spec html` from `"@ + spec_file + "` ("@ + label
        + "). Regenerate with `cargo soothfast spec gen` + `spec html`; do not hand-edit.\n\n"@
}

/// A page's title, where it came from, its version (when it has one) and
/// its description (when it has one).
pub open spec fn info_head(
    title: Seq<char>,
    version: Seq<char>,
    description: Option<Seq<char>>,
    spec_file: Seq<char>,
    label: Seq<char>,
) -> Seq<char> {
    "# "@ + title + "\n\n"@ + generated_note(spec_file, label) + (if version.len() == 0 {
        Seq::empty()
    } else {
        "**Version:** `"@ + version + "`\n\n"@
    }) + match description {
        Some(d) => d + "\n\n"@,
        None => Seq::empty(),
    }
}

pub(crate) fn push_info_head(out: &mut String, info: &Info, spec_file: &str, label: &str)
    ensures
        final(out)@ == old(out)@ + info_head(info.title@, info.version@, ostr(info.description), spec_file@, label@),
{
    let ghost start = out@;
    out.append("# ");
    out.append(info.title.as_str());
    out.append("\n\n");
    out.append("> Generated by `cargo soothfast spec html` from `");
    out.append(spec_file);
    out.append("` (");
    out.append(label);
    out.append("). Regenerate with `cargo soothfast spec gen` + `spec html`; do not hand-edit.\n\n");
    if !info.version.as_str().is_empty() {
        out.append("**Version:** `");
        out.append(info.version.as_str());
        out.append("`\n\n");
    }
    match &info.description {
        Some(d) => {
            out.append(d.as_str());
            out.append("\n\n");
        },
        None => {},
    }
    assert(out@ =~= start + info_head(info.title@, info.version@, ostr(info.description), spec_file@, label@));
}

/// One `` - `server` `` line per server.
pub open spec fn server_lines(servers: Seq<Seq<char>>) -> Seq<char>
    decreases servers.len(),
{
    if servers.len() == 0 {
        Seq::empty()
    } else {
        server_lines(servers.drop_last()) + "- `"@ + servers.last() + "`\n"@
    }
}

/// The servers an OpenAPI page lists, when it knows any.
pub open spec fn servers_part(servers: Seq<Seq<char>>) -> Seq<char> {
    if servers.len() == 0 {
        Seq::empty()
    } else {
        "**Servers:**\n\n"@ + server_lines(servers) + "\n"@
    }
}

pub(crate) fn push_servers(out: &mut String, servers: &Vec<String>)
    ensures
        final(out)@ == old(out)@ + servers_part(strs(servers@)),
{
    let ghost start = out@;
    if servers.len() == 0 {
        assert(out@ =~= start + servers_part(strs(servers@)));
        return;
    }
    out.append("**Servers:**\n\n");
    let ghost head = out@;
    let mut i: usize = 0;
    while i < servers.len()
        invariant
            i <= servers@.len(),
            out@ == head + server_lines(strs(servers@).take(i as int)),
        decreases servers.len() - i,
    {
        out.append("- `");
        out.append(servers[i].as_str());
        out.append("`\n");
        assert(strs(servers@).take(i + 1).drop_last() =~= strs(servers@).take(i as int));
        i = i + 1;
    }
    assert(strs(servers@).take(servers@.len() as int) =~= strs(servers@));
    out.append("\n");
    assert(out@ =~= start + servers_part(strs(servers@)));
}

/// The schemas a document defines under `components.schemas`.
pub open spec fn components_of(value: JsonV) -> Seq<(Seq<char>, JsonV)> {
    members_or_empty(members_of(get(at(value, "components"@), "schemas"@)))
}

pub(crate) fn schemas_at<'a>(value: &'a Json, null: &'a Json) -> (r: &'a Json)
    requires
        *null == Json::Null,
    ensures
        jv(*r) == at(at(jv(*value), "components"@), "schemas"@),
{
    match json_get(value, "components") {
        Some(c) => match json_get(c, "schemas") {
            Some(sc) => sc,
            None => null,
        },
        None => null,
    }
}

pub(crate) fn components_at<'a>(value: &'a Json, empty: &'a Vec<(String, Json)>) -> (r: &'a Vec<(String, Json)>)
    requires
        empty@.len() == 0,
    ensures
        jv_members(r@) == components_of(jv(*value)),
{
    assert(jv_members(empty@) =~= Seq::<(Seq<char>, JsonV)>::empty());
    match json_get(value, "components") {
        Some(c) => match members_at(c, "schemas") {
            Some(m) => m,
            None => empty,
        },
        None => empty,
    }
}

// ---------------------------------------------------------------- text of members

/// What follows the last `/` of `s`; see [`after_last_slash`].
pub(crate) fn last_segment(s: &str) -> (r: String)
    ensures
        r@ == after_last_slash(s@),
{
    let v = chars_of(s);
    let tail = match rfind_char(&v, '/') {
        Some(i) => slice_chars(&v, i + 1, v.len()),
        None => slice_chars(&v, 0, v.len()),
    };
    assert(tail@ == after_last_slash(v@)) by {
        if last_index_of(v@, '/', v@.len() as int) is None {
            assert(v@.subrange(0, v@.len() as int) =~= v@);
        }
    }
    string_of(tail.as_slice())
}

/// The text of `j[k]`, or nothing.
pub open spec fn text_at(j: JsonV, k: Seq<char>) -> Seq<char> {
    or_text(str_of(at(j, k)), Seq::empty())
}

pub(crate) fn push_text_at(out: &mut String, j: &Json, k: &str)
    ensures
        final(out)@ == old(out)@ + text_at(jv(*j), k@),
{
    match str_at(j, k) {
        Some(t) => out.append(t.as_str()),
        None => {},
    }
    assert(final(out)@ =~= old(out)@ + text_at(jv(*j), k@));
}

pub(crate) fn push_escaped_at(out: &mut String, j: &Json, k: &str)
    ensures
        final(out)@ == old(out)@ + escaped(text_at(jv(*j), k@)),
{
    proof {
        reveal_strlit("");
    }
    match str_at(j, k) {
        Some(t) => out.append(escape(t.as_str()).as_str()),
        None => out.append(escape("").as_str()),
    }
}

} // verus!
