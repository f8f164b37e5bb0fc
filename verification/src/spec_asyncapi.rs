//! An AsyncAPI document's reference page: its servers, channels and
//! operations, each operation opening on its message's payload.

use vstd::prelude::*;

use crate::json::{
    at, get, json_get, jv, jv_members, lemma_jv_items, lemma_jv_members, member_from, member_get, str_of, Json,
    JsonV,
};
use crate::runcache::{join_sep, join_strs};
use crate::spec_html::{after_last_slash, method_badge, spec_method_badge};
use crate::spec_render::{
    chevron, components_at, components_of, gaps_notes, info_head, last_segment, members_at, members_or_empty,
    next_id, push_chevron, push_escaped_at, push_gaps_notes, push_info_head, push_text_at, schemas_at, schemas_part,
    schemas_section, str_at, take_id, text_at, Info,
};
use crate::spec_schema::{example_tabs, members_of, or_text, schema_with_example_html};
use crate::text::{copy_str, decimal, decimal_string, escape, escaped};
use crate::toml_lines::{ostr, strs};

verus! {

// ---------------------------------------------------------------- AsyncAPI
/// One line per named server: its name, then `protocol://host/pathname`.
pub open spec fn async_server_lines(ss: Seq<(Seq<char>, JsonV)>) -> Seq<char>
    decreases ss.len(),
{
    if ss.len() == 0 {
        Seq::empty()
    } else {
        let s = ss.last().1;
        async_server_lines(ss.drop_last()) + "- `"@ + ss.last().0 + "` — `"@ + text_at(s, "protocol"@) + "://"@
            + text_at(s, "host"@) + text_at(s, "pathname"@) + "`\n"@
    }
}

/// The servers an AsyncAPI document names, when it names any.
pub open spec fn async_servers_part(value: JsonV) -> Seq<char> {
    let ss = members_or_empty(members_of(get(value, "servers"@)));
    if ss.len() == 0 {
        Seq::empty()
    } else {
        "**Servers:**\n\n"@ + async_server_lines(ss) + "\n"@
    }
}

fn push_async_servers(out: &mut String, value: &Json)
    ensures
        final(out)@ == old(out)@ + async_servers_part(jv(*value)),
{
    let ghost start = out@;
    let empty: Vec<(String, Json)> = Vec::new();
    assert(jv_members(empty@) =~= Seq::<(Seq<char>, JsonV)>::empty());
    let ss: &Vec<(String, Json)> = match members_at(value, "servers") {
        Some(m) => m,
        None => &empty,
    };
    proof {
        lemma_jv_members(ss@);
    }
    let ghost sv = jv_members(ss@);
    if ss.len() == 0 {
        assert(out@ =~= start + async_servers_part(jv(*value)));
        return;
    }
    out.append("**Servers:**\n\n");
    let ghost head = out@;
    let mut i: usize = 0;
    while i < ss.len()
        invariant
            i <= ss@.len(),
            sv == jv_members(ss@),
            sv.len() == ss@.len(),
            forall|x: int| 0 <= x < ss@.len() ==> #[trigger] sv[x] == (ss@[x].0@, jv(ss@[x].1)),
            out@ == head + async_server_lines(sv.take(i as int)),
        decreases ss.len() - i,
    {
        assert(sv.take(i + 1).drop_last() =~= sv.take(i as int));
        assert(sv.take(i + 1).last() == sv[i as int]);
        out.append("- `");
        out.append(ss[i].0.as_str());
        out.append("` — `");
        push_text_at(out, &ss[i].1, "protocol");
        out.append("://");
        push_text_at(out, &ss[i].1, "host");
        push_text_at(out, &ss[i].1, "pathname");
        out.append("`\n");
        i = i + 1;
    }
    assert(sv.take(ss@.len() as int) =~= sv);
    out.append("\n");
    assert(out@ =~= start + async_servers_part(jv(*value)));
}

/// A table row per channel parameter: its name and description.
pub open spec fn param_lines(ps: Seq<(Seq<char>, JsonV)>) -> Seq<char>
    decreases ps.len(),
{
    if ps.len() == 0 {
        Seq::empty()
    } else {
        param_lines(ps.drop_last()) + "<tr><td><code>"@ + escaped(ps.last().0) + "</code></td><td>"@ + escaped(
            text_at(ps.last().1, "description"@),
        ) + "</td></tr>"@
    }
}

/// A channel's parameters table, when it has parameters.
pub open spec fn channel_params(ch: JsonV) -> Seq<char> {
    let ps = members_or_empty(members_of(get(ch, "parameters"@)));
    if ps.len() == 0 {
        Seq::empty()
    } else {
        "<p class=\"spec-subhead\">Parameters</p><div class=\"tablewrap\"><table><thead><tr><th>name</th><th>description</th></tr></thead><tbody>"@
            + param_lines(ps) + "</tbody></table></div>"@
    }
}

/// The names of a channel's messages.
pub open spec fn message_names(ch: JsonV) -> Seq<Seq<char>> {
    members_or_empty(members_of(get(ch, "messages"@))).map_values(|m: (Seq<char>, JsonV)| m.0)
}

/// Each name as `<code>name</code>`.
pub open spec fn code_names(ns: Seq<Seq<char>>) -> Seq<Seq<char>> {
    ns.map_values(|n: Seq<char>| "<code>"@ + escaped(n) + "</code>"@)
}

/// A collapsed, initially open channel row: its address (or key), the
/// names of its messages, opening on its parameters and messages.
pub open spec fn channel_row(key: Seq<char>, ch: JsonV) -> Seq<char> {
    let ns = message_names(ch);
    let body = channel_params(ch) + if ns.len() == 0 {
        Seq::empty()
    } else {
        "<p class=\"spec-subhead\">Messages</p><p>"@ + join_sep(code_names(ns), ", "@) + "</p>"@
    };
    "<details class=\"spec-row\" open><summary><code class=\"spec-row-name\">"@ + escaped(
        or_text(str_of(at(ch, "address"@)), key),
    ) + "</code><span class=\"spec-row-desc\">"@ + escaped(join_sep(ns, ", "@)) + "</span>"@ + chevron()
        + "</summary><div class=\"spec-body\">"@ + body + "</div></details>"@
}

fn channel_params_html(ch: &Json) -> (r: String)
    ensures
        r@ == channel_params(jv(*ch)),
{
    proof {
        reveal_strlit("");
    }
    let empty: Vec<(String, Json)> = Vec::new();
    assert(jv_members(empty@) =~= Seq::<(Seq<char>, JsonV)>::empty());
    let ps: &Vec<(String, Json)> = match members_at(ch, "parameters") {
        Some(m) => m,
        None => &empty,
    };
    proof {
        lemma_jv_members(ps@);
    }
    let ghost pv = jv_members(ps@);
    if ps.len() == 0 {
        return copy_str("");
    }
    let mut rows = copy_str("");
    let mut i: usize = 0;
    while i < ps.len()
        invariant
            i <= ps@.len(),
            pv == jv_members(ps@),
            pv.len() == ps@.len(),
            forall|x: int| 0 <= x < ps@.len() ==> #[trigger] pv[x] == (ps@[x].0@, jv(ps@[x].1)),
            rows@ == param_lines(pv.take(i as int)),
        decreases ps.len() - i,
    {
        assert(pv.take(i + 1).drop_last() =~= pv.take(i as int));
        assert(pv.take(i + 1).last() == pv[i as int]);
        rows.append("<tr><td><code>");
        rows.append(escape(ps[i].0.as_str()).as_str());
        rows.append("</code></td><td>");
        push_escaped_at(&mut rows, &ps[i].1, "description");
        rows.append("</td></tr>");
        i = i + 1;
    }
    assert(pv.take(ps@.len() as int) =~= pv);
    let mut out = copy_str(
        "<p class=\"spec-subhead\">Parameters</p><div class=\"tablewrap\"><table><thead><tr><th>name</th><th>description</th></tr></thead><tbody>",
    );
    out.append(rows.as_str());
    out.append("</tbody></table></div>");
    out
}

/// The names of `ch`'s messages, and each as `<code>name</code>`.
fn message_names_of(ch: &Json) -> (r: (Vec<String>, Vec<String>))
    ensures
        r.0@.map_values(|s: String| s@) == message_names(jv(*ch)),
        r.1@.map_values(|s: String| s@) == code_names(message_names(jv(*ch))),
{
    let empty: Vec<(String, Json)> = Vec::new();
    assert(jv_members(empty@) =~= Seq::<(Seq<char>, JsonV)>::empty());
    let ms: &Vec<(String, Json)> = match members_at(ch, "messages") {
        Some(m) => m,
        None => &empty,
    };
    proof {
        lemma_jv_members(ms@);
    }
    let ghost mv = jv_members(ms@);
    let mut names: Vec<String> = Vec::new();
    let mut codes: Vec<String> = Vec::new();
    let mut i: usize = 0;
    while i < ms.len()
        invariant
            i <= ms@.len(),
            mv == jv_members(ms@),
            mv.len() == ms@.len(),
            forall|x: int| 0 <= x < ms@.len() ==> #[trigger] mv[x] == (ms@[x].0@, jv(ms@[x].1)),
            names@.len() == i,
            codes@.len() == i,
            forall|x: int| 0 <= x < i ==> #[trigger] names@[x]@ == mv[x].0,
            forall|x: int| 0 <= x < i ==> #[trigger] codes@[x]@ == "<code>"@ + escaped(mv[x].0) + "</code>"@,
        decreases ms.len() - i,
    {
        names.push(copy_str(ms[i].0.as_str()));
        let mut c = copy_str("<code>");
        c.append(escape(ms[i].0.as_str()).as_str());
        c.append("</code>");
        codes.push(c);
        i = i + 1;
    }
    let ghost ns = message_names(jv(*ch));
    assert(names@.map_values(|s: String| s@) =~= ns);
    assert(codes@.map_values(|s: String| s@) =~= code_names(ns));
    (names, codes)
}

fn channel_row_html(key: &str, ch: &Json) -> (r: String)
    ensures
        r@ == channel_row(key@, jv(*ch)),
{
    let (names, codes) = message_names_of(ch);
    let mut body = channel_params_html(ch);
    if names.len() > 0 {
        body.append("<p class=\"spec-subhead\">Messages</p><p>");
        body.append(join_strs(&codes, ", ").as_str());
        body.append("</p>");
    }
    let mut out = copy_str("<details class=\"spec-row\" open><summary><code class=\"spec-row-name\">");
    match str_at(ch, "address") {
        Some(a) => out.append(escape(a.as_str()).as_str()),
        None => out.append(escape(key).as_str()),
    }
    out.append("</code><span class=\"spec-row-desc\">");
    out.append(escape(join_strs(&names, ", ").as_str()).as_str());
    out.append("</span>");
    push_chevron(&mut out);
    out.append("</summary><div class=\"spec-body\">");
    out.append(body.as_str());
    out.append("</div></details>");
    out
}

/// One row per channel.
pub open spec fn channel_rows(cs: Seq<(Seq<char>, JsonV)>) -> Seq<char>
    decreases cs.len(),
{
    if cs.len() == 0 {
        Seq::empty()
    } else {
        channel_rows(cs.drop_last()) + channel_row(cs.last().0, cs.last().1)
    }
}

/// The channels section of an AsyncAPI page.
pub open spec fn channels_part(value: JsonV) -> Seq<char> {
    let cs = members_or_empty(members_of(get(value, "channels"@)));
    "\n## Channels <sup>"@ + decimal(cs.len()) + " channel(s)</sup>\n\n<div class=\"spec-rowlist\">"@ + channel_rows(cs)
        + "</div>\n"@
}

fn push_channels(out: &mut String, value: &Json)
    ensures
        final(out)@ == old(out)@ + channels_part(jv(*value)),
{
    let ghost start = out@;
    let empty: Vec<(String, Json)> = Vec::new();
    assert(jv_members(empty@) =~= Seq::<(Seq<char>, JsonV)>::empty());
    let cs: &Vec<(String, Json)> = match members_at(value, "channels") {
        Some(m) => m,
        None => &empty,
    };
    proof {
        lemma_jv_members(cs@);
    }
    let ghost cv = jv_members(cs@);
    out.append("\n## Channels <sup>");
    out.append(decimal_string(cs.len() as u64).as_str());
    out.append(" channel(s)</sup>\n\n<div class=\"spec-rowlist\">");
    let ghost head = out@;
    let mut i: usize = 0;
    while i < cs.len()
        invariant
            i <= cs@.len(),
            cv == jv_members(cs@),
            cv.len() == cs@.len(),
            forall|x: int| 0 <= x < cs@.len() ==> #[trigger] cv[x] == (cs@[x].0@, jv(cs@[x].1)),
            out@ == head + channel_rows(cv.take(i as int)),
        decreases cs.len() - i,
    {
        assert(cv.take(i + 1).drop_last() =~= cv.take(i as int));
        assert(cv.take(i + 1).last() == cv[i as int]);
        out.append(channel_row_html(cs[i].0.as_str(), &cs[i].1).as_str());
        i = i + 1;
    }
    assert(cv.take(cs@.len() as int) =~= cv);
    out.append("</div>\n");
    assert(out@ =~= start + channels_part(jv(*value)));
}

/// `value[0]`: an array's first item, or null.
pub open spec fn first_item(j: JsonV) -> JsonV {
    match j {
        JsonV::Arr(vs) => if vs.len() > 0 {
            vs[0]
        } else {
            JsonV::Null
        },
        _ => JsonV::Null,
    }
}

/// The payload of the message an operation's first message reference
/// names, when `messages` defines it; also gives the next tab id.
pub open spec fn payload_part(
    op: JsonV,
    messages: Seq<(Seq<char>, JsonV)>,
    defs: Seq<(Seq<char>, JsonV)>,
    id: u32,
) -> (Seq<char>, u32) {
    match str_of(at(first_item(at(op, "messages"@)), "$ref"@)) {
        Some(r) => {
            let name = after_last_slash(r);
            match member_from(messages, name, 0) {
                Some(msg) => (
                    "<p class=\"spec-subhead\">Payload · <code>"@ + escaped(name) + "</code></p>"@ + example_tabs(
                        at(msg, "payload"@),
                        defs,
                        id as nat,
                    ),
                    next_id(id),
                ),
                None => (Seq::empty(), id),
            }
        },
        None => (Seq::empty(), id),
    }
}

/// A collapsed, initially open operation row: its action badge, the
/// channel it acts on and its summary, opening on its payload; also gives
/// the next tab id.
pub open spec fn async_op_row(
    op_id: Seq<char>,
    op: JsonV,
    messages: Seq<(Seq<char>, JsonV)>,
    defs: Seq<(Seq<char>, JsonV)>,
    id: u32,
) -> (Seq<char>, u32) {
    let body = payload_part(op, messages, defs, id);
    (
        "<details class=\"spec-row\" open><summary>"@ + spec_method_badge(text_at(op, "action"@))
            + "<code class=\"spec-row-path\" title=\""@ + escaped(op_id) + "\">"@ + escaped(
            after_last_slash(text_at(at(op, "channel"@), "$ref"@)),
        ) + "</code><span class=\"spec-row-desc\">"@ + escaped(text_at(op, "summary"@)) + "</span>"@ + chevron()
            + "</summary><div class=\"spec-body\">"@ + body.0 + "</div></details>"@,
        body.1,
    )
}

/// One row per operation, ids handed out in order.
pub open spec fn async_op_rows(
    os: Seq<(Seq<char>, JsonV)>,
    messages: Seq<(Seq<char>, JsonV)>,
    defs: Seq<(Seq<char>, JsonV)>,
    id: u32,
) -> (Seq<char>, u32)
    decreases os.len(),
{
    if os.len() == 0 {
        (Seq::empty(), id)
    } else {
        let prev = async_op_rows(os.drop_last(), messages, defs, id);
        let r = async_op_row(os.last().0, os.last().1, messages, defs, prev.1);
        (prev.0 + r.0, r.1)
    }
}

/// The messages a document defines under `components.messages`.
pub open spec fn messages_of(value: JsonV) -> Seq<(Seq<char>, JsonV)> {
    members_or_empty(members_of(get(at(value, "components"@), "messages"@)))
}

/// The operations section of an AsyncAPI page; also gives the next tab id.
pub open spec fn operations_part(value: JsonV, id: u32) -> (Seq<char>, u32) {
    let os = members_or_empty(members_of(get(value, "operations"@)));
    let rows = async_op_rows(os, messages_of(value), components_of(value), id);
    (
        "\n## Operations <sup>"@ + decimal(os.len()) + " operation(s)</sup>\n\n<div class=\"spec-rowlist\">"@
            + rows.0 + "</div>\n"@,
        rows.1,
    )
}

/// An AsyncAPI document's page: its head, servers, gaps and notes,
/// channels, operations, then its schemas; also gives the next tab id.
pub open spec fn asyncapi_page(
    spec_file: Seq<char>,
    title: Seq<char>,
    version: Seq<char>,
    description: Option<Seq<char>>,
    value: JsonV,
    gaps: Seq<Seq<char>>,
    notes: Seq<Seq<char>>,
    id: u32,
) -> (Seq<char>, u32) {
    let o = operations_part(value, id);
    (
        info_head(
            title,
            version,
            description,
            spec_file,
            "AsyncAPI "@ + or_text(str_of(at(value, "asyncapi"@)), "3.0.0"@),
        ) + async_servers_part(value) + gaps_notes(gaps, notes) + channels_part(value) + o.0 + schemas_part(
            at(at(value, "components"@), "schemas"@),
        ),
        o.1,
    )
}

fn first_item_of<'a>(j: &'a Json, null: &'a Json) -> (r: &'a Json)
    requires
        *null == Json::Null,
    ensures
        jv(*r) == first_item(jv(*j)),
{
    match j {
        Json::Arr(vs) => {
            proof {
                lemma_jv_items(vs@);
            }
            if vs.len() > 0 {
                &vs[0]
            } else {
                null
            }
        },
        _ => null,
    }
}

fn payload_html(op: &Json, messages: &Vec<(String, Json)>, defs: &Vec<(String, Json)>, id: &mut u32) -> (r: String)
    ensures
        r@ == payload_part(jv(*op), jv_members(messages@), jv_members(defs@), *old(id)).0,
        *final(id) == payload_part(jv(*op), jv_members(messages@), jv_members(defs@), *old(id)).1,
{
    proof {
        reveal_strlit("");
    }
    let null = Json::Null;
    let ms: &Json = match json_get(op, "messages") {
        Some(m) => m,
        None => &null,
    };
    let first = first_item_of(ms, &null);
    match str_at(first, "$ref") {
        Some(r) => {
            let name = last_segment(r.as_str());
            match member_get(messages, name.as_str()) {
                Some(msg) => {
                    let mut out = copy_str("<p class=\"spec-subhead\">Payload · <code>");
                    out.append(escape(name.as_str()).as_str());
                    out.append("</code></p>");
                    let payload: &Json = match json_get(msg, "payload") {
                        Some(p) => p,
                        None => &null,
                    };
                    let t = take_id(id);
                    out.append(schema_with_example_html(payload, defs, t).as_str());
                    out
                },
                None => copy_str(""),
            }
        },
        None => copy_str(""),
    }
}

fn async_op_row_html(
    op_id: &str,
    op: &Json,
    messages: &Vec<(String, Json)>,
    defs: &Vec<(String, Json)>,
    id: &mut u32,
) -> (r: String)
    ensures
        r@ == async_op_row(op_id@, jv(*op), jv_members(messages@), jv_members(defs@), *old(id)).0,
        *final(id) == async_op_row(op_id@, jv(*op), jv_members(messages@), jv_members(defs@), *old(id)).1,
{
    proof {
        reveal_strlit("");
    }
    let body = payload_html(op, messages, defs, id);
    let mut action = copy_str("");
    push_text_at(&mut action, op, "action");
    let null = Json::Null;
    let ch: &Json = match json_get(op, "channel") {
        Some(c) => c,
        None => &null,
    };
    let mut channel_ref = copy_str("");
    push_text_at(&mut channel_ref, ch, "$ref");
    let mut out = copy_str("<details class=\"spec-row\" open><summary>");
    out.append(method_badge(action.as_str()).as_str());
    out.append("<code class=\"spec-row-path\" title=\"");
    out.append(escape(op_id).as_str());
    out.append("\">");
    out.append(escape(last_segment(channel_ref.as_str()).as_str()).as_str());
    out.append("</code><span class=\"spec-row-desc\">");
    push_escaped_at(&mut out, op, "summary");
    out.append("</span>");
    push_chevron(&mut out);
    out.append("</summary><div class=\"spec-body\">");
    out.append(body.as_str());
    out.append("</div></details>");
    out
}

fn push_operations(out: &mut String, value: &Json, id: &mut u32)
    ensures
        final(out)@ == old(out)@ + operations_part(jv(*value), *old(id)).0,
        *final(id) == operations_part(jv(*value), *old(id)).1,
{
    let ghost start = out@;
    let ghost id0 = *id;
    let empty: Vec<(String, Json)> = Vec::new();
    assert(jv_members(empty@) =~= Seq::<(Seq<char>, JsonV)>::empty());
    let os: &Vec<(String, Json)> = match members_at(value, "operations") {
        Some(m) => m,
        None => &empty,
    };
    let comps = components_at(value, &empty);
    let msgs: &Vec<(String, Json)> = match json_get(value, "components") {
        Some(c) => match members_at(c, "messages") {
            Some(m) => m,
            None => &empty,
        },
        None => &empty,
    };
    proof {
        lemma_jv_members(os@);
    }
    let ghost ov = jv_members(os@);
    let ghost mv = jv_members(msgs@);
    let ghost dv = jv_members(comps@);
    assert(mv == messages_of(jv(*value)));
    assert(dv == components_of(jv(*value)));
    out.append("\n## Operations <sup>");
    out.append(decimal_string(os.len() as u64).as_str());
    out.append(" operation(s)</sup>\n\n<div class=\"spec-rowlist\">");
    let ghost head = out@;
    let mut i: usize = 0;
    while i < os.len()
        invariant
            i <= os@.len(),
            ov == jv_members(os@),
            ov.len() == os@.len(),
            forall|x: int| 0 <= x < os@.len() ==> #[trigger] ov[x] == (os@[x].0@, jv(os@[x].1)),
            mv == jv_members(msgs@),
            dv == jv_members(comps@),
            out@ == head + async_op_rows(ov.take(i as int), mv, dv, id0).0,
            *id == async_op_rows(ov.take(i as int), mv, dv, id0).1,
        decreases os.len() - i,
    {
        assert(ov.take(i + 1).drop_last() =~= ov.take(i as int));
        assert(ov.take(i + 1).last() == ov[i as int]);
        out.append(async_op_row_html(os[i].0.as_str(), &os[i].1, msgs, comps, id).as_str());
        i = i + 1;
    }
    assert(ov.take(os@.len() as int) =~= ov);
    out.append("</div>\n");
    assert(out@ =~= start + operations_part(jv(*value), id0).0);
}

/// See [`asyncapi_page`]; `id` is the next tab id, and is moved on past
/// the ids used.
pub fn render_asyncapi(
    spec_file: &str,
    info: &Info,
    value: &Json,
    gaps: &[String],
    notes: &[String],
    id: &mut u32,
) -> (r: String)
    ensures
        r@ == asyncapi_page(
            spec_file@,
            info.title@,
            info.version@,
            ostr(info.description),
            jv(*value),
            strs(gaps@),
            strs(notes@),
            *old(id),
        ).0,
        *final(id) == asyncapi_page(
            spec_file@,
            info.title@,
            info.version@,
            ostr(info.description),
            jv(*value),
            strs(gaps@),
            strs(notes@),
            *old(id),
        ).1,
{
    proof {
        reveal_strlit("");
    }
    let mut label = copy_str("AsyncAPI ");
    match str_at(value, "asyncapi") {
        Some(v) => label.append(v.as_str()),
        None => label.append("3.0.0"),
    }
    let mut out = copy_str("");
    push_info_head(&mut out, info, spec_file, label.as_str());
    push_async_servers(&mut out, value);
    push_gaps_notes(&mut out, gaps, notes);
    push_channels(&mut out, value);
    push_operations(&mut out, value, id);
    let null = Json::Null;
    out.append(schemas_section(schemas_at(value, &null)).as_str());
    out
}

} // verus!
