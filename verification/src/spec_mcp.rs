//! An MCP tool manifest's reference page: a row per tool, opening on its
//! arguments, its result and the types its schemas refer to.

use vstd::prelude::*;

use crate::json::{at, copy_json, get, json_get, jv, jv_items, jv_members, lemma_jv_items, lemma_jv_members, obj_put, str_of, Json, JsonV};
use crate::spec_render::{
    gaps_notes, generated_note, items_at, members_at, members_or_empty, named_row, named_row_html, next_id,
    push_gaps_notes, push_text_at, str_at, take_id, text_at,
};
use crate::spec_schema::{example_tabs, insert_all, items_of, members_of, or_text, schema_html, schema_html_of, schema_with_example_html};
use crate::text::{copy_str, decimal, decimal_string, escape, escaped};
use crate::toml_lines::strs;

verus! {

// ---------------------------------------------------------------- MCP tools

/// The definitions a tool's `$ref`s resolve against: its input schema's
/// `$defs`, then its output schema's, a later name replacing an earlier.
pub open spec fn tool_defs(tool: JsonV) -> Seq<(Seq<char>, JsonV)> {
    insert_all(
        insert_all(Seq::empty(), members_or_empty(members_of(get(at(tool, "inputSchema"@), "$defs"@)))),
        members_or_empty(members_of(get(at(tool, "outputSchema"@), "$defs"@))),
    )
}

/// Each definition's name, then its property table.
pub open spec fn def_blocks(defs: Seq<(Seq<char>, JsonV)>) -> Seq<char>
    decreases defs.len(),
{
    if defs.len() == 0 {
        Seq::empty()
    } else {
        def_blocks(defs.drop_last()) + "<p><code>"@ + escaped(defs.last().0) + "</code></p>"@ + schema_html(
            defs.last().1,
        )
    }
}

/// A tool row's body: its arguments, its result (when it declares one)
/// and the types its schemas refer to; also gives the next tab id.
pub open spec fn tool_body(tool: JsonV, defs: Seq<(Seq<char>, JsonV)>, id: u32) -> (Seq<char>, u32) {
    let args = "<p class=\"spec-subhead\">Arguments</p>"@ + example_tabs(at(tool, "inputSchema"@), defs, id as nat);
    let id1 = next_id(id);
    let result = match get(tool, "outputSchema"@) {
        Some(o) => (
            "<p class=\"spec-subhead\">Result</p>"@ + example_tabs(o, defs, id1 as nat),
            next_id(id1),
        ),
        None => (Seq::empty(), id1),
    };
    let types = if defs.len() == 0 {
        Seq::empty()
    } else {
        "<p class=\"spec-subhead\">Types</p>"@ + def_blocks(defs)
    };
    (args + result.0 + types, result.1)
}

/// A collapsed tool row: its name and description, opening on its body;
/// also gives the next tab id.
pub open spec fn tool_row(tool: JsonV, id: u32) -> (Seq<char>, u32) {
    let b = tool_body(tool, tool_defs(tool), id);
    (named_row(or_text(str_of(at(tool, "name"@)), "tool"@), text_at(tool, "description"@), b.0), b.1)
}

/// One row per tool, ids handed out in order.
pub open spec fn tool_rows(tools: Seq<JsonV>, id: u32) -> (Seq<char>, u32)
    decreases tools.len(),
{
    if tools.len() == 0 {
        (Seq::empty(), id)
    } else {
        let prev = tool_rows(tools.drop_last(), id);
        let r = tool_row(tools.last(), prev.1);
        (prev.0 + r.0, r.1)
    }
}

/// The tools of an MCP manifest.
pub open spec fn tools_of(value: JsonV) -> Seq<JsonV> {
    match items_of(get(value, "tools"@)) {
        Some(ts) => ts,
        None => Seq::empty(),
    }
}

/// An MCP tool manifest's page: its title (after the package), where it
/// came from, the tool count, gaps and notes, then a row per tool; also
/// gives the next tab id.
pub open spec fn mcp_page(
    spec_file: Seq<char>,
    pkg: Seq<char>,
    value: JsonV,
    gaps: Seq<Seq<char>>,
    notes: Seq<Seq<char>>,
    id: u32,
) -> (Seq<char>, u32) {
    let tools = tools_of(value);
    let rows = tool_rows(tools, id);
    (
        "# `"@ + pkg + "` MCP tools\n\n"@ + generated_note(spec_file, "MCP tool manifest"@) + "**"@ + decimal(tools.len())
            + " tool(s).**\n\n"@ + gaps_notes(gaps, notes) + "<div class=\"spec-rowlist\">"@ + rows.0 + "</div>\n"@,
        rows.1,
    )
}

fn put_defs(acc: &mut Vec<(String, Json)>, schema: &Json)
    ensures
        jv_members(final(acc)@) == insert_all(
            jv_members(old(acc)@),
            members_or_empty(members_of(get(jv(*schema), "$defs"@))),
        ),
{
    let empty: Vec<(String, Json)> = Vec::new();
    assert(jv_members(empty@) =~= Seq::<(Seq<char>, JsonV)>::empty());
    let o: &Vec<(String, Json)> = match members_at(schema, "$defs") {
        Some(m) => m,
        None => &empty,
    };
    proof {
        lemma_jv_members(o@);
    }
    let ghost ov = jv_members(o@);
    let ghost base = jv_members(acc@);
    let mut k: usize = 0;
    assert(ov.take(0) =~= Seq::<(Seq<char>, JsonV)>::empty());
    while k < o.len()
        invariant
            k <= o@.len(),
            ov == jv_members(o@),
            ov.len() == o@.len(),
            forall|x: int| 0 <= x < o@.len() ==> #[trigger] ov[x] == (o@[x].0@, jv(o@[x].1)),
            jv_members(acc@) == insert_all(base, ov.take(k as int)),
        decreases o.len() - k,
    {
        obj_put(acc, copy_str(o[k].0.as_str()), copy_json(&o[k].1));
        assert(ov.take(k + 1).drop_last() =~= ov.take(k as int));
        assert(ov.take(k + 1).last() == (o@[k as int].0@, jv(o@[k as int].1)));
        k = k + 1;
    }
    assert(ov.take(o@.len() as int) =~= ov);
}

fn def_blocks_html(defs: &Vec<(String, Json)>) -> (r: String)
    ensures
        r@ == def_blocks(jv_members(defs@)),
{
    proof {
        lemma_jv_members(defs@);
        reveal_strlit("");
    }
    let ghost dv = jv_members(defs@);
    let mut out = copy_str("");
    let mut i: usize = 0;
    while i < defs.len()
        invariant
            i <= defs@.len(),
            dv == jv_members(defs@),
            dv.len() == defs@.len(),
            forall|x: int| 0 <= x < defs@.len() ==> #[trigger] dv[x] == (defs@[x].0@, jv(defs@[x].1)),
            out@ == def_blocks(dv.take(i as int)),
        decreases defs.len() - i,
    {
        assert(dv.take(i + 1).drop_last() =~= dv.take(i as int));
        assert(dv.take(i + 1).last() == dv[i as int]);
        out.append("<p><code>");
        out.append(escape(defs[i].0.as_str()).as_str());
        out.append("</code></p>");
        out.append(schema_html_of(&defs[i].1).as_str());
        i = i + 1;
    }
    assert(dv.take(defs@.len() as int) =~= dv);
    out
}

fn tool_defs_of(tool: &Json) -> (r: Vec<(String, Json)>)
    ensures
        jv_members(r@) == tool_defs(jv(*tool)),
{
    let null = Json::Null;
    let mut defs: Vec<(String, Json)> = Vec::new();
    assert(jv_members(defs@) =~= Seq::<(Seq<char>, JsonV)>::empty());
    match json_get(tool, "inputSchema") {
        Some(i) => put_defs(&mut defs, i),
        None => put_defs(&mut defs, &null),
    }
    match json_get(tool, "outputSchema") {
        Some(o) => put_defs(&mut defs, o),
        None => put_defs(&mut defs, &null),
    }
    defs
}

fn tool_body_html(tool: &Json, defs: &Vec<(String, Json)>, id: &mut u32) -> (r: String)
    ensures
        r@ == tool_body(jv(*tool), jv_members(defs@), *old(id)).0,
        *final(id) == tool_body(jv(*tool), jv_members(defs@), *old(id)).1,
{
    let null = Json::Null;
    let input: &Json = match json_get(tool, "inputSchema") {
        Some(i) => i,
        None => &null,
    };
    let mut body = copy_str("<p class=\"spec-subhead\">Arguments</p>");
    let t = take_id(id);
    body.append(schema_with_example_html(input, defs, t).as_str());
    match json_get(tool, "outputSchema") {
        Some(o) => {
            body.append("<p class=\"spec-subhead\">Result</p>");
            let t2 = take_id(id);
            body.append(schema_with_example_html(o, defs, t2).as_str());
        },
        None => {},
    }
    if defs.len() > 0 {
        body.append("<p class=\"spec-subhead\">Types</p>");
        body.append(def_blocks_html(defs).as_str());
    }
    body
}

fn tool_row_html(tool: &Json, id: &mut u32) -> (r: String)
    ensures
        r@ == tool_row(jv(*tool), *old(id)).0,
        *final(id) == tool_row(jv(*tool), *old(id)).1,
{
    proof {
        reveal_strlit("");
    }
    let defs = tool_defs_of(tool);
    let body = tool_body_html(tool, &defs, id);
    let mut desc = copy_str("");
    push_text_at(&mut desc, tool, "description");
    match str_at(tool, "name") {
        Some(n) => named_row_html(n.as_str(), desc.as_str(), body.as_str()),
        None => named_row_html("tool", desc.as_str(), body.as_str()),
    }
}

/// See [`mcp_page`]; `id` is the next tab id, and is moved on past the ids
/// used.
pub fn render_mcp(
    spec_file: &str,
    pkg: &str,
    value: &Json,
    gaps: &[String],
    notes: &[String],
    id: &mut u32,
) -> (r: String)
    ensures
        r@ == mcp_page(spec_file@, pkg@, jv(*value), strs(gaps@), strs(notes@), *old(id)).0,
        *final(id) == mcp_page(spec_file@, pkg@, jv(*value), strs(gaps@), strs(notes@), *old(id)).1,
{
    let ghost id0 = *id;
    let empty: Vec<Json> = Vec::new();
    let tools: &Vec<Json> = match items_at(value, "tools") {
        Some(v) => v,
        None => &empty,
    };
    proof {
        lemma_jv_items(tools@);
        assert(jv_items(empty@) =~= Seq::<JsonV>::empty());
    }
    let ghost tv = jv_items(tools@);
    assert(tv == tools_of(jv(*value)));
    let mut out = copy_str("# `");
    out.append(pkg);
    out.append("` MCP tools\n\n");
    out.append("> Generated by `cargo soothfast spec html` from `");
    out.append(spec_file);
    out.append("` (");
    out.append("MCP tool manifest");
    out.append("). Regenerate with `cargo soothfast spec gen` + `spec html`; do not hand-edit.\n\n");
    out.append("**");
    out.append(decimal_string(tools.len() as u64).as_str());
    out.append(" tool(s).**\n\n");
    push_gaps_notes(&mut out, gaps, notes);
    out.append("<div class=\"spec-rowlist\">");
    let ghost head = out@;
    let mut i: usize = 0;
    while i < tools.len()
        invariant
            i <= tools@.len(),
            tv == jv_items(tools@),
            tv.len() == tools@.len(),
            forall|x: int| 0 <= x < tools@.len() ==> #[trigger] tv[x] == jv(tools@[x]),
            out@ == head + tool_rows(tv.take(i as int), id0).0,
            *id == tool_rows(tv.take(i as int), id0).1,
        decreases tools.len() - i,
    {
        assert(tv.take(i + 1).drop_last() =~= tv.take(i as int));
        assert(tv.take(i + 1).last() == tv[i as int]);
        out.append(tool_row_html(&tools[i], id).as_str());
        i = i + 1;
    }
    assert(tv.take(tools@.len() as int) =~= tv);
    out.append("</div>\n");
    assert(out@ =~= mcp_page(spec_file@, pkg@, jv(*value), strs(gaps@), strs(notes@), id0).0);
    out
}

} // verus!
