//! The agent-facing MCP server's decisions: which JSON-RPC reply a request
//! gets, which read-only tool a `tools/call` names, and the text each tool
//! answers with.
//!
//! The transport is newline-delimited JSON-RPC 2.0 on stdio. A request
//! without an `id` is a notification and gets no reply; an unknown method
//! is answered with `-32601`, an unknown tool with `-32602`. Objects are
//! built with their members in name order, as a `BTreeMap`-backed JSON
//! object writes them.

use vstd::prelude::*;

use crate::json::{
    at, copy_json, get, member_from, parse_json, serde_parse, json_get, jv, jv_items, jv_members, lemma_jv_items, lemma_jv_members, str_of, Json, JsonV,
};
use crate::runcache::{join_sep, join_strs};
use crate::spec_render::{str_at, text_at};
use crate::text::{chars_of, contains_chars, trim_chars, trimmed, contains_seq, copy_str, debug_quoted, debug_str, str_eq};
use crate::toml_lines::strs;

verus! {

// ---------------------------------------------------------------- JSON building

/// A string value.
pub open spec fn js(s: Seq<char>) -> JsonV {
    JsonV::Str(s)
}

fn str_json(s: &str) -> (r: Json)
    ensures
        jv(r) == js(s@),
{
    Json::Str(copy_str(s))
}

fn obj0() -> (r: Json)
    ensures
        jv(r) == JsonV::Obj(Seq::empty()),
{
    let v: Vec<(String, Json)> = Vec::new();
    assert(jv_members(v@) =~= Seq::<(Seq<char>, JsonV)>::empty());
    Json::Obj(v)
}

fn obj1(k1: &str, v1: Json) -> (r: Json)
    ensures
        jv(r) == JsonV::Obj(seq![(k1@, jv(v1))]),
{
    let ghost j1 = jv(v1);
    let mut v: Vec<(String, Json)> = Vec::new();
    v.push((copy_str(k1), v1));
    proof {
        lemma_jv_members(v@);
    }
    assert(jv_members(v@) =~= seq![(k1@, j1)]);
    Json::Obj(v)
}

fn obj2(k1: &str, v1: Json, k2: &str, v2: Json) -> (r: Json)
    ensures
        jv(r) == JsonV::Obj(seq![(k1@, jv(v1)), (k2@, jv(v2))]),
{
    let ghost j1 = jv(v1);
    let ghost j2 = jv(v2);
    let mut v: Vec<(String, Json)> = Vec::new();
    v.push((copy_str(k1), v1));
    v.push((copy_str(k2), v2));
    proof {
        lemma_jv_members(v@);
    }
    assert(jv_members(v@) =~= seq![(k1@, j1), (k2@, j2)]);
    Json::Obj(v)
}

fn obj3(k1: &str, v1: Json, k2: &str, v2: Json, k3: &str, v3: Json) -> (r: Json)
    ensures
        jv(r) == JsonV::Obj(seq![(k1@, jv(v1)), (k2@, jv(v2)), (k3@, jv(v3))]),
{
    let ghost j1 = jv(v1);
    let ghost j2 = jv(v2);
    let ghost j3 = jv(v3);
    let mut v: Vec<(String, Json)> = Vec::new();
    v.push((copy_str(k1), v1));
    v.push((copy_str(k2), v2));
    v.push((copy_str(k3), v3));
    proof {
        lemma_jv_members(v@);
    }
    assert(jv_members(v@) =~= seq![(k1@, j1), (k2@, j2), (k3@, j3)]);
    Json::Obj(v)
}

// ---------------------------------------------------------------- replies

/// `{"id": id, "jsonrpc": "2.0", "result": result}`.
pub open spec fn result_reply(id: JsonV, result: JsonV) -> JsonV {
    JsonV::Obj(seq![("id"@, id), ("jsonrpc"@, js("2.0"@)), ("result"@, result)])
}

/// `{"error": {"code": code, "message": message}, "id": id, "jsonrpc": "2.0"}`.
pub open spec fn error_reply(id: JsonV, code: Seq<char>, message: Seq<char>) -> JsonV {
    JsonV::Obj(
        seq![
            ("error"@, JsonV::Obj(seq![("code"@, JsonV::Num(code)), ("message"@, js(message))])),
            ("id"@, id),
            ("jsonrpc"@, js("2.0"@)),
        ],
    )
}

fn result_reply_of(id: Json, result: Json) -> (r: Json)
    ensures
        jv(r) == result_reply(jv(id), jv(result)),
{
    obj3("id", id, "jsonrpc", str_json("2.0"), "result", result)
}

fn error_reply_of(id: Json, code: &str, message: &str) -> (r: Json)
    ensures
        jv(r) == error_reply(jv(id), code@, message@),
{
    let e = obj2("code", Json::Num(copy_str(code)), "message", str_json(message));
    obj3("error", e, "id", id, "jsonrpc", str_json("2.0"))
}

/// The reply to a line that is not JSON: a `-32700` error with a null id,
/// since silence would leave the client waiting.
pub fn parse_error_reply() -> (r: Json)
    ensures
        jv(r) == error_reply(JsonV::Null, "-32700"@, "parse error"@),
{
    error_reply_of(Json::Null, "-32700", "parse error")
}

/// What `initialize` answers: the protocol version, the tools capability
/// and this server's name and version.
pub open spec fn initialize_result(version: Seq<char>) -> JsonV {
    JsonV::Obj(
        seq![
            ("capabilities"@, JsonV::Obj(seq![("tools"@, JsonV::Obj(Seq::empty()))])),
            ("protocolVersion"@, js("2024-11-05"@)),
            ("serverInfo"@, JsonV::Obj(seq![("name"@, js("soothfast"@)), ("version"@, js(version))])),
        ],
    )
}

fn initialize_result_of(version: &str) -> (r: Json)
    ensures
        jv(r) == initialize_result(version@),
{
    let caps = obj1("tools", obj0());
    let info = obj2("name", str_json("soothfast"), "version", str_json(version));
    obj3("capabilities", caps, "protocolVersion", str_json("2024-11-05"), "serverInfo", info)
}

/// The input schema of a tool taking one required string argument.
pub open spec fn str_arg(name: Seq<char>, desc: Seq<char>) -> JsonV {
    JsonV::Obj(
        seq![
            ("properties"@, JsonV::Obj(
                seq![(name, JsonV::Obj(seq![("description"@, js(desc)), ("type"@, js("string"@))]))],
            )),
            ("required"@, JsonV::Arr(seq![js(name)])),
            ("type"@, js("object"@)),
        ],
    )
}

fn str_arg_of(name: &str, desc: &str) -> (r: Json)
    ensures
        jv(r) == str_arg(name@, desc@),
{
    let prop = obj2("description", str_json(desc), "type", str_json("string"));
    let props = obj1(name, prop);
    let mut req: Vec<Json> = Vec::new();
    req.push(str_json(name));
    proof {
        lemma_jv_items(req@);
    }
    assert(jv_items(req@) =~= seq![js(name@)]);
    obj3("properties", props, "required", Json::Arr(req), "type", str_json("object"))
}

/// One entry of the tool list.
pub open spec fn tool_entry(name: Seq<char>, desc: Seq<char>, schema: JsonV) -> JsonV {
    JsonV::Obj(seq![("description"@, js(desc)), ("inputSchema"@, schema), ("name"@, js(name))])
}

/// The four read-only tools, in the order `tools/list` gives them.
pub open spec fn tools_list_value() -> JsonV {
    JsonV::Obj(
        seq![
            ("tools"@, JsonV::Arr(
                seq![
                    tool_entry(
                        "surface_summary"@,
                        "Current public API of the crate: every item with signature and measured cost. Derived from the code — always current."@,
                        JsonV::Obj(seq![("properties"@, JsonV::Obj(Seq::empty())), ("type"@, js("object"@))]),
                    ),
                    tool_entry(
                        "get_item"@,
                        "Current signature, docs, and measurements of one public item."@,
                        str_arg("path"@, "full item path, e.g. demo::sorted"@),
                    ),
                    tool_entry(
                        "search_surface"@,
                        "Find public items whose path or docs match a query."@,
                        str_arg("query"@, "substring to search for"@),
                    ),
                    tool_entry(
                        "perf_trend"@,
                        "Recorded measurement history of one item across merges."@,
                        str_arg("item"@, "measured item id"@),
                    ),
                ],
            )),
        ],
    )
}

fn tool_entry_of(name: &str, desc: &str, schema: Json) -> (r: Json)
    ensures
        jv(r) == tool_entry(name@, desc@, jv(schema)),
{
    obj3("description", str_json(desc), "inputSchema", schema, "name", str_json(name))
}

/// See [`tools_list_value`].
pub fn tools_list() -> (r: Json)
    ensures
        jv(r) == tools_list_value(),
{
    let empty_schema = obj2("properties", obj0(), "type", str_json("object"));
    let t1 = tool_entry_of(
        "surface_summary",
        "Current public API of the crate: every item with signature and measured cost. Derived from the code — always current.",
        empty_schema,
    );
    let t2 = tool_entry_of(
        "get_item",
        "Current signature, docs, and measurements of one public item.",
        str_arg_of("path", "full item path, e.g. demo::sorted"),
    );
    let t3 = tool_entry_of(
        "search_surface",
        "Find public items whose path or docs match a query.",
        str_arg_of("query", "substring to search for"),
    );
    let t4 = tool_entry_of(
        "perf_trend",
        "Recorded measurement history of one item across merges.",
        str_arg_of("item", "measured item id"),
    );
    let ghost g = seq![jv(t1), jv(t2), jv(t3), jv(t4)];
    let mut tools: Vec<Json> = Vec::new();
    tools.push(t1);
    tools.push(t2);
    tools.push(t3);
    tools.push(t4);
    proof {
        lemma_jv_items(tools@);
    }
    assert(jv_items(tools@) =~= g);
    obj1("tools", Json::Arr(tools))
}

// ---------------------------------------------------------------- dispatch

/// What to do about one request.
pub enum McpStep {
    /// A notification: no reply.
    Silent,
    /// Send this reply.
    Reply(Json),
    /// Run the named tool with these arguments, then reply with
    /// [`tool_reply`] under this id.
    Call { id: Json, name: String, args: Json },
}

/// [`McpStep`] as plain values.
pub enum McpStepV {
    Silent,
    Reply(JsonV),
    Call(JsonV, Seq<char>, JsonV),
}

pub open spec fn step_view(s: McpStep) -> McpStepV {
    match s {
        McpStep::Silent => McpStepV::Silent,
        McpStep::Reply(j) => McpStepV::Reply(jv(j)),
        McpStep::Call { id, name, args } => McpStepV::Call(jv(id), name@, jv(args)),
    }
}

/// The step a request calls for: none without an `id`; `initialize`,
/// `ping` and `tools/list` answered at once; `tools/call` handed on with
/// its tool name and arguments; any other method refused with `-32601`.
pub open spec fn dispatch_step(req: JsonV, version: Seq<char>) -> McpStepV {
    match get(req, "id"@) {
        None => McpStepV::Silent,
        Some(id) => {
            let m = str_of(at(req, "method"@));
            if m == Some("initialize"@) {
                McpStepV::Reply(result_reply(id, initialize_result(version)))
            } else if m == Some("ping"@) {
                McpStepV::Reply(result_reply(id, JsonV::Obj(Seq::empty())))
            } else if m == Some("tools/list"@) {
                McpStepV::Reply(result_reply(id, tools_list_value()))
            } else if m == Some("tools/call"@) {
                McpStepV::Call(
                    id,
                    text_at(at(req, "params"@), "name"@),
                    at(at(req, "params"@), "arguments"@),
                )
            } else {
                McpStepV::Reply(error_reply(id, "-32601"@, "method not found"@))
            }
        },
    }
}

/// See [`dispatch_step`]; `version` is this server's version.
pub fn dispatch(req: &Json, version: &str) -> (r: McpStep)
    ensures
        step_view(r) == dispatch_step(jv(*req), version@),
{
    let id = match json_get(req, "id") {
        Some(i) => copy_json(i),
        None => return McpStep::Silent,
    };
    let null = Json::Null;
    match json_get(req, "method") {
        Some(Json::Str(m)) => {
            if str_eq(m.as_str(), "initialize") {
                return McpStep::Reply(result_reply_of(id, initialize_result_of(version)));
            } else if str_eq(m.as_str(), "ping") {
                return McpStep::Reply(result_reply_of(id, obj0()));
            } else if str_eq(m.as_str(), "tools/list") {
                return McpStep::Reply(result_reply_of(id, tools_list()));
            } else if str_eq(m.as_str(), "tools/call") {
                let params: &Json = match json_get(req, "params") {
                    Some(p) => p,
                    None => &null,
                };
                let name = arg_text(params, "name");
                let args = match json_get(params, "arguments") {
                    Some(a) => copy_json(a),
                    None => Json::Null,
                };
                assert(jv(*params) == at(jv(*req), "params"@));
                assert(jv(args) == at(jv(*params), "arguments"@));
                return McpStep::Call { id, name, args };
            }
        },
        _ => {},
    }
    McpStep::Reply(error_reply_of(id, "-32601", "method not found"))
}

/// The step one line from the client calls for: none for a blank line;
/// for a line that is not JSON, a `-32700` reply with a null id (silence
/// would leave the client waiting); else the request's own step.
pub open spec fn line_step(line: Seq<char>, version: Seq<char>) -> McpStepV {
    if trimmed(line).len() == 0 {
        McpStepV::Silent
    } else {
        match serde_parse(line) {
            None => McpStepV::Reply(error_reply(JsonV::Null, "-32700"@, "parse error"@)),
            Some(req) => dispatch_step(req, version),
        }
    }
}

/// See [`line_step`]; `version` is this server's version.
pub fn step_for_line(line: &str, version: &str) -> (r: McpStep)
    ensures
        step_view(r) == line_step(line@, version@),
{
    if trim_chars(&chars_of(line)).len() == 0 {
        return McpStep::Silent;
    }
    match parse_json(line) {
        None => McpStep::Reply(parse_error_reply()),
        Some(req) => dispatch(&req, version),
    }
}

/// The reply to a `tools/call`: the tool's text as a single text content
/// item, or, for a tool that does not exist, a `-32602` error — never
/// something an agent could read as a successful answer.
pub open spec fn tool_reply_value(id: JsonV, answer: Result<Seq<char>, Seq<char>>) -> JsonV {
    match answer {
        Ok(text) => result_reply(
            id,
            JsonV::Obj(
                seq![
                    ("content"@, JsonV::Arr(seq![JsonV::Obj(seq![("text"@, js(text)), ("type"@, js("text"@))])])),
                    ("isError"@, JsonV::Bool(false)),
                ],
            ),
        ),
        Err(msg) => error_reply(id, "-32602"@, msg),
    }
}

/// A tool's answer as plain values.
pub open spec fn answer_view(a: Result<String, String>) -> Result<Seq<char>, Seq<char>> {
    match a {
        Ok(t) => Ok(t@),
        Err(m) => Err(m@),
    }
}

/// See [`tool_reply_value`].
pub fn tool_reply(id: Json, answer: Result<String, String>) -> (r: Json)
    ensures
        jv(r) == tool_reply_value(jv(id), answer_view(answer)),
{
    match answer {
        Ok(text) => {
            let item = obj2("text", Json::Str(text), "type", str_json("text"));
            let ghost gi = jv(item);
            let mut content: Vec<Json> = Vec::new();
            content.push(item);
            proof {
                lemma_jv_items(content@);
            }
            assert(jv_items(content@) =~= seq![gi]);
            let body = obj2("content", Json::Arr(content), "isError", Json::Bool(false));
            result_reply_of(id, body)
        },
        Err(msg) => error_reply_of(id, "-32602", msg.as_str()),
    }
}

// ---------------------------------------------------------------- tools

/// Which tool a `tools/call` names, with the argument it reads.
pub enum ToolCall {
    /// `surface_summary`: the whole surface with measured costs.
    Summary,
    /// `get_item`: one item, by `path`.
    GetItem(String),
    /// `search_surface`: items matching `query`.
    Search(String),
    /// `perf_trend`: one item's history, by `item`.
    Trend(String),
    /// Any other name.
    Unknown(String),
}

/// [`ToolCall`] as plain values.
pub enum ToolCallV {
    Summary,
    GetItem(Seq<char>),
    Search(Seq<char>),
    Trend(Seq<char>),
    Unknown(Seq<char>),
}

pub open spec fn call_view(c: ToolCall) -> ToolCallV {
    match c {
        ToolCall::Summary => ToolCallV::Summary,
        ToolCall::GetItem(p) => ToolCallV::GetItem(p@),
        ToolCall::Search(q) => ToolCallV::Search(q@),
        ToolCall::Trend(i) => ToolCallV::Trend(i@),
        ToolCall::Unknown(n) => ToolCallV::Unknown(n@),
    }
}

/// The tool `name` names; a missing argument reads as empty.
pub open spec fn tool_call_of(name: Seq<char>, args: JsonV) -> ToolCallV {
    if name == "surface_summary"@ {
        ToolCallV::Summary
    } else if name == "get_item"@ {
        ToolCallV::GetItem(text_at(args, "path"@))
    } else if name == "search_surface"@ {
        ToolCallV::Search(text_at(args, "query"@))
    } else if name == "perf_trend"@ {
        ToolCallV::Trend(text_at(args, "item"@))
    } else {
        ToolCallV::Unknown(name)
    }
}

fn arg_text(args: &Json, k: &str) -> (r: String)
    ensures
        r@ == text_at(jv(*args), k@),
{
    proof {
        reveal_strlit("");
    }
    match str_at(args, k) {
        Some(t) => copy_str(t.as_str()),
        None => copy_str(""),
    }
}

/// See [`tool_call_of`].
pub fn tool_call(name: &str, args: &Json) -> (r: ToolCall)
    ensures
        call_view(r) == tool_call_of(name@, jv(*args)),
{
    if str_eq(name, "surface_summary") {
        ToolCall::Summary
    } else if str_eq(name, "get_item") {
        ToolCall::GetItem(arg_text(args, "path"))
    } else if str_eq(name, "search_surface") {
        ToolCall::Search(arg_text(args, "query"))
    } else if str_eq(name, "perf_trend") {
        ToolCall::Trend(arg_text(args, "item"))
    } else {
        ToolCall::Unknown(copy_str(name))
    }
}

/// The error an unknown tool name gets.
pub open spec fn unknown_tool(name: Seq<char>) -> Seq<char> {
    "unknown tool "@ + debug_quoted(name)
}

/// See [`unknown_tool`].
pub fn unknown_tool_message(name: &str) -> (r: String)
    ensures
        r@ == unknown_tool(name@),
{
    let mut out = copy_str("unknown tool ");
    out.append(debug_str(name).as_str());
    out
}

/// One public item of the crate's surface, as the tools show it.
pub struct SurfaceEntry {
    pub path: String,
    pub kind: String,
    pub signature: String,
    pub docs: String,
    pub summary: String,
}

/// Index of the first entry (from `i` on) whose path is `path`.
pub open spec fn first_entry(entries: Seq<SurfaceEntry>, path: Seq<char>, i: int) -> Option<int>
    decreases entries.len() - i,
{
    if i < 0 || i >= entries.len() {
        None
    } else if entries[i].path@ == path {
        Some(i)
    } else {
        first_entry(entries, path, i + 1)
    }
}

/// One `measured: fact` line per fact.
pub open spec fn measured_lines(facts: Seq<Seq<char>>) -> Seq<char>
    decreases facts.len(),
{
    if facts.len() == 0 {
        Seq::empty()
    } else {
        measured_lines(facts.drop_last()) + "measured: "@ + facts.last() + "\n"@
    }
}

/// What `get_item` answers: the item's path and kind, its signature and
/// docs when it has them, and its measured facts (or a pointer to where
/// measurements come from); or that the crate has no such public item.
pub open spec fn item_text(entries: Seq<SurfaceEntry>, pkg: Seq<char>, path: Seq<char>, facts: Seq<Seq<char>>) -> Seq<
    char,
> {
    match first_entry(entries, path, 0) {
        None => "no public item `"@ + path + "` in "@ + pkg,
        Some(i) => {
            let e = entries[i];
            e.path@ + " ("@ + e.kind@ + ")\n"@ + (if e.signature@.len() == 0 {
                Seq::empty()
            } else {
                "signature: "@ + e.signature@ + "\n"@
            }) + (if e.docs@.len() == 0 {
                Seq::empty()
            } else {
                "docs: "@ + e.docs@ + "\n"@
            }) + if facts.len() == 0 {
                "measured: no (see `cargo soothfast coverage measure`)\n"@
            } else {
                measured_lines(facts)
            }
        },
    }
}

fn find_entry(entries: &Vec<SurfaceEntry>, path: &str) -> (r: Option<usize>)
    ensures
        match r {
            Some(k) => first_entry(entries@, path@, 0) == Some(k as int) && k < entries.len(),
            None => first_entry(entries@, path@, 0) is None,
        },
{
    let mut i: usize = 0;
    while i < entries.len()
        invariant
            i <= entries.len(),
            first_entry(entries@, path@, i as int) == first_entry(entries@, path@, 0),
        decreases entries.len() - i,
    {
        if str_eq(entries[i].path.as_str(), path) {
            return Some(i);
        }
        i = i + 1;
    }
    None
}

/// See [`item_text`]; `facts` are the item's measured facts, already
/// formatted.
pub fn get_item_text(entries: &Vec<SurfaceEntry>, pkg: &str, path: &str, facts: &Vec<String>) -> (r: String)
    ensures
        r@ == item_text(entries@, pkg@, path@, strs(facts@)),
{
    match find_entry(entries, path) {
        None => {
            let mut out = copy_str("no public item `");
            out.append(path);
            out.append("` in ");
            out.append(pkg);
            out
        },
        Some(i) => {
            let e = &entries[i];
            let mut out = copy_str(e.path.as_str());
            out.append(" (");
            out.append(e.kind.as_str());
            out.append(")\n");
            if !e.signature.as_str().is_empty() {
                out.append("signature: ");
                out.append(e.signature.as_str());
                out.append("\n");
            }
            if !e.docs.as_str().is_empty() {
                out.append("docs: ");
                out.append(e.docs.as_str());
                out.append("\n");
            }
            let ghost head = out@;
            if facts.len() == 0 {
                out.append("measured: no (see `cargo soothfast coverage measure`)\n");
            } else {
                let mut k: usize = 0;
                while k < facts.len()
                    invariant
                        k <= facts@.len(),
                        out@ == head + measured_lines(strs(facts@).take(k as int)),
                    decreases facts.len() - k,
                {
                    out.append("measured: ");
                    out.append(facts[k].as_str());
                    out.append("\n");
                    assert(strs(facts@).take(k + 1).drop_last() =~= strs(facts@).take(k as int));
                    k = k + 1;
                }
                assert(strs(facts@).take(facts@.len() as int) =~= strs(facts@));
            }
            out
        },
    }
}

/// `str::to_lowercase`: Unicode lower-casing, a function of the characters
/// alone.
pub uninterp spec fn lowercase(s: Seq<char>) -> Seq<char>;

/// `s.to_lowercase()`; what the case mapping does is not stated, only
/// that the result is [`lowercase`] of the characters.
#[verifier::external_body]
fn to_lower(s: &str) -> (r: String)
    ensures
        r@ == lowercase(s@),
{
    s.to_lowercase()
}

/// Whether an entry matches a lower-cased query: its path or its docs,
/// lower-cased, hold it.
pub open spec fn entry_matches(e: SurfaceEntry, q: Seq<char>) -> bool {
    contains_seq(lowercase(e.path@), q) || contains_seq(lowercase(e.docs@), q)
}

/// The `path (kind) — summary` lines of the entries matching `q`.
pub open spec fn hit_lines(entries: Seq<SurfaceEntry>, q: Seq<char>) -> Seq<Seq<char>>
    decreases entries.len(),
{
    if entries.len() == 0 {
        Seq::empty()
    } else {
        let e = entries.last();
        hit_lines(entries.drop_last(), q) + if entry_matches(e, q) {
            seq![e.path@ + " ("@ + e.kind@ + ") — "@ + e.summary@]
        } else {
            Seq::empty()
        }
    }
}

/// What `search_surface` answers: a line per item whose path or docs
/// hold the query, compared lower-cased, or that nothing matched.
pub open spec fn search_text_of(entries: Seq<SurfaceEntry>, query: Seq<char>) -> Seq<char> {
    let q = lowercase(query);
    let hits = hit_lines(entries, q);
    if hits.len() == 0 {
        "no public items matching "@ + debug_quoted(q)
    } else {
        join_sep(hits, "\n"@)
    }
}

/// The line a search answers for one entry: `path (kind) — summary`.
pub open spec fn answer_line(e: SurfaceEntry) -> Seq<char> {
    e.path@ + " ("@ + e.kind@ + ") — "@ + e.summary@
}

/// The hits are the lines of exactly the entries whose lower-cased path or
/// docs hold the (lower-cased) query, in entry order.
pub proof fn law_hits_are_exactly_the_path_or_docs_matches(entries: Seq<SurfaceEntry>, q: Seq<char>)
    ensures
        hit_lines(entries, q) == entries.filter(
            |e: SurfaceEntry| contains_seq(lowercase(e.path@), q) || contains_seq(lowercase(e.docs@), q),
        ).map_values(|e: SurfaceEntry| answer_line(e)),
    decreases entries.len(),
{
    let pred = |e: SurfaceEntry| contains_seq(lowercase(e.path@), q) || contains_seq(lowercase(e.docs@), q);
    reveal(Seq::filter);
    if entries.len() == 0 {
        assert(entries.filter(pred) =~= Seq::<SurfaceEntry>::empty());
        assert(entries.filter(pred).map_values(|e: SurfaceEntry| answer_line(e)) =~= Seq::<Seq<char>>::empty());
    } else {
        let init = entries.drop_last();
        let e = entries.last();
        law_hits_are_exactly_the_path_or_docs_matches(init, q);
        let f0 = init.filter(pred);
        if pred(e) {
            assert(entries.filter(pred) == f0.push(e));
            assert(f0.push(e).map_values(|x: SurfaceEntry| answer_line(x)) =~= f0.map_values(
                |x: SurfaceEntry| answer_line(x),
            ).push(answer_line(e)));
            assert(hit_lines(entries, q) =~= hit_lines(init, q).push(answer_line(e)));
        } else {
            assert(entries.filter(pred) == f0);
            assert(hit_lines(entries, q) =~= hit_lines(init, q));
        }
    }
}

/// A search whose lower-cased query occurs in some entry's lower-cased
/// path or docs answers the hit lines, that entry's line among them, never
/// that nothing matched.
pub proof fn law_a_path_or_docs_match_is_answered(entries: Seq<SurfaceEntry>, query: Seq<char>, i: int)
    requires
        0 <= i < entries.len(),
        contains_seq(lowercase(entries[i].path@), lowercase(query)) || contains_seq(
            lowercase(entries[i].docs@),
            lowercase(query),
        ),
    ensures
        hit_lines(entries, lowercase(query)).contains(answer_line(entries[i])),
        search_text_of(entries, query) == join_sep(hit_lines(entries, lowercase(query)), "\n"@),
{
    let q = lowercase(query);
    let pred = |e: SurfaceEntry| contains_seq(lowercase(e.path@), q) || contains_seq(lowercase(e.docs@), q);
    law_hits_are_exactly_the_path_or_docs_matches(entries, q);
    entries.lemma_filter_contains(pred, i);
    let f = entries.filter(pred);
    let w = choose|w: int| 0 <= w < f.len() && f[w] == entries[i];
    assert(f.map_values(|e: SurfaceEntry| answer_line(e))[w] == answer_line(entries[i]));
}

/// See [`search_text_of`].
pub fn search_text(entries: &Vec<SurfaceEntry>, query: &str) -> (r: String)
    ensures
        r@ == search_text_of(entries@, query@),
{
    let q = to_lower(query);
    let qc = chars_of(q.as_str());
    let mut hits: Vec<String> = Vec::new();
    let mut i: usize = 0;
    while i < entries.len()
        invariant
            i <= entries@.len(),
            qc@ == q@,
            q@ == lowercase(query@),
            strs(hits@) == hit_lines(entries@.take(i as int), q@),
        decreases entries.len() - i,
    {
        let e = &entries[i];
        assert(entries@.take(i + 1).drop_last() =~= entries@.take(i as int));
        assert(entries@.take(i + 1).last() == *e);
        let in_path = contains_chars(&chars_of(to_lower(e.path.as_str()).as_str()), &qc);
        let in_docs = contains_chars(&chars_of(to_lower(e.docs.as_str()).as_str()), &qc);
        if in_path || in_docs {
            let mut line = copy_str(e.path.as_str());
            line.append(" (");
            line.append(e.kind.as_str());
            line.append(") — ");
            line.append(e.summary.as_str());
            let ghost before = hits@;
            hits.push(line);
            assert(strs(hits@) =~= strs(before).push(e.path@ + " ("@ + e.kind@ + ") — "@ + e.summary@));
        }
        i = i + 1;
    }
    assert(entries@.take(entries@.len() as int) =~= entries@);
    if hits.len() == 0 {
        let mut out = copy_str("no public items matching ");
        out.append(debug_str(q.as_str()).as_str());
        out
    } else {
        assert(strs(hits@) =~= hits@.map_values(|s: String| s@));
        join_strs(&hits, "\n")
    }
}

/// What `perf_trend` answers: the recorded points, a line each, or how
/// to start recording them.
pub open spec fn trend_text_of(item: Seq<char>, lines: Seq<Seq<char>>) -> Seq<char> {
    if lines.len() == 0 {
        "no trend data for `"@ + item + "` — run `cargo soothfast trend append`"@
    } else {
        join_sep(lines, "\n"@)
    }
}

/// See [`trend_text_of`]; `lines` are the item's points, already
/// formatted.
pub fn trend_text(item: &str, lines: &Vec<String>) -> (r: String)
    ensures
        r@ == trend_text_of(item@, strs(lines@)),
{
    if lines.len() == 0 {
        let mut out = copy_str("no trend data for `");
        out.append(item);
        out.append("` — run `cargo soothfast trend append`");
        out
    } else {
        assert(strs(lines@) =~= lines@.map_values(|s: String| s@));
        join_strs(lines, "\n")
    }
}

// ---------------------------------------------------------------- laws

proof fn lemma_reply_ids(id: JsonV, result: JsonV, code: Seq<char>, message: Seq<char>)
    ensures
        get(result_reply(id, result), "id"@) == Some(id),
        get(error_reply(id, code, message), "id"@) == Some(id),
{
    reveal_strlit("id");
    reveal_strlit("error");
    let r = seq![("id"@, id), ("jsonrpc"@, js("2.0"@)), ("result"@, result)];
    assert(r[0].0 == "id"@);
    assert(member_from(r, "id"@, 0) == Some(id));
    let e = seq![
        ("error"@, JsonV::Obj(seq![("code"@, JsonV::Num(code)), ("message"@, js(message))])),
        ("id"@, id),
        ("jsonrpc"@, js("2.0"@)),
    ];
    assert(e[0].0 != "id"@) by {
        assert(e[0].0[0] == 'e');
        assert("id"@[0] == 'i');
    }
    assert(member_from(e, "id"@, 1) == Some(id));
    assert(member_from(e, "id"@, 0) == Some(id));
}

/// A request without an `id` (a notification) is never answered; any
/// other is answered, or handed to a tool whose reply will be, under the
/// request's own id.
pub proof fn law_replies_carry_the_request_id(
    req: JsonV,
    version: Seq<char>,
    answer: Result<Seq<char>, Seq<char>>,
)
    ensures
        get(req, "id"@) is None ==> dispatch_step(req, version) == McpStepV::Silent,
        get(req, "id"@) is Some ==> match dispatch_step(req, version) {
            McpStepV::Reply(r) => get(r, "id"@) == get(req, "id"@),
            McpStepV::Call(id, _, _) => Some(id) == get(req, "id"@) && get(
                tool_reply_value(id, answer),
                "id"@,
            ) == Some(id),
            McpStepV::Silent => false,
        },
{
    match get(req, "id"@) {
        None => {},
        Some(id) => {
            lemma_reply_ids(id, initialize_result(version), "-32601"@, "method not found"@);
            lemma_reply_ids(id, JsonV::Obj(Seq::empty()), "-32602"@, "method not found"@);
            lemma_reply_ids(id, tools_list_value(), "-32602"@, "method not found"@);
            match answer {
                Ok(text) => {
                    lemma_reply_ids(
                        id,
                        JsonV::Obj(
                            seq![
                                ("content"@, JsonV::Arr(
                                    seq![JsonV::Obj(seq![("text"@, js(text)), ("type"@, js("text"@))])],
                                )),
                                ("isError"@, JsonV::Bool(false)),
                            ],
                        ),
                        "-32602"@,
                        ""@,
                    );
                },
                Err(msg) => {
                    lemma_reply_ids(id, JsonV::Null, "-32602"@, msg);
                },
            }
        },
    }
}

} // verus!
