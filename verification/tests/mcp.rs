use cargo_soothfast::json::{to_text, Json};
use cargo_soothfast::mcp::{
    dispatch, get_item_text, parse_error_reply, search_text, step_for_line, tool_call, tool_reply, tools_list, trend_text,
    unknown_tool_message, McpStep, SurfaceEntry, ToolCall,
};
use serde_json::Value;

fn doc(text: &str) -> Json {
    from_value(&serde_json::from_str::<Value>(text).unwrap())
}

fn from_value(v: &Value) -> Json {
    match v {
        Value::Null => Json::Null,
        Value::Bool(b) => Json::Bool(*b),
        Value::Number(n) => Json::Num(n.to_string()),
        Value::String(s) => Json::Str(s.clone()),
        Value::Array(a) => Json::Arr(a.iter().map(from_value).collect()),
        Value::Object(m) => Json::Obj(m.iter().map(|(k, v)| (k.clone(), from_value(v))).collect()),
    }
}

/// The compact text serde_json writes for a document.
fn serde_text(text: &str) -> String {
    serde_json::from_str::<Value>(text).unwrap().to_string()
}

fn reply(step: McpStep) -> String {
    match step {
        McpStep::Reply(j) => to_text(&j),
        _ => panic!("expected a reply"),
    }
}

fn entries() -> Vec<SurfaceEntry> {
    vec![
        SurfaceEntry {
            path: "demo::sorted".into(),
            kind: "fn".into(),
            signature: "pub fn sorted(v: &[u32]) -> Vec<u32>".into(),
            docs: "Returns a Sorted copy.".into(),
            summary: "Sorted copy".into(),
        },
        SurfaceEntry {
            path: "demo::Table".into(),
            kind: "struct".into(),
            signature: String::new(),
            docs: String::new(),
            summary: "A table".into(),
        },
    ]
}

#[test]
fn a_notification_gets_no_reply() {
    assert!(matches!(dispatch(&doc(r#"{"jsonrpc":"2.0","method":"ping"}"#), "1.0"), McpStep::Silent));
    assert!(matches!(dispatch(&doc(r#"[1, 2]"#), "1.0"), McpStep::Silent));
}

#[test]
fn initialize_and_ping_are_answered_as_serde_would_write_them() {
    let init = reply(dispatch(&doc(r#"{"jsonrpc":"2.0","id":1,"method":"initialize"}"#), "0.3.1"));
    assert_eq!(
        init,
        serde_text(
            r#"{"jsonrpc":"2.0","id":1,"result":{"protocolVersion":"2024-11-05","capabilities":{"tools":{}},
               "serverInfo":{"name":"soothfast","version":"0.3.1"}}}"#
        )
    );
    let ping = reply(dispatch(&doc(r#"{"id":"a","method":"ping"}"#), "0.3.1"));
    assert_eq!(ping, r#"{"id":"a","jsonrpc":"2.0","result":{}}"#);
}

#[test]
fn an_unknown_method_is_refused_with_method_not_found() {
    let r = reply(dispatch(&doc(r#"{"id":7,"method":"resources/list"}"#), "1"));
    assert_eq!(r, serde_text(r#"{"jsonrpc":"2.0","id":7,"error":{"code":-32601,"message":"method not found"}}"#));
    let r = reply(dispatch(&doc(r#"{"id":8}"#), "1"));
    assert!(r.contains("-32601"), "{r}");
}

#[test]
fn tools_list_names_the_four_tools() {
    let r = reply(dispatch(&doc(r#"{"id":2,"method":"tools/list"}"#), "1"));
    let v: Value = serde_json::from_str(&r).unwrap();
    let names: Vec<&str> = v["result"]["tools"].as_array().unwrap().iter().map(|t| t["name"].as_str().unwrap()).collect();
    assert_eq!(names, ["surface_summary", "get_item", "search_surface", "perf_trend"]);
    assert_eq!(v["result"]["tools"][1]["inputSchema"]["required"][0], "path");
    assert_eq!(to_text(&tools_list()), v["result"].to_string());
}

#[test]
fn a_tool_call_is_handed_on_with_its_name_and_arguments() {
    let step = dispatch(&doc(r#"{"id":3,"method":"tools/call","params":{"name":"get_item","arguments":{"path":"demo::sorted"}}}"#), "1");
    match step {
        McpStep::Call { id, name, args } => {
            assert_eq!(to_text(&id), "3");
            assert_eq!(name, "get_item");
            match tool_call(&name, &args) {
                ToolCall::GetItem(p) => assert_eq!(p, "demo::sorted"),
                _ => panic!("expected get_item"),
            }
        }
        _ => panic!("expected a call"),
    }
    match dispatch(&doc(r#"{"id":4,"method":"tools/call"}"#), "1") {
        McpStep::Call { name, args, .. } => {
            assert_eq!(name, "");
            assert!(matches!(args, Json::Null));
            assert!(matches!(tool_call(&name, &args), ToolCall::Unknown(n) if n.is_empty()));
        }
        _ => panic!("expected a call"),
    }
}

#[test]
fn tool_names_pick_their_tool() {
    let args = doc(r#"{"query":"Sort","item":"demo::x"}"#);
    assert!(matches!(tool_call("surface_summary", &args), ToolCall::Summary));
    assert!(matches!(tool_call("search_surface", &args), ToolCall::Search(q) if q == "Sort"));
    assert!(matches!(tool_call("perf_trend", &args), ToolCall::Trend(i) if i == "demo::x"));
    assert!(matches!(tool_call("get_item", &args), ToolCall::GetItem(p) if p.is_empty()));
}

#[test]
fn tool_replies_carry_text_or_an_invalid_params_error() {
    let ok = to_text(&tool_reply(Json::Num("5".into()), Ok("hello".into())));
    assert_eq!(
        ok,
        serde_text(r#"{"jsonrpc":"2.0","id":5,"result":{"content":[{"type":"text","text":"hello"}],"isError":false}}"#)
    );
    let err = to_text(&tool_reply(Json::Num("6".into()), Err(unknown_tool_message("frob"))));
    assert_eq!(
        err,
        serde_text(r#"{"jsonrpc":"2.0","id":6,"error":{"code":-32602,"message":"unknown tool \"frob\""}}"#)
    );
}

#[test]
fn a_line_that_is_not_json_gets_a_parse_error() {
    assert_eq!(
        to_text(&parse_error_reply()),
        serde_text(r#"{ "jsonrpc": "2.0", "id": null, "error": { "code": -32700, "message": "parse error" } }"#)
    );
}

#[test]
fn get_item_shows_signature_docs_and_measurements() {
    let text = get_item_text(&entries(), "demo", "demo::sorted", &vec!["12 allocs/iter (as `demo::sorted`)".into()]);
    assert_eq!(
        text,
        "demo::sorted (fn)\nsignature: pub fn sorted(v: &[u32]) -> Vec<u32>\ndocs: Returns a Sorted copy.\n\
measured: 12 allocs/iter (as `demo::sorted`)\n"
    );
    let bare = get_item_text(&entries(), "demo", "demo::Table", &Vec::new());
    assert_eq!(bare, "demo::Table (struct)\nmeasured: no (see `cargo soothfast coverage measure`)\n");
    assert_eq!(get_item_text(&entries(), "demo", "demo::nope", &Vec::new()), "no public item `demo::nope` in demo");
}

#[test]
fn search_matches_path_or_docs_ignoring_case() {
    assert_eq!(search_text(&entries(), "SORTED"), "demo::sorted (fn) — Sorted copy");
    assert_eq!(
        search_text(&entries(), "demo"),
        "demo::sorted (fn) — Sorted copy\ndemo::Table (struct) — A table"
    );
    assert_eq!(search_text(&entries(), "Zebra"), "no public items matching \"zebra\"");
}

#[test]
fn trend_text_joins_points_or_says_how_to_record_them() {
    assert_eq!(trend_text("x", &Vec::new()), "no trend data for `x` — run `cargo soothfast trend append`");
    assert_eq!(trend_text("x", &vec!["1 a: n=1".into(), "2 b: n=2".into()]), "1 a: n=1\n2 b: n=2");
}

#[test]
fn each_client_line_is_parsed_then_dispatched() {
    assert!(matches!(step_for_line("   \t", "1"), McpStep::Silent));
    assert_eq!(
        reply(step_for_line("{not json", "1")),
        r#"{"error":{"code":-32700,"message":"parse error"},"id":null,"jsonrpc":"2.0"}"#
    );
    assert_eq!(reply(step_for_line(r#"{"jsonrpc":"2.0","id":9,"method":"ping"}"#, "1")), r#"{"id":9,"jsonrpc":"2.0","result":{}}"#);
    assert!(matches!(step_for_line(r#"{"method":"ping"}"#, "1"), McpStep::Silent));
}
