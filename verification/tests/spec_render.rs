use cargo_soothfast::json::Json;
use cargo_soothfast::spec_asyncapi::render_asyncapi;
use cargo_soothfast::spec_mcp::render_mcp;
use cargo_soothfast::spec_openapi::render_openapi;
use cargo_soothfast::spec_render::{
    operation_row_html, push_gaps_notes, request_body_html, responses_html, schemas_section, Info,
};
use serde_json::Value;

/// A JSON document as the library holds it, read from its text.
fn doc(text: &str) -> Json {
    from_value(&serde_json::from_str::<Value>(text).unwrap())
}

fn from_value(v: &Value) -> Json {
    match v {
        Value::Null => Json::Null,
        Value::Bool(b) => Json::Bool(*b),
        Value::Number(n) => Json::Num(n.to_string()),
        Value::String(s) => Json::Str(s.clone()),
        Value::Array(a) => Json::Arr(a.iter().map(from_value).collect()),
        Value::Object(m) => Json::Obj(m.iter().map(|(k, v)| (k.clone(), from_value(v))).collect()),
    }
}

fn members(j: Json) -> Vec<(String, Json)> {
    match j {
        Json::Obj(m) => m,
        _ => panic!("not an object"),
    }
}

#[test]
fn render_mcp_shows_the_ref_name_instead_of_any() {
    let value = doc(
        r##"{
            "tools": [{
                "name": "get_analysis",
                "description": "Get analysis.",
                "inputSchema": {
                    "type": "object",
                    "properties": { "kind": { "$ref": "#/$defs/AnalysisType" } },
                    "required": ["kind"],
                    "$defs": { "AnalysisType": { "type": "string", "enum": ["a", "b"] } }
                }
            }]
        }"##,
    );
    let mut id = 0u32;
    let md = render_mcp("mcp-tools.json", "acme", &value, &[], &[], &mut id);
    assert!(md.contains("get_analysis"), "{md}");
    assert!(md.contains("<code>AnalysisType</code>"), "{md}");
    assert!(!md.contains(">any<"), "the ref name must not fall back to any:\n{md}");
}

#[test]
fn render_openapi_groups_endpoints_by_resource_and_orders_verbs_readably() {
    let value = doc(
        r#"{
            "openapi": "3.1.0",
            "paths": {
                "/v2/items": {
                    "post": { "operationId": "createItem", "responses": {} },
                    "get": { "operationId": "listItems", "responses": {} }
                },
                "/v2/health": {
                    "get": { "operationId": "getHealth", "responses": {} }
                }
            }
        }"#,
    );
    let info = Info {
        title: "Items API".into(),
        version: "1.0".into(),
        description: None,
        servers: Vec::new(),
    };
    let mut id = 0u32;
    let md = render_openapi("openapi.yaml", &info, &value, &[], &[], &mut id);
    assert!(md.contains("### Items"), "{md}");
    assert!(md.contains("### Health"), "{md}");
    let get_at = md.find("listItems").unwrap();
    let post_at = md.find("createItem").unwrap();
    assert!(get_at < post_at, "GET should render before POST:\n{md}");
}

#[test]
fn gaps_and_notes_render_as_admonitions() {
    let value = doc(r#"{ "openapi": "3.1.0", "paths": {} }"#);
    let info = Info::default();
    let mut id = 0u32;
    let md = render_openapi(
        "openapi.yaml",
        &info,
        &value,
        &["a gap".to_string()],
        &["a note".to_string()],
        &mut id,
    );
    assert!(md.contains("!!! warning"), "{md}");
    assert!(md.contains("a gap"), "{md}");
    assert!(md.contains("!!! note"), "{md}");
    assert!(md.contains("a note"), "{md}");
}

#[test]
fn gaps_and_notes_are_counted_and_bulleted() {
    let mut out = String::from(">");
    push_gaps_notes(&mut out, &["x".to_string(), "y".to_string()], &[]);
    assert_eq!(
        out,
        ">!!! warning \"2 gap(s) the extractor could not derive\"\n    - x\n    - y\n\n"
    );
    let mut none = String::new();
    push_gaps_notes(&mut none, &[], &[]);
    assert_eq!(none, "");
}

#[test]
fn an_openapi_page_heads_with_title_version_description_and_servers() {
    let value = doc(r#"{ "paths": {} }"#);
    let info = Info {
        title: "Quotes".into(),
        version: "2.1".into(),
        description: Some("Market data.".into()),
        servers: vec!["https://a.example".into()],
    };
    let mut id = 3u32;
    let md = render_openapi("api/openapi.yaml", &info, &value, &[], &[], &mut id);
    assert_eq!(
        md,
        "# Quotes\n\n> Generated by `cargo soothfast spec html` from `api/openapi.yaml` (OpenAPI 3.1.0). \
Regenerate with `cargo soothfast spec gen` + `spec html`; do not hand-edit.\n\n\
**Version:** `2.1`\n\nMarket data.\n\n**Servers:**\n\n- `https://a.example`\n\n\
\n## Endpoints <sup>0 endpoint(s), 0 group(s)</sup>\n"
    );
    assert_eq!(id, 3);
}

#[test]
fn endpoint_groups_sort_by_key_and_count_their_operations() {
    let value = doc(
        r#"{
            "openapi": "3.0.3",
            "paths": {
                "/v1/zeta": { "delete": { "operationId": "dropZeta" } },
                "/v1/alpha": { "put": { "operationId": "setAlpha" }, "get": { "operationId": "getAlpha" } },
                "/v1/alpha/{id}": { "trace": { "operationId": "traceAlpha" } },
                "/v1/ignored": 5
            }
        }"#,
    );
    let mut id = 0u32;
    let md = render_openapi("o.json", &Info::default(), &value, &[], &[], &mut id);
    assert!(md.contains("(OpenAPI 3.0.3)"), "{md}");
    assert!(md.contains("<sup>4 endpoint(s), 2 group(s)</sup>"), "{md}");
    assert!(md.contains("### Alpha <sup>3 endpoint(s)</sup>"), "{md}");
    assert!(md.contains("### Zeta <sup>1 endpoint(s)</sup>"), "{md}");
    let order: Vec<usize> = ["getAlpha", "setAlpha", "traceAlpha", "dropZeta"]
        .iter()
        .map(|n| md.find(n).unwrap())
        .collect();
    assert!(order.windows(2).all(|w| w[0] < w[1]), "{md}");
    assert!(!md.contains("## Schemas"), "{md}");
}

#[test]
fn an_operation_row_shows_badge_path_summary_and_responses() {
    let op = doc(
        r#"{
            "operationId": "getQuote",
            "summary": "A quote",
            "responses": { "404": { "description": "Not <found>" } }
        }"#,
    );
    let mut id = 9u32;
    let html = operation_row_html("get", "/q", &op, &Vec::new(), &Vec::new(), &mut id);
    assert_eq!(
        html,
        "<details class=\"spec-row\" data-method=\"GET\" data-path=\"/q\"><summary>\
<span class=\"spec-method spec-method-get\">GET</span><code class=\"spec-row-path\" title=\"getQuote\">/q</code>\
<span class=\"spec-row-desc\">A quote</span><svg class=\"spec-row-chevron\" width=\"11\" height=\"11\" viewBox=\"0 0 16 16\" fill=\"none\" aria-hidden=\"true\"><path d=\"M5 2.5 L11 8 L5 13.5\" stroke=\"currentColor\" stroke-width=\"1.6\" stroke-linecap=\"round\" stroke-linejoin=\"round\"/></svg></summary>\
<div class=\"spec-body\"><p class=\"spec-subhead\">Responses</p><div class=\"spec-status-line\">\
<code class=\"spec-status-code spec-status-4xx\">404</code><span class=\"spec-status-desc\">Not &lt;found&gt;</span></div></div></details>"
    );
    assert_eq!(id, 9);
}

#[test]
fn a_row_without_an_operation_id_is_titled_by_its_path() {
    let op = doc(r#"{}"#);
    let mut id = 0u32;
    let html = operation_row_html("delete", "/x", &op, &Vec::new(), &Vec::new(), &mut id);
    assert!(html.contains("title=\"/x\""), "{html}");
    assert!(html.contains("spec-method-delete"), "{html}");
}

#[test]
fn each_schema_pair_takes_the_next_tab_id() {
    let rb = doc(
        r#"{ "content": {
            "application/json": { "schema": { "type": "string" } },
            "text/plain": { "schema": { "type": "integer" } }
        } }"#,
    );
    let mut id = 7u32;
    let html = request_body_html(&rb, &Vec::new(), &mut id);
    assert!(html.starts_with("<p class=\"spec-subhead\">Request body</p><p class=\"spec-ct\">application/json</p>"), "{html}");
    assert!(html.contains("name=\"tabs-7\""), "{html}");
    assert!(html.contains("name=\"tabs-8\""), "{html}");
    assert!(html.find("tabs-7").unwrap() < html.find("text/plain").unwrap(), "{html}");
    assert_eq!(id, 9);
}

#[test]
fn the_tab_counter_wraps_around() {
    let rs = members(doc(
        r#"{ "200": { "description": "ok", "content": {
            "a/b": { "schema": {} }, "c/d": { "schema": {} }
        } } }"#,
    ));
    let mut id = u32::MAX;
    let html = responses_html(&rs, &Vec::new(), &mut id);
    assert!(html.contains("spec-status-2xx"), "{html}");
    assert!(html.contains("name=\"tabs-4294967295\""), "{html}");
    assert!(html.contains("name=\"tabs-0\""), "{html}");
    assert_eq!(id, 1);
}

#[test]
fn the_schemas_section_lists_each_schema_with_its_hint() {
    assert_eq!(schemas_section(&doc("{}")), "");
    assert_eq!(schemas_section(&doc("[1]")), "");
    let html = schemas_section(&doc(
        r#"{ "Item": { "description": "One item.", "type": "object", "properties": { "a": { "type": "string" } } } }"#,
    ));
    assert!(html.starts_with("\n## Schemas <sup>1 type(s)</sup>\n\n<div class=\"spec-rowlist\">"), "{html}");
    assert!(html.contains("<span class=\"spec-row-name\">Item</span><span class=\"spec-row-desc\">object · 1 field</span>"), "{html}");
    assert!(html.contains("<p>One item.</p>"), "{html}");
    assert!(html.ends_with("</div>\n"), "{html}");
}

#[test]
fn an_asyncapi_page_lists_servers_channels_and_operations() {
    let value = doc(
        r##"{
            "asyncapi": "3.0.0",
            "servers": { "prod": { "protocol": "wss", "host": "api.example", "pathname": "/ws" } },
            "channels": {
                "ticks": {
                    "address": "ticks/{symbol}",
                    "parameters": { "symbol": { "description": "A <ticker>" } },
                    "messages": { "Tick": {}, "Heartbeat": {} }
                }
            },
            "operations": {
                "onTick": {
                    "action": "receive",
                    "channel": { "$ref": "#/channels/ticks" },
                    "summary": "Price ticks",
                    "messages": [{ "$ref": "#/channels/ticks/messages/Tick" }]
                },
                "sendPing": { "action": "send", "channel": { "$ref": "#/channels/ticks" } }
            },
            "components": {
                "messages": { "Tick": { "payload": { "type": "object", "properties": { "p": { "type": "number" } } } } },
                "schemas": { "Price": { "type": "number" } }
            }
        }"##,
    );
    let info = Info {
        title: "Ticks".into(),
        ..Info::default()
    };
    let mut id = 0u32;
    let md = render_asyncapi("asyncapi.yaml", &info, &value, &[], &[], &mut id);
    assert!(md.starts_with("# Ticks\n\n> Generated by `cargo soothfast spec html` from `asyncapi.yaml` (AsyncAPI 3.0.0)."), "{md}");
    assert!(md.contains("**Servers:**\n\n- `prod` — `wss://api.example/ws`\n\n"), "{md}");
    assert!(md.contains("\n## Channels <sup>1 channel(s)</sup>\n\n"), "{md}");
    assert!(md.contains("<code class=\"spec-row-name\">ticks/{symbol}</code><span class=\"spec-row-desc\">Heartbeat, Tick</span>"), "{md}");
    assert!(md.contains("<tr><td><code>symbol</code></td><td>A &lt;ticker&gt;</td></tr>"), "{md}");
    assert!(md.contains("<p class=\"spec-subhead\">Messages</p><p><code>Heartbeat</code>, <code>Tick</code></p>"), "{md}");
    assert!(md.contains("\n## Operations <sup>2 operation(s)</sup>\n\n"), "{md}");
    assert!(md.contains("<span class=\"spec-method spec-method-get\">RECEIVE</span><code class=\"spec-row-path\" title=\"onTick\">ticks</code>"), "{md}");
    assert!(md.contains("<p class=\"spec-subhead\">Payload · <code>Tick</code></p>"), "{md}");
    assert!(md.contains("spec-method-post\">SEND</span>"), "{md}");
    assert!(md.contains("\n## Schemas <sup>1 type(s)</sup>"), "{md}");
    assert_eq!(id, 1);
}

#[test]
fn an_mcp_tool_with_a_result_takes_two_tab_ids() {
    let value = doc(
        r##"{ "tools": [
            { "inputSchema": { "type": "object" }, "outputSchema": { "type": "string" } },
            { "name": "plain", "inputSchema": {} }
        ] }"##,
    );
    let mut id = 0u32;
    let md = render_mcp("t.json", "acme", &value, &[], &[], &mut id);
    assert!(md.starts_with("# `acme` MCP tools\n\n> Generated by `cargo soothfast spec html` from `t.json` (MCP tool manifest)."), "{md}");
    assert!(md.contains("**2 tool(s).**\n\n"), "{md}");
    assert!(md.contains("<span class=\"spec-row-name\">tool</span>"), "{md}");
    assert!(md.contains("<p class=\"spec-subhead\">Result</p>"), "{md}");
    assert!(md.contains("name=\"tabs-2\""), "{md}");
    assert!(!md.contains("Types</p>"), "{md}");
    assert_eq!(id, 3);
}
