use cargo_soothfast::json::{to_pretty, to_text, Json};
use cargo_soothfast::spec_schema::{
    hint_of, json_plain, parameters_and_try_html, resolve_ref, schema_example, schema_html_of, schema_with_example_html,
    type_of,
};
use serde_json::Value;

/// A JSON document as the library holds it, read from its text.
fn doc(text: &str) -> Json {
    from_value(&serde_json::from_str::<Value>(text).unwrap())
}

fn from_value(v: &Value) -> Json {
    match v {
        Value::Null => Json::Null,
        Value::Bool(b) => Json::Bool(*b),
        Value::Number(n) => Json::Num(n.to_string()),
        Value::String(s) => Json::Str(s.clone()),
        Value::Array(a) => Json::Arr(a.iter().map(from_value).collect()),
        Value::Object(m) => Json::Obj(m.iter().map(|(k, v)| (k.clone(), from_value(v))).collect()),
    }
}

#[test]
fn type_str_resolves_a_ref_to_its_bare_name() {
    assert_eq!(type_of(&doc(r##"{ "$ref": "#/components/schemas/Item" }"##)), "Item");
    assert_eq!(type_of(&doc(r##"{ "$ref": "#/$defs/AnalysisType" }"##)), "AnalysisType");
}

#[test]
fn type_str_renders_arrays_and_unions() {
    assert_eq!(type_of(&doc(r#"{ "type": "array", "items": { "type": "string" } }"#)), "string[]");
    assert_eq!(
        type_of(&doc(r#"{ "oneOf": [{ "type": "string" }, { "type": "integer" }] }"#)),
        "string | integer"
    );
}

#[test]
fn type_str_falls_back_to_object_when_properties_imply_it() {
    assert_eq!(type_of(&doc(r#"{ "properties": { "a": { "type": "string" } } }"#)), "object");
}

#[test]
fn type_str_covers_the_other_shapes() {
    assert_eq!(type_of(&doc(r##"{ "anyOf": [{ "type": "string" }, { "$ref": "#/x/Y" }] }"##)), "string | Y");
    assert_eq!(type_of(&doc(r##"{ "allOf": [{ "$ref": "#/x/A" }, { "$ref": "#/x/B" }] }"##)), "A & B");
    assert_eq!(type_of(&doc(r#"{ "const": "on" }"#)), "\"on\"");
    assert_eq!(type_of(&doc(r#"{ "type": ["string", "null"] }"#)), "string | null");
    assert_eq!(type_of(&doc(r#"{ "type": "array" }"#)), "any[]");
    assert_eq!(type_of(&doc(r#"{}"#)), "any");
    assert_eq!(type_of(&doc(r##"{ "type": "array", "items": { "type": "array", "items": { "$ref": "#/a/P" } } }"##)), "P[][]");
}

#[test]
fn schema_html_tabulates_properties_with_required_marked() {
    let schema = doc(
        r#"{
            "type": "object",
            "properties": { "name": { "type": "string" }, "qty": { "type": "integer" } },
            "required": ["name"]
        }"#,
    );
    let html = schema_html_of(&schema);
    assert!(html.contains("spec-required"), "{html}");
    assert!(html.contains("<code>name</code>"), "{html}");
    assert!(html.contains("<code>qty</code>"), "{html}");
}

#[test]
fn schema_html_falls_back_to_a_type_line_for_a_non_object_schema() {
    let html = schema_html_of(&doc(r#"{ "type": "array", "items": { "type": "string" } }"#));
    assert!(html.contains("string[]"), "{html}");
    assert!(!html.contains("<table>"), "{html}");
}

#[test]
fn schema_html_lists_a_bare_enum() {
    let html = schema_html_of(&doc(r#"{ "type": "string", "enum": ["a", "b"] }"#));
    assert!(html.contains("one of"), "{html}");
    assert!(html.contains("&quot;a&quot;"), "{html}");
}

#[test]
fn schema_html_renders_rows_and_unions_exactly() {
    let html = schema_html_of(&doc(
        r#"{ "properties": { "k": { "type": "string", "description": "a <key>", "enum": ["x"] } }, "required": ["k"] }"#,
    ));
    assert_eq!(
        html,
        "<div class=\"tablewrap\"><table><thead><tr><th>field</th><th>type</th><th>required</th><th>description</th></tr></thead><tbody>\
<tr><td><code>k</code></td><td><code>string</code></td><td><span class=\"spec-required\">required</span></td><td>a &lt;key&gt; · one of <code>&quot;x&quot;</code></td></tr>\
</tbody></table></div>"
    );
    let union = schema_html_of(&doc(r#"{ "oneOf": [{ "type": "string" }, { "enum": [1, 2] }] }"#));
    assert_eq!(
        union,
        "<p>one of:</p><ul class=\"spec-oneof\"><li><p><code>string</code></p></li><li><p>one of: <code>1</code>, <code>2</code></p></li></ul>"
    );
}

#[test]
fn schema_hint_summarizes_shape_without_expanding_it() {
    assert_eq!(hint_of(&doc(r#"{ "type": "object", "properties": { "a": {}, "b": {} } }"#)), "object · 2 fields");
    assert_eq!(hint_of(&doc(r#"{ "oneOf": [{}, {}, {}] }"#)), "oneOf · 3 variants");
    assert_eq!(hint_of(&doc(r#"{ "enum": ["a"] }"#)), "enum");
    assert_eq!(hint_of(&doc(r#"{ "type": "string" }"#)), "string");
    assert_eq!(hint_of(&doc(r#"{ "properties": { "a": {} } }"#)), "object · 1 field");
}

#[test]
fn json_text_matches_serde_json() {
    for text in [
        r#"{"a":[1,2.5,-3e10,true,null],"b":{"c":"x\"y\\z\n\t\u0001é"},"d":[],"e":{}}"#,
        r#""plain""#,
        r#"[[],[[]],{"k":{}}]"#,
    ] {
        let v: Value = serde_json::from_str(text).unwrap();
        assert_eq!(to_text(&from_value(&v)), v.to_string());
        assert_eq!(to_pretty(&from_value(&v)), serde_json::to_string_pretty(&v).unwrap());
    }
}

#[test]
fn plain_values_are_typed_as_a_caller_would_type_them() {
    assert_eq!(json_plain(&doc(r#""us-east""#)), "us-east");
    assert_eq!(json_plain(&doc("null")), "");
    assert_eq!(json_plain(&doc("42")), "42");
    assert_eq!(json_plain(&doc("[1,\"a\"]")), "[1,\"a\"]");
}

#[test]
fn a_ref_resolves_against_the_definitions() {
    let defs = match doc(r#"{ "Region": { "enum": ["us", "eu"] } }"#) {
        Json::Obj(m) => m,
        _ => unreachable!(),
    };
    let found = resolve_ref(&doc(r##"{ "$ref": "#/components/schemas/Region" }"##), &defs).unwrap();
    assert_eq!(to_text(found), r#"{"enum":["us","eu"]}"#);
    assert!(resolve_ref(&doc(r##"{ "$ref": "#/components/schemas/Other" }"##), &defs).is_none());
    assert!(resolve_ref(&doc(r#"{ "type": "string" }"#), &defs).is_none());
}

fn no_defs() -> Vec<(String, Json)> {
    Vec::new()
}

fn defs_of(text: &str) -> Vec<(String, Json)> {
    match doc(text) {
        Json::Obj(m) => m,
        _ => unreachable!(),
    }
}

fn member<'a>(j: &'a Json, k: &str) -> &'a Json {
    match j {
        Json::Obj(m) => &m.iter().find(|(n, _)| n == k).unwrap().1,
        _ => panic!("not an object: {}", to_text(j)),
    }
}

#[test]
fn example_value_prefers_a_literal_example_over_synthesis() {
    let schema = doc(r#"{ "type": "string", "example": "AAPL" }"#);
    assert_eq!(to_text(&schema_example(&schema, &no_defs())), r#""AAPL""#);
}

#[test]
fn example_value_falls_back_to_default_then_first_enum_value() {
    assert_eq!(to_text(&schema_example(&doc(r#"{ "type": "string", "default": "US" }"#), &no_defs())), r#""US""#);
    assert_eq!(to_text(&schema_example(&doc(r#"{ "type": "string", "enum": ["AR", "US"] }"#), &no_defs())), r#""AR""#);
}

#[test]
fn example_value_builds_an_object_from_properties_recursively() {
    let schema = doc(
        r#"{
            "type": "object",
            "properties": {
                "name": { "type": "string" },
                "count": { "type": "integer" },
                "active": { "type": "boolean" }
            }
        }"#,
    );
    let example = schema_example(&schema, &no_defs());
    assert_eq!(to_text(member(&example, "name")), r#""string""#);
    assert_eq!(to_text(member(&example, "count")), "0");
    assert_eq!(to_text(member(&example, "active")), "true");
}

#[test]
fn example_value_picks_the_non_null_arm_of_a_nullable_type_array() {
    let schema = doc(r#"{ "type": ["string", "null"] }"#);
    assert_eq!(to_text(&schema_example(&schema, &no_defs())), r#""string""#);
}

#[test]
fn example_value_resolves_a_ref_against_the_supplied_defs() {
    let defs = defs_of(r#"{ "Item": { "type": "object", "properties": { "id": { "type": "string" } } } }"#);
    let example = schema_example(&doc(r##"{ "$ref": "#/components/schemas/Item" }"##), &defs);
    assert_eq!(to_text(member(&example, "id")), r#""string""#);
}

#[test]
fn example_value_terminates_on_a_self_referential_schema() {
    let defs = defs_of(r##"{ "Node": { "type": "object", "properties": { "child": { "$ref": "#/$defs/Node" } } } }"##);
    let example = schema_example(&doc(r##"{ "$ref": "#/$defs/Node" }"##), &defs);
    assert_eq!(to_text(&example), r#"{"child":null}"#);
}

#[test]
fn example_value_resolves_a_deep_but_finite_chain_of_distinct_refs() {
    let defs = defs_of(
        r##"{
            "A": { "type": "object", "properties": { "b": { "$ref": "#/$defs/B" } } },
            "B": { "type": "object", "properties": { "c": { "$ref": "#/$defs/C" } } },
            "C": { "type": "object", "properties": { "d": { "$ref": "#/$defs/D" } } },
            "D": { "type": "object", "properties": { "leaf": { "type": "string" } } }
        }"##,
    );
    let example = schema_example(&doc(r##"{ "$ref": "#/$defs/A" }"##), &defs);
    let leaf = member(member(member(member(&example, "b"), "c"), "d"), "leaf");
    assert_eq!(to_text(leaf), r#""string""#, "got {}", to_text(&example));
}

#[test]
fn example_value_merges_all_of_and_types_placeholders() {
    let schema = doc(
        r#"{ "allOf": [
            { "properties": { "b": { "type": "number" }, "a": { "type": "integer" } } },
            { "type": "string" },
            { "properties": { "a": { "type": "array", "items": { "type": "boolean" } } } }
        ] }"#,
    );
    assert_eq!(to_text(&schema_example(&schema, &no_defs())), r#"{"a":[true],"b":0.0}"#);
    assert_eq!(to_text(&schema_example(&doc(r#"{ "oneOf": [{ "type": "null" }, { "type": "string" }] }"#), &no_defs())), "null");
    assert_eq!(to_text(&schema_example(&doc(r#"{ "type": "array" }"#), &no_defs())), "[null]");
    assert_eq!(to_text(&schema_example(&doc(r#"{}"#), &no_defs())), "{}");
    assert_eq!(to_text(&schema_example(&doc(r#"{ "type": "mystery" }"#), &no_defs())), "null");
    assert_eq!(to_text(&schema_example(&doc(r#"{ "type": ["null"] }"#), &no_defs())), "null");
}

#[test]
fn schema_with_example_html_renders_both_tabs() {
    let html = schema_with_example_html(&doc(r#"{ "type": "string" }"#), &no_defs(), 0);
    assert!(html.contains("Example Value"), "{html}");
    assert!(html.contains("Schema"), "{html}");
    assert!(html.contains("class=\"tabs\""), "{html}");
    assert!(html.contains("name=\"tabs-0\""), "{html}");
    assert!(html.contains("<pre class=\"spec-example\">&quot;string&quot;</pre>"), "{html}");
}

fn servers() -> Vec<String> {
    vec!["https://a.example".to_string()]
}

#[test]
fn parameters_and_try_out_shows_available_values_and_default_unconditionally() {
    let params = vec![doc(
        r#"{
            "name": "region", "in": "query", "required": false,
            "schema": { "type": "string", "enum": ["US", "CA"], "default": "US" }
        }"#,
    )];
    let html = parameters_and_try_html(Some(&params), None, &servers(), &no_defs());
    assert!(html.contains("Available values"), "{html}");
    assert!(html.contains(">US<") || html.contains("US, CA"), "{html}");
    assert!(html.contains("Default value"), "{html}");
    assert!(html.contains("<select data-name=\"region\">"), "{html}");
    assert!(html.contains("<option value=\"US\" selected>"), "{html}");
}

#[test]
fn parameters_and_try_out_uses_a_text_input_for_a_non_enum_param() {
    let params = vec![doc(
        r#"{ "name": "symbol", "in": "path", "required": true, "schema": { "type": "string" } }"#,
    )];
    let html = parameters_and_try_html(Some(&params), None, &servers(), &no_defs());
    assert!(html.contains("<input type=\"text\" data-name=\"symbol\">"), "{html}");
}

#[test]
fn parameters_and_try_out_resolves_enum_default_and_description_through_a_ref() {
    let defs = defs_of(
        r#"{ "Region": { "description": "Supported regions", "type": "string", "enum": ["US", "JP", "GB"] } }"#,
    );
    let params = vec![doc(
        r##"{
            "name": "region", "in": "query", "required": false,
            "schema": {
                "description": "Region code, defaults to US if not specified.",
                "$ref": "#/components/schemas/Region"
            }
        }"##,
    )];
    let html = parameters_and_try_html(Some(&params), None, &servers(), &defs);
    assert!(html.contains("Region code, defaults to US"), "{html}");
    assert!(html.contains("Available values"), "{html}");
    assert!(html.contains("US, JP, GB"), "{html}");
    assert!(html.contains("<select data-name=\"region\">"), "{html}");
    assert!(html.contains("<option value=\"US\">US</option>"), "{html}");
}

#[test]
fn parameters_and_try_out_is_omitted_entirely_with_no_params_and_no_server() {
    assert_eq!(parameters_and_try_html(None, None, &Vec::new(), &no_defs()), "");
}

#[test]
fn parameters_and_try_out_still_shows_the_toggle_with_zero_params() {
    let html = parameters_and_try_html(None, None, &servers(), &no_defs());
    assert!(html.contains("spec-try-toggle"), "{html}");
    assert!(html.contains("spec-try-actions"), "{html}");
}

#[test]
fn request_body_prefills_from_the_schema_default_and_examples() {
    let body = doc(r#"{ "type": "object", "properties": { "a": { "type": "string" } } }"#);
    let html = parameters_and_try_html(None, Some(&body), &servers(), &no_defs());
    assert!(html.contains("spec-try-bodytext"), "{html}");
    assert!(html.contains("&quot;a&quot;"), "{html}");
}

#[test]
fn a_parameter_row_without_a_server_has_no_value_column() {
    let params = vec![doc(r#"{ "name": "q", "schema": { "type": "integer", "default": 5 } }"#)];
    let html = parameters_and_try_html(Some(&params), None, &Vec::new(), &no_defs());
    assert_eq!(
        html,
        "<p class=\"spec-subhead\">Parameters</p><div class=\"tablewrap\"><table><thead><tr><th>name</th><th>description</th></tr></thead><tbody>\
<tr><td><code>q</code> <span class=\"spec-optional\">optional</span><div class=\"spec-param-meta-type\">integer (query)</div></td><td>\
<p class=\"spec-param-meta\"><em>Default value</em>: <code>5</code></p></td></tr></tbody></table></div>"
    );
}
