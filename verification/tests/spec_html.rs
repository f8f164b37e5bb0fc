use cargo_soothfast::spec_html::{group_key, group_title, method_badge, method_class, page_stem, status_class};

#[test]
fn page_stem_drops_the_extension_and_directory() {
    assert_eq!(page_stem("openapi.yaml"), "openapi");
    assert_eq!(page_stem("server/mcp-tools.json"), "mcp-tools");
    assert_eq!(page_stem("no-extension"), "no-extension");
}

#[test]
fn method_badge_colors_by_mutation_risk_not_an_arbitrary_hue() {
    assert!(method_badge("GET").contains("spec-method-get"));
    assert!(method_badge("post").contains("spec-method-post"));
    assert!(method_badge("DELETE").contains("spec-method-delete"));
}

#[test]
fn status_class_buckets_default_with_the_error_responses() {
    assert_eq!(status_class("200"), "spec-status-2xx");
    assert_eq!(status_class("404"), "spec-status-4xx");
    assert_eq!(status_class("default"), "spec-status-4xx");
}

#[test]
fn group_key_skips_a_version_prefix_and_names_the_resource() {
    assert_eq!(group_key("/v2/quote/{symbol}"), "quote");
    assert_eq!(group_key("/v1/analysis/{symbol}/{type}"), "analysis");
    assert_eq!(group_key("/health"), "health");
    assert_eq!(group_key("/"), "root");
}

#[test]
fn group_title_capitalizes_and_despaces() {
    assert_eq!(group_title("capital-gains"), "Capital gains");
    assert_eq!(group_title("quote"), "Quote");
}

#[test]
fn method_badge_upper_cases_and_escapes_the_verb() {
    assert_eq!(
        method_badge("patch"),
        "<span class=\"spec-method spec-method-put\">PATCH</span>"
    );
    assert_eq!(
        method_badge("a<b"),
        "<span class=\"spec-method spec-method-options\">A&lt;B</span>"
    );
    assert_eq!(method_class("Receive"), "spec-method-get");
    assert_eq!(method_class("MUTATION"), "spec-method-put");
}

#[test]
fn a_lone_version_segment_is_the_group_itself() {
    assert_eq!(group_key("/v2"), "v2");
    assert_eq!(group_key("//v10//items"), "items");
    assert_eq!(group_key("/version/x"), "version");
    assert_eq!(group_key(""), "root");
    assert_eq!(status_class("302"), "spec-status-3xx");
    assert_eq!(status_class("503"), "spec-status-5xx");
    assert_eq!(status_class(""), "spec-status-4xx");
    assert_eq!(page_stem("dir.d/file"), "file");
    assert_eq!(page_stem("a/b.tar.gz"), "b.tar");
    assert_eq!(group_title("snake_case-key"), "Snake case key");
    assert_eq!(group_title(""), "");
}
