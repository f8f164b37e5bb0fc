use cargo_soothfast::bind::{crate_path, parse_only};
use cargo_soothfast::bind_bench::{item_id, valid_shape};
use cargo_soothfast::bind_bench_launch::find_artifact;
use cargo_soothfast::coverage::pct;
use cargo_soothfast::docs::head_for_sniff;
use cargo_soothfast::spec::{route_group, route_row, route_status, routes_table, RouteStatus};
use cargo_soothfast::text::{decimal_string, escape};

#[test]
fn item_id_normalizes_the_crate_name() {
    assert_eq!(
        item_id("soothfast-demo", "node", "batch_buffer"),
        "soothfast_demo::bind::node::batch_buffer"
    );
}

#[test]
fn find_artifact_matches_by_suffix_among_several() {
    let artifacts = vec![
        "/out/target/soothfast-stats.jar".to_string(),
        "/out/target/release/libio_soothfast_stats.so".to_string(),
    ];
    assert_eq!(
        find_artifact(&artifacts, ".jar"),
        Some("/out/target/soothfast-stats.jar")
    );
    assert_eq!(find_artifact(&artifacts, ".whl"), None);
}

#[test]
fn pct_floors_and_treats_empty_as_full() {
    assert_eq!(pct(0, 0), 100);
    assert_eq!(pct(3, 0), 100);
    assert_eq!(pct(3, 1), 66);
    assert_eq!(pct(123, 15), 87);
}

#[test]
fn pct_is_a_floor_percentage_on_large_surfaces_too() {
    assert_eq!(pct(3, 5), 0);
    assert_eq!(pct(u32::MAX, 0), 100);
    assert_eq!(pct(50_000_000, 0), 100);
    assert_eq!(pct(100_000_000, 1), 99);
    assert_eq!(pct(u32::MAX, u32::MAX / 2), 50);
}

#[test]
fn head_for_sniff_backs_off_to_char_boundary() {
    // '€' is 3 bytes: byte 400 falls mid-char (the old slice panicked).
    let text = "€".repeat(150);
    let head = head_for_sniff(&text, 400);
    assert_eq!(head, "€".repeat(133));
    assert_eq!(head_for_sniff("short", 400), "short");
    assert_eq!(head_for_sniff("abcdef", 3), "abc");
    assert_eq!(head_for_sniff("€", 2), "");
}

#[test]
fn parse_only_splits_and_trims() {
    assert_eq!(parse_only("python, node"), vec!["python", "node"]);
    assert_eq!(parse_only("python,,node,"), vec!["python", "node"]);
    assert_eq!(parse_only(""), Vec::<String>::new());
}

#[test]
fn crate_path_climbs_one_level_per_segment() {
    assert_eq!(crate_path("bindings/python"), "../..");
    assert_eq!(crate_path("out"), "..");
    assert_eq!(crate_path(""), "..");
    assert_eq!(crate_path("/a//b/c/"), "../../..");
}

#[test]
fn shapes_are_held_to_identifier_form() {
    assert!(valid_shape("build_summary"));
    assert!(valid_shape("_x1"));
    assert!(!valid_shape("batch buffer"));
    assert!(!valid_shape("1st"));
    assert!(!valid_shape(""));
    assert!(!valid_shape("a.b"));
}

#[test]
fn escape_covers_the_five_html_specials() {
    assert_eq!(escape("<a href=\"x\">'&'</a>"), "&lt;a href=&quot;x&quot;&gt;&#39;&amp;&#39;&lt;/a&gt;");
    assert_eq!(escape("plain €"), "plain €");
}

#[test]
fn decimal_strings_match_formatting() {
    for n in [0u64, 7, 10, 99, 100, 12345, u64::MAX] {
        assert_eq!(decimal_string(n), n.to_string());
    }
}

#[test]
fn a_route_row_escapes_and_falls_back_for_an_empty_path() {
    let status = RouteStatus { pass: false, mark: "✗", label: "not in the spec".to_string() };
    let row = route_row(&status, "GET", "", "getQuote", "api::quote", Some("  Quote <now>  "), Some("12 median ns"));
    assert_eq!(
        row,
        "<tr><td><span class=\"route-status route-status-fail\">✗ not in the spec</span></td>\
<td><code>GET</code></td><td><code>—</code></td>\
<td title=\"Quote &lt;now&gt;\">getQuote <span class=\"route-measured\">· 12 median ns</span></td><td><code>api::quote</code></td></tr>"
    );
    let ok = RouteStatus { pass: true, mark: "✓", label: "reconciled".to_string() };
    let row = route_row(&ok, "POST", "/items", "create", "api::create", Some("   "), None);
    assert!(row.contains("route-status-pass"));
    assert!(row.contains("<td>create</td>"));
}

#[test]
fn a_route_group_states_its_count_and_openness() {
    let g = route_group("problems", 3, true, "<tr></tr>");
    assert!(g.starts_with("\n<details class=\"route-group\" open><summary>"));
    assert!(g.contains("</svg>3 problems</summary>"));
    assert!(g.ends_with("<tbody><tr></tr></tbody></table></div></details>\n"));
    let closed = route_group("reconciled", 12, false, "");
    assert!(closed.starts_with("\n<details class=\"route-group\"><summary>"));
    assert!(closed.contains("12 reconciled"));
}

#[test]
fn a_mismatch_outranks_a_missing_spec_entry() {
    let mismatched = vec![(
        "h::get_quote".to_string(),
        "getQuote".to_string(),
        "status 200 vs 201".to_string(),
    )];
    let missing = vec![
        ("h::get_quote".to_string(), "getQuote".to_string()),
        ("h::list".to_string(), "list".to_string()),
    ];
    let s = route_status(&mismatched, &missing, "h::get_quote", "getQuote");
    assert!(!s.pass);
    assert_eq!(s.mark, "✗");
    assert_eq!(s.label, "mismatch: status 200 vs 201");
    let s = route_status(&mismatched, &missing, "h::list", "list");
    assert_eq!((s.pass, s.mark, s.label.as_str()), (false, "✗", "not in the spec"));
    let s = route_status(&mismatched, &missing, "h::other", "getQuote");
    assert_eq!((s.pass, s.mark, s.label.as_str()), (true, "✓", "reconciled"));
}

#[test]
fn problems_open_first_and_a_clean_table_opens_its_only_group() {
    let rows = vec![(true, "<ok1>".to_string()), (false, "<bad>".to_string()), (true, "<ok2>".to_string())];
    let missing = vec![(false, "<nohandler>".to_string())];
    let t = routes_table(&rows, &missing);
    let problems = route_group("problems", 2, true, "<bad><nohandler>");
    let ok = route_group("reconciled", 2, false, "<ok1><ok2>");
    assert_eq!(t, format!("{problems}{ok}"));

    let clean = routes_table(&vec![(true, "<ok>".to_string())], &Vec::new());
    assert_eq!(clean, route_group("reconciled", 1, true, "<ok>"));

    let one = routes_table(&vec![(false, "<bad>".to_string())], &Vec::new());
    assert_eq!(one, route_group("problem", 1, true, "<bad>"));
    assert_eq!(routes_table(&Vec::new(), &Vec::new()), "");
}
