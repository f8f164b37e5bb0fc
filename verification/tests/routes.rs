use cargo_soothfast::spec::{missing_handler_rows, route_row, route_rows, DeclaredOp, RouteDecl, RouteStatus};

fn route(id: &str, op: &str, method: &str, path: &str) -> RouteDecl {
    RouteDecl { id: id.into(), operation: op.into(), method: method.into(), path: path.into() }
}

fn ops_of(rows: &[(bool, String)]) -> Vec<&'static str> {
    let names = ["health", "getItemsAgain", "getItems", "postItems"];
    rows.iter()
        .map(|(_, r)| *names.iter().find(|o| r.contains(&format!("<td>{o}</td>"))).unwrap())
        .collect()
}

#[test]
fn rows_come_sorted_by_path_then_method_ties_in_registration_order() {
    let routes = vec![
        route("h::b", "postItems", "POST", "/items"),
        route("h::a", "getItems", "GET", "/items"),
        route("h::c", "health", "GET", "/health"),
        route("h::d", "getItemsAgain", "GET", "/items"),
    ];
    let rows = route_rows(&routes, &Vec::new(), &Vec::new(), &Vec::new(), &Vec::new());
    assert_eq!(ops_of(&rows), ["health", "getItems", "getItemsAgain", "postItems"]);
    assert!(rows.iter().all(|(pass, _)| *pass));
}

#[test]
fn each_row_carries_its_verdict_docs_and_measurement() {
    let routes = vec![route("h::q", "getQuote", "GET", "/q"), route("h::x", "extra", "GET", "/x")];
    let mismatched = vec![("h::q".to_string(), "getQuote".to_string(), "status".to_string())];
    let missing = vec![("h::x".to_string(), "extra".to_string())];
    let docs = vec![("h::q".to_string(), "A quote.".to_string())];
    let measured = vec![("h::q".to_string(), "12 median ns".to_string()), ("h::q".to_string(), "later".to_string())];
    let rows = route_rows(&routes, &mismatched, &missing, &docs, &measured);
    let q = RouteStatus { pass: false, mark: "✗", label: "mismatch: status".into() };
    let x = RouteStatus { pass: false, mark: "✗", label: "not in the spec".into() };
    assert_eq!(
        rows,
        vec![
            (false, route_row(&q, "GET", "/q", "getQuote", "h::q", Some("A quote."), Some("12 median ns"))),
            (false, route_row(&x, "GET", "/x", "extra", "h::x", None, None)),
        ]
    );
}

#[test]
fn an_operation_without_a_handler_gets_a_failing_row() {
    let ops = vec![DeclaredOp { operation: "gone".into(), method: "DELETE".into(), path: "/g".into() }];
    let rows = missing_handler_rows(&ops);
    let st = RouteStatus { pass: false, mark: "✗", label: "missing handler".into() };
    assert_eq!(rows, vec![(false, route_row(&st, "DELETE", "/g", "gone", "—", None, None))]);
    assert!(rows[0].1.contains("✗ missing handler"));
}
