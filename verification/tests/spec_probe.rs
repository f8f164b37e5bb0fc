use cargo_soothfast::spec_probe::{
    accept_report, base_authority, body_is_blank, drops_gone, empty_body_problem, gone_probe_failures, framing, gate_problems, gone_probes,
    probe_outcome, probe_report, read_chunked, request_head, status_code, ChunkError, Framing, PopulationFindings,
    ProbeOutcome,
};

#[test]
fn chunks_are_joined_until_the_zero_chunk() {
    let wire = b"4\r\nWiki\r\n5\r\npedia\r\nE\r\n in\r\n\r\nchunks.\r\n0\r\n\r\n";
    let body = read_chunked(wire).ok().expect("decodes");
    assert_eq!(body, b"Wikipedia in\r\n\r\nchunks.".to_vec());
}

#[test]
fn chunk_extensions_and_padding_are_ignored() {
    let wire = b"  3;name=value \r\nabc\r\n+2\r\nde\r\n0;last\r\ntrailer: x\r\n\r\n";
    let body = read_chunked(wire).ok().expect("decodes");
    assert_eq!(body, b"abcde".to_vec());
}

#[test]
fn a_bad_size_line_is_reported_verbatim() {
    match read_chunked(b"zz\r\nabc") {
        Err(ChunkError::BadSize(line)) => assert_eq!(line, "zz\r\n"),
        _ => panic!("expected a bad size"),
    }
    // End of stream before the terminating chunk reads an empty size line.
    match read_chunked(b"1\r\na\r\n") {
        Err(ChunkError::BadSize(line)) => assert_eq!(line, ""),
        _ => panic!("expected a bad size"),
    }
    match read_chunked(b"-1\r\n") {
        Err(ChunkError::BadSize(_)) => {}
        _ => panic!("a sign is not a size"),
    }
}

#[test]
fn a_short_chunk_is_truncated() {
    assert!(matches!(read_chunked(b"5\r\nab"), Err(ChunkError::Truncated)));
    // The chunk's closing line break must be there too.
    assert!(matches!(read_chunked(b"2\r\nab"), Err(ChunkError::Truncated)));
    assert!(matches!(
        read_chunked(b"ffffffffffffffff\r\nab"),
        Err(ChunkError::Truncated)
    ));
    assert!(matches!(
        read_chunked(b"1ffffffffffffffff\r\nab"),
        Err(ChunkError::BadSize(_))
    ));
}

#[test]
fn a_size_line_that_is_not_utf8_is_rejected() {
    assert!(matches!(read_chunked(b"\xff\r\n"), Err(ChunkError::NotUtf8)));
}

#[test]
fn an_empty_body_is_just_the_zero_chunk() {
    assert_eq!(read_chunked(b"0\r\n\r\n").ok(), Some(Vec::new()));
}

#[test]
fn a_status_line_yields_its_code() {
    assert_eq!(status_code("HTTP/1.1 200 OK\r\n"), Some(200));
    assert_eq!(status_code("HTTP/1.1 204\r\n"), Some(204));
    assert_eq!(status_code("  HTTP/1.0   404   Not Found"), Some(404));
    assert_eq!(status_code("HTTP/1.1 +301 Moved"), Some(301));
    assert_eq!(status_code("HTTP/1.1"), None);
    assert_eq!(status_code("HTTP/1.1 OK 200"), None);
    assert_eq!(status_code("HTTP/1.1 70000 Big"), None);
    assert_eq!(status_code(""), None);
}

fn lines(v: &[&str]) -> Vec<String> {
    v.iter().map(|s| s.to_string()).collect()
}

#[test]
fn headers_decide_how_the_body_is_delimited() {
    let f = framing(&lines(&["Content-Type: application/json\r\n", "Content-Length: 42\r\n"]));
    assert_eq!(f, Framing { content_length: Some(42), chunked: false });
    let f = framing(&lines(&["transfer-encoding:  Chunked \r\n"]));
    assert_eq!(f, Framing { content_length: None, chunked: true });
    let f = framing(&lines(&["CONTENT-LENGTH: 7\r\n", "Content-Length: nope\r\n"]));
    assert_eq!(f.content_length, None);
    let f = framing(&lines(&["Transfer-Encoding: gzip\r\n", "no colon here\r\n"]));
    assert_eq!(f, Framing { content_length: None, chunked: false });
    assert_eq!(framing(&Vec::new()), Framing { content_length: None, chunked: false });
}

#[test]
fn only_http_base_urls_are_probed() {
    assert_eq!(base_authority("http://127.0.0.1:8080/api").as_deref(), Some("127.0.0.1:8080"));
    assert_eq!(base_authority("http://localhost:3000").as_deref(), Some("localhost:3000"));
    assert_eq!(base_authority("https://example.com"), None);
}

#[test]
fn a_request_head_names_its_body_when_there_is_one() {
    assert_eq!(
        request_head("GET", "/v2/quote", "h:1", None),
        "GET /v2/quote HTTP/1.1\r\nHost: h:1\r\nAccept: application/json\r\nConnection: close\r\n\r\n"
    );
    assert_eq!(
        request_head("POST", "/items", "h:1", Some(13)),
        "POST /items HTTP/1.1\r\nHost: h:1\r\nAccept: application/json\r\nConnection: close\r\nContent-Type: application/json\r\nContent-Length: 13\r\n\r\n"
    );
}

#[test]
fn a_blank_body_is_only_whitespace() {
    assert!(body_is_blank(b""));
    assert!(body_is_blank(b" \r\n\t"));
    assert!(!body_is_blank(b" {}"));
}

#[test]
fn an_empty_body_fails_only_where_content_was_owed() {
    assert!(empty_body_problem(200, true, false));
    assert!(empty_body_problem(200, false, true));
    assert!(!empty_body_problem(200, false, false));
    assert!(!empty_body_problem(204, true, true));
    assert!(!empty_body_problem(304, true, false));
}

#[test]
fn locked_probes_missing_from_the_manifest_are_gone() {
    let locked = lines(&["a", "b", "c"]);
    let declared = lines(&["c", "a", "new"]);
    assert_eq!(gone_probes(&locked, &declared), lines(&["b"]));
}

#[test]
fn a_run_ends_by_its_failures_and_accept_flags() {
    assert_eq!(probe_outcome(false, false, 0), ProbeOutcome::Passed);
    assert_eq!(probe_outcome(false, true, 2), ProbeOutcome::Failed);
    assert_eq!(probe_outcome(true, false, 0), ProbeOutcome::Accepted);
    assert_eq!(probe_outcome(true, false, 1), ProbeOutcome::NotAccepted);
    assert_eq!(probe_outcome(true, true, 1), ProbeOutcome::PartlyAccepted);
}

#[test]
fn a_probe_held_to_the_lock_lists_every_kind_of_problem() {
    let findings = PopulationFindings {
        regressed: vec!["a.b".into()],
        new_fields: vec!["c".into()],
        uncovered: vec!["d".into()],
    };
    let all = gate_problems(&vec!["shape: x — bad".to_string()], &findings);
    assert_eq!(
        all,
        [
            "shape: x — bad",
            "population: `a.b` was always populated, now empty",
            "population: `c` is new — run spec probe --accept",
            "coverage: `d` is declared but never populated — wire it or accept it",
        ]
    );
    let (failed, lines) = probe_report("quote", &all[..2].to_vec(), 4);
    assert!(failed);
    assert_eq!(lines, ["FAIL  quote:", "      shape: x — bad", "      population: `a.b` was always populated, now empty"]);
    let (failed, lines) = probe_report("quote", &Vec::new(), 4);
    assert!(!failed);
    assert_eq!(lines, ["probe: quote — ok (4 fields)"]);
}

#[test]
fn an_accepted_probe_counts_its_fields_and_what_stays_uncovered() {
    assert_eq!(accept_report("q", &Vec::new(), 7, 0), (false, vec!["probe: q — accepted (7 fields)".to_string()]));
    assert_eq!(
        accept_report("q", &Vec::new(), 7, 2),
        (false, vec!["probe: q — accepted (7 fields, 2 uncovered)".to_string()])
    );
    let (failed, lines) = accept_report("q", &vec!["assert: x".to_string()], 7, 0);
    assert!(failed);
    assert_eq!(lines, ["FAIL  q: not accepted:", "      assert: x"]);
}

#[test]
fn only_a_full_accept_or_allow_gone_drops_locked_probes() {
    assert!(drops_gone(true, false));
    assert!(drops_gone(false, true));
    assert!(drops_gone(true, true));
    assert!(!drops_gone(false, false));
}

#[test]
fn each_kept_gone_probe_is_one_failure() {
    let gone = vec!["users".to_string(), "orders".to_string()];
    assert_eq!(
        gone_probe_failures(&gone, false),
        vec![
            "FAIL  probe `users` is locked but no longer in probes.toml (--allow-gone to drop)",
            "FAIL  probe `orders` is locked but no longer in probes.toml (--allow-gone to drop)",
        ]
    );
    assert!(gone_probe_failures(&gone, true).is_empty());
}
