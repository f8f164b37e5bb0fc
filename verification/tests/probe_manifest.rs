use cargo_soothfast::probe_manifest::{parse_manifest, ProbeManifest};
use cargo_soothfast::toml_lines::{ConfigValue, ParsedLine};

fn line(lineno: usize, text: &str, value: ConfigValue) -> ParsedLine {
    ParsedLine { lineno, text: text.to_string(), value: Ok(value) }
}

fn bare(lineno: usize, text: &str) -> ParsedLine {
    line(lineno, text, ConfigValue::Other)
}

fn s(text: &str) -> ConfigValue {
    ConfigValue::Str(text.to_string())
}

fn arr(items: &[&str]) -> ConfigValue {
    ConfigValue::StrArray(items.iter().map(|i| i.to_string()).collect(), None)
}

/// The manifest of the original test, line by line as the site engine reads it.
fn manifest_lines() -> Vec<ParsedLine> {
    vec![
        bare(1, "[probes]"),
        line(2, "spec = \"openapi.yaml\"", s("openapi.yaml")),
        line(3, "command = \"../target/release/server\"", s("../target/release/server")),
        line(
            4,
            "env = { PORT = \"0\" }",
            ConfigValue::Table(vec![("PORT".to_string(), Some("0".to_string()))]),
        ),
        bare(6, "[[probe]]"),
        line(7, "name = \"quote\"", s("quote")),
        line(8, "path = \"/v2/quote/AAPL\"", s("/v2/quote/AAPL")),
        line(9, "sometimes = [\"preMarket*\"]", arr(&["preMarket*"])),
        line(10, "assert = [\"regularMarketPrice > 0\"]", arr(&["regularMarketPrice > 0"])),
        bare(12, "[[probe]]"),
        line(13, "name = \"missing\"", s("missing")),
        line(14, "path = \"/v2/nope\"", s("/v2/nope")),
        line(15, "status = 404", ConfigValue::Int(404)),
    ]
}

fn env_get<'a>(m: &'a ProbeManifest, k: &str) -> &'a str {
    m.header.env.iter().find(|(name, _)| name == k).map(|(_, v)| v.as_str()).unwrap()
}

#[test]
fn a_manifest_parses_with_defaults_applied() {
    let manifest = parse_manifest(&manifest_lines()).unwrap();
    assert_eq!(manifest.header.spec.as_deref(), Some("openapi.yaml"));
    assert_eq!(env_get(&manifest, "PORT"), "0");
    assert_eq!(manifest.header.ready_timeout_secs, 30);
    assert_eq!(manifest.probes.len(), 2);
    assert_eq!(manifest.probes[0].status, 200);
    assert_eq!(manifest.probes[0].sometimes, ["preMarket*"]);
    assert_eq!(manifest.probes[0].asserts.len(), 1);
    assert_eq!(manifest.probes[1].status, 404);
}

#[test]
fn nameless_pathless_and_duplicate_probes_are_rejected() {
    let nameless = vec![bare(1, "[[probe]]"), line(2, "path = \"/x\"", s("/x"))];
    assert!(parse_manifest(&nameless).is_err());
    let pathless = vec![bare(1, "[[probe]]"), line(2, "name = \"a\"", s("a"))];
    assert!(parse_manifest(&pathless).is_err());
    let dup = vec![
        bare(1, "[[probe]]"),
        line(2, "name = \"a\"", s("a")),
        line(3, "path = \"/x\"", s("/x")),
        bare(4, "[[probe]]"),
        line(5, "name = \"a\"", s("a")),
        line(6, "path = \"/y\"", s("/y")),
    ];
    assert!(parse_manifest(&dup).is_err());
}

#[test]
fn unknown_tables_and_keys_are_errors_not_silence() {
    let site = vec![bare(1, "[site]"), line(2, "name = \"x\"", s("x"))];
    assert!(parse_manifest(&site).is_err());
    let bogus_header = vec![bare(1, "[probes]"), line(2, "bogus = 1", ConfigValue::Int(1))];
    assert!(parse_manifest(&bogus_header).is_err());
    let bogus_probe = vec![
        bare(1, "[[probe]]"),
        line(2, "name = \"a\"", s("a")),
        line(3, "path = \"/x\"", s("/x")),
        line(4, "bogus = 1", ConfigValue::Int(1)),
    ];
    assert!(parse_manifest(&bogus_probe).is_err());
}

#[test]
fn the_first_problem_is_reported_with_its_line() {
    let site = vec![bare(1, "[site]")];
    assert_eq!(parse_manifest(&site).err().unwrap(), "line 1: unknown table [site]");
    let sdk = vec![bare(3, "[[ sdk ]]")];
    assert_eq!(parse_manifest(&sdk).err().unwrap(), "line 3: unknown table [[sdk]]");
    let outside = vec![line(1, "name = \"a\"", s("a"))];
    assert_eq!(parse_manifest(&outside).err().unwrap(), "line 1: key outside any table");
    let malformed = vec![bare(1, "[probes]"), bare(2, "spec")];
    assert_eq!(parse_manifest(&malformed).err().unwrap(), "line 2: expected `key = value`");
    let bogus = vec![bare(1, "[probes]"), line(2, "bogus = 1", ConfigValue::Int(1))];
    assert_eq!(parse_manifest(&bogus).err().unwrap(), "line 2: unknown or mistyped [probes] key `bogus`");
    let mut unread = vec![bare(1, "[probes]"), bare(2, "spec = ???")];
    unread[1].value = Err("cannot read value".to_string());
    assert_eq!(parse_manifest(&unread).err().unwrap(), "line 2: cannot read value");
}

#[test]
fn entry_checks_name_the_entry() {
    let nameless = vec![bare(1, "[[probe]]"), line(2, "path = \"/x\"", s("/x"))];
    assert_eq!(parse_manifest(&nameless).err().unwrap(), "probe #1 has no name");
    let pathless = vec![
        bare(1, "[[probe]]"),
        line(2, "name = \"a\"", s("a")),
        line(3, "path = \"/a\"", s("/a")),
        bare(4, "[[probe]]"),
        line(5, "name = \"b\"", s("b")),
    ];
    assert_eq!(parse_manifest(&pathless).err().unwrap(), "probe `b` has no path");
    let dup = vec![
        bare(1, "[[probe]]"),
        line(2, "name = \"a\"", s("a")),
        line(3, "path = \"/x\"", s("/x")),
        bare(4, "[[probe]]"),
        line(5, "name = \"a\"", s("a")),
        line(6, "path = \"/y\"", s("/y")),
    ];
    assert_eq!(parse_manifest(&dup).err().unwrap(), "duplicate probe name `a`");
}

#[test]
fn entry_keys_are_read_as_the_manifest_documents_them() {
    let lines = vec![
        bare(1, "[[probe]]"),
        line(2, "name = \"post\"", s("post")),
        line(3, "path = \"/items\"", s("/items")),
        line(4, "method = \"post\"", s("post")),
        line(5, "body = [\"{\", \"}\"]", arr(&["{", "}"])),
        line(6, "shape = false", ConfigValue::Bool(false)),
        line(7, "status = 201", ConfigValue::Int(201)),
        line(8, "assert = [\"a > 0\"]", arr(&["a > 0"])),
        line(9, "assert = [\"b > 0\", \"c > 0\"]", arr(&["b > 0", "c > 0"])),
    ];
    let m = parse_manifest(&lines).unwrap();
    let p = &m.probes[0];
    assert_eq!(p.method, "POST");
    assert_eq!(p.body.as_deref(), Some("{\n}"));
    assert!(!p.shape);
    assert_eq!(p.status, 201);
    assert_eq!(p.asserts, ["a > 0", "b > 0", "c > 0"]);
    let single = vec![
        bare(1, "[[probe]]"),
        line(2, "name = \"n\"", s("n")),
        line(3, "path = \"/\"", s("/")),
        line(4, "body = \"{}\"", s("{}")),
    ];
    assert_eq!(parse_manifest(&single).unwrap().probes[0].body.as_deref(), Some("{}"));
}

#[test]
fn out_of_range_and_mistyped_values_are_rejected() {
    let status = vec![
        bare(1, "[[probe]]"),
        line(2, "status = 99", ConfigValue::Int(99)),
    ];
    assert_eq!(parse_manifest(&status).err().unwrap(), "line 2: unknown or mistyped [[probe]] key `status`");
    let timeout = vec![bare(1, "[probes]"), line(2, "ready_timeout_secs = 0", ConfigValue::Int(0))];
    assert_eq!(
        parse_manifest(&timeout).err().unwrap(),
        "line 2: unknown or mistyped [probes] key `ready_timeout_secs`"
    );
    let env = vec![
        bare(1, "[probes]"),
        line(2, "env = { PORT = 0 }", ConfigValue::Table(vec![("PORT".to_string(), None)])),
    ];
    assert_eq!(parse_manifest(&env).err().unwrap(), "line 2: env `PORT` must be a string");
    let bad_assert = vec![
        bare(1, "[[probe]]"),
        line(
            2,
            "assert = [\"???\"]",
            ConfigValue::StrArray(vec!["???".to_string()], Some("cannot read `???`".to_string())),
        ),
    ];
    assert_eq!(parse_manifest(&bad_assert).err().unwrap(), "line 2: cannot read `???`");
}

#[test]
fn header_keys_fill_the_header() {
    let lines = vec![
        bare(1, "[probes]"),
        line(2, "args = [\"--port\", \"0\"]", arr(&["--port", "0"])),
        line(3, "ready_timeout_secs = 5", ConfigValue::Int(5)),
        line(
            4,
            "env = { B = \"2\", A = \"1\" }",
            ConfigValue::Table(vec![("B".to_string(), Some("2".to_string())), ("A".to_string(), Some("1".to_string()))]),
        ),
        line(5, "env = { A = \"3\" }", ConfigValue::Table(vec![("A".to_string(), Some("3".to_string()))])),
    ];
    let m = parse_manifest(&lines).unwrap();
    assert_eq!(m.header.args, ["--port", "0"]);
    assert_eq!(m.header.ready_timeout_secs, 5);
    assert_eq!(m.header.spec, None);
    assert_eq!(m.header.command, None);
    assert_eq!(
        m.header.env,
        vec![("A".to_string(), "3".to_string()), ("B".to_string(), "2".to_string())]
    );
    assert!(m.probes.is_empty());
}

#[test]
fn an_empty_manifest_is_the_defaults() {
    let m = parse_manifest(&Vec::new()).unwrap();
    assert_eq!(m.header.ready_timeout_secs, 30);
    assert!(m.header.env.is_empty());
    assert!(m.probes.is_empty());
}
