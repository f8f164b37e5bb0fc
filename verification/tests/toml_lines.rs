use cargo_soothfast::gate_config::GateConfig;
use cargo_soothfast::gate_config::parse as parse_gate;
use cargo_soothfast::toml_lines::{int_string, line_kind, ConfigValue, LineKind, ParsedLine};

/// A logical line whose value (for a key line) the site engine read as `value`.
fn line(lineno: usize, text: &str, value: ConfigValue) -> ParsedLine {
    ParsedLine { lineno, text: text.to_string(), value: Ok(value) }
}

/// A table header or other line with no value of its own.
fn bare(lineno: usize, text: &str) -> ParsedLine {
    line(lineno, text, ConfigValue::Other)
}

#[test]
fn reads_codegen_units() {
    let lines = vec![bare(1, "[gate]"), line(2, "codegen-units = 4", ConfigValue::Int(4))];
    let cfg = parse_gate(&lines).unwrap();
    assert_eq!(cfg.codegen_units.as_deref(), Some("4"));
}

#[test]
fn reads_inherit() {
    let lines = vec![
        bare(1, "[gate]"),
        line(2, "codegen-units = \"inherit\"", ConfigValue::Str("inherit".to_string())),
    ];
    let cfg = parse_gate(&lines).unwrap();
    assert_eq!(cfg.codegen_units.as_deref(), Some("inherit"));
}

#[test]
fn gate_config_skips_tables_it_does_not_own() {
    // "[site]\nname = \"x\"\n\n[gate]\ncodegen-units = 2\n\n[[sdk]]\nspec = \"y\"\n"
    let lines = vec![
        bare(1, "[site]"),
        line(2, "name = \"x\"", ConfigValue::Str("x".to_string())),
        bare(4, "[gate]"),
        line(5, "codegen-units = 2", ConfigValue::Int(2)),
        bare(7, "[[sdk]]"),
        line(8, "spec = \"y\"", ConfigValue::Str("y".to_string())),
    ];
    assert_eq!(parse_gate(&lines).unwrap().codegen_units.as_deref(), Some("2"));
}

#[test]
fn absent_section_is_default() {
    let lines = vec![bare(1, "[site]"), line(2, "name = \"x\"", ConfigValue::Str("x".to_string()))];
    assert_eq!(parse_gate(&lines).unwrap(), GateConfig::default());
}

#[test]
fn unknown_key_is_an_error() {
    let lines = vec![bare(1, "[gate]"), line(2, "nope = 1", ConfigValue::Int(1))];
    assert!(parse_gate(&lines).is_err());
}

#[test]
fn gate_errors_name_the_line_and_key() {
    let lines = vec![bare(1, "[gate]"), line(2, "nope = 1", ConfigValue::Int(1))];
    assert_eq!(parse_gate(&lines).unwrap_err(), "line 2: unknown or mistyped `nope` under [gate]");
    let mistyped = vec![bare(3, "[gate]"), line(4, "codegen-units = true", ConfigValue::Bool(true))];
    assert_eq!(
        parse_gate(&mistyped).unwrap_err(),
        "line 4: unknown or mistyped `codegen-units` under [gate]"
    );
    let malformed = vec![bare(1, "[gate]"), bare(2, "codegen-units")];
    assert_eq!(parse_gate(&malformed).unwrap_err(), "line 2: expected `key = value`");
}

#[test]
fn a_value_the_engine_could_not_read_is_reported_only_inside_gate() {
    let mut outside = vec![bare(1, "[site]"), bare(2, "name = ???")];
    outside[1].value = Err("bad value".to_string());
    assert_eq!(parse_gate(&outside).unwrap(), GateConfig::default());
    let mut inside = vec![bare(1, "[gate]"), bare(2, "codegen-units = ???")];
    inside[1].value = Err("bad value".to_string());
    assert_eq!(parse_gate(&inside).unwrap_err(), "line 2: bad value");
}

#[test]
fn the_last_codegen_units_wins_and_malformed_lines_elsewhere_are_skipped() {
    let lines = vec![
        bare(1, "[site]"),
        bare(2, "not a key line"),
        bare(3, "[gate]"),
        line(4, "codegen-units = 2", ConfigValue::Int(2)),
        line(5, "codegen-units = -3", ConfigValue::Int(-3)),
    ];
    assert_eq!(parse_gate(&lines).unwrap().codegen_units.as_deref(), Some("-3"));
}

#[test]
fn int_string_formats_like_display() {
    assert_eq!(int_string(0), "0");
    assert_eq!(int_string(42), "42");
    assert_eq!(int_string(-7), "-7");
    assert_eq!(int_string(i64::MIN), i64::MIN.to_string());
}

#[test]
fn line_kinds_follow_the_brackets_and_the_first_equals() {
    assert!(matches!(line_kind("[[probe]]"), LineKind::ArrayTable(s) if s == "probe"));
    assert!(matches!(line_kind("[[ probe ]]"), LineKind::ArrayTable(s) if s == " probe "));
    assert!(matches!(line_kind("[probes]"), LineKind::Table(s) if s == "probes"));
    assert!(matches!(line_kind("[[x]"), LineKind::Table(s) if s == "[x"));
    assert!(matches!(line_kind("[]"), LineKind::Table(s) if s.is_empty()));
    assert!(matches!(line_kind(" a = b = c "), LineKind::KeyValue(k, v) if k == "a" && v == "b = c"));
    assert!(matches!(line_kind("no equals here"), LineKind::Malformed));
    assert!(matches!(line_kind("["), LineKind::Malformed));
}
