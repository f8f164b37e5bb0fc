use cargo_soothfast::bind_config::parse as parse_bind;
use cargo_soothfast::changelog_config::parse as parse_changelog;
use cargo_soothfast::sdk_config::parse as parse_sdk;
use cargo_soothfast::toml_lines::{ConfigValue, ParsedLine};

/// The logical lines of a small `soothfast.toml`, each value read the way
/// the site engine reads the simple values used here.
fn lines(text: &str) -> Vec<ParsedLine> {
    text.lines()
        .map(|l| l.trim())
        .enumerate()
        .filter(|(_, l)| !l.is_empty())
        .map(|(i, l)| {
            let value = match l.split_once('=') {
                Some((_, raw)) if !l.starts_with('[') => read(raw.trim()),
                _ => Ok(ConfigValue::Other),
            };
            ParsedLine { lineno: i + 1, text: l.to_string(), value }
        })
        .collect()
}

fn read(raw: &str) -> Result<ConfigValue, String> {
    if let Some(s) = raw.strip_prefix('"').and_then(|r| r.strip_suffix('"')) {
        return Ok(ConfigValue::Str(s.to_string()));
    }
    if raw == "true" || raw == "false" {
        return Ok(ConfigValue::Bool(raw == "true"));
    }
    if let Ok(n) = raw.parse::<i64>() {
        return Ok(ConfigValue::Int(n));
    }
    if let Some(inner) = raw.strip_prefix('[').and_then(|r| r.strip_suffix(']')) {
        let items: Vec<String> = inner
            .split(',')
            .map(|p| p.trim())
            .filter(|p| !p.is_empty())
            .map(|p| p.trim_matches('"').to_string())
            .collect();
        return Ok(ConfigValue::StrArray(items, None));
    }
    if let Some(inner) = raw.strip_prefix('{').and_then(|r| r.strip_suffix('}')) {
        let pairs = inner
            .split(',')
            .map(|p| p.trim())
            .filter(|p| !p.is_empty())
            .map(|p| {
                let (k, v) = p.split_once('=').unwrap();
                let v = v.trim();
                let s = v.strip_prefix('"').and_then(|r| r.strip_suffix('"')).map(|s| s.to_string());
                (k.trim().to_string(), s)
            })
            .collect();
        return Ok(ConfigValue::Table(pairs));
    }
    Err(format!("cannot read value `{raw}`"))
}

const LANGS: &[&str] = &["python", "typescript", "wasm", "node", "go", "java", "lua"];
const NAMES: &str = "python, typescript, wasm, node, go, java, lua";

/// For each line, whether its value is a string naming one of `LANGS`.
fn known(ls: &[ParsedLine]) -> Vec<bool> {
    ls.iter()
        .map(|l| matches!(&l.value, Ok(ConfigValue::Str(s)) if LANGS.contains(&s.as_str())))
        .collect()
}

fn sdk(text: &str) -> Result<cargo_soothfast::sdk_config::SdkConfig, String> {
    let ls = lines(text);
    parse_sdk(&ls, &known(&ls), NAMES)
}

fn bind(text: &str) -> Result<cargo_soothfast::bind_config::BindConfig, String> {
    let ls = lines(text);
    parse_bind(&ls, &known(&ls), NAMES)
}

fn changelog(text: &str) -> Result<cargo_soothfast::changelog_config::ChangelogConfig, String> {
    parse_changelog(&lines(text))
}

fn get<'a>(pairs: &'a [(String, String)], k: &str) -> Option<&'a str> {
    pairs.iter().find(|(n, _)| n == k).map(|(_, v)| v.as_str())
}

// ------------------------------------------------------------- [changelog]

#[test]
fn a_file_without_the_table_keeps_the_shipped_icons() {
    let cfg = changelog("[site]\nname = \"x\"\n").unwrap();
    assert!(cfg.icons.is_empty());
}

#[test]
fn declared_sections_are_taken_and_the_rest_stay_default() {
    let cfg = changelog("[changelog.icons]\nfeatures = \"A\"\n").unwrap();
    assert_eq!(get(&cfg.icons, "features"), Some("A"));
    assert_eq!(cfg.icons.len(), 1);
}

#[test]
fn a_non_string_icon_is_rejected() {
    let e = changelog("[changelog.icons]\nfixes = 7\n").unwrap_err();
    assert!(e.contains("must be a string"), "{e}");
    assert_eq!(e, "line 2: `fixes` under [changelog.icons] must be a string");
}

#[test]
fn reads_features_and_packages() {
    let cfg = changelog("[changelog]\nfeatures = \"full\"\npackages = [\"core\", \"server\"]\n").unwrap();
    assert_eq!(cfg.features.as_deref(), Some("full"));
    assert_eq!(cfg.packages, ["core", "server"]);
}

#[test]
fn the_two_changelog_tables_do_not_bleed_into_each_other() {
    let text = "[changelog]\nfeatures = \"full\"\n\n[changelog.icons]\nfeatures = \"A\"\n";
    let cfg = changelog(text).unwrap();
    assert_eq!(cfg.features.as_deref(), Some("full"));
    assert_eq!(get(&cfg.icons, "features"), Some("A"));
}

#[test]
fn reads_a_renamed_bot_author() {
    let cfg = changelog("[changelog]\nbot-author = \"acme-bot[bot]\"\n").unwrap();
    assert_eq!(cfg.bot_author.as_deref(), Some("acme-bot[bot]"));
}

#[test]
fn an_unknown_key_under_changelog_is_an_error() {
    let e = changelog("[changelog]\nnope = 1\n").unwrap_err();
    assert!(e.contains("unknown or mistyped"), "{e}");
    assert_eq!(e, "line 2: unknown or mistyped `nope` under [changelog]");
}

#[test]
fn a_mistyped_packages_is_an_error() {
    assert!(changelog("[changelog]\npackages = \"core\"\n").is_err());
}

#[test]
fn changelog_config_skips_tables_it_does_not_own() {
    let text = "[gate]\nfeatures = \"bench-gate\"\n\n[changelog]\nfeatures = \"full\"\n";
    assert_eq!(changelog(text).unwrap().features.as_deref(), Some("full"));
}

#[test]
fn icon_names_are_lowercased_and_the_last_override_wins() {
    let cfg = changelog("[changelog.icons]\nFixes = \"F\"\nfixes = \"G\"\nAdded = \"+\"\n").unwrap();
    assert_eq!(cfg.icons, vec![("added".to_string(), "+".to_string()), ("fixes".to_string(), "G".to_string())]);
}

#[test]
fn a_malformed_line_matters_only_inside_a_changelog_table() {
    assert!(changelog("[site]\njunk\n").is_ok());
    assert_eq!(changelog("[changelog]\njunk\n").unwrap_err(), "line 2: expected `key = value`");
    assert!(changelog("[[changelog]]\nnope = 1\n").is_ok());
}

// ------------------------------------------------------------- [[sdk]]

#[test]
fn reads_a_full_entry() {
    let cfg = sdk("
[[sdk]]
spec = \"openapi.yaml\"
lang = \"python\"
out = \"../sdks/python\"
package = \"finance-query\"
base_url = \"https://api.example.com\"
paginated = [\"getQuotes\", \"getNews\"]
")
    .expect("parses");
    let e = &cfg.entries[0];
    assert_eq!(e.spec, "openapi.yaml");
    assert_eq!(e.lang.as_deref(), Some("python"));
    assert_eq!(e.out, "../sdks/python");
    assert_eq!(e.package, "finance-query");
    assert_eq!(e.module(), "finance_query");
    assert_eq!(e.paginated.len(), 2);
}

#[test]
fn an_embedded_server_is_read_with_its_arguments() {
    let cfg = sdk("[[sdk]]\nspec = \"openapi.yaml\"\nout = \"sdk\"\npackage = \"p\"\nembed = \"acme-server\"\nembed_args = [\"serve\", \"--quiet\"]\n")
        .expect("parses");
    let e = &cfg.entries[0];
    assert_eq!(e.embed.as_deref(), Some("acme-server"));
    assert_eq!(e.embed_args, ["serve", "--quiet"]);
    assert_eq!(e.base_url, None);
}

#[test]
fn launch_environment_and_its_template_are_read_together() {
    let cfg = sdk("[[sdk]]\nspec = \"a.yaml\"\nout = \"o\"\npackage = \"p\"\nembed = \"srv\"\nembed_env = { HOST = \"127.0.0.1\", PORT = \"0\" }\nembed_env_template = \"../server/.env.template\"\n")
        .expect("parses");
    let e = &cfg.entries[0];
    assert_eq!(get(&e.embed_env, "HOST"), Some("127.0.0.1"));
    assert_eq!(get(&e.embed_env, "PORT"), Some("0"));
    assert_eq!(e.embed_env_template.as_deref(), Some("../server/.env.template"));
}

#[test]
fn a_non_string_launch_variable_is_refused() {
    let err = sdk("[[sdk]]\nspec = \"a.yaml\"\nout = \"o\"\npackage = \"p\"\nembed = \"srv\"\nembed_env = { PORT = 0 }\n")
        .err()
        .expect("rejected");
    assert!(err.contains("PORT"), "{err}");
    assert_eq!(err, "line 6: embed_env.PORT must be a string — an environment holds no other type");
}

#[test]
fn no_embed_key_leaves_the_sdk_a_plain_client() {
    let cfg = sdk("[[sdk]]\nspec = \"a.yaml\"\nout = \"o\"\npackage = \"p\"\n").expect("parses");
    assert_eq!(cfg.entries[0].embed, None);
    assert!(cfg.entries[0].embed_args.is_empty());
}

#[test]
fn other_engines_tables_are_skipped() {
    let cfg = sdk("[site]\nname = \"x\"\n\n[[spec]]\npath = \"openapi.yaml\"\n\n[[sdk]]\nspec = \"openapi.yaml\"\nout = \"sdk\"\npackage = \"p\"\n")
        .expect("parses");
    assert_eq!(cfg.entries.len(), 1);
}

#[test]
fn sdk_config_a_missing_required_key_is_rejected() {
    let err = sdk("[[sdk]]\nspec = \"openapi.yaml\"\nout = \"sdk\"\n").err().expect("package is required");
    assert!(err.contains("`package`"), "got {err}");
    assert_eq!(err, "[[sdk]] entry 1 has no `package`");
}

#[test]
fn sdk_config_an_unknown_lang_lists_the_ones_that_exist() {
    let err = sdk("[[sdk]]\nspec = \"a.yaml\"\nout = \"o\"\npackage = \"p\"\nlang = \"cobol\"\n").err().expect("rejected");
    assert!(err.contains("cobol"), "{err}");
    assert!(err.contains("python"), "names the alternatives: {err}");
    assert_eq!(err, format!("line 5: unknown lang \"cobol\" (expected one of {NAMES})"));
}

#[test]
fn sdk_config_an_unknown_key_is_rejected() {
    let err = sdk("[[sdk]]\nspec = \"a\"\nout = \"o\"\npackage = \"p\"\nlagn = \"x\"\n").err().expect("typo must not pass");
    assert!(err.contains("lagn"), "got {err}");
    assert_eq!(err, "line 5: unknown or mistyped [[sdk]] key \"lagn\"");
}

#[test]
fn an_sdk_module_defaults_to_the_package_with_underscores() {
    let cfg = sdk("[[sdk]]\nspec = \"a\"\nout = \"o\"\npackage = \"a-b-c\"\n[[sdk]]\nspec = \"a\"\nout = \"o\"\npackage = \"a-b\"\nmodule = \"ab\"\n").unwrap();
    assert_eq!(cfg.entries[0].module(), "a_b_c");
    assert_eq!(cfg.entries[1].module(), "ab");
}

#[test]
fn a_bracketed_line_ends_an_sdk_entry() {
    let cfg = sdk("[[sdk]]\nspec = \"a\"\nout = \"o\"\npackage = \"p\"\n[x = 1\nnope = 2\n").unwrap();
    assert_eq!(cfg.entries.len(), 1);
    assert_eq!(sdk("[[sdk]]\nspec\n").err().unwrap(), "line 2: expected `key = value`");
}

// ------------------------------------------------------------- [[bind]]

#[test]
fn a_minimal_entry_defaults_the_rest() {
    let cfg = bind("[[bind]]\nout = \"bindings/python\"\npackage = \"acme-core\"\n").expect("parses");
    assert_eq!(cfg.entries.len(), 1);
    assert_eq!(cfg.entries[0].lang, None);
    assert_eq!(cfg.entries[0].module(), "acme_core");
}

#[test]
fn blocking_is_a_bool_defaulting_to_false() {
    let cfg = bind("[[bind]]\nout = \"b/py\"\npackage = \"p\"\nblocking = true\n").expect("parses");
    assert!(cfg.entries[0].blocking);
    let cfg = bind("[[bind]]\nout = \"b/py\"\npackage = \"p\"\n").expect("parses");
    assert!(!cfg.entries[0].blocking);
    assert!(bind("[[bind]]\nout = \"b/py\"\npackage = \"p\"\nblocking = \"yes\"\n").is_err());
}

#[test]
fn interpreters_is_a_list_of_strings() {
    let toml = "[[bind]]\nlang = \"python\"\nout = \"b/py\"\npackage = \"p\"\ninterpreters = [\"python3\", \"python3.14t\"]\n";
    let cfg = bind(toml).expect("parses");
    assert_eq!(cfg.entries[0].interpreters, vec!["python3", "python3.14t"]);
    let bad = "[[bind]]\nlang = \"python\"\nout = \"b/py\"\npackage = \"p\"\ninterpreters = \"python3\"\n";
    assert!(bind(bad).is_err());
}

#[test]
fn a_types_table_maps_a_path_to_str() {
    let cfg = bind("[[bind]]\nout = \"bindings/python\"\npackage = \"acme-core\"\n\n[bind.types]\n\"chrono::DateTime\" = \"str\"\nUuid = \"str\"\n")
        .expect("parses");
    let types = &cfg.entries[0].types;
    assert_eq!(get(types, "chrono::DateTime"), Some("str"));
    assert_eq!(get(types, "Uuid"), Some("str"));
}

#[test]
fn a_types_value_other_than_str_is_an_error_naming_the_path() {
    let err = bind("[[bind]]\nout = \"x\"\npackage = \"x\"\n\n[bind.types]\n\"chrono::DateTime\" = \"int\"\n")
        .err()
        .expect("rejects");
    assert!(err.contains("\"chrono::DateTime\""), "{err}");
    assert!(err.contains("only \"str\" (Display out, FromStr in) is supported"), "{err}");
}

#[test]
fn a_types_table_before_any_entry_is_an_error() {
    let err = bind("[bind.types]\n\"chrono::DateTime\" = \"str\"\n").err().expect("rejects");
    assert!(err.contains("[bind.types] before any [[bind]] entry"), "{err}");
}

#[test]
fn authors_is_a_list_of_strings() {
    let cfg = bind("[[bind]]\nout = \"bindings/ruby\"\npackage = \"acme-core\"\nauthors = [\"Acme maintainers\"]\n").expect("parses");
    assert_eq!(cfg.entries[0].authors, vec!["Acme maintainers".to_string()]);
    assert!(bind("[[bind]]\nout = \"x\"\npackage = \"x\"\nauthors = \"me\"\n").is_err());
}

#[test]
fn bench_names_a_script_relative_to_the_package_root() {
    let cfg = bind("[[bind]]\nout = \"bindings/python\"\npackage = \"acme-core\"\nbench = \"bindings/python/bench.py\"\n").expect("parses");
    assert_eq!(cfg.entries[0].bench.as_deref(), Some("bindings/python/bench.py"));
}

#[test]
fn one_source_surface_reaches_several_languages() {
    let cfg = bind("[[bind]]\nlang = \"python\"\nout = \"py\"\npackage = \"acme-core\"\n[[bind]]\nlang = \"wasm\"\nout = \"js\"\npackage = \"acme-core\"\n[[bind]]\nlang = \"node\"\nout = \"node\"\npackage = \"acme-core\"\n[[bind]]\nlang = \"go\"\nout = \"go\"\npackage = \"github.com/acme/core\"\n")
        .expect("parses");
    let langs: Vec<&str> = cfg.entries.iter().map(|e| e.lang.as_deref().unwrap()).collect();
    assert_eq!(langs, vec!["python", "wasm", "node", "go"]);
}

#[test]
fn go_accepts_a_module_path_as_its_package() {
    let cfg = bind("[[bind]]\nlang = \"go\"\nout = \"go\"\npackage = \"github.com/acme/core\"\n").expect("parses");
    assert_eq!(cfg.entries[0].lang.as_deref(), Some("go"));
    assert_eq!(cfg.entries[0].package, "github.com/acme/core");
}

#[test]
fn tables_belonging_to_other_engines_are_skipped() {
    let cfg = bind("[site]\nname = \"docs\"\n[[sdk]]\nspec = \"openapi.yaml\"\nout = \"sdk\"\npackage = \"p\"\n[[bind]]\nout = \"py\"\npackage = \"acme-core\"\n")
        .expect("parses");
    assert_eq!(cfg.entries.len(), 1);
    assert_eq!(cfg.entries[0].package, "acme-core");
}

#[test]
fn bind_config_a_missing_required_key_is_rejected() {
    let err = bind("[[bind]]\nout = \"py\"\n").err().expect("package is required");
    assert!(err.contains("`package`"), "got {err}");
    assert_eq!(err, "[[bind]] entry 1 has no `package`");
}

#[test]
fn bind_config_an_unknown_lang_lists_the_ones_that_exist() {
    let err = bind("[[bind]]\nout = \"o\"\npackage = \"p\"\nlang = \"cobol\"\n").err().expect("rejected");
    assert!(err.contains("cobol"), "{err}");
    assert!(err.contains("python"), "names the alternatives: {err}");
}

#[test]
fn an_unknown_bind_key_names_the_key() {
    let err = bind("[[bind]]\nout = \"o\"\npackage = \"p\"\nlagn = \"x\"\n").err().unwrap();
    assert_eq!(err, "line 4: unknown or mistyped `lagn`");
}

#[test]
fn types_attach_to_the_entry_they_follow() {
    let cfg = bind("[[bind]]\nout = \"a\"\npackage = \"a\"\n[bind.types]\nA = \"str\"\n[[bind]]\nout = \"b\"\npackage = \"b\"\n[bind.types]\nB = \"str\"\n").unwrap();
    assert_eq!(cfg.entries[0].types, vec![("A".to_string(), "str".to_string())]);
    assert_eq!(cfg.entries[1].types, vec![("B".to_string(), "str".to_string())]);
}
