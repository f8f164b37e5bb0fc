//! `[[sdk]]` entries in `soothfast.toml`.
//!
//! Same skip-unknown-tables discipline as the other readers: the file is
//! shared with the site and spec engines, so each reads only its own
//! tables. Which `lang` names exist is the SDK engine's to say; this reader
//! is told, line by line.

use vstd::prelude::*;

use crate::keyed::{keyed_wf, keys_of};
use crate::text::{
    chars_eq, chars_of, copy_str, debug_quoted, debug_str, decimal, decimal_string, replace_char, replaced, str_eq,
    string_of, trim_chars, trimmed,
};
use crate::toml_lines::{
    at_line, at_line_exec, copy_strings, fold_string_table, line_kind, ostr, spec_line_kind, str_map,
    string_table_fold, strs, value_view, ConfigValue, LineKind, LineKindView, ParsedLine,
};

verus! {

/// One SDK to generate, and where it goes.
#[derive(Debug, Clone)]
pub struct SdkEntry {
    /// The `[[spec]]` entry supplying operations.
    pub spec: String,
    /// The `lang` as written, a name the SDK engine accepted; `None` keeps
    /// the default, Python.
    pub lang: Option<String>,
    /// Output directory, relative to the package directory.
    pub out: String,
    /// Distribution name, e.g. `finance-query`.
    pub package: String,
    /// Import name; defaults to `package` with `-` replaced by `_`.
    pub module: Option<String>,
    /// Defaults to the crate version, keeping releases in lockstep.
    pub version: Option<String>,
    pub base_url: Option<String>,
    /// Server binary the SDK bundles and spawns.
    pub embed: Option<String>,
    /// Arguments passed to the embedded server on every launch.
    pub embed_args: Vec<String>,
    /// Environment applied to every launch, by variable name in name order.
    pub embed_env: Vec<(String, String)>,
    /// A dotenv template documenting what the embedded server reads.
    pub embed_env_template: Option<String>,
    /// Target triples the embedded server is cross-compiled for.
    pub targets: Vec<String>,
    pub description: Option<String>,
    pub repository: Option<String>,
    /// Operation ids with opt-in cursor pagination.
    pub paginated: Vec<String>,
    pub cursor_param: Option<String>,
    pub limit_param: Option<String>,
}

/// Every `[[sdk]]` entry, in declaration order.
#[derive(Debug, Clone, Default)]
pub struct SdkConfig {
    pub entries: Vec<SdkEntry>,
}

/// [`SdkEntry`] as plain values.
pub struct SdkView {
    pub spec: Seq<char>,
    pub lang: Option<Seq<char>>,
    pub out: Seq<char>,
    pub package: Seq<char>,
    pub module: Option<Seq<char>>,
    pub version: Option<Seq<char>>,
    pub base_url: Option<Seq<char>>,
    pub embed: Option<Seq<char>>,
    pub embed_args: Seq<Seq<char>>,
    pub embed_env: Map<Seq<char>, Seq<char>>,
    pub embed_env_template: Option<Seq<char>>,
    pub targets: Seq<Seq<char>>,
    pub description: Option<Seq<char>>,
    pub repository: Option<Seq<char>>,
    pub paginated: Seq<Seq<char>>,
    pub cursor_param: Option<Seq<char>>,
    pub limit_param: Option<Seq<char>>,
}

impl SdkEntry {
    pub open spec fn view_sdk(&self) -> SdkView {
        SdkView {
            spec: self.spec@,
            lang: ostr(self.lang),
            out: self.out@,
            package: self.package@,
            module: ostr(self.module),
            version: ostr(self.version),
            base_url: ostr(self.base_url),
            embed: ostr(self.embed),
            embed_args: strs(self.embed_args@),
            embed_env: str_map(self.embed_env@),
            embed_env_template: ostr(self.embed_env_template),
            targets: strs(self.targets@),
            description: ostr(self.description),
            repository: ostr(self.repository),
            paginated: strs(self.paginated@),
            cursor_param: ostr(self.cursor_param),
            limit_param: ostr(self.limit_param),
        }
    }

    /// The import name, explicit or derived from the package name.
    pub fn module(&self) -> (r: String)
        ensures
            r@ == match self.module {
                Some(m) => m@,
                None => replaced(self.package@, '-', '_'),
            },
    {
        match &self.module {
            Some(m) => copy_str(m.as_str()),
            None => string_of(replace_char(self.package.as_str(), '-', '_').as_slice()),
        }
    }
}

/// A fresh `[[sdk]]` entry: nothing set.
pub open spec fn default_sdk() -> SdkView {
    SdkView {
        spec: Seq::empty(),
        lang: None,
        out: Seq::empty(),
        package: Seq::empty(),
        module: None,
        version: None,
        base_url: None,
        embed: None,
        embed_args: Seq::empty(),
        embed_env: Map::empty(),
        embed_env_template: None,
        targets: Seq::empty(),
        description: None,
        repository: None,
        paginated: Seq::empty(),
        cursor_param: None,
        limit_param: None,
    }
}

/// A `[[sdk]]` key applied to the entry it belongs to; `lang_ok` is whether
/// the SDK engine accepts the value as a language name, `names` its list of
/// names for the message when it does not.
pub open spec fn sdk_set(e: SdkView, key: Seq<char>, v: ConfigValue, lang_ok: bool, names: Seq<char>) -> Result<
    SdkView,
    Seq<char>,
> {
    let bad = "unknown or mistyped [[sdk]] key "@ + debug_quoted(key);
    if key == "spec"@ {
        match v {
            ConfigValue::Str(s) => Ok(SdkView { spec: s@, ..e }),
            _ => Err(bad),
        }
    } else if key == "lang"@ {
        match v {
            ConfigValue::Str(s) => if lang_ok {
                Ok(SdkView { lang: Some(s@), ..e })
            } else {
                Err("unknown lang "@ + debug_quoted(s@) + " (expected one of "@ + names + ")"@)
            },
            _ => Err(bad),
        }
    } else if key == "out"@ {
        match v {
            ConfigValue::Str(s) => Ok(SdkView { out: s@, ..e }),
            _ => Err(bad),
        }
    } else if key == "package"@ {
        match v {
            ConfigValue::Str(s) => Ok(SdkView { package: s@, ..e }),
            _ => Err(bad),
        }
    } else if key == "module"@ {
        match v {
            ConfigValue::Str(s) => Ok(SdkView { module: Some(s@), ..e }),
            _ => Err(bad),
        }
    } else if key == "version"@ {
        match v {
            ConfigValue::Str(s) => Ok(SdkView { version: Some(s@), ..e }),
            _ => Err(bad),
        }
    } else if key == "base_url"@ {
        match v {
            ConfigValue::Str(s) => Ok(SdkView { base_url: Some(s@), ..e }),
            _ => Err(bad),
        }
    } else if key == "embed"@ {
        match v {
            ConfigValue::Str(s) => Ok(SdkView { embed: Some(s@), ..e }),
            _ => Err(bad),
        }
    } else if key == "embed_args"@ {
        match v {
            ConfigValue::StrArray(a, _) => Ok(SdkView { embed_args: strs(a@), ..e }),
            _ => Err(bad),
        }
    } else if key == "embed_env"@ {
        match v {
            ConfigValue::Table(t) => match string_table_fold(e.embed_env, t@, "embed_env."@, " must be a string — an environment holds no other type"@) {
                Ok(m) => Ok(SdkView { embed_env: m, ..e }),
                Err(msg) => Err(msg),
            },
            _ => Err(bad),
        }
    } else if key == "embed_env_template"@ {
        match v {
            ConfigValue::Str(s) => Ok(SdkView { embed_env_template: Some(s@), ..e }),
            _ => Err(bad),
        }
    } else if key == "targets"@ {
        match v {
            ConfigValue::StrArray(a, _) => Ok(SdkView { targets: strs(a@), ..e }),
            _ => Err(bad),
        }
    } else if key == "description"@ {
        match v {
            ConfigValue::Str(s) => Ok(SdkView { description: Some(s@), ..e }),
            _ => Err(bad),
        }
    } else if key == "repository"@ {
        match v {
            ConfigValue::Str(s) => Ok(SdkView { repository: Some(s@), ..e }),
            _ => Err(bad),
        }
    } else if key == "paginated"@ {
        match v {
            ConfigValue::StrArray(a, _) => Ok(SdkView { paginated: strs(a@), ..e }),
            _ => Err(bad),
        }
    } else if key == "cursor_param"@ {
        match v {
            ConfigValue::Str(s) => Ok(SdkView { cursor_param: Some(s@), ..e }),
            _ => Err(bad),
        }
    } else if key == "limit_param"@ {
        match v {
            ConfigValue::Str(s) => Ok(SdkView { limit_param: Some(s@), ..e }),
            _ => Err(bad),
        }
    } else {
        Err(bad)
    }
}

/// Whether the engine accepts line `i`'s value as a language name.
pub open spec fn lang_known(known: Seq<bool>, i: int) -> bool {
    0 <= i < known.len() && known[i]
}

/// One logical line applied to the reading: whether the current table is
/// an `[[sdk]]` entry, and the entries so far.
pub open spec fn sdk_step(
    in_sdk: bool,
    entries: Seq<SdkView>,
    text: Seq<char>,
    value: Result<ConfigValue, Seq<char>>,
    lineno: nat,
    lang_ok: bool,
    names: Seq<char>,
) -> Result<(bool, Seq<SdkView>), Seq<char>> {
    match spec_line_kind(text) {
        LineKindView::ArrayTable(inner) => if trimmed(inner) == "sdk"@ {
            Ok((true, entries.push(default_sdk())))
        } else {
            Ok((false, entries))
        },
        kind => if text.len() > 0 && text[0] == '[' {
            Ok((false, entries))
        } else if !in_sdk {
            Ok((in_sdk, entries))
        } else {
            match kind {
                LineKindView::KeyValue(key, _) => match value {
                    Err(e) => Err(at_line(lineno, e)),
                    Ok(v) => match sdk_set(entries.last(), key, v, lang_ok, names) {
                        Ok(e) => Ok((in_sdk, entries.drop_last().push(e))),
                        Err(e) => Err(at_line(lineno, e)),
                    },
                },
                _ => Err(at_line(lineno, "expected `key = value`"@)),
            }
        },
    }
}

/// Reading the lines from `i` on.
pub open spec fn sdk_read(
    lines: Seq<ParsedLine>,
    known: Seq<bool>,
    names: Seq<char>,
    i: int,
    in_sdk: bool,
    entries: Seq<SdkView>,
) -> Result<Seq<SdkView>, Seq<char>>
    decreases lines.len() - i,
{
    if i < 0 || i >= lines.len() {
        Ok(entries)
    } else {
        match sdk_step(
            in_sdk,
            entries,
            lines[i].text@,
            value_view(lines[i].value),
            lines[i].lineno as nat,
            lang_known(known, i),
            names,
        ) {
            Ok((s, es)) => sdk_read(lines, known, names, i + 1, s, es),
            Err(e) => Err(e),
        }
    }
}

/// The first of `spec`, `out` and `package` an entry leaves empty.
pub open spec fn sdk_missing(e: SdkView) -> Option<Seq<char>> {
    if e.spec.len() == 0 {
        Some("spec"@)
    } else if e.out.len() == 0 {
        Some("out"@)
    } else if e.package.len() == 0 {
        Some("package"@)
    } else {
        None
    }
}

/// The first entry, from `i` on, missing a required key, and the message.
pub open spec fn first_incomplete_sdk(entries: Seq<SdkView>, i: int) -> Option<Seq<char>>
    decreases entries.len() - i,
{
    if i < 0 || i >= entries.len() {
        None
    } else {
        match sdk_missing(entries[i]) {
            Some(f) => Some("[[sdk]] entry "@ + decimal((i + 1) as nat) + " has no `"@ + f + "`"@),
            None => first_incomplete_sdk(entries, i + 1),
        }
    }
}

pub open spec fn sdk_views(v: Seq<SdkEntry>) -> Seq<SdkView> {
    v.map_values(|e: SdkEntry| e.view_sdk())
}

/// Every `[[sdk]]` entry of `soothfast.toml`'s logical lines, or the first
/// problem: a line that cannot be read, then an entry missing `spec`,
/// `out` or `package`.
pub open spec fn spec_sdk_config(lines: Seq<ParsedLine>, known: Seq<bool>, names: Seq<char>) -> Result<
    Seq<SdkView>,
    Seq<char>,
> {
    match sdk_read(lines, known, names, 0, false, Seq::empty()) {
        Err(e) => Err(e),
        Ok(entries) => match first_incomplete_sdk(entries, 0) {
            Some(e) => Err(e),
            None => Ok(entries),
        },
    }
}

fn new_sdk() -> (e: SdkEntry)
    ensures
        e.view_sdk() == default_sdk(),
        keyed_wf(e.embed_env@),
{
    proof {
        reveal_strlit("");
    }
    let e = SdkEntry {
        spec: copy_str(""),
        lang: None,
        out: copy_str(""),
        package: copy_str(""),
        module: None,
        version: None,
        base_url: None,
        embed: None,
        embed_args: Vec::new(),
        embed_env: Vec::new(),
        embed_env_template: None,
        targets: Vec::new(),
        description: None,
        repository: None,
        paginated: Vec::new(),
        cursor_param: None,
        limit_param: None,
    };
    assert(e.spec@ =~= Seq::<char>::empty());
    assert(strs(e.embed_args@) =~= Seq::<Seq<char>>::empty());
    assert(strs(e.targets@) =~= Seq::<Seq<char>>::empty());
    assert(strs(e.paginated@) =~= Seq::<Seq<char>>::empty());
    assert(str_map(e.embed_env@) =~= Map::<Seq<char>, Seq<char>>::empty());
    assert(keys_of(e.embed_env@) =~= Seq::<Seq<char>>::empty());
    e
}

/// See [`sdk_set`]; on an error the entry may be left part-way.
fn apply_sdk(e: &mut SdkEntry, key: &str, v: &ConfigValue, lang_ok: bool, names: &str) -> (r: Result<(), String>)
    requires
        keyed_wf(old(e).embed_env@),
    ensures
        keyed_wf(final(e).embed_env@),
        match r {
            Ok(_) => sdk_set(old(e).view_sdk(), key@, *v, lang_ok, names@) == Ok::<SdkView, Seq<char>>(
                final(e).view_sdk(),
            ),
            Err(m) => sdk_set(old(e).view_sdk(), key@, *v, lang_ok, names@) == Err::<SdkView, Seq<char>>(m@),
        },
{
    let known: bool = if str_eq(key, "spec") {
        match v {
            ConfigValue::Str(s) => {
                e.spec = copy_str(s.as_str());
                true
            },
            _ => false,
        }
    } else if str_eq(key, "lang") {
        match v {
            ConfigValue::Str(s) => {
                if lang_ok {
                    e.lang = Some(copy_str(s.as_str()));
                    true
                } else {
                    let mut msg = copy_str("unknown lang ");
                    msg.append(debug_str(s.as_str()).as_str());
                    msg.append(" (expected one of ");
                    msg.append(names);
                    msg.append(")");
                    return Err(msg);
                }
            },
            _ => false,
        }
    } else if str_eq(key, "out") {
        match v {
            ConfigValue::Str(s) => {
                e.out = copy_str(s.as_str());
                true
            },
            _ => false,
        }
    } else if str_eq(key, "package") {
        match v {
            ConfigValue::Str(s) => {
                e.package = copy_str(s.as_str());
                true
            },
            _ => false,
        }
    } else if str_eq(key, "module") {
        match v {
            ConfigValue::Str(s) => {
                e.module = Some(copy_str(s.as_str()));
                true
            },
            _ => false,
        }
    } else if str_eq(key, "version") {
        match v {
            ConfigValue::Str(s) => {
                e.version = Some(copy_str(s.as_str()));
                true
            },
            _ => false,
        }
    } else if str_eq(key, "base_url") {
        match v {
            ConfigValue::Str(s) => {
                e.base_url = Some(copy_str(s.as_str()));
                true
            },
            _ => false,
        }
    } else if str_eq(key, "embed") {
        match v {
            ConfigValue::Str(s) => {
                e.embed = Some(copy_str(s.as_str()));
                true
            },
            _ => false,
        }
    } else if str_eq(key, "embed_args") {
        match v {
            ConfigValue::StrArray(a, _) => {
                e.embed_args = copy_strings(a);
                true
            },
            _ => false,
        }
    } else if str_eq(key, "embed_env") {
        match v {
            ConfigValue::Table(t) => {
                return fold_string_table(&mut e.embed_env, t, "embed_env.", " must be a string — an environment holds no other type");
            },
            _ => false,
        }
    } else if str_eq(key, "embed_env_template") {
        match v {
            ConfigValue::Str(s) => {
                e.embed_env_template = Some(copy_str(s.as_str()));
                true
            },
            _ => false,
        }
    } else if str_eq(key, "targets") {
        match v {
            ConfigValue::StrArray(a, _) => {
                e.targets = copy_strings(a);
                true
            },
            _ => false,
        }
    } else if str_eq(key, "description") {
        match v {
            ConfigValue::Str(s) => {
                e.description = Some(copy_str(s.as_str()));
                true
            },
            _ => false,
        }
    } else if str_eq(key, "repository") {
        match v {
            ConfigValue::Str(s) => {
                e.repository = Some(copy_str(s.as_str()));
                true
            },
            _ => false,
        }
    } else if str_eq(key, "paginated") {
        match v {
            ConfigValue::StrArray(a, _) => {
                e.paginated = copy_strings(a);
                true
            },
            _ => false,
        }
    } else if str_eq(key, "cursor_param") {
        match v {
            ConfigValue::Str(s) => {
                e.cursor_param = Some(copy_str(s.as_str()));
                true
            },
            _ => false,
        }
    } else if str_eq(key, "limit_param") {
        match v {
            ConfigValue::Str(s) => {
                e.limit_param = Some(copy_str(s.as_str()));
                true
            },
            _ => false,
        }
    } else {
        false
    };
    if known {
        Ok(())
    } else {
        let mut msg = copy_str("unknown or mistyped [[sdk]] key ");
        msg.append(debug_str(key).as_str());
        Err(msg)
    }
}

/// Every `[[sdk]]` entry of `soothfast.toml`'s logical lines; see
/// [`spec_sdk_config`]. `known_lang[i]` is whether the SDK engine reads
/// line `i`'s value, as a string, as a language name; `names` is its list
/// of names, for the message when a `lang` is not one of them.
pub fn parse(lines: &Vec<ParsedLine>, known_lang: &Vec<bool>, names: &str) -> (r: Result<SdkConfig, String>)
    ensures
        match r {
            Ok(cfg) => spec_sdk_config(lines@, known_lang@, names@) == Ok::<Seq<SdkView>, Seq<char>>(
                sdk_views(cfg.entries@),
            ),
            Err(e) => spec_sdk_config(lines@, known_lang@, names@) == Err::<Seq<SdkView>, Seq<char>>(e@),
        },
{
    let mut entries: Vec<SdkEntry> = Vec::new();
    let mut in_sdk = false;
    assert(sdk_views(entries@) =~= Seq::<SdkView>::empty());
    let mut i: usize = 0;
    while i < lines.len()
        invariant
            i <= lines@.len(),
            in_sdk ==> entries@.len() > 0,
            forall|j: int| 0 <= j < entries@.len() ==> keyed_wf(#[trigger] entries@[j].embed_env@),
            sdk_read(lines@, known_lang@, names@, 0, false, Seq::empty()) == sdk_read(
                lines@,
                known_lang@,
                names@,
                i as int,
                in_sdk,
                sdk_views(entries@),
            ),
        decreases lines.len() - i,
    {
        let line = &lines[i];
        let ghost ev = sdk_views(entries@);
        let lang_ok = i < known_lang.len() && known_lang[i];
        let text = chars_of(line.text.as_str());
        let kind = line_kind(line.text.as_str());
        match &kind {
            LineKind::ArrayTable(inner) => {
                let t = trim_chars(&chars_of(inner.as_str()));
                if chars_eq(&t, &chars_of("sdk")) {
                    entries.push(new_sdk());
                    in_sdk = true;
                    proof {
                        assert(sdk_views(entries@) =~= ev.push(default_sdk()));
                    }
                } else {
                    in_sdk = false;
                }
            },
            _ => {
                if text.len() > 0 && text[0] == '[' {
                    in_sdk = false;
                } else if in_sdk {
                    match &kind {
                        LineKind::KeyValue(key, _) => {
                            match &line.value {
                                Err(e) => {
                                    return Err(at_line_exec(line.lineno, e.as_str()));
                                },
                                Ok(v) => {
                                    let mut entry = entries.pop().unwrap();
                                    match apply_sdk(&mut entry, key.as_str(), v, lang_ok, names) {
                                        Ok(_) => {
                                            entries.push(entry);
                                            proof {
                                                assert(sdk_views(entries@) =~= ev.drop_last().push(
                                                    entry.view_sdk(),
                                                ));
                                            }
                                        },
                                        Err(e) => {
                                            return Err(at_line_exec(line.lineno, e.as_str()));
                                        },
                                    }
                                },
                            }
                        },
                        _ => {
                            return Err(at_line_exec(line.lineno, "expected `key = value`"));
                        },
                    }
                }
            },
        }
        i = i + 1;
    }
    let ghost ev = sdk_views(entries@);
    assert(sdk_read(lines@, known_lang@, names@, i as int, in_sdk, ev) == Ok::<Seq<SdkView>, Seq<char>>(ev));
    let mut j: usize = 0;
    while j < entries.len()
        invariant
            j <= entries@.len(),
            ev == sdk_views(entries@),
            spec_sdk_config(lines@, known_lang@, names@) == match first_incomplete_sdk(ev, 0) {
                Some(e) => Err(e),
                None => Ok::<Seq<SdkView>, Seq<char>>(ev),
            },
            first_incomplete_sdk(ev, 0) == first_incomplete_sdk(ev, j as int),
        decreases entries.len() - j,
    {
        let e = &entries[j];
        let field = if chars_of(e.spec.as_str()).len() == 0 {
            Some("spec")
        } else if chars_of(e.out.as_str()).len() == 0 {
            Some("out")
        } else if chars_of(e.package.as_str()).len() == 0 {
            Some("package")
        } else {
            None
        };
        match field {
            Some(f) => {
                let mut msg = copy_str("[[sdk]] entry ");
                msg.append(decimal_string((j + 1) as u64).as_str());
                msg.append(" has no `");
                msg.append(f);
                msg.append("`");
                return Err(msg);
            },
            None => {},
        }
        j = j + 1;
    }
    Ok(SdkConfig { entries })
}

} // verus!
