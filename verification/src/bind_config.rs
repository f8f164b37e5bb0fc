//! `[[bind]]` entries in `soothfast.toml`, each with its `[bind.types]`
//! sub-table.
//!
//! Same skip-unknown-tables discipline as the other readers: the file is
//! shared with the site, spec and SDK engines. Which `lang` names exist is
//! the binding engine's to say; this reader is told, line by line.

use vstd::prelude::*;

use crate::keyed::{keyed_wf, keys_of, put};
use crate::text::{
    chars_eq, chars_of, copy_str, debug_quoted, debug_str, decimal, decimal_string, replace_char, replaced,
    str_eq, string_of, trim_char, trim_chars, trimmed, trimmed_char,
};
use crate::toml_lines::{
    at_line, at_line_exec, copy_strings, line_kind, ostr, spec_line_kind, str_map, strs, value_view,
    ConfigValue, LineKind, LineKindView, ParsedLine,
};

verus! {

/// One set of native bindings to generate, and where it goes.
#[derive(Debug, Clone)]
pub struct BindEntry {
    /// The `lang` as written, a name the binding engine accepted; `None`
    /// keeps the default, Python.
    pub lang: Option<String>,
    /// Output directory, relative to the package directory.
    pub out: String,
    /// Distribution name, e.g. `acme-core`.
    pub package: String,
    /// Import name; defaults to `package` with `-` replaced by `_`.
    pub module: Option<String>,
    /// Defaults to the crate version, keeping releases in lockstep.
    pub version: Option<String>,
    /// The binding library release the glue builds against.
    pub backend_version: Option<String>,
    pub description: Option<String>,
    pub repository: Option<String>,
    /// Defaults to the crate's own authors.
    pub authors: Vec<String>,
    /// Target triples the package is built for.
    pub targets: Vec<String>,
    /// Python interpreters `bind build` produces a wheel for.
    pub interpreters: Vec<String>,
    /// `bind bench` script, relative to the package root.
    pub bench: Option<String>,
    /// `[bind.types]`: a foreign type's canonical path, and how it crosses
    /// (only `str` so far), in path order.
    pub types: Vec<(String, String)>,
    /// Python only: also emit a `{name}_blocking` twin of every async call.
    pub blocking: bool,
}

/// Every `[[bind]]` entry, in declaration order.
#[derive(Debug, Clone, Default)]
pub struct BindConfig {
    pub entries: Vec<BindEntry>,
}

/// [`BindEntry`] as plain values.
pub struct BindView {
    pub lang: Option<Seq<char>>,
    pub out: Seq<char>,
    pub package: Seq<char>,
    pub module: Option<Seq<char>>,
    pub version: Option<Seq<char>>,
    pub backend_version: Option<Seq<char>>,
    pub description: Option<Seq<char>>,
    pub repository: Option<Seq<char>>,
    pub authors: Seq<Seq<char>>,
    pub targets: Seq<Seq<char>>,
    pub interpreters: Seq<Seq<char>>,
    pub bench: Option<Seq<char>>,
    pub types: Map<Seq<char>, Seq<char>>,
    pub blocking: bool,
}

impl BindEntry {
    pub open spec fn view_bind(&self) -> BindView {
        BindView {
            lang: ostr(self.lang),
            out: self.out@,
            package: self.package@,
            module: ostr(self.module),
            version: ostr(self.version),
            backend_version: ostr(self.backend_version),
            description: ostr(self.description),
            repository: ostr(self.repository),
            authors: strs(self.authors@),
            targets: strs(self.targets@),
            interpreters: strs(self.interpreters@),
            bench: ostr(self.bench),
            types: str_map(self.types@),
            blocking: self.blocking,
        }
    }

    /// The import name, explicit or derived from the package name.
    pub fn module(&self) -> (r: String)
        ensures
            r@ == match self.module {
                Some(m) => m@,
                None => replaced(self.package@, '-', '_'),
            },
    {
        match &self.module {
            Some(m) => copy_str(m.as_str()),
            None => string_of(replace_char(self.package.as_str(), '-', '_').as_slice()),
        }
    }
}

/// A fresh `[[bind]]` entry: nothing set, not blocking.
pub open spec fn default_bind() -> BindView {
    BindView {
        lang: None,
        out: Seq::empty(),
        package: Seq::empty(),
        module: None,
        version: None,
        backend_version: None,
        description: None,
        repository: None,
        authors: Seq::empty(),
        targets: Seq::empty(),
        interpreters: Seq::empty(),
        bench: None,
        types: Map::empty(),
        blocking: false,
    }
}

/// A `[[bind]]` key applied to the entry it belongs to; `lang_ok` is
/// whether the binding engine accepts the value as a language name,
/// `names` its list of names for the message when it does not.
pub open spec fn bind_set(e: BindView, key: Seq<char>, v: ConfigValue, lang_ok: bool, names: Seq<char>) -> Result<
    BindView,
    Seq<char>,
> {
    let bad = "unknown or mistyped `"@ + key + "`"@;
    if key == "lang"@ {
        match v {
            ConfigValue::Str(s) => if lang_ok {
                Ok(BindView { lang: Some(s@), ..e })
            } else {
                Err("unknown lang "@ + debug_quoted(s@) + " (expected one of "@ + names + ")"@)
            },
            _ => Err(bad),
        }
    } else if key == "out"@ {
        match v {
            ConfigValue::Str(s) => Ok(BindView { out: s@, ..e }),
            _ => Err(bad),
        }
    } else if key == "package"@ {
        match v {
            ConfigValue::Str(s) => Ok(BindView { package: s@, ..e }),
            _ => Err(bad),
        }
    } else if key == "module"@ {
        match v {
            ConfigValue::Str(s) => Ok(BindView { module: Some(s@), ..e }),
            _ => Err(bad),
        }
    } else if key == "version"@ {
        match v {
            ConfigValue::Str(s) => Ok(BindView { version: Some(s@), ..e }),
            _ => Err(bad),
        }
    } else if key == "backend_version"@ {
        match v {
            ConfigValue::Str(s) => Ok(BindView { backend_version: Some(s@), ..e }),
            _ => Err(bad),
        }
    } else if key == "description"@ {
        match v {
            ConfigValue::Str(s) => Ok(BindView { description: Some(s@), ..e }),
            _ => Err(bad),
        }
    } else if key == "repository"@ {
        match v {
            ConfigValue::Str(s) => Ok(BindView { repository: Some(s@), ..e }),
            _ => Err(bad),
        }
    } else if key == "authors"@ {
        match v {
            ConfigValue::StrArray(a, _) => Ok(BindView { authors: strs(a@), ..e }),
            _ => Err(bad),
        }
    } else if key == "targets"@ {
        match v {
            ConfigValue::StrArray(a, _) => Ok(BindView { targets: strs(a@), ..e }),
            _ => Err(bad),
        }
    } else if key == "interpreters"@ {
        match v {
            ConfigValue::StrArray(a, _) => Ok(BindView { interpreters: strs(a@), ..e }),
            _ => Err(bad),
        }
    } else if key == "blocking"@ {
        match v {
            ConfigValue::Bool(b) => Ok(BindView { blocking: b, ..e }),
            _ => Err(bad),
        }
    } else if key == "bench"@ {
        match v {
            ConfigValue::Str(s) => Ok(BindView { bench: Some(s@), ..e }),
            _ => Err(bad),
        }
    } else {
        Err(bad)
    }
}

/// A `[bind.types]` line: the path (its key without surrounding quotes)
/// mapped to `str`, the one mapping there is.
pub open spec fn bind_type(e: BindView, key: Seq<char>, v: ConfigValue) -> Result<BindView, Seq<char>> {
    let path = trimmed_char(key, '"');
    match v {
        ConfigValue::Str(s) => if s@ == "str"@ {
            Ok(BindView { types: e.types.insert(path, "str"@), ..e })
        } else {
            Err("[bind.types] entry "@ + debug_quoted(path) + ": only \"str\" (Display out, FromStr in) is supported"@)
        },
        _ => Err("[bind.types] entry "@ + debug_quoted(path) + ": only \"str\" (Display out, FromStr in) is supported"@),
    }
}

/// Which table the lines being read belong to.
#[derive(PartialEq, Eq, Structural, Clone, Copy)]
pub enum BindTable {
    Bind,
    Types,
    Other,
}

/// Whether the engine accepts line `i`'s value as a language name.
pub open spec fn lang_known(known: Seq<bool>, i: int) -> bool {
    0 <= i < known.len() && known[i]
}

/// One logical line applied to the reading.
pub open spec fn bind_step(
    table: BindTable,
    entries: Seq<BindView>,
    kind: LineKindView,
    value: Result<ConfigValue, Seq<char>>,
    lineno: nat,
    lang_ok: bool,
    names: Seq<char>,
) -> Result<(BindTable, Seq<BindView>), Seq<char>> {
    match kind {
        LineKindView::ArrayTable(inner) => if trimmed(inner) == "bind"@ {
            Ok((BindTable::Bind, entries.push(default_bind())))
        } else {
            Ok((BindTable::Other, entries))
        },
        LineKindView::Table(inner) => if trimmed(inner) == "bind.types"@ {
            if entries.len() == 0 {
                Err(at_line(lineno, "[bind.types] before any [[bind]] entry"@))
            } else {
                Ok((BindTable::Types, entries))
            }
        } else {
            Ok((BindTable::Other, entries))
        },
        LineKindView::Malformed => if table == BindTable::Other {
            Ok((table, entries))
        } else {
            Err(at_line(lineno, "expected `key = value`"@))
        },
        LineKindView::KeyValue(key, _) => if table == BindTable::Other {
            Ok((table, entries))
        } else {
            match value {
                Err(e) => Err(at_line(lineno, e)),
                Ok(v) => match if table == BindTable::Bind {
                    bind_set(entries.last(), key, v, lang_ok, names)
                } else {
                    bind_type(entries.last(), key, v)
                } {
                    Ok(e) => Ok((table, entries.drop_last().push(e))),
                    Err(e) => Err(at_line(lineno, e)),
                },
            }
        },
    }
}

/// Reading the lines from `i` on.
pub open spec fn bind_read(
    lines: Seq<ParsedLine>,
    known: Seq<bool>,
    names: Seq<char>,
    i: int,
    table: BindTable,
    entries: Seq<BindView>,
) -> Result<Seq<BindView>, Seq<char>>
    decreases lines.len() - i,
{
    if i < 0 || i >= lines.len() {
        Ok(entries)
    } else {
        match bind_step(
            table,
            entries,
            spec_line_kind(lines[i].text@),
            value_view(lines[i].value),
            lines[i].lineno as nat,
            lang_known(known, i),
            names,
        ) {
            Ok((t, es)) => bind_read(lines, known, names, i + 1, t, es),
            Err(e) => Err(e),
        }
    }
}

/// The first of `out` and `package` an entry leaves empty.
pub open spec fn bind_missing(e: BindView) -> Option<Seq<char>> {
    if e.out.len() == 0 {
        Some("out"@)
    } else if e.package.len() == 0 {
        Some("package"@)
    } else {
        None
    }
}

/// The first entry, from `i` on, missing a required key, and the message.
pub open spec fn first_incomplete_bind(entries: Seq<BindView>, i: int) -> Option<Seq<char>>
    decreases entries.len() - i,
{
    if i < 0 || i >= entries.len() {
        None
    } else {
        match bind_missing(entries[i]) {
            Some(f) => Some("[[bind]] entry "@ + decimal((i + 1) as nat) + " has no `"@ + f + "`"@),
            None => first_incomplete_bind(entries, i + 1),
        }
    }
}

pub open spec fn bind_views(v: Seq<BindEntry>) -> Seq<BindView> {
    v.map_values(|e: BindEntry| e.view_bind())
}

/// Every `[[bind]]` entry of `soothfast.toml`'s logical lines, or the first
/// problem: a line that cannot be read, then an entry missing `out` or
/// `package`.
pub open spec fn spec_bind_config(lines: Seq<ParsedLine>, known: Seq<bool>, names: Seq<char>) -> Result<
    Seq<BindView>,
    Seq<char>,
> {
    match bind_read(lines, known, names, 0, BindTable::Other, Seq::empty()) {
        Err(e) => Err(e),
        Ok(entries) => match first_incomplete_bind(entries, 0) {
            Some(e) => Err(e),
            None => Ok(entries),
        },
    }
}

fn new_bind() -> (e: BindEntry)
    ensures
        e.view_bind() == default_bind(),
        keyed_wf(e.types@),
{
    proof {
        reveal_strlit("");
    }
    let e = BindEntry {
        lang: None,
        out: copy_str(""),
        package: copy_str(""),
        module: None,
        version: None,
        backend_version: None,
        description: None,
        repository: None,
        authors: Vec::new(),
        targets: Vec::new(),
        interpreters: Vec::new(),
        bench: None,
        types: Vec::new(),
        blocking: false,
    };
    assert(e.out@ =~= Seq::<char>::empty());
    assert(strs(e.authors@) =~= Seq::<Seq<char>>::empty());
    assert(strs(e.targets@) =~= Seq::<Seq<char>>::empty());
    assert(strs(e.interpreters@) =~= Seq::<Seq<char>>::empty());
    assert(str_map(e.types@) =~= Map::<Seq<char>, Seq<char>>::empty());
    assert(keys_of(e.types@) =~= Seq::<Seq<char>>::empty());
    e
}

/// See [`bind_set`]; on an error the entry may be left part-way.
fn apply_bind(e: &mut BindEntry, key: &str, v: &ConfigValue, lang_ok: bool, names: &str) -> (r: Result<(), String>)
    ensures
        final(e).types == old(e).types,
        match r {
            Ok(_) => bind_set(old(e).view_bind(), key@, *v, lang_ok, names@) == Ok::<BindView, Seq<char>>(
                final(e).view_bind(),
            ),
            Err(m) => bind_set(old(e).view_bind(), key@, *v, lang_ok, names@) == Err::<BindView, Seq<char>>(m@),
        },
{
    let known: bool = if str_eq(key, "lang") {
        match v {
            ConfigValue::Str(s) => {
                if lang_ok {
                    e.lang = Some(copy_str(s.as_str()));
                    true
                } else {
                    let mut msg = copy_str("unknown lang ");
                    msg.append(debug_str(s.as_str()).as_str());
                    msg.append(" (expected one of ");
                    msg.append(names);
                    msg.append(")");
                    return Err(msg);
                }
            },
            _ => false,
        }
    } else if str_eq(key, "out") {
        match v {
            ConfigValue::Str(s) => {
                e.out = copy_str(s.as_str());
                true
            },
            _ => false,
        }
    } else if str_eq(key, "package") {
        match v {
            ConfigValue::Str(s) => {
                e.package = copy_str(s.as_str());
                true
            },
            _ => false,
        }
    } else if str_eq(key, "module") {
        match v {
            ConfigValue::Str(s) => {
                e.module = Some(copy_str(s.as_str()));
                true
            },
            _ => false,
        }
    } else if str_eq(key, "version") {
        match v {
            ConfigValue::Str(s) => {
                e.version = Some(copy_str(s.as_str()));
                true
            },
            _ => false,
        }
    } else if str_eq(key, "backend_version") {
        match v {
            ConfigValue::Str(s) => {
                e.backend_version = Some(copy_str(s.as_str()));
                true
            },
            _ => false,
        }
    } else if str_eq(key, "description") {
        match v {
            ConfigValue::Str(s) => {
                e.description = Some(copy_str(s.as_str()));
                true
            },
            _ => false,
        }
    } else if str_eq(key, "repository") {
        match v {
            ConfigValue::Str(s) => {
                e.repository = Some(copy_str(s.as_str()));
                true
            },
            _ => false,
        }
    } else if str_eq(key, "authors") {
        match v {
            ConfigValue::StrArray(a, _) => {
                e.authors = copy_strings(a);
                true
            },
            _ => false,
        }
    } else if str_eq(key, "targets") {
        match v {
            ConfigValue::StrArray(a, _) => {
                e.targets = copy_strings(a);
                true
            },
            _ => false,
        }
    } else if str_eq(key, "interpreters") {
        match v {
            ConfigValue::StrArray(a, _) => {
                e.interpreters = copy_strings(a);
                true
            },
            _ => false,
        }
    } else if str_eq(key, "blocking") {
        match v {
            ConfigValue::Bool(b) => {
                e.blocking = *b;
                true
            },
            _ => false,
        }
    } else if str_eq(key, "bench") {
        match v {
            ConfigValue::Str(s) => {
                e.bench = Some(copy_str(s.as_str()));
                true
            },
            _ => false,
        }
    } else {
        false
    };
    if known {
        Ok(())
    } else {
        let mut msg = copy_str("unknown or mistyped `");
        msg.append(key);
        msg.append("`");
        Err(msg)
    }
}

/// See [`bind_type`].
fn apply_bind_type(e: &mut BindEntry, key: &str, v: &ConfigValue) -> (r: Result<(), String>)
    requires
        keyed_wf(old(e).types@),
    ensures
        keyed_wf(final(e).types@),
        match r {
            Ok(_) => bind_type(old(e).view_bind(), key@, *v) == Ok::<BindView, Seq<char>>(final(e).view_bind()),
            Err(m) => bind_type(old(e).view_bind(), key@, *v) == Err::<BindView, Seq<char>>(m@),
        },
{
    proof {
        reveal_strlit("str");
    }
    let path = string_of(trim_char(&chars_of(key), '"').as_slice());
    let is_str = match v {
        ConfigValue::Str(s) => str_eq(s.as_str(), "str"),
        _ => false,
    };
    if is_str {
        let ghost before = e.types@;
        put(&mut e.types, path.as_str(), copy_str("str"));
        proof {
            assert(str_map(e.types@) =~= str_map(before).insert(path@, "str"@));
        }
        Ok(())
    } else {
        let mut msg = copy_str("[bind.types] entry ");
        msg.append(debug_str(path.as_str()).as_str());
        msg.append(": only \"str\" (Display out, FromStr in) is supported");
        Err(msg)
    }
}

/// Every `[[bind]]` entry of `soothfast.toml`'s logical lines; see
/// [`spec_bind_config`]. `known_lang[i]` is whether the binding engine
/// reads line `i`'s value, as a string, as a language name; `names` is its
/// list of names, for the message when a `lang` is not one of them.
pub fn parse(lines: &Vec<ParsedLine>, known_lang: &Vec<bool>, names: &str) -> (r: Result<BindConfig, String>)
    ensures
        match r {
            Ok(cfg) => spec_bind_config(lines@, known_lang@, names@) == Ok::<Seq<BindView>, Seq<char>>(
                bind_views(cfg.entries@),
            ),
            Err(e) => spec_bind_config(lines@, known_lang@, names@) == Err::<Seq<BindView>, Seq<char>>(e@),
        },
{
    proof {
        reveal_strlit("bind");
        reveal_strlit("bind.types");
    }
    let mut entries: Vec<BindEntry> = Vec::new();
    let mut table = BindTable::Other;
    assert(bind_views(entries@) =~= Seq::<BindView>::empty());
    let mut i: usize = 0;
    while i < lines.len()
        invariant
            i <= lines@.len(),
            table != BindTable::Other ==> entries@.len() > 0,
            forall|j: int| 0 <= j < entries@.len() ==> keyed_wf(#[trigger] entries@[j].types@),
            bind_read(lines@, known_lang@, names@, 0, BindTable::Other, Seq::empty()) == bind_read(
                lines@,
                known_lang@,
                names@,
                i as int,
                table,
                bind_views(entries@),
            ),
        decreases lines.len() - i,
    {
        let line = &lines[i];
        let ghost ev = bind_views(entries@);
        let lang_ok = i < known_lang.len() && known_lang[i];
        let kind = line_kind(line.text.as_str());
        match &kind {
            LineKind::ArrayTable(inner) => {
                let t = trim_chars(&chars_of(inner.as_str()));
                if chars_eq(&t, &chars_of("bind")) {
                    entries.push(new_bind());
                    table = BindTable::Bind;
                    proof {
                        assert(bind_views(entries@) =~= ev.push(default_bind()));
                    }
                } else {
                    table = BindTable::Other;
                }
            },
            LineKind::Table(inner) => {
                let t = trim_chars(&chars_of(inner.as_str()));
                if chars_eq(&t, &chars_of("bind.types")) {
                    if entries.len() == 0 {
                        return Err(at_line_exec(line.lineno, "[bind.types] before any [[bind]] entry"));
                    }
                    table = BindTable::Types;
                } else {
                    table = BindTable::Other;
                }
            },
            LineKind::Malformed => {
                if table != BindTable::Other {
                    return Err(at_line_exec(line.lineno, "expected `key = value`"));
                }
            },
            LineKind::KeyValue(key, _) => {
                if table != BindTable::Other {
                    match &line.value {
                        Err(e) => {
                            return Err(at_line_exec(line.lineno, e.as_str()));
                        },
                        Ok(v) => {
                            let mut entry = entries.pop().unwrap();
                            let res = if table == BindTable::Bind {
                                apply_bind(&mut entry, key.as_str(), v, lang_ok, names)
                            } else {
                                apply_bind_type(&mut entry, key.as_str(), v)
                            };
                            match res {
                                Ok(_) => {
                                    entries.push(entry);
                                    proof {
                                        assert(bind_views(entries@) =~= ev.drop_last().push(entry.view_bind()));
                                    }
                                },
                                Err(e) => {
                                    return Err(at_line_exec(line.lineno, e.as_str()));
                                },
                            }
                        },
                    }
                }
            },
        }
        i = i + 1;
    }
    let ghost ev = bind_views(entries@);
    assert(bind_read(lines@, known_lang@, names@, i as int, table, ev) == Ok::<Seq<BindView>, Seq<char>>(ev));
    let mut j: usize = 0;
    while j < entries.len()
        invariant
            j <= entries@.len(),
            ev == bind_views(entries@),
            spec_bind_config(lines@, known_lang@, names@) == match first_incomplete_bind(ev, 0) {
                Some(e) => Err(e),
                None => Ok::<Seq<BindView>, Seq<char>>(ev),
            },
            first_incomplete_bind(ev, 0) == first_incomplete_bind(ev, j as int),
        decreases entries.len() - j,
    {
        let e = &entries[j];
        let field = if chars_of(e.out.as_str()).len() == 0 {
            Some("out")
        } else if chars_of(e.package.as_str()).len() == 0 {
            Some("package")
        } else {
            None
        };
        match field {
            Some(f) => {
                let mut msg = copy_str("[[bind]] entry ");
                msg.append(decimal_string((j + 1) as u64).as_str());
                msg.append(" has no `");
                msg.append(f);
                msg.append("`");
                return Err(msg);
            },
            None => {},
        }
        j = j + 1;
    }
    Ok(BindConfig { entries })
}

} // verus!
