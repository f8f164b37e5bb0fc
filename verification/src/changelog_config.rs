//! The `[changelog]` and `[changelog.icons]` tables of `soothfast.toml`.
//!
//! `soothfast.toml` is shared with the site, spec and gate engines, so this
//! reader skips every table it does not own. Which icon overrides name a
//! real changelog section is the report engine's to decide; this reader
//! collects them by lower-cased name.

use vstd::prelude::*;

use crate::keyed::{keyed_wf, keys_of, put};
use crate::text::{chars_eq, chars_of, copy_str, lower_str, lowered, string_of, trim_chars, trimmed};
use crate::toml_lines::{
    line_kind, spec_line_kind,
    at_line, at_line_exec, copy_strings, join3, ostr, str_map, strs, value_view, ConfigValue, LineKind,
    LineKindView, ParsedLine,
};

verus! {

/// Repo-level `report changelog` settings. CLI flags override these.
#[derive(Debug, Default)]
pub struct ChangelogConfig {
    /// Cargo features the API surface is read under.
    pub features: Option<String>,
    /// Packages `-p` defaults to.
    pub packages: Vec<String>,
    /// Author whose commits are left out of the draft.
    pub bot_author: Option<String>,
    /// `[changelog.icons]` overrides by lower-cased section name, in name
    /// order.
    pub icons: Vec<(String, String)>,
}

/// [`ChangelogConfig`] as plain values.
pub struct ChangelogView {
    pub features: Option<Seq<char>>,
    pub packages: Seq<Seq<char>>,
    pub bot_author: Option<Seq<char>>,
    pub icons: Map<Seq<char>, Seq<char>>,
}

impl ChangelogConfig {
    pub open spec fn view_settings(&self) -> ChangelogView {
        ChangelogView {
            features: ostr(self.features),
            packages: strs(self.packages@),
            bot_author: ostr(self.bot_author),
            icons: str_map(self.icons@),
        }
    }
}

/// Nothing set, no overrides.
pub open spec fn default_changelog() -> ChangelogView {
    ChangelogView { features: None, packages: Seq::empty(), bot_author: None, icons: Map::empty() }
}

/// Which table the lines being read belong to.
#[derive(PartialEq, Eq, Structural, Clone, Copy)]
pub enum ChangelogTable {
    Changelog,
    Icons,
    Other,
}

/// A `[changelog]` key applied to the settings.
pub open spec fn changelog_set(c: ChangelogView, key: Seq<char>, v: ConfigValue) -> Result<ChangelogView, Seq<char>> {
    let bad = "unknown or mistyped `"@ + key + "` under [changelog]"@;
    if key == "features"@ {
        match v {
            ConfigValue::Str(s) => Ok(ChangelogView { features: Some(s@), ..c }),
            _ => Err(bad),
        }
    } else if key == "packages"@ {
        match v {
            ConfigValue::StrArray(a, _) => Ok(ChangelogView { packages: strs(a@), ..c }),
            _ => Err(bad),
        }
    } else if key == "bot-author"@ {
        match v {
            ConfigValue::Str(s) => Ok(ChangelogView { bot_author: Some(s@), ..c }),
            _ => Err(bad),
        }
    } else {
        Err(bad)
    }
}

/// The table a header line opens: only `[changelog]` and
/// `[changelog.icons]` are read; an array-of-tables header never is.
pub open spec fn changelog_table_of(kind: LineKindView, table: ChangelogTable) -> ChangelogTable {
    match kind {
        LineKindView::ArrayTable(_) => ChangelogTable::Other,
        LineKindView::Table(inner) => if trimmed(inner) == "changelog"@ {
            ChangelogTable::Changelog
        } else if trimmed(inner) == "changelog.icons"@ {
            ChangelogTable::Icons
        } else {
            ChangelogTable::Other
        },
        _ => table,
    }
}

/// One logical line applied to the reading.
pub open spec fn changelog_step(
    table: ChangelogTable,
    c: ChangelogView,
    kind: LineKindView,
    value: Result<ConfigValue, Seq<char>>,
    lineno: nat,
) -> Result<(ChangelogTable, ChangelogView), Seq<char>> {
    match kind {
        LineKindView::ArrayTable(_) => Ok((changelog_table_of(kind, table), c)),
        LineKindView::Table(_) => Ok((changelog_table_of(kind, table), c)),
        LineKindView::Malformed => if table == ChangelogTable::Other {
            Ok((table, c))
        } else {
            Err(at_line(lineno, "expected `key = value`"@))
        },
        LineKindView::KeyValue(key, _) => if table == ChangelogTable::Other {
            Ok((table, c))
        } else {
            match value {
                Err(e) => Err(at_line(lineno, e)),
                Ok(v) => if table == ChangelogTable::Icons {
                    match v {
                        ConfigValue::Str(icon) => Ok(
                            (table, ChangelogView { icons: c.icons.insert(lowered(key), icon@), ..c }),
                        ),
                        _ => Err(at_line(lineno, "`"@ + key + "` under [changelog.icons] must be a string"@)),
                    }
                } else {
                    match changelog_set(c, key, v) {
                        Ok(c2) => Ok((table, c2)),
                        Err(e) => Err(at_line(lineno, e)),
                    }
                },
            }
        },
    }
}

/// Reading the lines from `i` on.
pub open spec fn changelog_read(
    lines: Seq<ParsedLine>,
    i: int,
    table: ChangelogTable,
    c: ChangelogView,
) -> Result<ChangelogView, Seq<char>>
    decreases lines.len() - i,
{
    if i < 0 || i >= lines.len() {
        Ok(c)
    } else {
        match changelog_step(
            table,
            c,
            spec_line_kind(lines[i].text@),
            value_view(lines[i].value),
            lines[i].lineno as nat,
        ) {
            Ok((t, c2)) => changelog_read(lines, i + 1, t, c2),
            Err(e) => Err(e),
        }
    }
}

/// The `[changelog]` and `[changelog.icons]` tables of `soothfast.toml`'s
/// logical lines, or the first problem in them.
pub fn parse(lines: &Vec<ParsedLine>) -> (r: Result<ChangelogConfig, String>)
    ensures
        match r {
            Ok(cfg) => keyed_wf(cfg.icons@) && changelog_read(
                lines@,
                0,
                ChangelogTable::Other,
                default_changelog(),
            ) == Ok::<ChangelogView, Seq<char>>(cfg.view_settings()),
            Err(e) => changelog_read(lines@, 0, ChangelogTable::Other, default_changelog()) == Err::<
                ChangelogView,
                Seq<char>,
            >(e@),
        },
{
    proof {
        reveal_strlit("features");
        reveal_strlit("packages");
        reveal_strlit("bot-author");
    }
    let mut cfg = ChangelogConfig { features: None, packages: Vec::new(), bot_author: None, icons: Vec::new() };
    let mut table = ChangelogTable::Other;
    proof {
        assert(cfg.view_settings().packages =~= Seq::<Seq<char>>::empty());
        assert(cfg.view_settings().icons =~= Map::<Seq<char>, Seq<char>>::empty());
        assert(keys_of(cfg.icons@) =~= Seq::<Seq<char>>::empty());
    }
    let mut i: usize = 0;
    while i < lines.len()
        invariant
            i <= lines@.len(),
            keyed_wf(cfg.icons@),
            changelog_read(lines@, 0, ChangelogTable::Other, default_changelog()) == changelog_read(
                lines@,
                i as int,
                table,
                cfg.view_settings(),
            ),
        decreases lines.len() - i,
    {
        let line = &lines[i];
        let kind = line_kind(line.text.as_str());
        match &kind {
            LineKind::ArrayTable(_) => {
                table = ChangelogTable::Other;
            },
            LineKind::Table(inner) => {
                let t = trim_chars(&chars_of(inner.as_str()));
                table = if chars_eq(&t, &chars_of("changelog")) {
                    ChangelogTable::Changelog
                } else if chars_eq(&t, &chars_of("changelog.icons")) {
                    ChangelogTable::Icons
                } else {
                    ChangelogTable::Other
                };
            },
            LineKind::Malformed => {
                if table != ChangelogTable::Other {
                    return Err(at_line_exec(line.lineno, "expected `key = value`"));
                }
            },
            LineKind::KeyValue(key, _) => {
                if table != ChangelogTable::Other {
                    match &line.value {
                        Err(e) => {
                            return Err(at_line_exec(line.lineno, e.as_str()));
                        },
                        Ok(v) => {
                            if table == ChangelogTable::Icons {
                                match v {
                                    ConfigValue::Str(icon) => {
                                        let ghost before = cfg.icons@;
                                        let name = string_of(lower_str(key.as_str()).as_slice());
                                        put(&mut cfg.icons, name.as_str(), copy_str(icon.as_str()));
                                        proof {
                                            assert(str_map(cfg.icons@) =~= str_map(before).insert(
                                                lowered(key@),
                                                icon@,
                                            ));
                                        }
                                    },
                                    _ => {
                                        let msg = join3("`", key.as_str(), "` under [changelog.icons] must be a string");
                                        return Err(at_line_exec(line.lineno, msg.as_str()));
                                    },
                                }
                            } else {
                                let known = if crate::text::str_eq(key.as_str(), "features") {
                                    match v {
                                        ConfigValue::Str(s) => {
                                            cfg.features = Some(copy_str(s.as_str()));
                                            true
                                        },
                                        _ => false,
                                    }
                                } else if crate::text::str_eq(key.as_str(), "packages") {
                                    match v {
                                        ConfigValue::StrArray(a, _) => {
                                            cfg.packages = copy_strings(a);
                                            true
                                        },
                                        _ => false,
                                    }
                                } else if crate::text::str_eq(key.as_str(), "bot-author") {
                                    match v {
                                        ConfigValue::Str(s) => {
                                            cfg.bot_author = Some(copy_str(s.as_str()));
                                            true
                                        },
                                        _ => false,
                                    }
                                } else {
                                    false
                                };
                                if !known {
                                    let msg = join3("unknown or mistyped `", key.as_str(), "` under [changelog]");
                                    return Err(at_line_exec(line.lineno, msg.as_str()));
                                }
                            }
                        },
                    }
                }
            },
        }
        i = i + 1;
    }
    Ok(cfg)
}

} // verus!
