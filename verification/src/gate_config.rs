//! The `[gate]` section of `soothfast.toml`: repo-level gate settings that
//! command-line flags override.

use vstd::prelude::*;

use crate::invoke::{opt_view, CommonArgs};
use crate::text::{chars_eq, chars_of, copy_str, str_eq, trim_chars};
use crate::toml_lines::{line_kind, at_line_exec, gate_read, int_string, ConfigValue, LineKind, ParsedLine};

verus! {

/// Repo-level gate settings. CLI flags override these.
#[derive(Debug, PartialEq, Eq, Default)]
pub struct GateConfig {
    pub codegen_units: Option<String>,
}

/// Fill in what the CLI did not set from the repo's `soothfast.toml`.
/// `loaded` is the file's `[gate]` section, or `None` when there is no
/// workspace to read it from; a flag given on the command line always wins.
pub fn apply(common: &mut CommonArgs, loaded: Option<GateConfig>)
    ensures
        final(common).pkg == old(common).pkg,
        final(common).filter == old(common).filter,
        final(common).backend == old(common).backend,
        final(common).samples == old(common).samples,
        final(common).features == old(common).features,
        final(common).target == old(common).target,
        opt_view(final(common).codegen_units) == match (old(common).codegen_units, loaded) {
            (Some(c), _) => Some(c@),
            (None, Some(cfg)) => opt_view(cfg.codegen_units),
            (None, None) => None,
        },
{
    if common.codegen_units.is_some() {
        return ;
    }
    match loaded {
        Some(cfg) => {
            common.codegen_units = cfg.codegen_units;
        },
        None => {},
    }
}

/// The `[gate]` section of `soothfast.toml`'s logical lines: the
/// codegen-unit pin (`codegen-units`, an integer or a string), or the
/// first problem.
pub fn parse(lines: &Vec<ParsedLine>) -> (r: Result<GateConfig, String>)
    ensures
        match r {
            Ok(cfg) => gate_read(lines@, 0, false, None) == Ok::<Option<Seq<char>>, Seq<char>>(
                opt_view(cfg.codegen_units),
            ),
            Err(e) => gate_read(lines@, 0, false, None) == Err::<Option<Seq<char>>, Seq<char>>(e@),
        },
{
    proof {
        reveal_strlit("gate");
        reveal_strlit("codegen-units");
    }
    let mut in_gate = false;
    let mut cu: Option<String> = None;
    let mut i: usize = 0;
    while i < lines.len()
        invariant
            i <= lines@.len(),
            gate_read(lines@, 0, false, None) == gate_read(
                lines@,
                i as int,
                in_gate,
                opt_view(cu),
            ),
        decreases lines.len() - i,
    {
        let line = &lines[i];
        let kind = line_kind(line.text.as_str());
        match &kind {
            LineKind::ArrayTable(_) => {
                in_gate = false;
            },
            LineKind::Table(inner) => {
                let t = trim_chars(&chars_of(inner.as_str()));
                in_gate = chars_eq(&t, &chars_of("gate"));
            },
            LineKind::KeyValue(key, _) => {
                if in_gate {
                    match &line.value {
                        Err(e) => return Err(at_line_exec(line.lineno, e.as_str())),
                        Ok(v) => {
                            let known = str_eq(key.as_str(), "codegen-units");
                            let pin = if known {
                                match v {
                                    ConfigValue::Int(n) => Some(int_string(*n)),
                                    ConfigValue::Str(s) => Some(copy_str(s.as_str())),
                                    _ => None,
                                }
                            } else {
                                None
                            };
                            match pin {
                                Some(p) => {
                                    cu = Some(p);
                                },
                                None => {
                                    let mut msg = copy_str("unknown or mistyped `");
                                    msg.append(key.as_str());
                                    msg.append("` under [gate]");
                                    return Err(at_line_exec(line.lineno, msg.as_str()));
                                },
                            }
                        },
                    }
                }
            },
            LineKind::Malformed => {
                if in_gate {
                    return Err(at_line_exec(line.lineno, "expected `key = value`"));
                }
            },
        }
        i = i + 1;
    }
    Ok(GateConfig { codegen_units: cu })
}


} // verus!
