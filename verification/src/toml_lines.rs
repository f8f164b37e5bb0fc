//! The line-level reading of the small TOML files this tool owns
//! (`soothfast.toml`'s `[gate]` section, a package's `probes.toml`).
//!
//! Joining a file into logical lines and reading one value are the site
//! engine's; what a line is, which table it falls in, what each key
//! accepts and which errors are reported first are decided here.

use vstd::prelude::*;

use crate::keyed::{keyed_map, keyed_wf, put};
use crate::text::{chars_of, copy_str, decimal, decimal_string, slice_chars, string_of, trim_chars, trimmed};

verus! {

/// What one logical line is.
#[derive(Debug)]
pub enum LineKind {
    /// `[[inner]]`: an array-of-tables header.
    ArrayTable(String),
    /// `[inner]`: a table header.
    Table(String),
    /// `key = value`, both trimmed, split at the first `=`.
    KeyValue(String, String),
    /// Anything else.
    Malformed,
}

/// [`LineKind`] as plain values.
pub enum LineKindView {
    ArrayTable(Seq<char>),
    Table(Seq<char>),
    KeyValue(Seq<char>, Seq<char>),
    Malformed,
}

impl LineKind {
    pub open spec fn view_kind(&self) -> LineKindView {
        match self {
            LineKind::ArrayTable(s) => LineKindView::ArrayTable(s@),
            LineKind::Table(s) => LineKindView::Table(s@),
            LineKind::KeyValue(k, v) => LineKindView::KeyValue(k@, v@),
            LineKind::Malformed => LineKindView::Malformed,
        }
    }
}

/// Index of the first `c` in `s` at or after `i`.
pub open spec fn find_from(s: Seq<char>, c: char, i: int) -> Option<int>
    decreases s.len() - i,
{
    if i < 0 || i >= s.len() {
        None
    } else if s[i] == c {
        Some(i)
    } else {
        find_from(s, c, i + 1)
    }
}

/// What a line is: an array-of-tables header when it starts with `[[` and
/// ends with `]]` (with room for both), else a table header when it starts
/// with `[` and ends with `]`, else a key and value around its first `=`.
pub open spec fn spec_line_kind(s: Seq<char>) -> LineKindView {
    if s.len() >= 4 && s[0] == '[' && s[1] == '[' && s[s.len() - 2] == ']' && s[s.len() - 1]
        == ']' {
        LineKindView::ArrayTable(s.subrange(2, s.len() - 2))
    } else if s.len() >= 2 && s[0] == '[' && s[s.len() - 1] == ']' {
        LineKindView::Table(s.subrange(1, s.len() - 1))
    } else {
        match find_from(s, '=', 0) {
            Some(k) => LineKindView::KeyValue(
                trimmed(s.subrange(0, k)),
                trimmed(s.subrange(k + 1, s.len() as int)),
            ),
            None => LineKindView::Malformed,
        }
    }
}

fn find_eq(v: &Vec<char>) -> (r: Option<usize>)
    ensures
        match find_from(v@, '=', 0) {
            Some(k) => r == Some(k as usize) && 0 <= k < v@.len(),
            None => r is None,
        },
{
    let mut i: usize = 0;
    while i < v.len()
        invariant
            i <= v.len(),
            find_from(v@, '=', i as int) == find_from(v@, '=', 0),
        decreases v.len() - i,
    {
        if v[i] == '=' {
            return Some(i);
        }
        i = i + 1;
    }
    None
}

/// See [`spec_line_kind`].
pub fn line_kind(line: &str) -> (r: LineKind)
    ensures
        r.view_kind() == spec_line_kind(line@),
{
    let v = chars_of(line);
    let n = v.len();
    if n >= 4 && v[0] == '[' && v[1] == '[' && v[n - 2] == ']' && v[n - 1] == ']' {
        return LineKind::ArrayTable(string_of(slice_chars(&v, 2, n - 2).as_slice()));
    }
    if n >= 2 && v[0] == '[' && v[n - 1] == ']' {
        return LineKind::Table(string_of(slice_chars(&v, 1, n - 1).as_slice()));
    }
    match find_eq(&v) {
        Some(k) => {
            let key = trim_chars(&slice_chars(&v, 0, k));
            let value = trim_chars(&slice_chars(&v, k + 1, n));
            LineKind::KeyValue(string_of(key.as_slice()), string_of(value.as_slice()))
        },
        None => LineKind::Malformed,
    }
}

/// A value as this tool's files use them; what the site engine reads is
/// mapped onto it.
#[derive(Debug)]
pub enum ConfigValue {
    Str(String),
    Int(i64),
    Bool(bool),
    /// An array of strings, with the first of them (if any) that does not
    /// read as a probe assertion and why.
    StrArray(Vec<String>, Option<String>),
    /// An inline table: each key with its value when that is a string.
    Table(Vec<(String, Option<String>)>),
    /// Any other kind of value.
    Other,
}

/// One logical line as the site engine joined it: its number, its text,
/// and (for a key line, see [`line_kind`]) its value or why the value could
/// not be read.
pub struct ParsedLine {
    pub lineno: usize,
    pub text: String,
    pub value: Result<ConfigValue, String>,
}

/// `n` in decimal, with a leading `-` when negative, as `{}` formats it.
pub open spec fn signed_decimal(n: int) -> Seq<char> {
    if n < 0 {
        "-"@ + decimal((-n) as nat)
    } else {
        decimal(n as nat)
    }
}

/// See [`signed_decimal`].
pub fn int_string(n: i64) -> (r: String)
    ensures
        r@ == signed_decimal(n as int),
{
    if n < 0 {
        let m: u64 = (-(n as i128)) as u64;
        let mut r = copy_str("-");
        r.append(decimal_string(m).as_str());
        proof {
            reveal_strlit("-");
        }
        r
    } else {
        decimal_string(n as u64)
    }
}

/// `line N: ` before a message.
pub open spec fn at_line(lineno: nat, msg: Seq<char>) -> Seq<char> {
    "line "@ + decimal(lineno) + ": "@ + msg
}

pub fn at_line_exec(lineno: usize, msg: &str) -> (r: String)
    ensures
        r@ == at_line(lineno as nat, msg@),
{
    let mut r = copy_str("line ");
    r.append(decimal_string(lineno as u64).as_str());
    r.append(": ");
    r.append(msg);
    r
}

// ------------------------------------------------------------- [gate]

/// What the `[gate]` reading carries from line to line: whether the
/// current table is `[gate]`, and the codegen-unit pin read so far.
pub open spec fn gate_step(
    kind: LineKindView,
    value: Result<ConfigValue, Seq<char>>,
    lineno: nat,
    in_gate: bool,
    cu: Option<Seq<char>>,
) -> Result<(bool, Option<Seq<char>>), Seq<char>> {
    match kind {
        LineKindView::ArrayTable(_) => Ok((false, cu)),
        LineKindView::Table(inner) => Ok((trimmed(inner) == "gate"@, cu)),
        _ => if !in_gate {
            Ok((in_gate, cu))
        } else {
            match kind {
                LineKindView::KeyValue(key, _) => match value {
                    Err(e) => Err(at_line(lineno, e)),
                    Ok(v) => if key == "codegen-units"@ {
                        match v {
                            ConfigValue::Int(n) => Ok((in_gate, Some(signed_decimal(n as int)))),
                            ConfigValue::Str(s) => Ok((in_gate, Some(s@))),
                            _ => Err(
                                at_line(
                                    lineno,
                                    "unknown or mistyped `"@ + key + "` under [gate]"@,
                                ),
                            ),
                        }
                    } else {
                        Err(at_line(lineno, "unknown or mistyped `"@ + key + "` under [gate]"@))
                    },
                },
                _ => Err(at_line(lineno, "expected `key = value`"@)),
            }
        },
    }
}

/// A line's value with the error message as plain values.
pub open spec fn value_view(v: Result<ConfigValue, String>) -> Result<ConfigValue, Seq<char>> {
    match v {
        Ok(x) => Ok(x),
        Err(e) => Err(e@),
    }
}

/// Reading the `[gate]` section over `lines` from `i`, with the table
/// state and pin read so far. Every other table is skipped:
/// `soothfast.toml` is shared with the site and spec engines.
pub open spec fn gate_read(lines: Seq<ParsedLine>, i: int, in_gate: bool, cu: Option<Seq<char>>) -> Result<
    Option<Seq<char>>,
    Seq<char>,
>
    decreases lines.len() - i,
{
    if i < 0 || i >= lines.len() {
        Ok(cu)
    } else {
        match gate_step(
            spec_line_kind(lines[i].text@),
            value_view(lines[i].value),
            lines[i].lineno as nat,
            in_gate,
            cu,
        ) {
            Ok((g, c)) => gate_read(lines, i + 1, g, c),
            Err(e) => Err(e),
        }
    }
}

// ------------------------------------------------------------- shared

pub open spec fn ostr(o: Option<String>) -> Option<Seq<char>> {
    match o {
        Some(s) => Some(s@),
        None => None,
    }
}

pub open spec fn strs(v: Seq<String>) -> Seq<Seq<char>> {
    v.map_values(|s: String| s@)
}

/// The map a keyed list of strings stands for.
pub open spec fn str_map(s: Seq<(String, String)>) -> Map<Seq<char>, Seq<char>> {
    keyed_map(s, |v: String| v@)
}

/// An inline table of strings folded into `m`, in order; every value must
/// be a string, and the first that is not is reported as `pre`, its name,
/// `post`.
pub open spec fn string_table_fold(
    m: Map<Seq<char>, Seq<char>>,
    t: Seq<(String, Option<String>)>,
    pre: Seq<char>,
    post: Seq<char>,
) -> Result<Map<Seq<char>, Seq<char>>, Seq<char>>
    decreases t.len(),
{
    if t.len() == 0 {
        Ok(m)
    } else {
        match string_table_fold(m, t.drop_last(), pre, post) {
            Err(e) => Err(e),
            Ok(m2) => match t.last().1 {
                Some(s) => Ok(m2.insert(t.last().0@, s@)),
                None => Err(pre + t.last().0@ + post),
            },
        }
    }
}

pub fn copy_strings(v: &Vec<String>) -> (r: Vec<String>)
    ensures
        strs(r@) == strs(v@),
{
    let mut r: Vec<String> = Vec::new();
    let mut i: usize = 0;
    while i < v.len()
        invariant
            i <= v.len(),
            r@.len() == i,
            forall|j: int| 0 <= j < i ==> #[trigger] r@[j]@ == v@[j]@,
        decreases v.len() - i,
    {
        r.push(copy_str(v[i].as_str()));
        i = i + 1;
    }
    assert(strs(r@) =~= strs(v@));
    r
}

/// `a`, `b` and `c` in one string.
pub fn join3(a: &str, b: &str, c: &str) -> (r: String)
    ensures
        r@ == a@ + b@ + c@,
{
    let mut r = copy_str(a);
    r.append(b);
    r.append(c);
    r
}

proof fn lemma_string_table_fold_err(
    m: Map<Seq<char>, Seq<char>>,
    t: Seq<(String, Option<String>)>,
    pre: Seq<char>,
    post: Seq<char>,
    j: int,
)
    requires
        0 <= j <= t.len(),
        string_table_fold(m, t.take(j), pre, post) is Err,
    ensures
        string_table_fold(m, t, pre, post) == string_table_fold(m, t.take(j), pre, post),
    decreases t.len(),
{
    if j == t.len() {
        assert(t.take(j) =~= t);
    } else {
        assert(t.drop_last().take(j) =~= t.take(j));
        lemma_string_table_fold_err(m, t.drop_last(), pre, post, j);
    }
}

/// See [`string_table_fold`]; on an error the table may be left part-way.
pub fn fold_string_table(
    env: &mut Vec<(String, String)>,
    t: &Vec<(String, Option<String>)>,
    pre: &str,
    post: &str,
) -> (r: Result<(), String>)
    requires
        keyed_wf(old(env)@),
    ensures
        keyed_wf(final(env)@),
        match r {
            Ok(_) => string_table_fold(str_map(old(env)@), t@, pre@, post@) == Ok::<
                Map<Seq<char>, Seq<char>>,
                Seq<char>,
            >(str_map(final(env)@)),
            Err(e) => string_table_fold(str_map(old(env)@), t@, pre@, post@) == Err::<
                Map<Seq<char>, Seq<char>>,
                Seq<char>,
            >(e@),
        },
{
    let ghost m0 = str_map(env@);
    assert(t@.take(0) =~= Seq::<(String, Option<String>)>::empty());
    let mut i: usize = 0;
    while i < t.len()
        invariant
            i <= t@.len(),
            keyed_wf(env@),
            m0 == str_map(old(env)@),
            string_table_fold(m0, t@.take(i as int), pre@, post@) == Ok::<
                Map<Seq<char>, Seq<char>>,
                Seq<char>,
            >(str_map(env@)),
        decreases t.len() - i,
    {
        let ghost e0 = env@;
        let ghost pre_t = t@.take(i as int);
        let ghost cur = t@.take(i + 1);
        assert(cur.drop_last() =~= pre_t);
        assert(cur.last() == t@[i as int]);
        let name = &t[i].0;
        match &t[i].1 {
            Some(s) => {
                put(env, name.as_str(), copy_str(s.as_str()));
                proof {
                    assert(str_map(env@) =~= str_map(e0).insert(name@, s@));
                }
            },
            None => {
                proof {
                    lemma_string_table_fold_err(m0, t@, pre@, post@, i + 1);
                }
                return Err(join3(pre, name.as_str(), post));
            },
        }
        i = i + 1;
    }
    assert(t@.take(t@.len() as int) =~= t@);
    Ok(())
}

} // verus!
