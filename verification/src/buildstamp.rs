//! What a measurement was compiled with.
//!
//! Instruction counts are only comparable between two builds that made the
//! same codegen decisions. `codegen-units` is pinned for the bench build, and
//! the rest is recorded here, so a comparison across differing settings reports
//! that rather than reporting the settings as a regression.

use vstd::prelude::*;

use crate::json::{at, json_get, jv, str_of, Json, JsonV};
use crate::runcache::{join_sep, join_strs};
use crate::text::{
    char_is_ws, chars_eq, chars_lt, chars_of, contains_chars, contains_seq, copy_str, has_prefix, is_ws,
    lemma_lex_asymmetric, lemma_lex_transitive, lex_lt, lines_chars, lines_of, slice_chars,
    starts_with_chars, str_eq, string_of, trim_chars, trimmed,
};
use crate::toml_lines::{line_kind, spec_line_kind, strs, LineKind, LineKindView};

verus! {

/// The build settings behind one measurement run.
#[derive(Debug)]
pub struct BuildStamp {
    /// `rustc` release and host triple.
    pub rustc: String,
    /// What partitioning was pinned to, or `inherit`.
    pub codegen_units: String,
    /// Hash of the `[profile.*]` tables cargo will honour.
    pub profiles: String,
    /// Hash of the flags reaching rustc from the environment and config.
    pub rustflags: String,
}

/// The stamp a reference document recorded under `build`, each field as the
/// string it holds (empty when absent or not a string).
#[derive(Debug)]
pub struct StoredStamp {
    pub rustc: String,
    pub codegen_units: String,
    pub profiles: String,
    pub rustflags: String,
}

/// Why two runs are not comparable.
#[derive(Debug)]
pub struct Mismatch {
    /// Short form, repeated on every softened item.
    pub reason: String,
    /// Long form with the differing values, printed once.
    pub detail: String,
}

/// A build stamp with `codegen_units` as pinned for the run (`inherit` when
/// nothing was pinned) and the other settings as measured.
pub fn capture(codegen_units: Option<&str>, rustc: String, profiles: String, rustflags: String) -> (r:
    BuildStamp)
    ensures
        r.rustc@ == rustc@,
        r.profiles@ == profiles@,
        r.rustflags@ == rustflags@,
        r.codegen_units@ == match codegen_units {
            Some(c) => c@,
            None => "inherit"@,
        },
{
    proof {
        reveal_strlit("inherit");
    }
    let cu = match codegen_units {
        Some(c) => copy_str(c),
        None => copy_str("inherit"),
    };
    BuildStamp { rustc, codegen_units: cu, profiles, rustflags }
}

/// The four settings in comparison order, as (name, reference, current).
pub open spec fn stamp_fields(old: StoredStamp, cur: BuildStamp) -> Seq<(Seq<char>, Seq<char>, Seq<char>)> {
    seq![
        ("rustc"@, old.rustc@, cur.rustc@),
        ("codegen_units"@, old.codegen_units@, cur.codegen_units@),
        ("profiles"@, old.profiles@, cur.profiles@),
        ("rustflags"@, old.rustflags@, cur.rustflags@),
    ]
}

/// The first field, in comparison order, whose values differ.
pub open spec fn first_differing(f: Seq<(Seq<char>, Seq<char>, Seq<char>)>, i: int) -> Option<
    (Seq<char>, Seq<char>, Seq<char>),
>
    decreases f.len() - i,
{
    if i < 0 || i >= f.len() {
        None
    } else if f[i].1 != f[i].2 {
        Some(f[i])
    } else {
        first_differing(f, i + 1)
    }
}

/// The mismatch a comparison reports, as (reason, detail).
pub open spec fn spec_compare(reference: Option<StoredStamp>, cur: BuildStamp) -> Option<
    (Seq<char>, Seq<char>),
> {
    match reference {
        None => Some(
            (
                "reference predates build stamps"@,
                "reference predates build stamps; re-save it with `measure --save-baseline`"@,
            ),
        ),
        Some(old) => match first_differing(stamp_fields(old, cur), 0) {
            Some((field, was, new)) => Some(
                (
                    "build settings differ: "@ + field,
                    "build settings differ: "@ + field + " ("@ + was + " -> "@ + new + ")"@,
                ),
            ),
            None => None,
        },
    }
}

fn differ(field: &str, was: &String, new: &String) -> (r: Mismatch)
    ensures
        r.reason@ == "build settings differ: "@ + field@,
        r.detail@ == "build settings differ: "@ + field@ + " ("@ + was@ + " -> "@ + new@ + ")"@,
{
    let mut reason = copy_str("build settings differ: ");
    reason.append(field);
    let mut detail = copy_str("build settings differ: ");
    detail.append(field);
    detail.append(" (");
    detail.append(was.as_str());
    detail.append(" -> ");
    detail.append(new.as_str());
    detail.append(")");
    Mismatch { reason, detail }
}

/// A stamp field as a reference document holds it: the string it is,
/// empty when absent or not a string.
pub open spec fn stamp_field(build: JsonV, k: Seq<char>) -> Seq<char> {
    match str_of(at(build, k)) {
        Some(s) => s,
        None => Seq::empty(),
    }
}

/// The stamp a reference document recorded under `build`; nothing when it
/// has none (`build` absent or null).
pub open spec fn spec_stored_stamp(reference: JsonV) -> Option<(Seq<char>, Seq<char>, Seq<char>, Seq<char>)> {
    let b = at(reference, "build"@);
    if b == JsonV::Null {
        None
    } else {
        Some(
            (
                stamp_field(b, "rustc"@),
                stamp_field(b, "codegen_units"@),
                stamp_field(b, "profiles"@),
                stamp_field(b, "rustflags"@),
            ),
        )
    }
}

fn stamp_field_of(build: &Json, k: &str) -> (r: String)
    ensures
        r@ == stamp_field(jv(*build), k@),
{
    match json_get(build, k) {
        Some(Json::Str(t)) => copy_str(t.as_str()),
        _ => string_of(Vec::<char>::new().as_slice()),
    }
}

/// See [`spec_stored_stamp`].
pub fn stored_stamp_of(reference: &Json) -> (r: Option<StoredStamp>)
    ensures
        match r {
            Some(s) => spec_stored_stamp(jv(*reference)) == Some(
                (s.rustc@, s.codegen_units@, s.profiles@, s.rustflags@),
            ),
            None => spec_stored_stamp(jv(*reference)) is None,
        },
{
    match json_get(reference, "build") {
        None => None,
        Some(Json::Null) => None,
        Some(b) => Some(
            StoredStamp {
                rustc: stamp_field_of(b, "rustc"),
                codegen_units: stamp_field_of(b, "codegen_units"),
                profiles: stamp_field_of(b, "profiles"),
                rustflags: stamp_field_of(b, "rustflags"),
            },
        ),
    }
}

/// The reason two runs are not comparable, or `None` when they are: a
/// reference without a stamp asks for a re-save, otherwise the first of
/// rustc, codegen units, profiles and rustflags that differs is named.
pub fn compare(reference: &Option<StoredStamp>, current: &BuildStamp) -> (r: Option<Mismatch>)
    ensures
        match r {
            Some(m) => spec_compare(*reference, *current) == Some((m.reason@, m.detail@)),
            None => spec_compare(*reference, *current) is None,
        },
{
    match reference {
        None => Some(
            Mismatch {
                reason: copy_str("reference predates build stamps"),
                detail: copy_str(
                    "reference predates build stamps; re-save it with `measure --save-baseline`",
                ),
            },
        ),
        Some(old) => {
            let ghost f = stamp_fields(*old, *current);
            proof {
                reveal_strlit("rustc");
                reveal_strlit("codegen_units");
                reveal_strlit("profiles");
                reveal_strlit("rustflags");
                assert(first_differing(f, 4) is None);
                reveal_with_fuel(first_differing, 5);
            }
            if !str_eq(old.rustc.as_str(), current.rustc.as_str()) {
                return Some(differ("rustc", &old.rustc, &current.rustc));
            }
            if !str_eq(old.codegen_units.as_str(), current.codegen_units.as_str()) {
                return Some(differ("codegen_units", &old.codegen_units, &current.codegen_units));
            }
            if !str_eq(old.profiles.as_str(), current.profiles.as_str()) {
                return Some(differ("profiles", &old.profiles, &current.profiles));
            }
            if !str_eq(old.rustflags.as_str(), current.rustflags.as_str()) {
                return Some(differ("rustflags", &old.rustflags, &current.rustflags));
            }
            None
        },
    }
}

/// The value of the first line of `lines` (from index `i`) that starts
/// with `name`: the rest of that line, trimmed; empty when no line does.
pub open spec fn version_field(lines: Seq<Seq<char>>, name: Seq<char>, i: int) -> Seq<char>
    decreases lines.len() - i,
{
    if i < 0 || i >= lines.len() {
        Seq::empty()
    } else if has_prefix(lines[i], name) {
        trimmed(lines[i].subrange(name.len() as int, lines[i].len() as int))
    } else {
        version_field(lines, name, i + 1)
    }
}

/// What a stamp records of `rustc -vV` output: its release and host
/// triple, space-separated and trimmed (empty fields leave no stray space).
pub open spec fn spec_rustc_identity(text: Seq<char>) -> Seq<char> {
    trimmed(
        version_field(lines_of(text), "release:"@, 0) + " "@ + version_field(
            lines_of(text),
            "host:"@,
            0,
        ),
    )
}

fn field_of(lines: &Vec<Vec<char>>, name: &str) -> (r: Vec<char>)
    ensures
        r@ == version_field(lines@.map_values(|p: Vec<char>| p@), name@, 0),
{
    let ghost ls = lines@.map_values(|p: Vec<char>| p@);
    let nv = chars_of(name);
    let mut i: usize = 0;
    while i < lines.len()
        invariant
            ls == lines@.map_values(|p: Vec<char>| p@),
            nv@ == name@,
            i <= lines@.len(),
            version_field(ls, name@, i as int) == version_field(ls, name@, 0),
        decreases lines.len() - i,
    {
        assert(ls[i as int] == lines@[i as int]@);
        if starts_with_chars(&lines[i], &nv) {
            let rest = slice_chars(&lines[i], nv.len(), lines[i].len());
            return trim_chars(&rest);
        }
        i = i + 1;
    }
    Vec::new()
}

/// The rustc identity a stamp records, from `rustc -vV` output.
pub fn rustc_identity(text: &str) -> (r: String)
    ensures
        r@ == spec_rustc_identity(text@),
{
    let lines = lines_chars(&chars_of(text));
    let mut joined = field_of(&lines, "release:");
    joined.push(' ');
    let host = field_of(&lines, "host:");
    let ghost before = joined@;
    let mut k: usize = 0;
    while k < host.len()
        invariant
            k <= host@.len(),
            joined@ == before + host@.take(k as int),
        decreases host.len() - k,
    {
        joined.push(host[k]);
        assert(host@.take(k as int + 1) =~= host@.take(k as int).push(host@[k as int]));
        k = k + 1;
    }
    assert(host@.take(host@.len() as int) =~= host@);
    proof {
        reveal_strlit(" ");
    }
    assert(joined@ =~= version_field(lines_of(text@), "release:"@, 0) + " "@ + version_field(
        lines_of(text@),
        "host:"@,
        0,
    ));
    string_of(trim_chars(&joined).as_slice())
}


// ---------------------------------------------------------------- profiles and flags

/// Strings in order, equal ones side by side: no later one sorts before an
/// earlier one.
pub open spec fn sorted_le(s: Seq<Seq<char>>) -> bool {
    forall|i: int, j: int| 0 <= i < j < s.len() ==> !lex_lt(s[j], s[i])
}

/// `v` sorted as `Vec<String>::sort` sorts it.
pub(crate) fn sort_strings(v: Vec<String>) -> (r: Vec<String>)
    ensures
        sorted_le(strs(r@)),
        strs(r@).to_multiset() == strs(v@).to_multiset(),
{
    let mut r: Vec<String> = Vec::new();
    assert(strs(v@.take(0)) =~= Seq::<Seq<char>>::empty());
    assert(strs(r@) =~= Seq::<Seq<char>>::empty());
    let mut k: usize = 0;
    while k < v.len()
        invariant
            k <= v@.len(),
            sorted_le(strs(r@)),
            strs(r@).to_multiset() == strs(v@.take(k as int)).to_multiset(),
        decreases v.len() - k,
    {
        let x = copy_str(v[k].as_str());
        let xc = chars_of(x.as_str());
        let ghost r0 = strs(r@);
        let mut i: usize = 0;
        while i < r.len() && !chars_lt(&xc, &chars_of(r[i].as_str()))
            invariant
                r0 == strs(r@),
                xc@ == x@,
                i <= r@.len(),
                forall|m: int| 0 <= m < i ==> !lex_lt(x@, r0[m]),
            decreases r.len() - i,
        {
            i = i + 1;
        }
        let ghost xv = x@;
        r.insert(i, x);
        proof {
            let r1 = strs(r@);
            assert(r1 =~= r0.insert(i as int, xv));
            assert forall|a: int, b: int| 0 <= a < b < r1.len() implies !lex_lt(r1[b], r1[a]) by {
                if b < i {
                } else if b == i {
                } else if a < i {
                    assert(r1[b] == r0[b - 1]);
                    assert(r1[a] == r0[a]);
                } else if a == i {
                    assert(r1[b] == r0[b - 1]);
                    assert(lex_lt(xv, r0[i as int]));
                    lemma_lex_asymmetric(xv, r0[i as int]);
                    if b - 1 > i {
                        if lex_lt(r0[b - 1], xv) {
                            lemma_lex_transitive(r0[b - 1], xv, r0[i as int]);
                        }
                    }
                } else {
                    assert(r1[b] == r0[b - 1]);
                    assert(r1[a] == r0[a - 1]);
                }
            }
            vstd::seq_lib::to_multiset_insert(r0, i as int, xv);
            assert(strs(v@.take(k + 1)) =~= strs(v@.take(k as int)).push(v@[k as int]@));
            vstd::seq_lib::to_multiset_build(strs(v@.take(k as int)), v@[k as int]@);
        }
        k = k + 1;
    }
    assert(v@.take(v@.len() as int) =~= v@);
    r
}

/// Which tables' keys a stamp hashes.
#[derive(Clone, Copy)]
pub enum TableSet {
    /// `[profile.*]`, whose settings shape the codegen of the bench build.
    Profiles,
    /// `[build]` and `[target.*]` of the cargo config, where rustflags and
    /// linkers are set.
    BuildAndTargets,
}

/// Whether the table named `t` is one the set covers.
pub open spec fn table_wanted(set: TableSet, t: Seq<char>) -> bool {
    match set {
        TableSet::Profiles => has_prefix(t, "profile"@),
        TableSet::BuildAndTargets => t == "build"@ || has_prefix(t, "target"@),
    }
}

/// The words of `s` (from `i`, with `cur` the word being read), as
/// `split_whitespace` yields them.
pub open spec fn words_from(s: Seq<char>, i: int, cur: Seq<char>) -> Seq<Seq<char>>
    decreases s.len() - i,
{
    if i < 0 || i >= s.len() {
        if cur.len() > 0 {
            seq![cur]
        } else {
            Seq::empty()
        }
    } else if is_ws(s[i]) {
        (if cur.len() > 0 {
            seq![cur]
        } else {
            Seq::<Seq<char>>::empty()
        }) + words_from(s, i + 1, Seq::empty())
    } else {
        words_from(s, i + 1, cur.push(s[i]))
    }
}

/// `s` with every run of whitespace made one space and none at either end.
pub open spec fn squeezed(s: Seq<char>) -> Seq<char> {
    join_sep(words_from(s, 0, Seq::empty()), " "@)
}

/// See [`squeezed`].
pub fn squeeze(s: &str) -> (r: String)
    ensures
        r@ == squeezed(s@),
{
    let v = chars_of(s);
    let mut words: Vec<String> = Vec::new();
    let mut cur: Vec<char> = Vec::new();
    let mut i: usize = 0;
    while i < v.len()
        invariant
            v@ == s@,
            i <= v@.len(),
            words@.map_values(|w: String| w@) + words_from(v@, i as int, cur@) == words_from(
                v@,
                0,
                Seq::empty(),
            ),
        decreases v.len() - i,
    {
        let ghost before = words@.map_values(|w: String| w@);
        if char_is_ws(v[i]) {
            if cur.len() > 0 {
                words.push(string_of(cur.as_slice()));
                assert(words@.map_values(|w: String| w@) =~= before.push(cur@));
            }
            let ghost c0 = cur@;
            cur = Vec::new();
            proof {
                assert(cur@ =~= Seq::<char>::empty());
                if c0.len() > 0 {
                    assert(before.push(c0) + words_from(v@, i + 1, Seq::empty()) =~= before + (seq![c0]
                        + words_from(v@, i + 1, Seq::empty())));
                } else {
                    assert(before + words_from(v@, i + 1, Seq::empty()) =~= before + (Seq::<
                        Seq<char>,
                    >::empty() + words_from(v@, i + 1, Seq::empty())));
                }
            }
        } else {
            cur.push(v[i]);
        }
        i = i + 1;
    }
    if cur.len() > 0 {
        let ghost before = words@.map_values(|w: String| w@);
        words.push(string_of(cur.as_slice()));
        assert(words@.map_values(|w: String| w@) =~= before + seq![cur@]);
    } else {
        assert(words@.map_values(|w: String| w@) =~= words@.map_values(|w: String| w@) + Seq::<
            Seq<char>,
        >::empty());
    }
    join_strs(&words, " ")
}

/// The table a header line names, or `None` for any other line.
pub open spec fn header_of(line: Seq<char>) -> Option<Seq<char>> {
    match spec_line_kind(line) {
        LineKindView::ArrayTable(inner) => Some(trimmed(inner)),
        LineKindView::Table(inner) => Some(trimmed(inner)),
        _ => None,
    }
}

/// Every line of `lines` (from `i`, under table `table`) that sits under a
/// table the set covers, as `table.key` with its whitespace squeezed, in
/// file order.
pub open spec fn table_keys_from(lines: Seq<Seq<char>>, set: TableSet, i: int, table: Seq<char>) -> Seq<
    Seq<char>,
>
    decreases lines.len() - i,
{
    if i < 0 || i >= lines.len() {
        Seq::empty()
    } else {
        match header_of(lines[i]) {
            Some(t) => table_keys_from(lines, set, i + 1, t),
            None => if table_wanted(set, table) {
                seq![table + "."@ + squeezed(lines[i])] + table_keys_from(lines, set, i + 1, table)
            } else {
                table_keys_from(lines, set, i + 1, table)
            },
        }
    }
}

/// The keys of a file's logical `lines` under the tables `set` covers,
/// qualified by their table (so moving a key between tables reads as a
/// change) and sorted (so formatting does not).
pub fn table_keys(lines: &Vec<String>, set: TableSet) -> (r: Vec<String>)
    ensures
        sorted_le(strs(r@)),
        strs(r@).to_multiset() == table_keys_from(strs(lines@), set, 0, Seq::empty()).to_multiset(),
{
    proof {
        reveal_strlit("profile");
        reveal_strlit("build");
        reveal_strlit("target");
    }
    let ghost ls = strs(lines@);
    let mut out: Vec<String> = Vec::new();
    let mut table = copy_str("");
    proof {
        reveal_strlit("");
        assert(table@ =~= Seq::<char>::empty());
    }
    let mut i: usize = 0;
    while i < lines.len()
        invariant
            ls == strs(lines@),
            i <= lines@.len(),
            strs(out@) + table_keys_from(ls, set, i as int, table@) == table_keys_from(ls, set, 0, Seq::empty()),
        decreases lines.len() - i,
    {
        assert(ls[i as int] == lines@[i as int]@);
        let ghost before = strs(out@);
        let kind = line_kind(lines[i].as_str());
        match kind {
            LineKind::ArrayTable(inner) => {
                table = string_of(trim_chars(&chars_of(inner.as_str())).as_slice());
            },
            LineKind::Table(inner) => {
                table = string_of(trim_chars(&chars_of(inner.as_str())).as_slice());
            },
            _ => {
                let t = chars_of(table.as_str());
                let wanted = match set {
                    TableSet::Profiles => starts_with_chars(&t, &chars_of("profile")),
                    TableSet::BuildAndTargets => chars_eq(&t, &chars_of("build")) || starts_with_chars(
                        &t,
                        &chars_of("target"),
                    ),
                };
                if wanted {
                    let mut line = copy_str(table.as_str());
                    line.append(".");
                    line.append(squeeze(lines[i].as_str()).as_str());
                    out.push(line);
                    assert(strs(out@) =~= before.push(line@));
                    assert(before.push(line@) + table_keys_from(ls, set, i + 1, table@) =~= before + (seq![
                        line@]
                        + table_keys_from(ls, set, i + 1, table@)));
                }
            },
        }
        i = i + 1;
    }
    assert(strs(out@) =~= table_keys_from(ls, set, 0, Seq::empty()));
    sort_strings(out)
}

/// What a stamp hashes of the `[profile.*]` tables cargo honours: those of
/// the workspace root manifest, then those of the cargo config (each
/// file's keys sorted on their own).
pub fn profile_lines(manifest: &Vec<String>, config: &Vec<String>) -> (r: Vec<String>)
    ensures
        exists|n: int|
            0 <= n <= r@.len() && sorted_le(strs(r@).take(n)) && sorted_le(strs(r@).skip(n))
                && strs(r@).take(n).to_multiset() == table_keys_from(
                strs(manifest@),
                TableSet::Profiles,
                0,
                Seq::empty(),
            ).to_multiset() && strs(r@).skip(n).to_multiset() == table_keys_from(
                strs(config@),
                TableSet::Profiles,
                0,
                Seq::empty(),
            ).to_multiset(),
{
    let mut out = table_keys(manifest, TableSet::Profiles);
    let ghost n = out@.len() as int;
    let ghost a = strs(out@);
    let more = table_keys(config, TableSet::Profiles);
    let ghost b = strs(more@);
    let mut j: usize = 0;
    while j < more.len()
        invariant
            j <= more@.len(),
            b == strs(more@),
            strs(out@) =~= a + b.take(j as int),
        decreases more.len() - j,
    {
        let ghost before = strs(out@);
        out.push(copy_str(more[j].as_str()));
        assert(strs(out@) =~= before.push(more@[j as int]@));
        assert(b.take(j + 1) =~= b.take(j as int).push(b[j as int]));
        j = j + 1;
    }
    assert(b.take(b.len() as int) =~= b);
    assert(strs(out@).take(n) =~= a);
    assert(strs(out@).skip(n) =~= b);
    out
}

/// Whether a flags-table key is one that reaches rustc.
pub open spec fn reaches_rustc(line: Seq<char>) -> bool {
    contains_seq(line, "rustflags"@) || contains_seq(line, "target"@) || contains_seq(line, "linker"@)
}

/// The keys of `keys` that reach rustc, in order.
pub open spec fn rustc_keys(keys: Seq<Seq<char>>) -> Seq<Seq<char>>
    decreases keys.len(),
{
    if keys.len() == 0 {
        Seq::empty()
    } else if reaches_rustc(keys.last()) {
        rustc_keys(keys.drop_last()).push(keys.last())
    } else {
        rustc_keys(keys.drop_last())
    }
}

/// `NAME=value` for each flags variable set in the environment, in order.
pub open spec fn env_lines(env: Seq<(String, String)>) -> Seq<Seq<char>> {
    env.map_values(|p: (String, String)| p.0@ + "="@ + p.1@)
}

/// What a stamp hashes of the flags reaching rustc: the cargo config's
/// `[build]` and `[target.*]` keys that mention rustflags, a target or a
/// linker, and each flags variable set in the environment (`env`, name and
/// value), all sorted together.
pub fn rustflag_lines(config: &Vec<String>, env: &Vec<(String, String)>) -> (r: Vec<String>)
    ensures
        sorted_le(strs(r@)),
        strs(r@).to_multiset() == (rustc_keys(
            table_keys_from(strs(config@), TableSet::BuildAndTargets, 0, Seq::empty()),
        ) + env_lines(env@)).to_multiset(),
{
    proof {
        reveal_strlit("rustflags");
        reveal_strlit("target");
        reveal_strlit("linker");
    }
    let keys = table_keys(config, TableSet::BuildAndTargets);
    let ghost ks = strs(keys@);
    let mut out: Vec<String> = Vec::new();
    let mut i: usize = 0;
    assert(ks.take(0) =~= Seq::<Seq<char>>::empty());
    while i < keys.len()
        invariant
            i <= keys@.len(),
            ks == strs(keys@),
            strs(out@) == rustc_keys(ks.take(i as int)),
        decreases keys.len() - i,
    {
        let ghost before = strs(out@);
        assert(ks.take(i + 1).drop_last() =~= ks.take(i as int));
        assert(ks.take(i + 1).last() == keys@[i as int]@);
        let k = chars_of(keys[i].as_str());
        if contains_chars(&k, &chars_of("rustflags")) || contains_chars(&k, &chars_of("target"))
            || contains_chars(&k, &chars_of("linker")) {
            out.push(copy_str(keys[i].as_str()));
            assert(strs(out@) =~= before.push(keys@[i as int]@));
        }
        i = i + 1;
    }
    assert(ks.take(ks.len() as int) =~= ks);
    let ghost kept = strs(out@);
    let mut j: usize = 0;
    while j < env.len()
        invariant
            j <= env@.len(),
            strs(out@) =~= kept + env_lines(env@).take(j as int),
        decreases env.len() - j,
    {
        let ghost before = strs(out@);
        let mut line = copy_str(env[j].0.as_str());
        line.append("=");
        line.append(env[j].1.as_str());
        out.push(line);
        assert(strs(out@) =~= before.push(env_lines(env@)[j as int]));
        assert(env_lines(env@).take(j + 1) =~= env_lines(env@).take(j as int).push(env_lines(env@)[j as int]));
        j = j + 1;
    }
    assert(env_lines(env@).take(env@.len() as int) =~= env_lines(env@));
    // The keys were sorted on their own; the order the kept ones come in
    // does not matter once everything is sorted together.
    proof {
        lemma_multiset_of_kept(ks, table_keys_from(strs(config@), TableSet::BuildAndTargets, 0, Seq::empty()));
        vstd::seq_lib::lemma_multiset_commutative(kept, env_lines(env@));
        vstd::seq_lib::lemma_multiset_commutative(
            rustc_keys(table_keys_from(strs(config@), TableSet::BuildAndTargets, 0, Seq::empty())),
            env_lines(env@),
        );
    }
    sort_strings(out)
}

/// Keeping the same keys of two orderings of one multiset keeps one
/// multiset.
proof fn lemma_multiset_of_kept(a: Seq<Seq<char>>, b: Seq<Seq<char>>)
    requires
        a.to_multiset() == b.to_multiset(),
    ensures
        rustc_keys(a).to_multiset() == rustc_keys(b).to_multiset(),
{
    lemma_rustc_keys_count(a);
    lemma_rustc_keys_count(b);
    assert forall|x: Seq<char>| rustc_keys(a).to_multiset().count(x) == rustc_keys(b).to_multiset().count(
        x,
    ) by {
        assert(a.to_multiset().count(x) == b.to_multiset().count(x));
    }
    assert(rustc_keys(a).to_multiset() =~= rustc_keys(b).to_multiset());
}

proof fn lemma_rustc_keys_count(a: Seq<Seq<char>>)
    ensures
        forall|x: Seq<char>| #[trigger] rustc_keys(a).to_multiset().count(x) == if reaches_rustc(x) {
            a.to_multiset().count(x)
        } else {
            0
        },
    decreases a.len(),
{
    broadcast use vstd::multiset::group_multiset_axioms;
    broadcast use vstd::seq_lib::group_to_multiset_ensures;

    if a.len() == 0 {
        assert forall|x: Seq<char>| #[trigger] rustc_keys(a).to_multiset().count(x) == if reaches_rustc(x) {
            a.to_multiset().count(x)
        } else {
            0
        } by {
            assert(!a.contains(x));
            assert(!rustc_keys(a).contains(x));
        }
    } else {
        lemma_rustc_keys_count(a.drop_last());
        assert(a =~= a.drop_last().push(a.last()));
        vstd::seq_lib::to_multiset_build(a.drop_last(), a.last());
        if reaches_rustc(a.last()) {
            vstd::seq_lib::to_multiset_build(rustc_keys(a.drop_last()), a.last());
        }
    }
}

/// What the short digest of a stamp hashes: its four fields in order,
/// joined with `\u{1}`.
pub fn digest_text(s: &BuildStamp) -> (r: String)
    ensures
        r@ == join_sep(seq![s.rustc@, s.codegen_units@, s.profiles@, s.rustflags@], "\u{1}"@),
{
    let mut parts: Vec<String> = Vec::new();
    parts.push(copy_str(s.rustc.as_str()));
    parts.push(copy_str(s.codegen_units.as_str()));
    parts.push(copy_str(s.profiles.as_str()));
    parts.push(copy_str(s.rustflags.as_str()));
    assert(parts@.map_values(|x: String| x@) =~= seq![s.rustc@, s.codegen_units@, s.profiles@, s.rustflags@]);
    join_strs(&parts, "\u{1}")
}

} // verus!
