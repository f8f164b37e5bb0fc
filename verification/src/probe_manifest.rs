//! A package's `probes.toml`: the `[probes]` header (how to reach a server
//! and which spec validates the answers) and one `[[probe]]` entry per
//! request, read from its logical lines.

use vstd::prelude::*;

use crate::keyed::{keyed_wf, keys_of};
use crate::text::{
    chars_eq, chars_of, copy_str, decimal, decimal_string, push_chars, str_eq, string_of, trim_chars,
    trimmed, upper_str, uppered,
};
use crate::toml_lines::{
    line_kind, spec_line_kind,
    at_line, at_line_exec, copy_strings, fold_string_table, join3, ostr, str_map, string_table_fold, strs,
    value_view, ConfigValue, LineKind, LineKindView, ParsedLine,
};

verus! {

/// The `[probes]` header.
#[derive(Debug)]
pub struct ProbeHeader {
    /// Spec file (relative to the package dir) for shape validation; no
    /// key, no shape checks.
    pub spec: Option<String>,
    /// Server binary to launch, relative to the package dir; absent means
    /// `--base-url` is required.
    pub command: Option<String>,
    pub args: Vec<String>,
    /// Environment for the server, by variable name in name order.
    pub env: Vec<(String, String)>,
    pub ready_timeout_secs: u64,
}

/// One `[[probe]]` entry.
#[derive(Debug)]
pub struct ProbeEntry {
    pub name: String,
    pub path: String,
    /// Request verb, upper-cased at read time. Defaults to `GET`.
    pub method: String,
    /// Request body, sent as JSON; absent means no body.
    pub body: Option<String>,
    pub status: u16,
    /// Fields pinned as intermittent; a `*` suffix matches a prefix.
    pub sometimes: Vec<String>,
    /// Sanity assertions, as written.
    pub asserts: Vec<String>,
    /// `shape = false` skips schema validation for this probe.
    pub shape: bool,
}

/// A whole manifest.
#[derive(Debug)]
pub struct ProbeManifest {
    pub header: ProbeHeader,
    pub probes: Vec<ProbeEntry>,
}

pub struct HeaderView {
    pub spec: Option<Seq<char>>,
    pub command: Option<Seq<char>>,
    pub args: Seq<Seq<char>>,
    pub env: Map<Seq<char>, Seq<char>>,
    pub ready_timeout_secs: u64,
}

pub struct EntryView {
    pub name: Seq<char>,
    pub path: Seq<char>,
    pub method: Seq<char>,
    pub body: Option<Seq<char>>,
    pub status: u16,
    pub sometimes: Seq<Seq<char>>,
    pub asserts: Seq<Seq<char>>,
    pub shape: bool,
}

impl ProbeHeader {
    pub open spec fn view_header(&self) -> HeaderView {
        HeaderView {
            spec: ostr(self.spec),
            command: ostr(self.command),
            args: strs(self.args@),
            env: str_map(self.env@),
            ready_timeout_secs: self.ready_timeout_secs,
        }
    }
}

impl ProbeEntry {
    pub open spec fn view_entry(&self) -> EntryView {
        EntryView {
            name: self.name@,
            path: self.path@,
            method: self.method@,
            body: ostr(self.body),
            status: self.status,
            sometimes: strs(self.sometimes@),
            asserts: strs(self.asserts@),
            shape: self.shape,
        }
    }
}

pub open spec fn entries_view(v: Seq<ProbeEntry>) -> Seq<EntryView> {
    v.map_values(|e: ProbeEntry| e.view_entry())
}

/// A fresh `[[probe]]` entry: a `GET` expecting 200, shape-checked.
pub open spec fn default_entry() -> EntryView {
    EntryView {
        name: Seq::empty(),
        path: Seq::empty(),
        method: "GET"@,
        body: None,
        status: 200,
        sometimes: Seq::empty(),
        asserts: Seq::empty(),
        shape: true,
    }
}

/// The header before any key: no spec, no command, a 30 s ready timeout.
pub open spec fn default_header() -> HeaderView {
    HeaderView {
        spec: None,
        command: None,
        args: Seq::empty(),
        env: Map::empty(),
        ready_timeout_secs: 30,
    }
}

/// The lines of a string array joined with newlines (a body spans more
/// lines than the line reader joins, so fragments are accepted).
pub open spec fn joined(a: Seq<Seq<char>>) -> Seq<char>
    decreases a.len(),
{
    if a.len() == 0 {
        Seq::empty()
    } else if a.len() == 1 {
        a[0]
    } else {
        joined(a.drop_last()) + "\n"@ + a.last()
    }
}

/// A `[probes]` key applied to the header.
pub open spec fn header_set(h: HeaderView, key: Seq<char>, v: ConfigValue) -> Result<HeaderView, Seq<char>> {
    let bad = "unknown or mistyped [probes] key `"@ + key + "`"@;
    if key == "spec"@ {
        match v {
            ConfigValue::Str(s) => Ok(HeaderView { spec: Some(s@), ..h }),
            _ => Err(bad),
        }
    } else if key == "command"@ {
        match v {
            ConfigValue::Str(s) => Ok(HeaderView { command: Some(s@), ..h }),
            _ => Err(bad),
        }
    } else if key == "args"@ {
        match v {
            ConfigValue::StrArray(a, _) => Ok(HeaderView { args: strs(a@), ..h }),
            _ => Err(bad),
        }
    } else if key == "env"@ {
        match v {
            ConfigValue::Table(t) => match string_table_fold(h.env, t@, "env `"@, "` must be a string"@) {
                Ok(m) => Ok(HeaderView { env: m, ..h }),
                Err(e) => Err(e),
            },
            _ => Err(bad),
        }
    } else if key == "ready_timeout_secs"@ {
        match v {
            ConfigValue::Int(n) => if n > 0 {
                Ok(HeaderView { ready_timeout_secs: n as u64, ..h })
            } else {
                Err(bad)
            },
            _ => Err(bad),
        }
    } else {
        Err(bad)
    }
}

/// A `[[probe]]` key applied to the entry it belongs to.
pub open spec fn entry_set(e: EntryView, key: Seq<char>, v: ConfigValue) -> Result<EntryView, Seq<char>> {
    let bad = "unknown or mistyped [[probe]] key `"@ + key + "`"@;
    if key == "name"@ {
        match v {
            ConfigValue::Str(s) => Ok(EntryView { name: s@, ..e }),
            _ => Err(bad),
        }
    } else if key == "path"@ {
        match v {
            ConfigValue::Str(s) => Ok(EntryView { path: s@, ..e }),
            _ => Err(bad),
        }
    } else if key == "method"@ {
        match v {
            ConfigValue::Str(s) => Ok(EntryView { method: uppered(s@), ..e }),
            _ => Err(bad),
        }
    } else if key == "body"@ {
        match v {
            ConfigValue::Str(s) => Ok(EntryView { body: Some(s@), ..e }),
            ConfigValue::StrArray(a, _) => Ok(EntryView { body: Some(joined(strs(a@))), ..e }),
            _ => Err(bad),
        }
    } else if key == "status"@ {
        match v {
            ConfigValue::Int(n) => if 100 <= n <= 599 {
                Ok(EntryView { status: n as u16, ..e })
            } else {
                Err(bad)
            },
            _ => Err(bad),
        }
    } else if key == "sometimes"@ {
        match v {
            ConfigValue::StrArray(a, _) => Ok(EntryView { sometimes: strs(a@), ..e }),
            _ => Err(bad),
        }
    } else if key == "shape"@ {
        match v {
            ConfigValue::Bool(b) => Ok(EntryView { shape: b, ..e }),
            _ => Err(bad),
        }
    } else if key == "assert"@ {
        match v {
            ConfigValue::StrArray(a, None) => Ok(EntryView { asserts: e.asserts + strs(a@), ..e }),
            ConfigValue::StrArray(_, Some(why)) => Err(why@),
            _ => Err(bad),
        }
    } else {
        Err(bad)
    }
}

/// Which table the lines being read belong to.
#[derive(PartialEq, Eq, Structural, Clone, Copy)]
pub enum Section {
    Outside,
    Header,
    Probe,
}

/// What reading the manifest carries from line to line.
pub struct ReadState {
    pub section: Section,
    pub header: HeaderView,
    pub probes: Seq<EntryView>,
}

/// One logical line applied to the reading.
pub open spec fn manifest_step(
    st: ReadState,
    kind: LineKindView,
    value: Result<ConfigValue, Seq<char>>,
    lineno: nat,
) -> Result<ReadState, Seq<char>> {
    match kind {
        LineKindView::ArrayTable(inner) => if trimmed(inner) != "probe"@ {
            Err(at_line(lineno, "unknown table [["@ + trimmed(inner) + "]]"@))
        } else {
            Ok(ReadState { section: Section::Probe, probes: st.probes.push(default_entry()), ..st })
        },
        LineKindView::Table(inner) => if trimmed(inner) == "probes"@ {
            Ok(ReadState { section: Section::Header, ..st })
        } else {
            Err(at_line(lineno, "unknown table ["@ + trimmed(inner) + "]"@))
        },
        LineKindView::Malformed => Err(at_line(lineno, "expected `key = value`"@)),
        LineKindView::KeyValue(key, _) => match value {
            Err(e) => Err(at_line(lineno, e)),
            Ok(v) => match st.section {
                Section::Outside => Err(at_line(lineno, "key outside any table"@)),
                Section::Header => match header_set(st.header, key, v) {
                    Ok(h) => Ok(ReadState { header: h, ..st }),
                    Err(e) => Err(at_line(lineno, e)),
                },
                Section::Probe => match entry_set(st.probes.last(), key, v) {
                    Ok(e) => Ok(ReadState { probes: st.probes.drop_last().push(e), ..st }),
                    Err(e) => Err(at_line(lineno, e)),
                },
            },
        },
    }
}

/// Reading the lines from `i` on.
pub open spec fn manifest_read(lines: Seq<ParsedLine>, i: int, st: ReadState) -> Result<ReadState, Seq<char>>
    decreases lines.len() - i,
{
    if i < 0 || i >= lines.len() {
        Ok(st)
    } else {
        match manifest_step(st, spec_line_kind(lines[i].text@), value_view(lines[i].value), lines[i].lineno as nat) {
            Ok(next) => manifest_read(lines, i + 1, next),
            Err(e) => Err(e),
        }
    }
}

/// The first entry, from `i` on, without a name or a path, and the
/// message for it.
pub open spec fn first_incomplete(probes: Seq<EntryView>, i: int) -> Option<Seq<char>>
    decreases probes.len() - i,
{
    if i < 0 || i >= probes.len() {
        None
    } else if probes[i].name.len() == 0 {
        Some("probe #"@ + decimal((i + 1) as nat) + " has no name"@)
    } else if probes[i].path.len() == 0 {
        Some("probe `"@ + probes[i].name + "` has no path"@)
    } else {
        first_incomplete(probes, i + 1)
    }
}

/// The name of the first entry, from `j` on, that repeats an earlier
/// entry's name.
pub open spec fn first_duplicate(probes: Seq<EntryView>, j: int) -> Option<Seq<char>>
    decreases probes.len() - j,
{
    if j < 0 || j >= probes.len() {
        None
    } else if exists|k: int| 0 <= k < j && probes[k].name == probes[j].name {
        Some(probes[j].name)
    } else {
        first_duplicate(probes, j + 1)
    }
}

/// The checks on the entries once every line is read: each has a name and
/// a path, and no name is used twice.
pub open spec fn manifest_checks(header: HeaderView, probes: Seq<EntryView>) -> Result<
    (HeaderView, Seq<EntryView>),
    Seq<char>,
> {
    match first_incomplete(probes, 0) {
        Some(e) => Err(e),
        None => match first_duplicate(probes, 0) {
            Some(n) => Err("duplicate probe name `"@ + n + "`"@),
            None => Ok((header, probes)),
        },
    }
}

/// A whole manifest from its logical lines: the header and entries, or the
/// first problem: a line that cannot be read, then an entry with no name
/// or path, then a name used twice.
pub open spec fn spec_manifest(lines: Seq<ParsedLine>) -> Result<(HeaderView, Seq<EntryView>), Seq<char>> {
    match manifest_read(
        lines,
        0,
        ReadState { section: Section::Outside, header: default_header(), probes: Seq::empty() },
    ) {
        Err(e) => Err(e),
        Ok(st) => manifest_checks(st.header, st.probes),
    }
}


// ------------------------------------------------------------- reading

fn join_lines(a: &Vec<String>) -> (r: String)
    ensures
        r@ == joined(strs(a@)),
{
    proof {
        reveal_strlit("");
    }
    let mut r = copy_str("");
    assert(strs(a@.take(0)) =~= Seq::<Seq<char>>::empty());
    assert(r@ =~= Seq::<char>::empty());
    let mut i: usize = 0;
    while i < a.len()
        invariant
            i <= a.len(),
            r@ == joined(strs(a@.take(i as int))),
        decreases a.len() - i,
    {
        let ghost before = strs(a@.take(i as int));
        if i > 0 {
            r.append("\n");
        }
        r.append(a[i].as_str());
        proof {
            let after = strs(a@.take(i + 1));
            assert(after.drop_last() =~= before);
            assert(after.last() == a@[i as int]@);
            if i == 0 {
                assert(r@ =~= a@[0]@);
            }
        }
        i = i + 1;
    }
    assert(a@.take(a@.len() as int) =~= a@);
    r
}

/// See [`header_set`]; on an error the header may be left part-way.
fn apply_header(h: &mut ProbeHeader, key: &str, v: &ConfigValue) -> (r: Result<(), String>)
    requires
        keyed_wf(old(h).env@),
    ensures
        keyed_wf(final(h).env@),
        match r {
            Ok(_) => header_set(old(h).view_header(), key@, *v) == Ok::<HeaderView, Seq<char>>(
                final(h).view_header(),
            ),
            Err(e) => header_set(old(h).view_header(), key@, *v) == Err::<HeaderView, Seq<char>>(e@),
        },
{
    let ok: bool = if str_eq(key, "spec") {
        match v {
            ConfigValue::Str(s) => {
                h.spec = Some(copy_str(s.as_str()));
                true
            },
            _ => false,
        }
    } else if str_eq(key, "command") {
        match v {
            ConfigValue::Str(s) => {
                h.command = Some(copy_str(s.as_str()));
                true
            },
            _ => false,
        }
    } else if str_eq(key, "args") {
        match v {
            ConfigValue::StrArray(a, _) => {
                h.args = copy_strings(a);
                true
            },
            _ => false,
        }
    } else if str_eq(key, "env") {
        match v {
            ConfigValue::Table(t) => {
                return fold_string_table(&mut h.env, t, "env `", "` must be a string");
            },
            _ => false,
        }
    } else if str_eq(key, "ready_timeout_secs") {
        match v {
            ConfigValue::Int(n) => {
                if *n > 0 {
                    h.ready_timeout_secs = *n as u64;
                    true
                } else {
                    false
                }
            },
            _ => false,
        }
    } else {
        false
    };
    if ok {
        Ok(())
    } else {
        Err(join3("unknown or mistyped [probes] key `", key, "`"))
    }
}

fn new_entry() -> (e: ProbeEntry)
    ensures
        e.view_entry() == default_entry(),
{
    proof {
        reveal_strlit("");
    }
    let e = ProbeEntry {
        name: copy_str(""),
        path: copy_str(""),
        method: copy_str("GET"),
        body: None,
        status: 200,
        sometimes: Vec::new(),
        asserts: Vec::new(),
        shape: true,
    };
    assert(e.name@ =~= Seq::<char>::empty());
    assert(strs(e.sometimes@) =~= Seq::<Seq<char>>::empty());
    assert(strs(e.asserts@) =~= Seq::<Seq<char>>::empty());
    e
}

/// See [`entry_set`]; on an error the entry may be left part-way.
fn apply_entry(e: &mut ProbeEntry, key: &str, v: &ConfigValue) -> (r: Result<(), String>)
    ensures
        match r {
            Ok(_) => entry_set(old(e).view_entry(), key@, *v) == Ok::<EntryView, Seq<char>>(
                final(e).view_entry(),
            ),
            Err(m) => entry_set(old(e).view_entry(), key@, *v) == Err::<EntryView, Seq<char>>(m@),
        },
{
    let ok: bool = if str_eq(key, "name") {
        match v {
            ConfigValue::Str(s) => {
                e.name = copy_str(s.as_str());
                true
            },
            _ => false,
        }
    } else if str_eq(key, "path") {
        match v {
            ConfigValue::Str(s) => {
                e.path = copy_str(s.as_str());
                true
            },
            _ => false,
        }
    } else if str_eq(key, "method") {
        match v {
            ConfigValue::Str(s) => {
                e.method = string_of(upper_str(s.as_str()).as_slice());
                true
            },
            _ => false,
        }
    } else if str_eq(key, "body") {
        match v {
            ConfigValue::Str(s) => {
                e.body = Some(copy_str(s.as_str()));
                true
            },
            ConfigValue::StrArray(a, _) => {
                e.body = Some(join_lines(a));
                true
            },
            _ => false,
        }
    } else if str_eq(key, "status") {
        match v {
            ConfigValue::Int(n) => {
                if 100 <= *n && *n <= 599 {
                    e.status = *n as u16;
                    true
                } else {
                    false
                }
            },
            _ => false,
        }
    } else if str_eq(key, "sometimes") {
        match v {
            ConfigValue::StrArray(a, _) => {
                e.sometimes = copy_strings(a);
                true
            },
            _ => false,
        }
    } else if str_eq(key, "shape") {
        match v {
            ConfigValue::Bool(b) => {
                e.shape = *b;
                true
            },
            _ => false,
        }
    } else if str_eq(key, "assert") {
        match v {
            ConfigValue::StrArray(a, None) => {
                let mut all = copy_strings(&e.asserts);
                let ghost before = strs(e.asserts@);
                let mut i: usize = 0;
                while i < a.len()
                    invariant
                        i <= a@.len(),
                        strs(all@) == before + strs(a@.take(i as int)),
                    decreases a.len() - i,
                {
                    let ghost prev = all@;
                    all.push(copy_str(a[i].as_str()));
                    proof {
                        assert(strs(all@) =~= strs(prev).push(a@[i as int]@));
                        assert(strs(a@.take(i + 1)) =~= strs(a@.take(i as int)).push(a@[i as int]@));
                        assert(before + strs(a@.take(i + 1)) =~= (before + strs(a@.take(i as int))).push(
                            a@[i as int]@,
                        ));
                    }
                    i = i + 1;
                }
                assert(a@.take(a@.len() as int) =~= a@);
                e.asserts = all;
                true
            },
            ConfigValue::StrArray(_, Some(why)) => {
                return Err(copy_str(why.as_str()));
            },
            _ => false,
        }
    } else {
        false
    };
    if ok {
        Ok(())
    } else {
        Err(join3("unknown or mistyped [[probe]] key `", key, "`"))
    }
}

/// Whether an entry before `j` has the name of entry `j`.
fn name_seen_before(probes: &Vec<ProbeEntry>, j: usize) -> (r: bool)
    requires
        j < probes@.len(),
    ensures
        r == exists|k: int| 0 <= k < j && entries_view(probes@)[k].name == entries_view(probes@)[j as int].name,
{
    let ghost pv = entries_view(probes@);
    let mut k: usize = 0;
    while k < j
        invariant
            k <= j < probes@.len(),
            pv == entries_view(probes@),
            forall|x: int| 0 <= x < k ==> pv[x].name != pv[j as int].name,
        decreases j - k,
    {
        if str_eq(probes[k].name.as_str(), probes[j].name.as_str()) {
            assert(pv[k as int].name == pv[j as int].name);
            return true;
        }
        k = k + 1;
    }
    false
}

/// A whole `probes.toml` from its logical lines; see [`spec_manifest`].
pub fn parse_manifest(lines: &Vec<ParsedLine>) -> (r: Result<ProbeManifest, String>)
    ensures
        match r {
            Ok(m) => keyed_wf(m.header.env@) && spec_manifest(lines@) == Ok::<
                (HeaderView, Seq<EntryView>),
                Seq<char>,
            >((m.header.view_header(), entries_view(m.probes@))),
            Err(e) => spec_manifest(lines@) == Err::<(HeaderView, Seq<EntryView>), Seq<char>>(e@),
        },
{
    let mut header = ProbeHeader {
        spec: None,
        command: None,
        args: Vec::new(),
        env: Vec::new(),
        ready_timeout_secs: 30,
    };
    let mut probes: Vec<ProbeEntry> = Vec::new();
    let mut section = Section::Outside;
    proof {
        assert(header.view_header().args =~= Seq::<Seq<char>>::empty());
        assert(header.view_header().env =~= Map::<Seq<char>, Seq<char>>::empty());
        assert(entries_view(probes@) =~= Seq::<EntryView>::empty());
        assert(keys_of(header.env@) =~= Seq::<Seq<char>>::empty());
    }
    let ghost init = ReadState {
        section: Section::Outside,
        header: default_header(),
        probes: Seq::empty(),
    };
    let mut i: usize = 0;
    while i < lines.len()
        invariant
            i <= lines@.len(),
            keyed_wf(header.env@),
            section == Section::Probe ==> probes@.len() > 0,
            init == (ReadState {
                section: Section::Outside,
                header: default_header(),
                probes: Seq::<EntryView>::empty(),
            }),
            manifest_read(lines@, 0, init) == manifest_read(
                lines@,
                i as int,
                ReadState {
                    section,
                    header: header.view_header(),
                    probes: entries_view(probes@),
                },
            ),
        decreases lines.len() - i,
    {
        let line = &lines[i];
        let ghost pv = entries_view(probes@);
        let kind = line_kind(line.text.as_str());
        match &kind {
            LineKind::ArrayTable(inner) => {
                let t = trim_chars(&chars_of(inner.as_str()));
                if !chars_eq(&t, &chars_of("probe")) {
                    let mut msg = copy_str("unknown table [[");
                    push_chars(&mut msg, &t);
                    msg.append("]]");
                    return Err(at_line_exec(line.lineno, msg.as_str()));
                }
                section = Section::Probe;
                probes.push(new_entry());
                proof {
                    assert(entries_view(probes@) =~= pv.push(default_entry()));
                }
            },
            LineKind::Table(inner) => {
                let t = trim_chars(&chars_of(inner.as_str()));
                if chars_eq(&t, &chars_of("probes")) {
                    section = Section::Header;
                } else {
                    let mut msg = copy_str("unknown table [");
                    push_chars(&mut msg, &t);
                    msg.append("]");
                    return Err(at_line_exec(line.lineno, msg.as_str()));
                }
            },
            LineKind::Malformed => {
                return Err(at_line_exec(line.lineno, "expected `key = value`"));
            },
            LineKind::KeyValue(key, _) => {
                match &line.value {
                    Err(e) => {
                        return Err(at_line_exec(line.lineno, e.as_str()));
                    },
                    Ok(v) => {
                        match section {
                            Section::Outside => {
                                return Err(at_line_exec(line.lineno, "key outside any table"));
                            },
                            Section::Header => {
                                match apply_header(&mut header, key.as_str(), v) {
                                    Ok(_) => {},
                                    Err(e) => {
                                        return Err(at_line_exec(line.lineno, e.as_str()));
                                    },
                                }
                            },
                            Section::Probe => {
                                let mut entry = probes.pop().unwrap();
                                let res = apply_entry(&mut entry, key.as_str(), v);
                                match res {
                                    Ok(_) => {
                                        probes.push(entry);
                                        proof {
                                            assert(entries_view(probes@) =~= pv.drop_last().push(
                                                entry.view_entry(),
                                            ));
                                        }
                                    },
                                    Err(e) => {
                                        return Err(at_line_exec(line.lineno, e.as_str()));
                                    },
                                }
                            },
                        }
                    },
                }
            },
        }
        i = i + 1;
    }
    let ghost pv = entries_view(probes@);
    let ghost hv = header.view_header();
    let ghost st = ReadState { section, header: hv, probes: pv };
    assert(manifest_read(lines@, i as int, st) == Ok::<ReadState, Seq<char>>(st));
    assert(spec_manifest(lines@) == manifest_checks(hv, pv));
    let mut j: usize = 0;
    while j < probes.len()
        invariant
            j <= probes@.len(),
            pv == entries_view(probes@),
            spec_manifest(lines@) == manifest_checks(hv, pv),
            first_incomplete(pv, 0) == first_incomplete(pv, j as int),
        decreases probes.len() - j,
    {
        let entry = &probes[j];
        if chars_of(entry.name.as_str()).len() == 0 {
            let mut msg = copy_str("probe #");
            msg.append(decimal_string((j + 1) as u64).as_str());
            msg.append(" has no name");
            return Err(msg);
        }
        if chars_of(entry.path.as_str()).len() == 0 {
            let mut msg = copy_str("probe `");
            msg.append(entry.name.as_str());
            msg.append("` has no path");
            return Err(msg);
        }
        j = j + 1;
    }
    j = 0;
    while j < probes.len()
        invariant
            j <= probes@.len(),
            pv == entries_view(probes@),
            hv == header.view_header(),
            keyed_wf(header.env@),
            spec_manifest(lines@) == manifest_checks(hv, pv),
            first_incomplete(pv, 0) is None,
            first_duplicate(pv, 0) == first_duplicate(pv, j as int),
        decreases probes.len() - j,
    {
        if name_seen_before(&probes, j) {
            let mut msg = copy_str("duplicate probe name `");
            msg.append(probes[j].name.as_str());
            msg.append("`");
            return Err(msg);
        }
        j = j + 1;
    }
    Ok(ProbeManifest { header, probes })
}

} // verus!
