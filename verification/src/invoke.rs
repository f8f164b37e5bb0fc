//! Flags shared by `measure` and `gate`, baseline-scope rules and how a
//! run is merged into a stored baseline, and the harness-version
//! reconciliation between two `Cargo.lock` files.

use vstd::prelude::*;

use crate::keyed::{has_key, keyed_map, keyed_wf, lemma_keyed_remove, lemma_value_at, pairs_map, put,
    value_of};
use crate::text::{
    chars_of, has_prefix, lines_chars, lines_of, slice_chars, split_by, split_chars, starts_with_chars,
    chars_eq, copy_str, lemma_split_walk_nonempty, replace_char, replaced, str_eq, string_of, trim_char, trim_chars, trimmed, trimmed_char,
};

verus! {

/// One `[[package]]` entry from a Cargo.lock.
pub struct LockPkg {
    pub name: String,
    pub version: String,
    /// Registry entries carry a `source` line; path dependencies don't and
    /// cannot be re-pinned.
    pub registry: bool,
}

/// A lock entry as plain values: name, version, registry flag.
pub type LockPkgView = (Seq<char>, Seq<char>, bool);

impl LockPkg {
    pub open spec fn view3(&self) -> LockPkgView {
        (self.name@, self.version@, self.registry)
    }
}

/// The value of the first line of `lines` (from index `i`) that starts with
/// `key`: the rest of that line, trimmed of whitespace and then of quotes.
pub open spec fn field_from(lines: Seq<Seq<char>>, key: Seq<char>, i: int) -> Option<Seq<char>>
    decreases lines.len() - i,
{
    if i < 0 || i >= lines.len() {
        None
    } else if has_prefix(lines[i], key) {
        Some(
            trimmed_char(trimmed(lines[i].subrange(key.len() as int, lines[i].len() as int)), '"'),
        )
    } else {
        field_from(lines, key, i + 1)
    }
}

/// Whether any line from index `i` on starts with `key`.
pub open spec fn any_prefixed_from(lines: Seq<Seq<char>>, key: Seq<char>, i: int) -> bool
    decreases lines.len() - i,
{
    if i < 0 || i >= lines.len() {
        false
    } else {
        has_prefix(lines[i], key) || any_prefixed_from(lines, key, i + 1)
    }
}

/// What one `[[package]]` block reads as, or `None` when it lacks a `name`
/// or a `version` line.
pub open spec fn lock_block(block: Seq<char>) -> Option<LockPkgView> {
    let lines = lines_of(block);
    match (field_from(lines, "name = "@, 0), field_from(lines, "version = "@, 0)) {
        (Some(n), Some(v)) => Some((n, v, any_prefixed_from(lines, "source = "@, 0))),
        _ => None,
    }
}

/// The entries read from `blocks` (from index `i` on), blocks without both
/// fields left out.
pub open spec fn lock_blocks_from(blocks: Seq<Seq<char>>, i: int) -> Seq<LockPkgView>
    decreases blocks.len() - i,
{
    if i < 0 || i >= blocks.len() {
        Seq::empty()
    } else {
        match lock_block(blocks[i]) {
            Some(p) => seq![p] + lock_blocks_from(blocks, i + 1),
            None => lock_blocks_from(blocks, i + 1),
        }
    }
}

/// Every `[[package]]` entry of a Cargo.lock text: the text split on the
/// `[[package]]` header, the part before the first header dropped.
pub open spec fn spec_lock_packages(lock: Seq<char>) -> Seq<LockPkgView> {
    lock_blocks_from(split_by(lock, "[[package]]"@), 1)
}

/// The characters of a string literal.
fn lit(s: &str) -> (v: Vec<char>)
    ensures
        v@ == s@,
{
    chars_of(s)
}

fn field(lines: &Vec<Vec<char>>, key: &Vec<char>) -> (r: Option<Vec<char>>)
    ensures
        match r {
            Some(v) => field_from(lines@.map_values(|p: Vec<char>| p@), key@, 0) == Some(v@),
            None => field_from(lines@.map_values(|p: Vec<char>| p@), key@, 0) is None,
        },
{
    let ghost ls = lines@.map_values(|p: Vec<char>| p@);
    let mut i: usize = 0;
    while i < lines.len()
        invariant
            ls == lines@.map_values(|p: Vec<char>| p@),
            i <= lines.len(),
            field_from(ls, key@, i as int) == field_from(ls, key@, 0),
        decreases lines.len() - i,
    {
        let line = &lines[i];
        assert(ls[i as int] == line@);
        if starts_with_chars(line, key) {
            let rest = slice_chars(line, key.len(), line.len());
            let t = trim_chars(&rest);
            return Some(trim_char(&t, '"'));
        }
        i = i + 1;
    }
    None
}

fn any_prefixed(lines: &Vec<Vec<char>>, key: &Vec<char>) -> (r: bool)
    ensures
        r == any_prefixed_from(lines@.map_values(|p: Vec<char>| p@), key@, 0),
{
    let ghost ls = lines@.map_values(|p: Vec<char>| p@);
    let mut i: usize = 0;
    while i < lines.len()
        invariant
            ls == lines@.map_values(|p: Vec<char>| p@),
            i <= lines.len(),
            any_prefixed_from(ls, key@, i as int) == any_prefixed_from(ls, key@, 0),
        decreases lines.len() - i,
    {
        assert(ls[i as int] == lines@[i as int]@);
        if starts_with_chars(&lines[i], key) {
            return true;
        }
        i = i + 1;
    }
    false
}

/// Every `[[package]]` entry of a Cargo.lock text with both a `name` and a
/// `version` line, in file order.
pub fn lock_packages(lock: &str) -> (r: Vec<LockPkg>)
    ensures
        r@.map_values(|p: LockPkg| p.view3()) == spec_lock_packages(lock@),
{
    let text = chars_of(lock);
    let header = lit("[[package]]");
    proof {
        reveal_strlit("[[package]]");
    }
    let blocks = split_chars(&text, &header);
    let ghost bs = blocks@.map_values(|p: Vec<char>| p@);
    let name_key = lit("name = ");
    let version_key = lit("version = ");
    let source_key = lit("source = ");
    let mut out: Vec<LockPkg> = Vec::new();
    let mut i: usize = 1;
    while i < blocks.len()
        invariant
            bs == blocks@.map_values(|p: Vec<char>| p@),
            bs == split_by(lock@, "[[package]]"@),
            1 <= i,
            i <= blocks.len() || blocks.len() == 0,
            name_key@ == "name = "@,
            version_key@ == "version = "@,
            source_key@ == "source = "@,
            out@.map_values(|p: LockPkg| p.view3()) + lock_blocks_from(bs, i as int)
                == spec_lock_packages(lock@),
        decreases blocks.len() - i,
    {
        let lines = lines_chars(&blocks[i]);
        assert(bs[i as int] == blocks@[i as int]@);
        let n = field(&lines, &name_key);
        let v = field(&lines, &version_key);
        let reg = any_prefixed(&lines, &source_key);
        let ghost before = out@.map_values(|p: LockPkg| p.view3());
        match (n, v) {
            (Some(n), Some(v)) => {
                let p = LockPkg { name: string_of(n.as_slice()), version: string_of(v.as_slice()), registry: reg };
                out.push(p);
                assert(out@.map_values(|p: LockPkg| p.view3()) =~= before.push(p.view3()));
                assert(before + lock_blocks_from(bs, i as int) =~= before.push(p.view3())
                    + lock_blocks_from(bs, i + 1));
            },
            _ => {},
        }
        i = i + 1;
    }
    out
}

} // verus!

verus! {

/// The entry a name-keyed map built from `pkgs.take(j)` holds for `name`:
/// the last one with that name, since later inserts overwrite earlier ones.
pub open spec fn last_named(pkgs: Seq<LockPkgView>, name: Seq<char>, j: int) -> Option<LockPkgView>
    decreases j,
{
    if j <= 0 || j > pkgs.len() {
        None
    } else if pkgs[j - 1].0 == name {
        Some(pkgs[j - 1])
    } else {
        last_named(pkgs, name, j - 1)
    }
}

/// Whether a crate name belongs to the soothfast measurement harness.
pub open spec fn is_harness_name(name: Seq<char>) -> bool {
    name == "soothfast"@ || has_prefix(name, "soothfast-"@)
}

/// What one worktree entry contributes: `(name, worktree version, HEAD
/// version)` when both sides lock it from the registry at differing
/// versions.
pub open spec fn mismatch_of(head: Seq<LockPkgView>, p: LockPkgView) -> Option<
    (Seq<char>, Seq<char>, Seq<char>),
> {
    if p.2 && is_harness_name(p.0) {
        match last_named(head, p.0, head.len() as int) {
            Some(h) => if h.2 && h.1 != p.1 {
                Some((p.0, p.1, h.1))
            } else {
                None
            },
            None => None,
        }
    } else {
        None
    }
}

/// The mismatches of the worktree entries from index `i` on, in order.
pub open spec fn mismatches_from(head: Seq<LockPkgView>, wt: Seq<LockPkgView>, i: int) -> Seq<
    (Seq<char>, Seq<char>, Seq<char>),
>
    decreases wt.len() - i,
{
    if i < 0 || i >= wt.len() {
        Seq::empty()
    } else {
        match mismatch_of(head, wt[i]) {
            Some(m) => seq![m] + mismatches_from(head, wt, i + 1),
            None => mismatches_from(head, wt, i + 1),
        }
    }
}

/// Soothfast-family registry entries of the worktree lock whose version
/// differs from HEAD's registry entry of the same name.
pub open spec fn spec_harness_mismatches(head_lock: Seq<char>, wt_lock: Seq<char>) -> Seq<
    (Seq<char>, Seq<char>, Seq<char>),
> {
    mismatches_from(spec_lock_packages(head_lock), spec_lock_packages(wt_lock), 0)
}

/// A string triple as plain values.
pub open spec fn triple_view(t: (String, String, String)) -> (Seq<char>, Seq<char>, Seq<char>) {
    (t.0@, t.1@, t.2@)
}

fn clone_string(s: &String) -> (r: String)
    ensures
        r@ == s@,
{
    s.clone()
}

fn eq_string(a: &String, b: &String) -> (r: bool)
    ensures
        r == (a@ == b@),
{
    *a == *b
}

/// Whether a crate name is `soothfast` or starts with `soothfast-`.
fn harness_name(name: &String) -> (r: bool)
    ensures
        r == is_harness_name(name@),
{
    let n = chars_of(name.as_str());
    let whole = lit("soothfast");
    let family = lit("soothfast-");
    proof {
        reveal_strlit("soothfast");
        reveal_strlit("soothfast-");
    }
    let is_whole = n.len() == whole.len() && starts_with_chars(&n, &whole);
    proof {
        if n.len() == whole.len() && has_prefix(n@, whole@) {
            assert(n@ =~= whole@);
        }
        if n@ == whole@ {
            assert(n@.take(whole@.len() as int) =~= n@);
        }
    }
    is_whole || starts_with_chars(&n, &family)
}

/// Index of the last entry of `pkgs` named `name`.
fn find_last_named(pkgs: &Vec<LockPkg>, name: &String) -> (r: Option<usize>)
    ensures
        match r {
            Some(k) => k < pkgs.len() && last_named(
                pkgs@.map_values(|p: LockPkg| p.view3()),
                name@,
                pkgs.len() as int,
            ) == Some(pkgs@[k as int].view3()),
            None => last_named(
                pkgs@.map_values(|p: LockPkg| p.view3()),
                name@,
                pkgs.len() as int,
            ) is None,
        },
{
    let ghost hs = pkgs@.map_values(|p: LockPkg| p.view3());
    let mut j: usize = pkgs.len();
    while j > 0
        invariant
            hs == pkgs@.map_values(|p: LockPkg| p.view3()),
            j <= pkgs.len(),
            last_named(hs, name@, j as int) == last_named(hs, name@, hs.len() as int),
        decreases j,
    {
        assert(hs[j - 1] == pkgs@[j - 1].view3());
        if eq_string(&pkgs[j - 1].name, name) {
            return Some(j - 1);
        }
        j = j - 1;
    }
    None
}

/// Soothfast-family registry entries whose worktree version differs from
/// HEAD's: (name, worktree version, HEAD version), in worktree lock order.
pub fn harness_mismatches(head_lock: &str, wt_lock: &str) -> (r: Vec<(String, String, String)>)
    ensures
        r@.map_values(|t: (String, String, String)| triple_view(t)) == spec_harness_mismatches(
            head_lock@,
            wt_lock@,
        ),
{
    let head = lock_packages(head_lock);
    let wt = lock_packages(wt_lock);
    let ghost hs = head@.map_values(|p: LockPkg| p.view3());
    let ghost ws = wt@.map_values(|p: LockPkg| p.view3());
    let mut out: Vec<(String, String, String)> = Vec::new();
    let mut i: usize = 0;
    while i < wt.len()
        invariant
            hs == head@.map_values(|p: LockPkg| p.view3()),
            ws == wt@.map_values(|p: LockPkg| p.view3()),
            hs == spec_lock_packages(head_lock@),
            ws == spec_lock_packages(wt_lock@),
            i <= wt.len(),
            out@.map_values(|t: (String, String, String)| triple_view(t)) + mismatches_from(
                hs,
                ws,
                i as int,
            ) == spec_harness_mismatches(head_lock@, wt_lock@),
        decreases wt.len() - i,
    {
        let p = &wt[i];
        assert(ws[i as int] == p.view3());
        let ghost before = out@.map_values(|t: (String, String, String)| triple_view(t));
        if p.registry && harness_name(&p.name) {
            // The map HEAD's lock collects to keeps the last entry per name.
            let found = find_last_named(&head, &p.name);
            match found {
                Some(k) => {
                    assert(hs[k as int] == head@[k as int].view3());
                    let h = &head[k];
                    if h.registry && !eq_string(&h.version, &p.version) {
                        let t = (clone_string(&p.name), clone_string(&p.version), clone_string(&h.version));
                        out.push(t);
                        assert(out@.map_values(|t: (String, String, String)| triple_view(t))
                            =~= before.push(triple_view(t)));
                    }
                },
                None => {},
            }
        }
        assert(mismatches_from(hs, ws, i as int) == match mismatch_of(hs, ws[i as int]) {
            Some(m) => seq![m] + mismatches_from(hs, ws, i + 1),
            None => mismatches_from(hs, ws, i + 1),
        });
        proof {
            match mismatch_of(hs, ws[i as int]) {
                Some(m) => {
                    assert(before + mismatches_from(hs, ws, i as int) =~= before.push(m)
                        + mismatches_from(hs, ws, i + 1));
                },
                None => {},
            }
        }
        i = i + 1;
    }
    out
}

} // verus!

verus! {

/// Flags shared by `measure` and `gate`.
pub struct CommonArgs {
    pub pkg: Option<String>,
    pub filter: Option<String>,
    pub backend: Option<String>,
    pub samples: Option<String>,
    pub features: Option<String>,
    /// `[[bench]]` target to link the registry from (default `"soothfast"`).
    pub target: Option<String>,
    /// Codegen-unit pin for the bench build, from `--codegen-units` or the
    /// `[gate]` section of `soothfast.toml`.
    pub codegen_units: Option<String>,
}

/// An optional string as plain values.
pub open spec fn opt_view(o: Option<String>) -> Option<Seq<char>> {
    match o {
        Some(s) => Some(s@),
        None => None,
    }
}

/// The flags of a [`CommonArgs`] as plain values, in declaration order.
pub struct CommonView {
    pub pkg: Option<Seq<char>>,
    pub filter: Option<Seq<char>>,
    pub backend: Option<Seq<char>>,
    pub samples: Option<Seq<char>>,
    pub features: Option<Seq<char>>,
    pub target: Option<Seq<char>>,
    pub codegen_units: Option<Seq<char>>,
}

impl Default for CommonArgs {
    fn default() -> (r: CommonArgs)
        ensures
            r.pkg is None && r.filter is None && r.backend is None && r.samples is None
                && r.features is None && r.target is None && r.codegen_units is None,
    {
        CommonArgs::new()
    }
}

/// Which slot of [`CommonArgs`] a command-line flag fills.
pub enum CommonFlag {
    Pkg,
    Filter,
    Backend,
    Samples,
    Features,
    Target,
}

/// The slot a flag names: `-p`/`--package`, `--filter`, `--backend`,
/// `--samples`, `--features`, and `--bench`/`--target` (the same slot under
/// two spellings).
pub open spec fn common_flag(arg: Seq<char>) -> Option<CommonFlag> {
    if arg == "-p"@ || arg == "--package"@ {
        Some(CommonFlag::Pkg)
    } else if arg == "--filter"@ {
        Some(CommonFlag::Filter)
    } else if arg == "--backend"@ {
        Some(CommonFlag::Backend)
    } else if arg == "--samples"@ {
        Some(CommonFlag::Samples)
    } else if arg == "--features"@ {
        Some(CommonFlag::Features)
    } else if arg == "--bench"@ || arg == "--target"@ {
        Some(CommonFlag::Target)
    } else {
        None
    }
}

impl CommonArgs {
    pub open spec fn view_all(&self) -> CommonView {
        CommonView {
            pkg: opt_view(self.pkg),
            filter: opt_view(self.filter),
            backend: opt_view(self.backend),
            samples: opt_view(self.samples),
            features: opt_view(self.features),
            target: opt_view(self.target),
            codegen_units: opt_view(self.codegen_units),
        }
    }

    /// Every flag unset.
    pub fn new() -> (r: CommonArgs)
        ensures
            r.pkg is None && r.filter is None && r.backend is None && r.samples is None
                && r.features is None && r.target is None && r.codegen_units is None,
    {
        CommonArgs {
            pkg: None,
            filter: None,
            backend: None,
            samples: None,
            features: None,
            target: None,
            codegen_units: None,
        }
    }

    /// Consume one flag if it belongs to the common set. `value` is the
    /// argument after `arg`: when this returns `true` it was taken as the
    /// flag's value (a missing one clears the slot), and the caller skips it.
    pub fn try_parse(&mut self, arg: &str, value: Option<&String>) -> (taken: bool)
        ensures
            taken == common_flag(arg@) is Some,
            ({
                let o = old(self).view_all();
                let n = final(self).view_all();
                let v = match value {
                    Some(s) => Some(s@),
                    None => None,
                };
                match common_flag(arg@) {
                    None => n == o,
                    Some(CommonFlag::Pkg) => n == CommonView { pkg: v, ..o },
                    Some(CommonFlag::Filter) => n == CommonView { filter: v, ..o },
                    Some(CommonFlag::Backend) => n == CommonView { backend: v, ..o },
                    Some(CommonFlag::Samples) => n == CommonView { samples: v, ..o },
                    Some(CommonFlag::Features) => n == CommonView { features: v, ..o },
                    Some(CommonFlag::Target) => n == CommonView { target: v, ..o },
                }
            }),
    {
        proof {
            reveal_strlit("-p");
            reveal_strlit("--package");
            reveal_strlit("--filter");
            reveal_strlit("--backend");
            reveal_strlit("--samples");
            reveal_strlit("--features");
            reveal_strlit("--bench");
            reveal_strlit("--target");
        }
        let v: Option<String> = match value {
            Some(s) => Some(clone_string(s)),
            None => None,
        };
        if str_eq(arg, "-p") || str_eq(arg, "--package") {
            self.pkg = v;
        } else if str_eq(arg, "--filter") {
            self.filter = v;
        } else if str_eq(arg, "--backend") {
            self.backend = v;
        } else if str_eq(arg, "--samples") {
            self.samples = v;
        } else if str_eq(arg, "--features") {
            self.features = v;
        } else if str_eq(arg, "--bench") || str_eq(arg, "--target") {
            self.target = v;
        } else {
            return false;
        }
        true
    }
}

} // verus!

verus! {

/// First segment of a measured-item id (the package, `-` normalized to `_`).
pub open spec fn spec_id_pkg(id: Seq<char>) -> Seq<char> {
    split_by(id, "::"@)[0]
}

/// Whether a baseline key names a buildcost pseudo-item.
pub open spec fn is_buildcost_key(key: Seq<char>) -> bool {
    has_prefix(key, "buildcost::"@)
}

/// The package segment of a buildcost key (`buildcost::PKG::combo`).
pub open spec fn buildcost_pkg(key: Seq<char>) -> Seq<char> {
    split_by(key.subrange(11, key.len() as int), "::"@)[0]
}

/// First segment of a measured-item id: everything before the first `::`
/// (the whole id when it has none).
pub fn id_pkg(id: &str) -> (r: String)
    ensures
        r@ == spec_id_pkg(id@),
{
    let v = chars_of(id);
    let sep = lit("::");
    proof {
        reveal_strlit("::");
        lemma_split_walk_nonempty(v@, sep@, 0, 0);
    }
    let parts = split_chars(&v, &sep);
    assert(parts@.map_values(|p: Vec<char>| p@)[0] == parts@[0]@);
    string_of(parts[0].as_slice())
}

/// What a measurement run covered, deciding which stale baseline entries a
/// save may drop. One baseline file is shared by bench runs of several
/// packages plus buildcost runs, so each full run replaces only its own
/// slice; a filtered run updates in place and can leave stale ids behind.
pub enum SaveScope {
    /// Full bench run of one package (ids are package-qualified) — or of the
    /// whole workspace when no `-p` was given (`None` replaces every bench id).
    BenchFull(Option<String>),
    BenchFiltered,
    /// Buildcost run of one package (`None`: replace every buildcost entry).
    Buildcost(Option<String>),
}

/// Whether an existing baseline entry survives a save of this scope (new
/// entries are then written over the survivors).
pub open spec fn spec_scope_keeps(scope: SaveScope, key: Seq<char>) -> bool {
    match scope {
        SaveScope::BenchFull(Some(pkg)) => is_buildcost_key(key) || spec_id_pkg(key) != replaced(
            pkg@,
            '-',
            '_',
        ),
        SaveScope::BenchFull(None) => is_buildcost_key(key),
        SaveScope::Buildcost(Some(pkg)) => !is_buildcost_key(key) || buildcost_pkg(key) != pkg@,
        SaveScope::Buildcost(None) => !is_buildcost_key(key),
        SaveScope::BenchFiltered => true,
    }
}

/// The package segment after a `buildcost::` prefix.
fn buildcost_pkg_exec(key: &Vec<char>) -> (r: Vec<char>)
    requires
        is_buildcost_key(key@),
    ensures
        r@ == buildcost_pkg(key@),
{
    proof {
        reveal_strlit("buildcost::");
        reveal_strlit("::");
    }
    let rest = slice_chars(key, 11, key.len());
    let sep = lit("::");
    proof {
        lemma_split_walk_nonempty(rest@, sep@, 0, 0);
    }
    let parts = split_chars(&rest, &sep);
    assert(parts@.map_values(|p: Vec<char>| p@)[0] == parts@[0]@);
    slice_chars(&parts[0], 0, parts[0].len())
}

/// Whether a key starts with `buildcost::`.
pub fn buildcost_key(key: &Vec<char>) -> (r: bool)
    ensures
        r == is_buildcost_key(key@),
{
    proof {
        reveal_strlit("buildcost::");
    }
    starts_with_chars(key, &lit("buildcost::"))
}

/// Whether an existing baseline entry `key` survives a save of `scope`:
/// a full run drops its own slice (renamed or removed items must not haunt
/// the baseline), a filtered run keeps everything.
pub fn scope_keeps(scope: &SaveScope, key: &str) -> (r: bool)
    ensures
        r == spec_scope_keeps(*scope, key@),
{
    let k = chars_of(key);
    match scope {
        SaveScope::BenchFull(Some(pkg)) => {
            if buildcost_key(&k) {
                return true;
            }
            let own = chars_of(id_pkg(key).as_str());
            let norm = replace_char(pkg.as_str(), '-', '_');
            !chars_eq(&own, &norm)
        },
        SaveScope::BenchFull(None) => buildcost_key(&k),
        SaveScope::Buildcost(Some(pkg)) => {
            if !buildcost_key(&k) {
                return true;
            }
            let own = buildcost_pkg_exec(&k);
            !chars_eq(&own, &chars_of(pkg.as_str()))
        },
        SaveScope::Buildcost(None) => !buildcost_key(&k),
        SaveScope::BenchFiltered => true,
    }
}

impl SaveScope {
    /// The scope a run with these flags covers: buildcost runs replace their
    /// package's buildcost slice, filtered bench runs replace nothing, full
    /// bench runs replace their package's (or every) bench id.
    pub fn of(common: &CommonArgs) -> (r: SaveScope)
        ensures
            match r {
                SaveScope::Buildcost(p) => opt_view(common.backend) == Some("buildcost"@)
                    && opt_view(p) == opt_view(common.pkg),
                SaveScope::BenchFiltered => opt_view(common.backend) != Some("buildcost"@)
                    && common.filter is Some,
                SaveScope::BenchFull(p) => opt_view(common.backend) != Some("buildcost"@)
                    && common.filter is None && opt_view(p) == opt_view(common.pkg),
            },
    {
        proof {
            reveal_strlit("buildcost");
        }
        let pkg = match &common.pkg {
            Some(p) => Some(clone_string(p)),
            None => None,
        };
        let is_buildcost = match &common.backend {
            Some(b) => str_eq(b.as_str(), "buildcost"),
            None => false,
        };
        if is_buildcost {
            SaveScope::Buildcost(pkg)
        } else if common.filter.is_some() {
            SaveScope::BenchFiltered
        } else {
            SaveScope::BenchFull(pkg)
        }
    }
}

/// One assertion verdict from the runner.
pub struct AssertionOutcome {
    pub id: String,
    pub kind: String,
    pub ok: bool,
    pub detail: String,
}

/// Which items rustdoc should emit.
///
/// The docs engine wants the public surface and nothing else. Spec
/// generation needs the opposite: route handlers are commonly not `pub`, and
/// rustdoc omits private items entirely.
#[derive(Clone, Copy, PartialEq, Eq, Debug, Structural)]
pub enum Visibility {
    /// Public API only.
    Public,
    /// Include private items.
    Private,
}

} // verus!

verus! {

/// A filesystem path, carried through unread.
#[verifier::external_type_specification]
#[verifier::external_body]
pub struct ExPathBuf(std::path::PathBuf);

/// A workspace package's directory and manifest fields, which stand in as
/// spec metadata defaults when `soothfast.toml` doesn't override them.
pub struct PkgMeta {
    pub dir: std::path::PathBuf,
    pub version: String,
    pub description: Option<String>,
}

} // verus!

verus! {

/// `[flag, value]` when the value is set, nothing otherwise.
pub open spec fn opt_pair(flag: Seq<char>, value: Option<Seq<char>>) -> Seq<Seq<char>> {
    match value {
        Some(v) => seq![flag, v],
        None => Seq::empty(),
    }
}

/// The bench target a run links the registry from: `--bench`, or
/// `soothfast`.
pub open spec fn bench_target(common: CommonArgs) -> Seq<char> {
    match opt_view(common.target) {
        Some(t) => t,
        None => "soothfast"@,
    }
}

/// The strings of a slice of string slices.
pub open spec fn strs_view(s: Seq<&str>) -> Seq<Seq<char>> {
    s.map_values(|x: &str| x@)
}

/// The arguments of the `cargo bench` invocation that runs the bench binary:
/// package and features are cargo's, so they come before the `--` that
/// separates the runner's arguments (filter, backend, samples, then
/// `extra`).
pub open spec fn spec_bench_args(common: CommonArgs, extra: Seq<Seq<char>>) -> Seq<Seq<char>> {
    seq!["bench"@] + opt_pair("-p"@, opt_view(common.pkg)) + opt_pair(
        "--features"@,
        opt_view(common.features),
    ) + seq!["--bench"@, bench_target(common), "--"@] + opt_pair(
        "--filter"@,
        opt_view(common.filter),
    ) + opt_pair("--backend"@, opt_view(common.backend)) + opt_pair(
        "--samples"@,
        opt_view(common.samples),
    ) + extra
}

/// Cargo-level flags precede the `--` that separates the runner's flags:
/// the bench command line is `bench`, then `-p PKG` and `--features F` (as
/// given), then `--bench TARGET --`, then the runner's `--filter`,
/// `--backend` and `--samples` pairs (as given), then the extra arguments.
pub proof fn law_cargo_flags_precede_the_runner_separator(common: CommonArgs, extra: Seq<Seq<char>>)
    ensures
        ({
            let s = spec_bench_args(common, extra);
            let cp: int = if opt_view(common.pkg) is Some { 2int } else { 0int };
            let c: int = cp + if opt_view(common.features) is Some { 2int } else { 0int };
            let r0: int = c + 4;
            let r1: int = r0 + if opt_view(common.filter) is Some { 2int } else { 0int };
            let r2: int = r1 + if opt_view(common.backend) is Some { 2int } else { 0int };
            let r3: int = r2 + if opt_view(common.samples) is Some { 2int } else { 0int };
            &&& s.len() == r3 + extra.len()
            &&& s[0] == "bench"@
            &&& opt_view(common.pkg) is Some ==> s[1] == "-p"@ && s[2] == opt_view(common.pkg)->0
            &&& opt_view(common.features) is Some ==> s[cp + 1] == "--features"@ && s[cp + 2] == opt_view(
                common.features,
            )->0
            &&& s[c + 1] == "--bench"@
            &&& s[c + 2] == bench_target(common)
            &&& s[c + 3] == "--"@
            &&& opt_view(common.filter) is Some ==> s[r0] == "--filter"@ && s[r0 + 1] == opt_view(
                common.filter,
            )->0
            &&& opt_view(common.backend) is Some ==> s[r1] == "--backend"@ && s[r1 + 1] == opt_view(
                common.backend,
            )->0
            &&& opt_view(common.samples) is Some ==> s[r2] == "--samples"@ && s[r2 + 1] == opt_view(
                common.samples,
            )->0
            &&& s.skip(r3) == extra
        }),
{
    let s = spec_bench_args(common, extra);
    let a = seq!["bench"@];
    let p = opt_pair("-p"@, opt_view(common.pkg));
    let f = opt_pair("--features"@, opt_view(common.features));
    let b = seq!["--bench"@, bench_target(common), "--"@];
    let fi = opt_pair("--filter"@, opt_view(common.filter));
    let be = opt_pair("--backend"@, opt_view(common.backend));
    let sa = opt_pair("--samples"@, opt_view(common.samples));
    assert(s == a + p + f + b + fi + be + sa + extra);
    let pre = a + p + f + b + fi + be + sa;
    assert(s.skip(pre.len() as int) =~= extra);
}

fn push_opt_pair(args: &mut Vec<String>, flag: &str, value: &Option<String>)
    ensures
        final(args)@.map_values(|s: String| s@) == old(args)@.map_values(|s: String| s@) + opt_pair(
            flag@,
            opt_view(*value),
        ),
{
    let ghost before = args@.map_values(|s: String| s@);
    match value {
        Some(v) => {
            args.push(copy_str(flag));
            args.push(clone_string(v));
            assert(args@.map_values(|s: String| s@) =~= before + seq![flag@, v@]);
        },
        None => {
            assert(args@.map_values(|s: String| s@) =~= before + Seq::<Seq<char>>::empty());
        },
    }
}

fn push_str_arg(args: &mut Vec<String>, a: &str)
    ensures
        final(args)@.map_values(|s: String| s@) == old(args)@.map_values(|s: String| s@).push(a@),
{
    let ghost before = args@.map_values(|s: String| s@);
    args.push(copy_str(a));
    assert(args@.map_values(|s: String| s@) =~= before.push(a@));
}

/// The arguments `cargo` is run with to execute the bench binary (see
/// [`spec_bench_args`]).
pub fn bench_args(common: &CommonArgs, extra: &[&str]) -> (r: Vec<String>)
    ensures
        r@.map_values(|s: String| s@) == spec_bench_args(*common, strs_view(extra@)),
{
    proof {
        reveal_strlit("soothfast");
    }
    let mut args: Vec<String> = Vec::new();
    push_str_arg(&mut args, "bench");
    push_opt_pair(&mut args, "-p", &common.pkg);
    push_opt_pair(&mut args, "--features", &common.features);
    push_str_arg(&mut args, "--bench");
    match &common.target {
        Some(t) => push_str_arg(&mut args, t.as_str()),
        None => push_str_arg(&mut args, "soothfast"),
    }
    push_str_arg(&mut args, "--");
    push_opt_pair(&mut args, "--filter", &common.filter);
    push_opt_pair(&mut args, "--backend", &common.backend);
    push_opt_pair(&mut args, "--samples", &common.samples);
    let ghost fixed = args@.map_values(|s: String| s@);
    let mut i: usize = 0;
    while i < extra.len()
        invariant
            i <= extra.len(),
            args@.map_values(|s: String| s@) == fixed + strs_view(extra@).take(i as int),
        decreases extra.len() - i,
    {
        push_str_arg(&mut args, extra[i]);
        assert(strs_view(extra@).take(i + 1) =~= strs_view(extra@).take(i as int).push(extra@[i as int]@));
        assert(fixed + strs_view(extra@).take(i + 1) =~= (fixed + strs_view(extra@).take(i as int)).push(extra@[i as int]@));
        i = i + 1;
    }
    assert(strs_view(extra@).take(extra.len() as int) =~= strs_view(extra@));
    assert(fixed =~= seq!["bench"@] + opt_pair("-p"@, opt_view(common.pkg)) + opt_pair(
        "--features"@,
        opt_view(common.features),
    ) + seq!["--bench"@, bench_target(*common), "--"@] + opt_pair(
        "--filter"@,
        opt_view(common.filter),
    ) + opt_pair("--backend"@, opt_view(common.backend)) + opt_pair(
        "--samples"@,
        opt_view(common.samples),
    ));
    args
}

/// The arguments of the `cargo bench --no-run` invocation whose JSON
/// messages name the compiled bench executable.
pub open spec fn spec_bench_executable_args(common: CommonArgs) -> Seq<Seq<char>> {
    seq!["bench"@, "--no-run"@, "--message-format=json"@] + opt_pair("-p"@, opt_view(common.pkg))
        + opt_pair("--features"@, opt_view(common.features)) + seq!["--bench"@, bench_target(common)]
}

/// The arguments `cargo` is run with to locate the compiled bench binary.
pub fn bench_executable_args(common: &CommonArgs) -> (r: Vec<String>)
    ensures
        r@.map_values(|s: String| s@) == spec_bench_executable_args(*common),
{
    proof {
        reveal_strlit("soothfast");
    }
    let mut args: Vec<String> = Vec::new();
    push_str_arg(&mut args, "bench");
    push_str_arg(&mut args, "--no-run");
    push_str_arg(&mut args, "--message-format=json");
    push_opt_pair(&mut args, "-p", &common.pkg);
    push_opt_pair(&mut args, "--features", &common.features);
    push_str_arg(&mut args, "--bench");
    match &common.target {
        Some(t) => push_str_arg(&mut args, t.as_str()),
        None => push_str_arg(&mut args, "soothfast"),
    }
    assert(args@.map_values(|s: String| s@) =~= spec_bench_executable_args(*common));
    args
}

/// The entry `last_named` finds is one of the first `j` entries, under
/// the name asked for.
pub proof fn lemma_last_named_in(pkgs: Seq<LockPkgView>, name: Seq<char>, j: int)
    requires
        0 <= j <= pkgs.len(),
    ensures
        last_named(pkgs, name, j) matches Some(h) ==> exists|k: int|
            0 <= k < j && pkgs[k] == h && h.0 == name,
    decreases j,
{
    if j > 0 && pkgs[j - 1].0 != name {
        lemma_last_named_in(pkgs, name, j - 1);
    }
}

proof fn lemma_mismatches_from_each(head: Seq<LockPkgView>, wt: Seq<LockPkgView>, i: int, k: int)
    requires
        0 <= i,
        0 <= k < mismatches_from(head, wt, i).len(),
    ensures
        exists|t: int| i <= t < wt.len() && mismatch_of(head, wt[t]) == Some(
            mismatches_from(head, wt, i)[k],
        ),
    decreases wt.len() - i,
{
    if i < wt.len() {
        match mismatch_of(head, wt[i]) {
            Some(m) => {
                if k > 0 {
                    assert(mismatches_from(head, wt, i)[k] == mismatches_from(head, wt, i + 1)[k
                        - 1]);
                    lemma_mismatches_from_each(head, wt, i + 1, k - 1);
                }
            },
            None => {
                lemma_mismatches_from_each(head, wt, i + 1, k);
            },
        }
    }
}

/// Every pin `harness_mismatches` reports is a soothfast-family crate
/// (`soothfast` or `soothfast-*`) locked from the registry on both sides,
/// moved from the worktree's version to the differing version HEAD's lock
/// holds for it; a path dependency or a crate outside the family never
/// appears.
pub proof fn law_pins_move_harness_crates_to_head(head_lock: Seq<char>, wt_lock: Seq<char>, k: int)
    requires
        0 <= k < spec_harness_mismatches(head_lock, wt_lock).len(),
    ensures
        ({
            let m = spec_harness_mismatches(head_lock, wt_lock)[k];
            let head = spec_lock_packages(head_lock);
            let wt = spec_lock_packages(wt_lock);
            &&& is_harness_name(m.0)
            &&& m.1 != m.2
            &&& exists|t: int| 0 <= t < wt.len() && wt[t] == (m.0, m.1, true)
            &&& last_named(head, m.0, head.len() as int) == Some((m.0, m.2, true))
        }),
{
    let head = spec_lock_packages(head_lock);
    let wt = spec_lock_packages(wt_lock);
    lemma_mismatches_from_each(head, wt, 0, k);
    let m = spec_harness_mismatches(head_lock, wt_lock)[k];
    let t = choose|t: int| 0 <= t < wt.len() && mismatch_of(head, wt[t]) == Some(m);
    lemma_last_named_in(head, wt[t].0, head.len() as int);
}

/// `harness_mismatches` of a lock against itself is empty, as long as the
/// lock does not hold one crate from the registry at two versions (a lock
/// where no package name occurs twice is one such).
pub proof fn law_same_lock_needs_no_pins(lock: Seq<char>)
    requires
        forall|i: int, j: int|
            0 <= i < spec_lock_packages(lock).len() && 0 <= j < spec_lock_packages(lock).len()
                && #[trigger] spec_lock_packages(lock)[i].0 == #[trigger] spec_lock_packages(
                lock,
            )[j].0 && spec_lock_packages(lock)[i].2 && spec_lock_packages(lock)[j].2
                ==> spec_lock_packages(lock)[i].1 == spec_lock_packages(lock)[j].1,
    ensures
        spec_harness_mismatches(lock, lock) == Seq::<(Seq<char>, Seq<char>, Seq<char>)>::empty(),
{
    let pkgs = spec_lock_packages(lock);
    lemma_same_lock_from(pkgs, 0);
}

/// Whether a lock holds each crate it takes from the registry at one
/// version only (a lock where no package name occurs twice does).
pub open spec fn registry_versions_unique(lock: Seq<char>) -> bool {
    forall|i: int, j: int|
        0 <= i < spec_lock_packages(lock).len() && 0 <= j < spec_lock_packages(lock).len()
            && #[trigger] spec_lock_packages(lock)[i].0 == #[trigger] spec_lock_packages(lock)[j].0
            && spec_lock_packages(lock)[i].2 && spec_lock_packages(lock)[j].2 ==> spec_lock_packages(
            lock,
        )[i].1 == spec_lock_packages(lock)[j].1
}

/// What a reported pin `(name, from, to)` is: a soothfast-family crate the
/// worktree locks from the registry at `from`, which HEAD's lock holds from
/// the registry at a different `to`.
pub open spec fn is_harness_pin(head_lock: Seq<char>, wt_lock: Seq<char>, m: (Seq<char>, Seq<char>, Seq<char>)) -> bool {
    let head = spec_lock_packages(head_lock);
    let wt = spec_lock_packages(wt_lock);
    &&& is_harness_name(m.0)
    &&& m.1 != m.2
    &&& exists|t: int| 0 <= t < wt.len() && wt[t] == (m.0, m.1, true)
    &&& last_named(head, m.0, head.len() as int) == Some((m.0, m.2, true))
}

/// `harness_mismatches` reports only soothfast-family crates locked from
/// the registry on both sides at differing versions, so a path dependency
/// or a crate outside the family never appears; and a lock compared with
/// itself needs no pin when it holds each registry crate at one version.
pub proof fn law_harness_mismatches_are_differing_family_pins(head_lock: Seq<char>, wt_lock: Seq<char>)
    ensures
        forall|k: int|
            0 <= k < spec_harness_mismatches(head_lock, wt_lock).len() ==> is_harness_pin(
                head_lock,
                wt_lock,
                #[trigger] spec_harness_mismatches(head_lock, wt_lock)[k],
            ),
        head_lock == wt_lock && registry_versions_unique(head_lock) ==> spec_harness_mismatches(
            head_lock,
            wt_lock,
        ).len() == 0,
{
    assert forall|k: int| 0 <= k < spec_harness_mismatches(head_lock, wt_lock).len() implies is_harness_pin(
        head_lock,
        wt_lock,
        #[trigger] spec_harness_mismatches(head_lock, wt_lock)[k],
    ) by {
        law_pins_move_harness_crates_to_head(head_lock, wt_lock, k);
    }
    if head_lock == wt_lock && registry_versions_unique(head_lock) {
        law_same_lock_needs_no_pins(head_lock);
    }
}

proof fn lemma_same_lock_from(pkgs: Seq<LockPkgView>, i: int)
    requires
        0 <= i,
        forall|a: int, b: int|
            0 <= a < pkgs.len() && 0 <= b < pkgs.len() && #[trigger] pkgs[a].0 == #[trigger] pkgs[b].0
                && pkgs[a].2 && pkgs[b].2 ==> pkgs[a].1 == pkgs[b].1,
    ensures
        mismatches_from(pkgs, pkgs, i) == Seq::<(Seq<char>, Seq<char>, Seq<char>)>::empty(),
    decreases pkgs.len() - i,
{
    if i < pkgs.len() {
        lemma_last_named_in(pkgs, pkgs[i].0, pkgs.len() as int);
        lemma_same_lock_from(pkgs, i + 1);
        assert(mismatch_of(pkgs, pkgs[i]) is None);
    }
}

/// The map a keyed sequence of values stands for.
pub open spec fn plain_map<V>(s: Seq<(String, V)>) -> Map<Seq<char>, V> {
    keyed_map(s, |v: V| v)
}

/// The entries of a stored baseline a save keeps: those outside the run's
/// scope.
pub open spec fn kept_items<V>(old: Seq<(String, V)>, scope: SaveScope) -> Map<Seq<char>, V> {
    Map::new(
        |k: Seq<char>| has_key(old, k) && spec_scope_keeps(scope, k),
        |k: Seq<char>| value_of(old, k),
    )
}

/// Merges a run's measured items into a stored baseline's, both keyed by
/// item id in id order: a full run replaces its own slice, so renamed or
/// removed items do not haunt the baseline (a comparison fails on GONE
/// entries); a filtered run updates in place. Every measured item is then
/// written over.
pub fn merge_items<V>(old: Vec<(String, V)>, new: Vec<(String, V)>, scope: &SaveScope) -> (r: Vec<
    (String, V),
>)
    requires
        keyed_wf(old@),
    ensures
        keyed_wf(r@),
        plain_map(r@) == kept_items(old@, *scope).union_prefer_right(pairs_map(new@)),
{
    let ghost s0 = old@;
    let ghost n = s0.len();
    let mut items = old;
    let mut i: usize = 0;
    let ghost mut k: int = 0;
    while i < items.len()
        invariant
            keyed_wf(items@),
            keyed_wf(s0),
            0 <= i <= k <= n,
            n == s0.len(),
            items@.len() == i + (n - k),
            forall|t: int| 0 <= t < n - k ==> #[trigger] items@[i + t] == s0[k + t],
            plain_map(items@) == Map::new(
                |x: Seq<char>| has_key(s0, x) && (spec_scope_keeps(*scope, x) || !has_key(
                    s0.take(k),
                    x,
                )),
                |x: Seq<char>| value_of(s0, x),
            ),
        decreases items.len() - i,
    {
        let ghost cur = items@;
        assert(items@[i + 0] == s0[k + 0]);
        proof {
            lemma_value_at(s0, k);
            lemma_value_at(cur, i as int);
            assert forall|x: Seq<char>| #[trigger]
                has_key(s0.take(k + 1), x) <==> (has_key(s0.take(k), x) || x == s0[k].0@) by {
                if has_key(s0.take(k + 1), x) {
                    let j = choose|j: int| 0 <= j < k + 1 && (#[trigger] s0.take(k + 1)[j]).0@ == x;
                    if j < k {
                        assert(s0.take(k)[j] == s0[j]);
                    }
                }
                if has_key(s0.take(k), x) {
                    let j = choose|j: int| 0 <= j < k && (#[trigger] s0.take(k)[j]).0@ == x;
                    assert(s0.take(k + 1)[j] == s0[j]);
                }
                if x == s0[k].0@ {
                    assert(s0.take(k + 1)[k] == s0[k]);
                }
            }
        }
        if !scope_keeps(scope, items[i].0.as_str()) {
            proof {
                lemma_keyed_remove(cur, i as int);
            }
            let _ = items.remove(i);
            proof {
                let after = items@;
                let prev = plain_map(cur);
                let target = Map::new(
                    |x: Seq<char>| has_key(s0, x) && (spec_scope_keeps(*scope, x) || !has_key(
                        s0.take(k + 1),
                        x,
                    )),
                    |x: Seq<char>| value_of(s0, x),
                );
                assert forall|x: Seq<char>| #[trigger]
                    plain_map(after).dom().contains(x) <==> target.dom().contains(x) by {
                    assert(has_key(after, x) <==> (has_key(cur, x) && x != cur[i as int].0@));
                    assert(prev.dom().contains(x) <==> has_key(cur, x));
                }
                assert forall|x: Seq<char>| #[trigger]
                    plain_map(after).dom().contains(x) implies plain_map(after)[x] == target[x] by {
                    assert(has_key(after, x));
                    assert(value_of(after, x) == value_of(cur, x));
                    assert(prev.dom().contains(x));
                    assert(prev[x] == value_of(cur, x));
                    assert(prev[x] == value_of(s0, x));
                }
                assert(plain_map(after) =~= target);
                assert forall|t: int| 0 <= t < n - (k + 1) implies #[trigger] after[i + t] == s0[k
                    + 1 + t] by {
                    assert(after[i + t] == cur[i + (t + 1)]);
                }
                k = k + 1;
            }
        } else {
            proof {
                assert(plain_map(items@) =~= Map::new(
                    |x: Seq<char>| has_key(s0, x) && (spec_scope_keeps(*scope, x) || !has_key(
                        s0.take(k + 1),
                        x,
                    )),
                    |x: Seq<char>| value_of(s0, x),
                ));
                k = k + 1;
                assert forall|t: int| 0 <= t < n - k implies #[trigger] items@[(i + 1) + t]
                    == s0[k + t] by {
                    assert(items@[i + (t + 1)] == s0[(k - 1) + (t + 1)]);
                }
            }
            i = i + 1;
        }
    }
    proof {
        assert(k == n);
        assert(s0.take(n as int) =~= s0);
        assert(plain_map(items@) =~= kept_items(s0, *scope));
    }
    let ghost base = kept_items(s0, *scope);
    let ghost n0 = new@;
    let nlen = new.len();
    let mut rest = new;
    let mut j: usize = 0;
    assert(pairs_map(n0.take(0)) =~= Map::<Seq<char>, V>::empty());
    assert(base.union_prefer_right(Map::<Seq<char>, V>::empty()) =~= base);
    while rest.len() > 0
        invariant
            keyed_wf(items@),
            j <= n0.len(),
            n0.len() == nlen,
            rest@ == n0.subrange(j as int, n0.len() as int),
            plain_map(items@) == base.union_prefer_right(pairs_map(n0.take(j as int))),
        decreases rest.len(),
    {
        let ghost before = items@;
        let (key, v) = rest.remove(0);
        assert(n0[j as int] == (key, v));
        put(&mut items, key.as_str(), v);
        proof {
            let t = n0.take(j as int + 1);
            assert(t.drop_last() =~= n0.take(j as int));
            assert(t.last() == (key, v));
            assert(plain_map(items@) =~= plain_map(before).insert(key@, v));
            assert(plain_map(items@) =~= base.union_prefer_right(pairs_map(t)));
            assert(rest@ =~= n0.subrange(j as int + 1, n0.len() as int));
        }
        j = j + 1;
    }
    assert(n0.take(j as int) =~= n0);
    items
}

/// A saved baseline leaves nothing gone for the next comparison under the
/// same flags: every entry of the merged baseline that lies in that
/// comparison's scope was measured by the saved run.
pub proof fn law_saved_baseline_has_nothing_gone<V>(
    old: Seq<(String, V)>,
    new: Seq<(String, V)>,
    pkg: Option<String>,
    buildcost: bool,
    key: Seq<char>,
)
    requires
        ({
            let scope = if buildcost {
                SaveScope::Buildcost(pkg)
            } else {
                SaveScope::BenchFull(pkg)
            };
            kept_items(old, scope).union_prefer_right(pairs_map(new)).contains_key(key)
        }),
        crate::gate::spec_gone_in_scope(key, None, buildcost, opt_view(pkg)),
    ensures
        pairs_map(new).contains_key(key),
{
    crate::gate::law_save_scope_is_gone_scope(pkg, key);
}

/// The stored assertion verdicts a save keeps: those of items the run did
/// not measure (a verdict without an id always stays), in stored order.
pub open spec fn kept_assertions<V>(old: Seq<(Option<String>, V)>, measured: Seq<Seq<char>>) -> Seq<V>
    decreases old.len(),
{
    if old.len() == 0 {
        Seq::empty()
    } else {
        kept_assertions(old.drop_last(), measured) + match old.last().0 {
            Some(id) => if measured.contains(id@) {
                Seq::empty()
            } else {
                seq![old.last().1]
            },
            None => seq![old.last().1],
        }
    }
}

/// Merges a run's assertion verdicts into a stored baseline's: verdicts of
/// the items the run measured are replaced by the run's own, appended after
/// the ones kept. Each stored verdict comes with the item id it names, if
/// it names one.
pub fn merge_assertions<V>(
    old: Vec<(Option<String>, V)>,
    measured: &Vec<String>,
    new: Vec<V>,
) -> (r: Vec<V>)
    ensures
        r@ == kept_assertions(old@, measured@.map_values(|s: String| s@)) + new@,
{
    let ghost o0 = old@;
    let ghost ms = measured@.map_values(|s: String| s@);
    let mut rest = old;
    let mut out: Vec<V> = Vec::new();
    let ghost mut k: int = 0;
    while rest.len() > 0
        invariant
            0 <= k <= o0.len(),
            rest@ == o0.subrange(k, o0.len() as int),
            ms == measured@.map_values(|s: String| s@),
            out@ == kept_assertions(o0.take(k), ms),
        decreases rest.len(),
    {
        let (id, v) = rest.remove(0);
        proof {
            assert(o0[k] == (id, v));
            let t = o0.take(k + 1);
            assert(t.drop_last() =~= o0.take(k));
            assert(t.last() == (id, v));
        }
        let ghost before = out@;
        let keep = match &id {
            Some(s) => !crate::gate::contains_str(measured, s.as_str()),
            None => true,
        };
        proof {
            if let Some(s) = id {
                assert(crate::gate::strs(measured@) == ms);
            }
        }
        if keep {
            out.push(v);
            assert(out@ =~= before + seq![v]);
        } else {
            assert(out@ =~= before + Seq::<V>::empty());
        }
        proof {
            assert(rest@ =~= o0.subrange(k + 1, o0.len() as int));
            k = k + 1;
        }
    }
    assert(o0.take(k) =~= o0);
    let ghost kept = out@;
    let mut more = new;
    let ghost n0 = more@;
    let ghost mut j: int = 0;
    while more.len() > 0
        invariant
            0 <= j <= n0.len(),
            more@ == n0.subrange(j, n0.len() as int),
            out@ == kept + n0.take(j),
        decreases more.len(),
    {
        let v = more.remove(0);
        proof {
            assert(n0[j] == v);
        }
        out.push(v);
        proof {
            assert(out@ =~= kept + n0.take(j + 1));
            assert(more@ =~= n0.subrange(j + 1, n0.len() as int));
            j = j + 1;
        }
    }
    assert(n0.take(j) =~= n0);
    out
}

} // verus!
