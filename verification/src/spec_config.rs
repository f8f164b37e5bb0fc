//! `[[spec]]` entries in `soothfast.toml`: which spec files are generated
//! from the code and which workspace crates their types are resolved from.

use vstd::prelude::*;

use crate::text::{chars_of, str_eq};
use crate::workspace::{cv, insert_sorted, sorted_strict};

verus! {

/// What soothfast does with a spec file.
#[derive(Debug, Clone, Copy, PartialEq, Eq, Structural)]
pub enum Mode {
    /// Generate the file from the code (the code is the source of truth).
    Generate,
    /// Reconcile the code against it (the file is the source of truth).
    Check,
}

/// One `[spec.responses]` entry: a response every operation shares.
#[derive(Debug, Clone, Default)]
pub struct CommonResponse {
    /// Body type name, resolved against the crate like a `response =`
    /// override; `None` means the response has no body.
    pub body_type: Option<String>,
    pub description: Option<String>,
    /// Response header names.
    pub headers: Vec<String>,
}

/// One declared spec file and the settings the generation plan reads.
pub struct SpecEntry {
    /// Path relative to the package directory.
    pub path: String,
    pub mode: Mode,
    pub title: Option<String>,
    pub version: Option<String>,
    pub description: Option<String>,
    pub servers: Vec<String>,
    /// Whether types defined in sibling crates of this cargo workspace are
    /// resolved from those crates' own rustdoc. On by default.
    pub workspace_types: bool,
    /// Which workspace crates to document; empty means all of them.
    pub workspace_crates: Vec<String>,
}

impl SpecEntry {
    /// A new entry for `path`. Check is the default because generation
    /// overwrites the file: a mistyped mode must never silently clobber a
    /// hand-authored spec.
    pub fn new(path: String) -> (r: SpecEntry)
        ensures
            r.path == path,
            r.mode == Mode::Check,
            r.title is None && r.version is None && r.description is None,
            r.servers@.len() == 0,
            r.workspace_types,
            r.workspace_crates@.len() == 0,
    {
        SpecEntry {
            path,
            mode: Mode::Check,
            title: None,
            version: None,
            description: None,
            servers: Vec::new(),
            workspace_types: true,
            workspace_crates: Vec::new(),
        }
    }
}

/// Every `[[spec]]` entry, in declaration order.
pub struct SpecConfig {
    pub entries: Vec<SpecEntry>,
}

/// Index of the first entry (from `i` on) declared for `path`.
pub open spec fn entry_for(entries: Seq<SpecEntry>, path: Seq<char>, i: int) -> Option<int>
    decreases entries.len() - i,
{
    if i < 0 || i >= entries.len() {
        None
    } else if entries[i].path@ == path {
        Some(i)
    } else {
        entry_for(entries, path, i + 1)
    }
}

/// Whether an entry generates its file and wants workspace types.
pub open spec fn wants_workspace(e: SpecEntry) -> bool {
    e.mode == Mode::Generate && e.workspace_types
}

/// The crates every generate-mode entry with workspace types names.
pub open spec fn named_crates(entries: Seq<SpecEntry>) -> Set<Seq<char>> {
    Set::new(
        |n: Seq<char>|
            exists|i: int, j: int|
                0 <= i < entries.len() && wants_workspace(entries[i]) && 0 <= j
                    < entries[i].workspace_crates.len() && entries[i].workspace_crates@[j]@ == n,
    )
}

/// The crates the entries before index `i` contribute.
pub open spec fn named_upto(entries: Seq<SpecEntry>, i: int) -> Set<Seq<char>> {
    Set::new(
        |n: Seq<char>|
            exists|a: int, b: int|
                0 <= a < i && wants_workspace(entries[a]) && 0 <= b
                    < entries[a].workspace_crates.len() && entries[a].workspace_crates@[b]@ == n,
    )
}

/// The first `j` crates an entry names.
pub open spec fn crates_upto(e: SpecEntry, j: int) -> Set<Seq<char>> {
    Set::new(|n: Seq<char>| exists|b: int| 0 <= b < j && e.workspace_crates@[b]@ == n)
}

/// Whether some generate-mode entry with workspace types names no crate,
/// which asks for all of them.
pub open spec fn wants_every_crate(entries: Seq<SpecEntry>) -> bool {
    exists|i: int|
        0 <= i < entries.len() && wants_workspace(entries[i]) && entries[i].workspace_crates.len()
            == 0
}

impl SpecConfig {
    /// The entry governing a spec file: the first one declared for it.
    pub fn for_path(&self, path: &str) -> (r: Option<&SpecEntry>)
        ensures
            match entry_for(self.entries@, path@, 0) {
                Some(i) => r == Some(&self.entries@[i]),
                None => r is None,
            },
    {
        let mut i: usize = 0;
        while i < self.entries.len()
            invariant
                i <= self.entries.len(),
                entry_for(self.entries@, path@, i as int) == entry_for(self.entries@, path@, 0),
            decreases self.entries.len() - i,
        {
            if str_eq(self.entries[i].path.as_str(), path) {
                return Some(&self.entries[i]);
            }
            i = i + 1;
        }
        None
    }

    /// Whether a spec file should be generated. Files with no entry are
    /// checked.
    pub fn mode_of(&self, path: &str) -> (r: Mode)
        ensures
            r == match entry_for(self.entries@, path@, 0) {
                Some(i) => self.entries@[i].mode,
                None => Mode::Check,
            },
    {
        match self.for_path(path) {
            Some(e) => e.mode,
            None => Mode::Check,
        }
    }

    /// Whether any generate-mode entry wants workspace-local types resolved.
    /// The rustdoc builds are per package, not per spec file, so one entry
    /// asking for them is enough.
    pub fn workspace_types(&self) -> (r: bool)
        ensures
            r == exists|i: int| 0 <= i < self.entries.len() && wants_workspace(self.entries@[i]),
    {
        let mut i: usize = 0;
        while i < self.entries.len()
            invariant
                i <= self.entries.len(),
                forall|k: int| 0 <= k < i ==> !wants_workspace(#[trigger] self.entries@[k]),
            decreases self.entries.len() - i,
        {
            if self.entries[i].mode == Mode::Generate && self.entries[i].workspace_types {
                return true;
            }
            i = i + 1;
        }
        false
    }

    /// The union of every generate-mode entry's `workspace_crates`, sorted
    /// and without repeats. Empty means "every workspace member the package
    /// depends on" — which one entry naming none asks for, and no narrowing
    /// by another entry may take away.
    pub fn workspace_crates(&self) -> (r: Vec<String>)
        ensures
            wants_every_crate(self.entries@) ==> r@.len() == 0,
            !wants_every_crate(self.entries@) ==> {
                &&& r@.map_values(|s: String| s@).to_set() == named_crates(self.entries@)
                &&& sorted_strict(r@.map_values(|s: String| s@))
            },
    {
        let ghost es = self.entries@;
        let mut names: Vec<Vec<char>> = Vec::new();
        let mut i: usize = 0;
        proof {
            assert(cv(names@).to_set() =~= named_upto(es, 0));
        }
        while i < self.entries.len()
            invariant
                es == self.entries@,
                i <= self.entries.len(),
                sorted_strict(cv(names@)),
                forall|k: int|
                    0 <= k < i ==> !(wants_workspace(#[trigger] es[k])
                        && es[k].workspace_crates.len() == 0),
                cv(names@).to_set() == named_upto(es, i as int),
            decreases self.entries.len() - i,
        {
            let e = &self.entries[i];
            if e.mode == Mode::Generate && e.workspace_types {
                if e.workspace_crates.len() == 0 {
                    return Vec::new();
                }
                let mut j: usize = 0;
                let ghost base = cv(names@).to_set();
                proof {
                    assert(base.union(crates_upto(*e, 0)) =~= base);
                }
                while j < e.workspace_crates.len()
                    invariant
                        es == self.entries@,
                        i < self.entries.len(),
                        *e == es[i as int],
                        j <= e.workspace_crates.len(),
                        sorted_strict(cv(names@)),
                        cv(names@).to_set() == base.union(crates_upto(*e, j as int)),
                    decreases e.workspace_crates.len() - j,
                {
                    let c = chars_of(e.workspace_crates[j].as_str());
                    insert_sorted(&mut names, c);
                    proof {
                        assert forall|n: Seq<char>|
                            #[trigger] crates_upto(*e, j + 1).contains(n) <==> (crates_upto(
                                *e,
                                j as int,
                            ).contains(n) || n == c@) by {
                            if n == c@ {
                                assert(e.workspace_crates@[j as int]@ == n);
                            }
                            if crates_upto(*e, j + 1).contains(n) {
                                let b = choose|b: int| 0 <= b < j + 1 && e.workspace_crates@[b]@ == n;
                                if b < j {
                                    assert(crates_upto(*e, j as int).contains(n));
                                }
                            }
                        }
                        assert(cv(names@).to_set() =~= base.union(crates_upto(*e, j + 1)));
                    }
                    j = j + 1;
                }
                proof {
                    assert forall|n: Seq<char>|
                        #[trigger] named_upto(es, i + 1).contains(n) <==> (named_upto(
                            es,
                            i as int,
                        ).contains(n) || crates_upto(*e, j as int).contains(n)) by {
                        if named_upto(es, i + 1).contains(n) {
                            let (a, b) = choose|a: int, b: int|
                                0 <= a < i + 1 && wants_workspace(es[a]) && 0 <= b
                                    < es[a].workspace_crates.len() && es[a].workspace_crates@[b]@
                                    == n;
                            if a < i {
                                assert(named_upto(es, i as int).contains(n));
                            } else {
                                assert(crates_upto(*e, j as int).contains(n));
                            }
                        }
                        if named_upto(es, i as int).contains(n) {
                            let (a, b) = choose|a: int, b: int|
                                0 <= a < i && wants_workspace(es[a]) && 0 <= b
                                    < es[a].workspace_crates.len() && es[a].workspace_crates@[b]@
                                    == n;
                            assert(named_upto(es, i + 1).contains(n));
                        }
                        if crates_upto(*e, j as int).contains(n) {
                            let b = choose|b: int| 0 <= b < j && e.workspace_crates@[b]@ == n;
                            assert(es[i as int].workspace_crates@[b]@ == n);
                            assert(named_upto(es, i + 1).contains(n));
                        }
                    }
                    assert(cv(names@).to_set() =~= named_upto(es, i + 1));
                }
            } else {
                proof {
                    assert forall|n: Seq<char>|
                        #[trigger] named_upto(es, i + 1).contains(n) <==> named_upto(
                            es,
                            i as int,
                        ).contains(n) by {
                        if named_upto(es, i + 1).contains(n) {
                            let (a, b) = choose|a: int, b: int|
                                0 <= a < i + 1 && wants_workspace(es[a]) && 0 <= b
                                    < es[a].workspace_crates.len() && es[a].workspace_crates@[b]@
                                    == n;
                            assert(a != i);
                            assert(named_upto(es, i as int).contains(n));
                        }
                        if named_upto(es, i as int).contains(n) {
                            let (a, b) = choose|a: int, b: int|
                                0 <= a < i && wants_workspace(es[a]) && 0 <= b
                                    < es[a].workspace_crates.len() && es[a].workspace_crates@[b]@
                                    == n;
                            assert(named_upto(es, i + 1).contains(n));
                        }
                    }
                    assert(cv(names@).to_set() =~= named_upto(es, i + 1));
                }
            }
            i = i + 1;
        }
        proof {
            assert(named_crates(es) =~= named_upto(es, es.len() as int));
        }
        let mut out: Vec<String> = Vec::new();
        let mut k: usize = 0;
        while k < names.len()
            invariant
                k <= names.len(),
                out@.map_values(|s: String| s@) == cv(names@).take(k as int),
            decreases names.len() - k,
        {
            let s = crate::text::string_of(names[k].as_slice());
            let ghost before = out@.map_values(|s: String| s@);
            out.push(s);
            assert(out@.map_values(|s: String| s@) =~= before.push(s@));
            assert(cv(names@).take(k + 1) =~= cv(names@).take(k as int).push(names@[k as int]@));
            k = k + 1;
        }
        assert(cv(names@).take(names.len() as int) =~= cv(names@));
        out
    }
}

} // verus!
