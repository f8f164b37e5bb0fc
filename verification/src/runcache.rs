//! The run cache's rules: what identifies a measurement (the commit and
//! every condition outside it that moves the numbers), and which stored
//! runs are dropped once more than [`KEEP`] are kept.

use vstd::prelude::*;

use crate::buildstamp::BuildStamp;
use crate::invoke::{lock_packages, opt_view, spec_lock_packages, CommonArgs, LockPkg, LockPkgView};
use crate::text::{
    chars_of, copy_str, has_prefix, lines_chars, lines_of, slice_chars, starts_with_chars, string_of,
    trim_chars, trimmed,
};
use crate::toml_lines::find_from;

verus! {

/// Runs kept before the oldest are dropped.
pub const KEEP: usize = 32;

/// `parts` joined with `sep` between each two, as `[..].join(sep)` gives it.
pub open spec fn join_sep(parts: Seq<Seq<char>>, sep: Seq<char>) -> Seq<char>
    decreases parts.len(),
{
    if parts.len() == 0 {
        Seq::empty()
    } else if parts.len() == 1 {
        parts[0]
    } else {
        join_sep(parts.drop_last(), sep) + sep + parts.last()
    }
}

/// See [`join_sep`].
pub fn join_strs(parts: &Vec<String>, sep: &str) -> (r: String)
    ensures
        r@ == join_sep(parts@.map_values(|s: String| s@), sep@),
{
    let ghost ps = parts@.map_values(|s: String| s@);
    proof {
        reveal_strlit("");
    }
    let mut r = copy_str("");
    assert(ps.take(0) =~= Seq::<Seq<char>>::empty());
    assert(r@ =~= Seq::<char>::empty());
    let mut i: usize = 0;
    while i < parts.len()
        invariant
            i <= parts@.len(),
            ps == parts@.map_values(|s: String| s@),
            r@ == join_sep(ps.take(i as int), sep@),
        decreases parts.len() - i,
    {
        if i > 0 {
            r.append(sep);
        }
        r.append(parts[i].as_str());
        proof {
            assert(ps.take(i + 1).drop_last() =~= ps.take(i as int));
            assert(ps.take(i + 1).last() == parts@[i as int]@);
            if i == 0 {
                assert(r@ =~= ps.take(1)[0]);
            }
        }
        i = i + 1;
    }
    assert(ps.take(parts@.len() as int) =~= ps);
    r
}

/// An optional flag's value, or nothing.
pub open spec fn or_empty(o: Option<Seq<char>>) -> Seq<char> {
    match o {
        Some(s) => s,
        None => Seq::empty(),
    }
}

/// What identifies a measurement, field by field: the commit, the build
/// conditions (but not the profiles, which follow from the commit), the
/// machine, the harness crates, and the run's scope.
pub open spec fn identity_fields(
    sha: Seq<char>,
    stamp: BuildStamp,
    common: CommonArgs,
    cpu: Seq<char>,
    harness: Seq<char>,
) -> Seq<Seq<char>> {
    seq![
        sha,
        stamp.rustc@,
        stamp.codegen_units@,
        stamp.rustflags@,
        cpu,
        harness,
        or_empty(opt_view(common.pkg)),
        or_empty(opt_view(common.features)),
        or_empty(opt_view(common.target)),
        or_empty(opt_view(common.backend)),
        or_empty(opt_view(common.samples)),
        or_empty(opt_view(common.filter)),
    ]
}

fn flag_or_empty(o: &Option<String>) -> (r: String)
    ensures
        r@ == or_empty(opt_view(*o)),
{
    match o {
        Some(s) => copy_str(s.as_str()),
        None => {
            proof {
                reveal_strlit("");
            }
            let e = copy_str("");
            assert(e@ =~= Seq::<char>::empty());
            e
        },
    }
}

/// The text the run cache hashes into a key: [`identity_fields`] joined
/// with `\u{1}`. `cpu` is the machine's CPU model and `harness` the
/// harness crates the workspace lock pins.
pub fn run_identity(sha: &str, stamp: &BuildStamp, common: &CommonArgs, cpu: &str, harness: &str) -> (r: String)
    ensures
        r@ == join_sep(identity_fields(sha@, *stamp, *common, cpu@, harness@), "\u{1}"@),
{
    let mut parts: Vec<String> = Vec::new();
    parts.push(copy_str(sha));
    parts.push(copy_str(stamp.rustc.as_str()));
    parts.push(copy_str(stamp.codegen_units.as_str()));
    parts.push(copy_str(stamp.rustflags.as_str()));
    parts.push(copy_str(cpu));
    parts.push(copy_str(harness));
    parts.push(flag_or_empty(&common.pkg));
    parts.push(flag_or_empty(&common.features));
    parts.push(flag_or_empty(&common.target));
    parts.push(flag_or_empty(&common.backend));
    parts.push(flag_or_empty(&common.samples));
    parts.push(flag_or_empty(&common.filter));
    assert(parts@.map_values(|s: String| s@) =~= identity_fields(sha@, *stamp, *common, cpu@, harness@));
    join_strs(&parts, "\u{1}")
}

/// The part after `model name` of the first line of `lines` (from `i`)
/// that starts with it.
pub open spec fn model_line(lines: Seq<Seq<char>>, i: int) -> Option<Seq<char>>
    decreases lines.len() - i,
{
    if i < 0 || i >= lines.len() {
        None
    } else if has_prefix(lines[i], "model name"@) {
        Some(lines[i].subrange("model name"@.len() as int, lines[i].len() as int))
    } else {
        model_line(lines, i + 1)
    }
}

/// The CPU model `/proc/cpuinfo` names: what follows the first `:` of its
/// first `model name` line, trimmed; empty when there is none.
pub open spec fn spec_cpu_model(text: Seq<char>) -> Seq<char> {
    match model_line(lines_of(text), 0) {
        Some(rest) => match find_from(rest, ':', 0) {
            Some(k) => trimmed(rest.subrange(k + 1, rest.len() as int)),
            None => Seq::empty(),
        },
        None => Seq::empty(),
    }
}

/// See [`spec_cpu_model`].
pub fn cpu_model_of(text: &str) -> (r: String)
    ensures
        r@ == spec_cpu_model(text@),
{
    let lines = lines_chars(&chars_of(text));
    let ghost ls = lines@.map_values(|p: Vec<char>| p@);
    let prefix = chars_of("model name");
    let mut i: usize = 0;
    while i < lines.len()
        invariant
            ls == lines@.map_values(|p: Vec<char>| p@),
            ls == lines_of(text@),
            prefix@ == "model name"@,
            i <= lines@.len(),
            model_line(ls, i as int) == model_line(ls, 0),
        decreases lines.len() - i,
    {
        assert(ls[i as int] == lines@[i as int]@);
        if starts_with_chars(&lines[i], &prefix) {
            let rest = slice_chars(&lines[i], prefix.len(), lines[i].len());
            assert(model_line(ls, 0) == Some(rest@));
            let mut k: usize = 0;
            while k < rest.len()
                invariant
                    ls == lines_of(text@),
                    model_line(ls, 0) == Some(rest@),
                    k <= rest@.len(),
                    find_from(rest@, ':', k as int) == find_from(rest@, ':', 0),
                decreases rest.len() - k,
            {
                if rest[k] == ':' {
                    let value = slice_chars(&rest, k + 1, rest.len());
                    return string_of(trim_chars(&value).as_slice());
                }
                k = k + 1;
            }
            let e = string_of(Vec::<char>::new().as_slice());
            assert(e@ =~= Seq::<char>::empty());
            return e;
        }
        i = i + 1;
    }
    let e = string_of(Vec::<char>::new().as_slice());
    assert(e@ =~= Seq::<char>::empty());
    e
}

/// Whether a lock entry is one of the harness crates.
pub open spec fn is_harness_crate(name: Seq<char>) -> bool {
    name == "soothfast"@ || has_prefix(name, "soothfast-"@)
}

/// The harness crates of a lock, in order, as `name@version`.
pub open spec fn harness_lines(pkgs: Seq<LockPkgView>) -> Seq<Seq<char>>
    decreases pkgs.len(),
{
    if pkgs.len() == 0 {
        Seq::empty()
    } else if is_harness_crate(pkgs.last().0) {
        harness_lines(pkgs.drop_last()).push(pkgs.last().0 + "@"@ + pkgs.last().1)
    } else {
        harness_lines(pkgs.drop_last())
    }
}

/// The harness crates a Cargo.lock text pins, one `name@version` line each.
pub fn harness_versions_of(lock: &str) -> (r: String)
    ensures
        r@ == join_sep(harness_lines(spec_lock_packages(lock@)), "\n"@),
{
    let pkgs = lock_packages(lock);
    let ghost pv = pkgs@.map_values(|p: LockPkg| p.view3());
    let soothfast = chars_of("soothfast");
    let dash = chars_of("soothfast-");
    let mut out: Vec<String> = Vec::new();
    let mut i: usize = 0;
    while i < pkgs.len()
        invariant
            i <= pkgs@.len(),
            pv == pkgs@.map_values(|p: LockPkg| p.view3()),
            soothfast@ == "soothfast"@,
            dash@ == "soothfast-"@,
            out@.map_values(|s: String| s@) == harness_lines(pv.take(i as int)),
        decreases pkgs.len() - i,
    {
        let ghost before = out@.map_values(|s: String| s@);
        assert(pv.take(i + 1).drop_last() =~= pv.take(i as int));
        assert(pv.take(i + 1).last() == pkgs@[i as int].view3());
        let name = chars_of(pkgs[i].name.as_str());
        if crate::text::chars_eq(&name, &soothfast) || starts_with_chars(&name, &dash) {
            let mut line = copy_str(pkgs[i].name.as_str());
            line.append("@");
            line.append(pkgs[i].version.as_str());
            out.push(line);
            assert(out@.map_values(|s: String| s@) =~= before.push(
                pkgs@[i as int].name@ + "@"@ + pkgs@[i as int].version@,
            ));
        }
        i = i + 1;
    }
    assert(pv.take(pkgs@.len() as int) =~= pv);
    join_strs(&out, "\n")
}

/// Whether run `j` comes before run `i` newest first: it is newer, or as
/// new and listed earlier.
pub open spec fn ahead(times: Seq<u128>, j: int, i: int) -> bool {
    times[j] > times[i] || (times[j] == times[i] && j < i)
}

/// How many of the runs before index `j` come before run `i`.
pub open spec fn ahead_of(times: Seq<u128>, i: int, j: int) -> nat
    decreases j,
{
    if j <= 0 {
        0
    } else {
        ahead_of(times, i, j - 1) + if ahead(times, j - 1, i) {
            1nat
        } else {
            0nat
        }
    }
}

/// A stored run's place when the runs are ordered newest first (ties in
/// listing order).
pub open spec fn rank(times: Seq<u128>, i: int) -> nat {
    ahead_of(times, i, times.len() as int)
}

/// Which stored runs to drop, given when each was written: every one past
/// the [`KEEP`] newest, in listing order.
pub fn prune_victims(times: &Vec<u128>) -> (r: Vec<usize>)
    ensures
        forall|k: int| 0 <= k < r@.len() ==> #[trigger] r@[k] < times@.len() && rank(times@, r@[k] as int) >= KEEP,
        forall|i: int| 0 <= i < times@.len() && rank(times@, i) >= KEEP ==> r@.contains(i as usize),
        forall|a: int, b: int| 0 <= a < b < r@.len() ==> r@[a] < r@[b],
{
    let mut r: Vec<usize> = Vec::new();
    let mut i: usize = 0;
    while i < times.len()
        invariant
            i <= times@.len(),
            forall|k: int| 0 <= k < r@.len() ==> #[trigger] r@[k] < i && rank(times@, r@[k] as int) >= KEEP,
            forall|x: int| 0 <= x < i && rank(times@, x) >= KEEP ==> r@.contains(x as usize),
            forall|a: int, b: int| 0 <= a < b < r@.len() ==> r@[a] < r@[b],
        decreases times.len() - i,
    {
        let mut count: usize = 0;
        let mut j: usize = 0;
        while j < times.len()
            invariant
                i < times@.len(),
                j <= times@.len(),
                count == ahead_of(times@, i as int, j as int),
                count <= j,
            decreases times.len() - j,
        {
            if times[j] > times[i] || (times[j] == times[i] && j < i) {
                assert(ahead(times@, j as int, i as int));
                count = count + 1;
            }
            j = j + 1;
        }
        let ghost before = r@;
        if count >= KEEP {
            r.push(i);
            proof {
                assert forall|x: int| 0 <= x < i + 1 && rank(times@, x) >= KEEP implies r@.contains(
                    x as usize,
                ) by {
                    if x == i {
                        assert(r@[r@.len() - 1] == i);
                    } else {
                        let k = choose|k: int| 0 <= k < before.len() && before[k] == x as usize;
                        assert(r@[k] == x as usize);
                    }
                }
            }
        }
        i = i + 1;
    }
    r
}

proof fn lemma_ahead_counts(times: Seq<u128>, i: int, j: int, m: int)
    requires
        0 <= i < times.len(),
        0 <= j < times.len(),
        ahead(times, j, i),
        0 <= m <= times.len(),
    ensures
        ahead_of(times, i, m) >= ahead_of(times, j, m) + if j < m {
            1int
        } else {
            0int
        },
    decreases m,
{
    if m > 0 {
        lemma_ahead_counts(times, i, j, m - 1);
    }
}

proof fn lemma_ahead_of_bound(times: Seq<u128>, i: int, m: int)
    requires
        0 <= i < times.len(),
        0 <= m <= times.len(),
    ensures
        ahead_of(times, i, m) <= if i < m {
            m - 1
        } else {
            m
        },
    decreases m,
{
    if m > 0 {
        lemma_ahead_of_bound(times, i, m - 1);
    }
}

proof fn lemma_ranks_distinct(times: Seq<u128>, i: int, j: int)
    requires
        0 <= i < times.len(),
        0 <= j < times.len(),
        i != j,
    ensures
        rank(times, i) != rank(times, j),
{
    if ahead(times, j, i) {
        lemma_ahead_counts(times, i, j, times.len() as int);
    } else {
        lemma_ahead_counts(times, j, i, times.len() as int);
    }
}

/// The runs a pruning keeps: those among the [`KEEP`] newest.
pub open spec fn survivors(times: Seq<u128>) -> Set<int> {
    Set::new(|i: int| 0 <= i < times.len() && rank(times, i) < KEEP)
}

/// A pruning leaves at most [`KEEP`] runs, since no two runs share a place
/// in the newest-first order; and with no more than [`KEEP`] runs stored it
/// drops none.
pub proof fn law_prune_leaves_at_most_keep(times: Seq<u128>)
    ensures
        survivors(times).finite(),
        survivors(times).len() <= KEEP,
        times.len() <= KEEP ==> forall|i: int| 0 <= i < times.len() ==> #[trigger] rank(times, i) < KEEP,
{
    let s = survivors(times);
    let f = |i: int| rank(times, i) as int;
    let below = vstd::set_lib::set_int_range(0, KEEP as int);
    assert(s.subset_of(vstd::set_lib::set_int_range(0, times.len() as int)));
    vstd::set_lib::lemma_int_range(0, times.len() as int);
    vstd::set_lib::lemma_len_subset(s, vstd::set_lib::set_int_range(0, times.len() as int));
    assert(vstd::relations::injective_on(f, s)) by {
        assert forall|a: int, b: int| s.contains(a) && s.contains(b) && #[trigger] f(a) == #[trigger] f(b) implies a == b by {
            if a != b {
                lemma_ranks_distinct(times, a, b);
            }
        }
    }
    vstd::set_lib::lemma_map_size(s, s.map(f), f);
    assert(s.map(f).subset_of(below));
    vstd::set_lib::lemma_int_range(0, KEEP as int);
    vstd::set_lib::lemma_len_subset(s.map(f), below);
    assert forall|i: int| 0 <= i < times.len() implies #[trigger] rank(times, i) <= times.len() - 1 by {
        lemma_ahead_of_bound(times, i, times.len() as int);
    }
}

} // verus!
