//! Decisions of the regression gate that rest on exact integers and names:
//! whether a run may become a baseline, which runner arguments the
//! identical-binaries pass uses, the integer-metric thresholds, and which
//! vanished reference entries count as gone.

use vstd::prelude::*;

use crate::invoke::{buildcost_key, is_buildcost_key, opt_view, spec_id_pkg, spec_scope_keeps, SaveScope};
use crate::keyed::{keyed_map, keyed_wf};
use crate::workspace::{cv, insert_sorted, sorted_strict};
use crate::text::{
    chars_eq, chars_of, contains_chars, contains_seq, copy_str, lemma_split_walk_nonempty,
    replace_char, replaced, slice_chars, split_by, split_chars, str_eq, string_of,
};

verus! {

/// Allocation counts/bytes are deterministic; gate at +5%.
pub const ALLOC_THRESHOLD_PCT: u64 = 5;

/// Binary size is deterministic; gate at +5%.
pub const SIZE_THRESHOLD_PCT: u64 = 5;

/// Poll/wake counts on the counting executor are exact; gate them like
/// allocations.
pub const ASYNC_THRESHOLD_PCT: u64 = 5;

/// Whether a `--save-baseline` request may persist this run. A failing run
/// is never saved (it would ratify its own regression), and the identical-
/// binaries short-circuit run carries no gating counters.
#[derive(Debug, PartialEq, Eq, Structural)]
pub enum SaveVerdict {
    Save,
    RefuseFailing,
    SkipShortCircuit,
}

/// The save decision: any failure refuses, otherwise a short-circuited run
/// is skipped, otherwise the run is saved.
pub fn save_verdict(failures: u32, short_circuited: bool) -> (v: SaveVerdict)
    ensures
        failures > 0 ==> v == SaveVerdict::RefuseFailing,
        failures == 0 && short_circuited ==> v == SaveVerdict::SkipShortCircuit,
        failures == 0 && !short_circuited ==> v == SaveVerdict::Save,
{
    if failures > 0 {
        SaveVerdict::RefuseFailing
    } else if short_circuited {
        SaveVerdict::SkipShortCircuit
    } else {
        SaveVerdict::Save
    }
}

/// Whether a named backend is one of the gating counters.
pub open spec fn is_gating_counter(backend: Option<Seq<char>>) -> bool {
    backend == Some("perfcnt"@) || backend == Some("callgrind"@)
}

/// Runner args for the single pass taken when both sides' binaries match.
/// A backend named on the command line may be one of the gating counters,
/// which measures nothing once those counters are skipped, so it keeps
/// them; otherwise the pass skips them.
pub fn identical_pass_args(backend: Option<&str>) -> (r: Vec<String>)
    ensures
        is_gating_counter(match backend {
            Some(b) => Some(b@),
            None => None,
        }) ==> r@.len() == 0,
        !is_gating_counter(match backend {
            Some(b) => Some(b@),
            None => None,
        }) ==> r@.len() == 1 && r@[0]@ == "--skip-gating-counters"@,
{
    proof {
        reveal_strlit("perfcnt");
        reveal_strlit("callgrind");
    }
    let counter = match backend {
        Some(b) => str_eq(b, "perfcnt") || str_eq(b, "callgrind"),
        None => false,
    };
    let mut r: Vec<String> = Vec::new();
    if !counter {
        r.push(crate::text::copy_str("--skip-gating-counters"));
    }
    r
}

/// The smaller of two optional counters; one present side wins alone.
pub fn min_opt_u(a: Option<u64>, b: Option<u64>) -> (r: Option<u64>)
    ensures
        r == match (a, b) {
            (Some(x), Some(y)) => Some(if x <= y { x } else { y }),
            (Some(x), None) => Some(x),
            (None, y) => y,
        },
{
    match (a, b) {
        (Some(x), Some(y)) => Some(if x <= y { x } else { y }),
        (x, y) => if x.is_some() { x } else { y },
    }
}

/// How one metric fared.
#[derive(Debug, PartialEq, Eq, Structural, Clone, Copy)]
pub enum Verdict {
    /// Within its threshold.
    Pass,
    /// Over its threshold, but within a reviewed accepted ceiling.
    Accepted,
    /// Over its threshold: a regression.
    Fail,
    /// Over its threshold, but reported only: a soft metric, or one whose
    /// failure an anti-flake rule downgraded.
    Soft,
}

/// The verdict of a relative metric (instructions, IR, walltime, build
/// time) once its delta is known. `fail`: the delta exceeded its limit;
/// `hard`: the metric gates (build time only warns); `downgraded`: an
/// anti-flake rule explains the failure away; `accept`: what the lock file
/// says of the new value, consulted only for a hard, undowngraded failure.
/// An accepted entry takes precedence over a plain FAIL, but not over a
/// downgrade.
pub open spec fn spec_rel_verdict(fail: bool, hard: bool, downgraded: bool, accept: Option<bool>) -> Verdict {
    if !fail {
        Verdict::Pass
    } else if hard && !downgraded {
        if accept == Some(true) {
            Verdict::Accepted
        } else {
            Verdict::Fail
        }
    } else {
        Verdict::Soft
    }
}

/// See [`spec_rel_verdict`].
pub fn rel_verdict(fail: bool, hard: bool, downgraded: bool, accept: Option<bool>) -> (v: Verdict)
    ensures
        v == spec_rel_verdict(fail, hard, downgraded, accept),
{
    if !fail {
        Verdict::Pass
    } else if hard && !downgraded {
        match accept {
            Some(true) => Verdict::Accepted,
            _ => Verdict::Fail,
        }
    } else {
        Verdict::Soft
    }
}

/// The outcome of an integer metric check: the verdict and the largest
/// value it allowed.
#[derive(Debug, PartialEq, Eq, Structural, Clone, Copy)]
pub struct IntCheck {
    pub verdict: Verdict,
    pub allowed: u64,
}

/// The ceiling an integer metric is held to: the reference value plus
/// `pct` percent of it, rounded down. A reference of zero allows nothing
/// (zero-alloc stays zero-alloc).
pub open spec fn int_allowed(old: u64, pct: u64) -> int {
    old + (old * pct) / 100
}

/// An integer metric (allocations, bytes, binary size, polls, wakes) against
/// its reference. `None` when either side lacks the metric. Over the ceiling
/// it fails, unless `accept` (what the lock file says of this metric's new
/// value, consulted only for a failing one) is `Some(true)`.
pub fn int_check(old_v: Option<u64>, new_v: Option<u64>, pct: u64, accept: Option<bool>) -> (r:
    Option<IntCheck>)
    requires
        old_v matches Some(o) ==> o * pct <= u64::MAX && int_allowed(o, pct) <= u64::MAX,
    ensures
        match (old_v, new_v) {
            (Some(o), Some(n)) => r == Some(
                IntCheck {
                    allowed: int_allowed(o, pct) as u64,
                    verdict: if n <= int_allowed(o, pct) {
                        Verdict::Pass
                    } else if accept == Some(true) {
                        Verdict::Accepted
                    } else {
                        Verdict::Fail
                    },
                },
            ),
            _ => r is None,
        },
{
    match (old_v, new_v) {
        (Some(o), Some(n)) => {
            let allowed = o + o * pct / 100;
            let verdict = if n <= allowed {
                Verdict::Pass
            } else {
                match accept {
                    Some(true) => Verdict::Accepted,
                    _ => Verdict::Fail,
                }
            };
            Some(IntCheck { verdict, allowed })
        },
        _ => None,
    }
}

/// Whether a reference entry missing from the current run is in this run's
/// scope (and so counts as GONE). Out-of-scope disappearances are expected:
/// a `--filter` run only measures matching ids, bench runs never see
/// buildcost items (and the reverse), and `-p PKG` never sees other
/// packages' entries — bench ids start with the normalized package,
/// buildcost ids embed the raw one (`buildcost::PKG::combo`).
pub open spec fn spec_gone_in_scope(
    id: Seq<char>,
    filter: Option<Seq<char>>,
    buildcost_mode: bool,
    pkg: Option<Seq<char>>,
) -> bool {
    let filtered_out = match filter {
        Some(f) => !contains_seq(id, f),
        None => false,
    };
    let out_of_mode = is_buildcost_key(id) != buildcost_mode;
    let other_pkg = match pkg {
        Some(p) => if is_buildcost_key(id) {
            split_by(id.subrange(11, id.len() as int), "::"@)[0] != p
        } else {
            spec_id_pkg(id) != replaced(p, '-', '_')
        },
        None => false,
    };
    !(filtered_out || out_of_mode || other_pkg)
}

/// An optional string as plain values.
pub open spec fn osv(o: Option<&str>) -> Option<Seq<char>> {
    match o {
        Some(s) => Some(s@),
        None => None,
    }
}

/// Whether a reference entry `id` the current run lacks is in its scope,
/// so that its disappearance counts (see [`spec_gone_in_scope`]).
pub fn gone_in_scope(id: &str, filter: Option<&str>, buildcost_mode: bool, pkg: Option<&str>) -> (r:
    bool)
    ensures
        r == spec_gone_in_scope(id@, osv(filter), buildcost_mode, osv(pkg)),
{
    let v = chars_of(id);
    let filtered_out = match filter {
        Some(f) => !contains_chars(&v, &chars_of(f)),
        None => false,
    };
    let bc = buildcost_key(&v);
    let out_of_mode = bc != buildcost_mode;
    let sep = chars_of("::");
    proof {
        reveal_strlit("::");
        reveal_strlit("buildcost::");
    }
    let other_pkg = match pkg {
        Some(p) => {
            if bc {
                let rest = slice_chars(&v, 11, v.len());
                proof {
                    lemma_split_walk_nonempty(rest@, sep@, 0, 0);
                }
                let parts = split_chars(&rest, &sep);
                assert(parts@.map_values(|q: Vec<char>| q@)[0] == parts@[0]@);
                !chars_eq(&parts[0], &chars_of(p))
            } else {
                proof {
                    lemma_split_walk_nonempty(v@, sep@, 0, 0);
                }
                let parts = split_chars(&v, &sep);
                assert(parts@.map_values(|q: Vec<char>| q@)[0] == parts@[0]@);
                !chars_eq(&parts[0], &replace_char(p, '-', '_'))
            }
        },
        None => false,
    };
    !(filtered_out || out_of_mode || other_pkg)
}

/// Strings as plain values.
pub open spec fn strs(v: Seq<String>) -> Seq<Seq<char>> {
    v.map_values(|s: String| s@)
}

/// Whether `v` holds a string equal to `s`.
pub fn contains_str(v: &Vec<String>, s: &str) -> (r: bool)
    ensures
        r == strs(v@).contains(s@),
{
    let mut i: usize = 0;
    while i < v.len()
        invariant
            i <= v.len(),
            forall|j: int| 0 <= j < i ==> v@[j]@ != s@,
        decreases v.len() - i,
    {
        if str_eq(v[i].as_str(), s) {
            assert(strs(v@)[i as int] == s@);
            return true;
        }
        i = i + 1;
    }
    proof {
        if strs(v@).contains(s@) {
            let j = choose|j: int| 0 <= j < strs(v@).len() && strs(v@)[j] == s@;
            assert(v@[j]@ == s@);
        }
    }
    false
}

/// Whether a reference entry is gone: the current run did not measure it,
/// and it lies in the run's scope (see [`spec_gone_in_scope`]).
pub open spec fn is_gone(
    current: Seq<Seq<char>>,
    filter: Option<Seq<char>>,
    buildcost_mode: bool,
    pkg: Option<Seq<char>>,
    id: Seq<char>,
) -> bool {
    !current.contains(id) && spec_gone_in_scope(id, filter, buildcost_mode, pkg)
}

/// The reference entries, in reference order, that are gone from the
/// current run. Each one counts as a failure unless `--allow-gone` says
/// its removal is intentional: deleting a regressed bench (or losing its
/// records) must not make a failing comparison pass.
pub fn gone_ids(
    reference: &Vec<String>,
    current: &Vec<String>,
    filter: Option<&str>,
    buildcost_mode: bool,
    pkg: Option<&str>,
) -> (r: Vec<String>)
    ensures
        strs(r@) == strs(reference@).filter(
            |id: Seq<char>| is_gone(strs(current@), osv(filter), buildcost_mode, osv(pkg), id),
        ),
{
    let ghost pred = |id: Seq<char>| is_gone(strs(current@), osv(filter), buildcost_mode, osv(pkg), id);
    let mut r: Vec<String> = Vec::new();
    let mut i: usize = 0;
    while i < reference.len()
        invariant
            i <= reference.len(),
            pred == (|id: Seq<char>| is_gone(strs(current@), osv(filter), buildcost_mode, osv(pkg), id)),
            strs(r@) == strs(reference@).take(i as int).filter(pred),
        decreases reference.len() - i,
    {
        let id = reference[i].as_str();
        let gone = !contains_str(current, id) && gone_in_scope(id, filter, buildcost_mode, pkg);
        let ghost before = strs(r@);
        proof {
            reveal(Seq::filter);
            let t = strs(reference@).take(i as int + 1);
            assert(t.drop_last() =~= strs(reference@).take(i as int));
            assert(t.last() == id@);
        }
        if gone {
            r.push(copy_str(id));
            assert(strs(r@) =~= before.push(id@));
        }
        i = i + 1;
    }
    assert(strs(reference@).take(reference@.len() as int) =~= strs(reference@));
    r
}

/// The reference entries gone from a run, in reference order (see
/// [`is_gone`]).
pub open spec fn gone_of(
    reference: Seq<Seq<char>>,
    current: Seq<Seq<char>>,
    filter: Option<Seq<char>>,
    buildcost_mode: bool,
    pkg: Option<Seq<char>>,
) -> Seq<Seq<char>> {
    reference.filter(|id: Seq<char>| is_gone(current, filter, buildcost_mode, pkg, id))
}

/// How many failures the gone entries add: one each, none under
/// `--allow-gone`.
pub open spec fn gone_failures(gone: Seq<Seq<char>>, allow_gone: bool) -> nat {
    if allow_gone {
        0
    } else {
        gone.len()
    }
}

/// The report line for a gone entry.
pub open spec fn gone_line(label: Seq<char>, id: Seq<char>, allow_gone: bool) -> Seq<char> {
    if allow_gone {
        "GONE  "@ + label + id + " (in reference, not measured now \u{2014} allowed by --allow-gone)"@
    } else {
        "FAIL  "@ + label + id + " GONE (in reference, not measured now; pass --allow-gone if intentional)"@
    }
}

/// The failures the gone entries add and one report line for each, in
/// order. It names no failing item: a gone entry has nothing to triage.
pub fn gone_report(gone: &Vec<String>, label: &str, allow_gone: bool) -> (r: (usize, Vec<String>))
    ensures
        r.0 == gone_failures(strs(gone@), allow_gone),
        r.1@.len() == gone@.len(),
        forall|i: int| 0 <= i < gone@.len() ==> #[trigger] r.1@[i]@ == gone_line(label@, gone@[i]@, allow_gone),
{
    let mut lines: Vec<String> = Vec::new();
    let mut i: usize = 0;
    while i < gone.len()
        invariant
            i <= gone@.len(),
            lines@.len() == i,
            forall|j: int| 0 <= j < i ==> #[trigger] lines@[j]@ == gone_line(label@, gone@[j]@, allow_gone),
        decreases gone.len() - i,
    {
        let mut line = if allow_gone {
            copy_str("GONE  ")
        } else {
            copy_str("FAIL  ")
        };
        line.append(label);
        line.append(gone[i].as_str());
        if allow_gone {
            line.append(" (in reference, not measured now \u{2014} allowed by --allow-gone)");
        } else {
            line.append(" GONE (in reference, not measured now; pass --allow-gone if intentional)");
        }
        lines.push(line);
        i = i + 1;
    }
    let failures: usize = if allow_gone {
        0
    } else {
        gone.len()
    };
    (failures, lines)
}

/// Entry `i` of the stored run counts as one failure when it is gone
/// (unmeasured and in scope) and `--allow-gone` is off, and as none
/// otherwise: the gone entries of the stored run without it count that
/// much less.
pub proof fn law_a_gone_entry_adds_one_failure(
    reference: Seq<Seq<char>>,
    i: int,
    current: Seq<Seq<char>>,
    filter: Option<Seq<char>>,
    buildcost_mode: bool,
    pkg: Option<Seq<char>>,
    allow_gone: bool,
)
    requires
        0 <= i < reference.len(),
    ensures
        gone_failures(gone_of(reference, current, filter, buildcost_mode, pkg), allow_gone) == gone_failures(
            gone_of(reference.remove(i), current, filter, buildcost_mode, pkg),
            allow_gone,
        ) + if !allow_gone && is_gone(current, filter, buildcost_mode, pkg, reference[i]) {
            1nat
        } else {
            0nat
        },
{
    let pred = |id: Seq<char>| is_gone(current, filter, buildcost_mode, pkg, id);
    let a = reference.take(i);
    let b = reference.skip(i + 1);
    let x = reference[i];
    assert(reference =~= a + seq![x] + b);
    assert(reference.remove(i) =~= a + b);
    Seq::filter_distributes_over_add(a + seq![x], b, pred);
    Seq::filter_distributes_over_add(a, seq![x], pred);
    Seq::filter_distributes_over_add(a, b, pred);
    reveal(Seq::filter);
    assert(seq![x].drop_last() =~= Seq::<Seq<char>>::empty());
    assert(Seq::<Seq<char>>::empty().filter(pred) =~= Seq::<Seq<char>>::empty());
}

/// The refusal of a run that measured nothing, for a gate or an accept:
/// such a run can never pass.
pub open spec fn empty_run_refusal(accepting: bool) -> Seq<char> {
    "measured 0 items \u{2014} check --filter / registry setup; refusing to "@ + if accepting {
        "accept"@
    } else {
        "gate"@
    }
}

/// The error a run that measured `measured_items` items gets before any
/// comparison: [`empty_run_refusal`] when it measured none.
pub fn empty_run_error(measured_items: usize, accepting: bool) -> (r: Option<String>)
    ensures
        r is Some <==> measured_items == 0,
        r is Some ==> r->0@ == empty_run_refusal(accepting),
{
    if measured_items > 0 {
        return None;
    }
    let mut e = copy_str("measured 0 items \u{2014} check --filter / registry setup; refusing to ");
    if accepting {
        e.append("accept");
    } else {
        e.append("gate");
    }
    Some(e)
}

/// The positions below `n` at which `ids` holds `id`, in increasing order.
pub open spec fn indices_of(ids: Seq<Seq<char>>, id: Seq<char>, n: int) -> Seq<usize>
    decreases n,
{
    if n <= 0 {
        Seq::empty()
    } else if ids[n - 1] == id {
        indices_of(ids, id, n - 1).push((n - 1) as usize)
    } else {
        indices_of(ids, id, n - 1)
    }
}

proof fn lemma_indices_absent(ids: Seq<Seq<char>>, id: Seq<char>, n: int)
    requires
        0 <= n <= ids.len(),
        !ids.take(n).contains(id),
    ensures
        indices_of(ids, id, n) == Seq::<usize>::empty(),
    decreases n,
{
    if n > 0 {
        assert(ids.take(n)[n - 1] == ids[n - 1]);
        assert forall|x: Seq<char>| ids.take(n - 1).contains(x) implies ids.take(n).contains(x) by {
            let j = choose|j: int| 0 <= j < n - 1 && #[trigger] ids.take(n - 1)[j] == x;
            assert(ids.take(n)[j] == x);
        }
        lemma_indices_absent(ids, id, n - 1);
    }
}

/// The index lists a keyed sequence of them stands for.
pub open spec fn index_lists(g: Seq<(String, Vec<usize>)>) -> Map<Seq<char>, Seq<usize>> {
    keyed_map(g, |v: Vec<usize>| v@)
}

/// Whether `gate accept --only ID...` selects a bench: with no `--only`,
/// every failing bench is accepted.
pub open spec fn selected(only: Seq<Seq<char>>, id: Seq<char>) -> bool {
    only.len() == 0 || only.contains(id)
}

/// What `gate accept` does with the metrics the comparison left failing.
#[derive(Debug)]
pub enum AcceptPlan {
    /// An `--only` bench that is not currently failing: an unearned entry
    /// would let the lock file accumulate speculative headroom, so the
    /// whole accept is refused.
    NotFailing(String),
    /// Nothing fails, so there is nothing to accept.
    NothingFailing,
    /// Each selected failing bench, in id order, with the positions (in the
    /// failing list) of its failing metrics.
    Record(Vec<(String, Vec<usize>)>),
}

/// Plans `gate accept` from the bench id of each failing metric, in the
/// order the comparison reported them, and the `--only` ids. The first
/// `--only` id that is not failing refuses the accept.
pub fn plan_accept(failed_ids: &Vec<String>, only: &Vec<String>) -> (r: AcceptPlan)
    ensures
        match r {
            AcceptPlan::NotFailing(x) => exists|j: int|
                0 <= j < only@.len() && x@ == only@[j]@ && !strs(failed_ids@).contains(only@[j]@)
                    && forall|k: int| 0 <= k < j ==> strs(failed_ids@).contains(#[trigger] only@[k]@),
            AcceptPlan::NothingFailing => failed_ids@.len() == 0 && only@.len() == 0,
            AcceptPlan::Record(g) => {
                &&& failed_ids@.len() > 0
                &&& forall|k: int| 0 <= k < only@.len() ==> strs(failed_ids@).contains(#[trigger] only@[k]@)
                &&& keyed_wf(g@)
                &&& index_lists(g@) == Map::new(
                    |id: Seq<char>| selected(strs(only@), id) && strs(failed_ids@).contains(id),
                    |id: Seq<char>| indices_of(strs(failed_ids@), id, failed_ids@.len() as int),
                )
            },
        },
{
    let ghost fs = strs(failed_ids@);
    let ghost os = strs(only@);
    let mut k: usize = 0;
    while k < only.len()
        invariant
            k <= only@.len(),
            fs == strs(failed_ids@),
            forall|q: int| 0 <= q < k ==> fs.contains(#[trigger] only@[q]@),
        decreases only.len() - k,
    {
        if !contains_str(failed_ids, only[k].as_str()) {
            return AcceptPlan::NotFailing(copy_str(only[k].as_str()));
        }
        k = k + 1;
    }
    if failed_ids.len() == 0 {
        if only.len() > 0 {
            assert(fs.contains(only@[0]@));
        }
        return AcceptPlan::NothingFailing;
    }
    let mut g: Vec<(String, Vec<usize>)> = Vec::new();
    let mut i: usize = 0;
    assert(index_lists(g@) =~= Map::new(
        |id: Seq<char>| selected(os, id) && fs.take(0).contains(id),
        |id: Seq<char>| indices_of(fs, id, 0),
    ));
    while i < failed_ids.len()
        invariant
            i <= failed_ids@.len(),
            fs == strs(failed_ids@),
            os == strs(only@),
            keyed_wf(g@),
            index_lists(g@) == Map::new(
                |id: Seq<char>| selected(os, id) && fs.take(i as int).contains(id),
                |id: Seq<char>| indices_of(fs, id, i as int),
            ),
        decreases failed_ids.len() - i,
    {
        let id = failed_ids[i].as_str();
        let ghost g0 = g@;
        let ghost m0 = index_lists(g0);
        assert(fs[i as int] == id@);
        proof {
            assert forall|x: Seq<char>| #[trigger]
                fs.take(i as int + 1).contains(x) <==> (fs.take(i as int).contains(x) || x == id@) by {
                if fs.take(i as int + 1).contains(x) {
                    let j = choose|j: int| 0 <= j < i + 1 && #[trigger] fs.take(i as int + 1)[j] == x;
                    if j < i {
                        assert(fs.take(i as int)[j] == x);
                    }
                }
                if fs.take(i as int).contains(x) {
                    let j = choose|j: int| 0 <= j < i && #[trigger] fs.take(i as int)[j] == x;
                    assert(fs.take(i as int + 1)[j] == x);
                }
                if x == id@ {
                    assert(fs.take(i as int + 1)[i as int] == x);
                }
            }
        }
        if only.len() == 0 || contains_str(only, id) {
            let prior = crate::keyed::take_key(&mut g, id);
            let mut v: Vec<usize> = match prior {
                Some(p) => p,
                None => Vec::new(),
            };
            proof {
                assert(selected(os, id@));
                assert(m0.dom().contains(id@) == fs.take(i as int).contains(id@));
                assert(m0.dom().contains(id@) == crate::keyed::has_key(g0, id@));
                if crate::keyed::has_key(g0, id@) {
                    assert(m0[id@] == crate::keyed::value_of(g0, id@)@);
                    assert(m0[id@] == indices_of(fs, id@, i as int));
                } else {
                    lemma_indices_absent(fs, id@, i as int);
                }
            }
            assert(v@ == indices_of(fs, id@, i as int));
            v.push(i);
            let ghost g1 = g@;
            let ghost vv = v@;
            crate::keyed::put(&mut g, id, v);
            proof {
                let target = Map::new(
                    |x: Seq<char>| selected(os, x) && fs.take(i as int + 1).contains(x),
                    |x: Seq<char>| indices_of(fs, x, i as int + 1),
                );
                assert forall|x: Seq<char>| #[trigger]
                    index_lists(g@).dom().contains(x) <==> target.dom().contains(x) by {
                    assert(crate::keyed::has_key(g@, x) <==> (crate::keyed::has_key(g1, x) || x
                        == id@));
                    assert(crate::keyed::has_key(g1, x) <==> (crate::keyed::has_key(g0, x) && x
                        != id@));
                    assert(m0.dom().contains(x) <==> crate::keyed::has_key(g0, x));
                }
                assert forall|x: Seq<char>| #[trigger]
                    index_lists(g@).dom().contains(x) implies index_lists(g@)[x] == target[x] by {
                    assert(crate::keyed::has_key(g@, x));
                    if x == id@ {
                        assert(crate::keyed::value_of(g@, x)@ == vv);
                    } else {
                        assert(crate::keyed::value_of(g@, x) == crate::keyed::value_of(g1, x));
                        assert(crate::keyed::value_of(g1, x) == crate::keyed::value_of(g0, x));
                        assert(m0.dom().contains(x));
                        assert(m0[x] == crate::keyed::value_of(g0, x)@);
                        assert(indices_of(fs, x, i as int + 1) == indices_of(fs, x, i as int));
                    }
                }
                assert(index_lists(g@) =~= Map::new(
                    |x: Seq<char>| selected(os, x) && fs.take(i as int + 1).contains(x),
                    |x: Seq<char>| indices_of(fs, x, i as int + 1),
                ));
            }
        } else {
            proof {
                assert(!selected(os, id@));
                assert(index_lists(g@) =~= Map::new(
                    |x: Seq<char>| selected(os, x) && fs.take(i as int + 1).contains(x),
                    |x: Seq<char>| indices_of(fs, x, i as int + 1),
                ));
            }
        }
        i = i + 1;
    }
    assert(fs.take(failed_ids@.len() as int) =~= fs);
    AcceptPlan::Record(g)
}

/// A baseline save and a later comparison agree on what a run owns: the
/// reference entries a full bench save (of `pkg`, or of the whole workspace)
/// replaces are exactly those a bench comparison under the same flags counts
/// as gone when it no longer measures them, and likewise for buildcost runs.
pub proof fn law_save_scope_is_gone_scope(pkg: Option<String>, key: Seq<char>)
    ensures
        !spec_scope_keeps(SaveScope::BenchFull(pkg), key) <==> spec_gone_in_scope(
            key,
            None,
            false,
            opt_view(pkg),
        ),
        !spec_scope_keeps(SaveScope::Buildcost(pkg), key) <==> spec_gone_in_scope(
            key,
            None,
            true,
            opt_view(pkg),
        ),
{
}

/// A filtered bench run replaces nothing when saved.
pub proof fn law_filtered_save_keeps_everything(key: Seq<char>)
    ensures
        spec_scope_keeps(SaveScope::BenchFiltered, key),
{
}

/// The benches to profile after a failing comparison: each failing id
/// once, in id order, buildcost pseudo-items left out since they have no
/// runnable body to profile.
pub fn triage_ids(failing: &Vec<String>) -> (r: Vec<String>)
    ensures
        sorted_strict(strs(r@)),
        strs(r@).to_set() == strs(failing@).to_set().filter(|id: Seq<char>| !is_buildcost_key(id)),
{
    let mut found: Vec<Vec<char>> = Vec::new();
    let mut i: usize = 0;
    assert(cv(found@).to_set() =~= strs(failing@).take(0).to_set().filter(
        |id: Seq<char>| !is_buildcost_key(id),
    ));
    while i < failing.len()
        invariant
            i <= failing@.len(),
            sorted_strict(cv(found@)),
            cv(found@).to_set() == strs(failing@).take(i as int).to_set().filter(
                |id: Seq<char>| !is_buildcost_key(id),
            ),
        decreases failing.len() - i,
    {
        let v = chars_of(failing[i].as_str());
        let ghost before = cv(found@).to_set();
        let ghost t1 = strs(failing@).take(i as int + 1);
        proof {
            let t0 = strs(failing@).take(i as int);
            assert(t1 =~= t0.push(v@));
            assert forall|x: Seq<char>| t1.contains(x) <==> (t0.contains(x) || x == v@) by {
                if t1.contains(x) {
                    let k = choose|k: int| 0 <= k < t1.len() && t1[k] == x;
                    if k < i {
                        assert(t0[k] == x);
                    }
                }
                if t0.contains(x) {
                    let k = choose|k: int| 0 <= k < t0.len() && t0[k] == x;
                    assert(t1[k] == x);
                }
                if x == v@ {
                    assert(t1[i as int] == x);
                }
            }
            assert(t1.to_set() =~= t0.to_set().insert(v@));
        }
        if !buildcost_key(&v) {
            insert_sorted(&mut found, v);
            assert(cv(found@).to_set() =~= t1.to_set().filter(|id: Seq<char>| !is_buildcost_key(id)));
        } else {
            assert(cv(found@).to_set() =~= t1.to_set().filter(|id: Seq<char>| !is_buildcost_key(id)));
        }
        i = i + 1;
    }
    assert(strs(failing@).take(failing@.len() as int) =~= strs(failing@));
    let mut r: Vec<String> = Vec::new();
    let mut j: usize = 0;
    while j < found.len()
        invariant
            j <= found@.len(),
            strs(r@) == cv(found@).take(j as int),
        decreases found.len() - j,
    {
        let s = string_of(found[j].as_slice());
        assert(s@ == cv(found@)[j as int]);
        let ghost before = strs(r@);
        r.push(s);
        assert(strs(r@) =~= before.push(cv(found@)[j as int]));
        assert(strs(r@) =~= cv(found@).take(j as int + 1));
        j = j + 1;
    }
    assert(cv(found@).take(found@.len() as int) =~= cv(found@));
    r
}

/// The smaller of two optional counters; a side that has one wins alone.
pub open spec fn spec_min_opt(a: Option<u64>, b: Option<u64>) -> Option<u64> {
    match (a, b) {
        (Some(x), Some(y)) => Some(if x <= y { x } else { y }),
        (Some(x), None) => Some(x),
        (None, y) => y,
    }
}

/// The exact counters of one measured item, as two rounds of the same side
/// combine them.
#[derive(Debug, PartialEq, Eq, Structural, Clone, Copy)]
pub struct Counters {
    pub instructions: Option<u64>,
    pub cycles: Option<u64>,
    pub ir: Option<u64>,
    pub allocs: Option<u64>,
    pub bytes: Option<u64>,
}

/// Per-counter minima of two rounds of the same side; a counter only one
/// round measured (a timing-only round skips the gating counters) keeps
/// that round's value.
pub open spec fn spec_combine(a: Counters, b: Counters) -> Counters {
    Counters {
        instructions: spec_min_opt(a.instructions, b.instructions),
        cycles: spec_min_opt(a.cycles, b.cycles),
        ir: spec_min_opt(a.ir, b.ir),
        allocs: spec_min_opt(a.allocs, b.allocs),
        bytes: spec_min_opt(a.bytes, b.bytes),
    }
}

/// See [`spec_combine`].
pub fn combine_counters(a: Counters, b: Counters) -> (r: Counters)
    ensures
        r == spec_combine(a, b),
{
    Counters {
        instructions: min_opt_u(a.instructions, b.instructions),
        cycles: min_opt_u(a.cycles, b.cycles),
        ir: min_opt_u(a.ir, b.ir),
        allocs: min_opt_u(a.allocs, b.allocs),
        bytes: min_opt_u(a.bytes, b.bytes),
    }
}

/// Combining rounds does not depend on their order, a round combined with
/// itself is unchanged, and no combined counter exceeds what either round
/// measured.
pub proof fn law_combine_rounds(a: Counters, b: Counters)
    ensures
        spec_combine(a, b) == spec_combine(b, a),
        spec_combine(a, a) == a,
        spec_combine(a, b).instructions matches Some(v) ==> (a.instructions matches Some(x) ==> v
            <= x) && (b.instructions matches Some(y) ==> v <= y),
        spec_combine(a, b).allocs matches Some(v) ==> (a.allocs matches Some(x) ==> v <= x) && (
        b.allocs matches Some(y) ==> v <= y),
{
}

/// Each counter two rounds both measured combines to the smaller of the two
/// values, whichever counter it is; a counter only one round measured keeps
/// that round's value, and one neither measured stays unmeasured.
pub proof fn law_every_counter_takes_the_smaller_round(a: Counters, b: Counters)
    ensures
        a.instructions is Some && b.instructions is Some ==> spec_combine(a, b).instructions == Some(
            if a.instructions->0 <= b.instructions->0 { a.instructions->0 } else { b.instructions->0 },
        ),
        a.cycles is Some && b.cycles is Some ==> spec_combine(a, b).cycles == Some(
            if a.cycles->0 <= b.cycles->0 { a.cycles->0 } else { b.cycles->0 },
        ),
        a.ir is Some && b.ir is Some ==> spec_combine(a, b).ir == Some(
            if a.ir->0 <= b.ir->0 { a.ir->0 } else { b.ir->0 },
        ),
        a.allocs is Some && b.allocs is Some ==> spec_combine(a, b).allocs == Some(
            if a.allocs->0 <= b.allocs->0 { a.allocs->0 } else { b.allocs->0 },
        ),
        a.bytes is Some && b.bytes is Some ==> spec_combine(a, b).bytes == Some(
            if a.bytes->0 <= b.bytes->0 { a.bytes->0 } else { b.bytes->0 },
        ),
        a.instructions is None ==> spec_combine(a, b).instructions == b.instructions,
        b.instructions is None ==> spec_combine(a, b).instructions == a.instructions,
        a.cycles is None ==> spec_combine(a, b).cycles == b.cycles,
        b.cycles is None ==> spec_combine(a, b).cycles == a.cycles,
        a.ir is None ==> spec_combine(a, b).ir == b.ir,
        b.ir is None ==> spec_combine(a, b).ir == a.ir,
        a.allocs is None ==> spec_combine(a, b).allocs == b.allocs,
        b.allocs is None ==> spec_combine(a, b).allocs == a.allocs,
        a.bytes is None ==> spec_combine(a, b).bytes == b.bytes,
        b.bytes is None ==> spec_combine(a, b).bytes == a.bytes,
{
}

/// Where a merge-base reference comes from.
#[derive(Debug, PartialEq, Eq, Structural, Clone, Copy)]
pub enum RefPlan {
    /// The merge-base was already measured under the same conditions.
    ReuseMergeBase,
    /// The merge-base has no such bench target: the crate is newly
    /// measured, so there is nothing on that side to compare against.
    NoBenchTarget,
    /// Both bench binaries hold the same machine code: one pass serves as
    /// both sides.
    IdenticalBinaries,
    /// A run measured from the merge-base's very binary is cached.
    CachedBinary,
    /// Interleaved rounds on both sides.
    Rounds,
}

/// Chooses where the reference comes from, in order: a cached merge-base
/// run, a missing bench target, identical machine code, a cached run of the
/// merge-base binary, and otherwise interleaved rounds. `digests` are the
/// head and merge-base machine-code digests, when both could be taken.
pub fn ref_plan(
    cached_merge_base: bool,
    bench_target_missing: bool,
    digests: Option<(&str, &str)>,
    cached_binary: bool,
) -> (r: RefPlan)
    ensures
        r == if cached_merge_base {
            RefPlan::ReuseMergeBase
        } else if bench_target_missing {
            RefPlan::NoBenchTarget
        } else if digests matches Some((h, b)) && h@ == b@ {
            RefPlan::IdenticalBinaries
        } else if cached_binary {
            RefPlan::CachedBinary
        } else {
            RefPlan::Rounds
        },
{
    if cached_merge_base {
        return RefPlan::ReuseMergeBase;
    }
    if bench_target_missing {
        return RefPlan::NoBenchTarget;
    }
    if let Some((h, b)) = digests {
        if str_eq(h, b) {
            return RefPlan::IdenticalBinaries;
        }
    }
    if cached_binary {
        RefPlan::CachedBinary
    } else {
        RefPlan::Rounds
    }
}

} // verus!
