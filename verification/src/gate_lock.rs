//! `soothfast-gate.lock`: committed, reviewed overrides for one-time
//! regressions from bug fixes. `gate accept` records a specific bench's
//! failing metrics at their new value; `gate` consumes an entry as long as
//! `base_fingerprint` still matches the reference side, treating the
//! accepted value (not the original reference value) as the new ceiling.
//! `head_fingerprint` is unrelated to that check — it only tells a baseline
//! save when the accepted shift has become the norm and the entry can be
//! dropped (see [`prune_absorbed`]).
//!
//! The entries are keyed by bench id in increasing order, as the lock file
//! lists them; an accepted metric value is of whatever type `N` the caller
//! measures in.

use vstd::prelude::*;

use crate::keyed::{find_key, has_key, keyed_map, keyed_wf, keys_of, lemma_keyed_remove,
    lemma_value_at, pairs_map, put, take_key, value_of};
use crate::text::{copy_str, str_eq};

verus! {

/// Lockfile name, resolved relative to the workspace root. A top-level file
/// (like `Cargo.lock`), not under `.soothfast/` — that directory is
/// gitignored wholesale, and a committed audit trail placed inside it would
/// never reach a PR diff.
pub const LOCKFILE: &'static str = "soothfast-gate.lock";

/// One reviewed reason an entry's metrics were accepted or re-accepted.
#[derive(Debug, Clone, PartialEq, Eq, Default)]
pub struct Justification {
    pub text: String,
    pub accepted_unix: u64,
}

/// An accepted bench: the fingerprints the accept was reviewed against, the
/// metrics it covers (name and accepted value, in name order), and every
/// justification a re-accept has appended.
#[derive(Debug, Clone)]
pub struct Entry<N> {
    pub base_fingerprint: String,
    pub head_fingerprint: String,
    pub metrics: Vec<(String, N)>,
    pub justifications: Vec<Justification>,
}

/// An entry as plain values.
pub struct EntryView<N> {
    pub base: Seq<char>,
    pub head: Seq<char>,
    pub metrics: Map<Seq<char>, N>,
    pub justifications: Seq<(Seq<char>, u64)>,
}

/// The metric map an entry's sorted pairs stand for.
pub open spec fn metrics_map<N>(s: Seq<(String, N)>) -> Map<Seq<char>, N> {
    keyed_map(s, |x: N| x)
}

impl<N> View for Entry<N> {
    type V = EntryView<N>;

    open spec fn view(&self) -> EntryView<N> {
        EntryView {
            base: self.base_fingerprint@,
            head: self.head_fingerprint@,
            metrics: metrics_map(self.metrics@),
            justifications: self.justifications@.map_values(
                |j: Justification| (j.text@, j.accepted_unix),
            ),
        }
    }
}

/// Accepted benches, keyed by full bench id in increasing order.
#[derive(Debug, Clone)]
pub struct Entries<N> {
    pub items: Vec<(String, Entry<N>)>,
}

/// The map of entries the sorted pairs stand for.
pub open spec fn entries_map<N>(s: Seq<(String, Entry<N>)>) -> Map<Seq<char>, EntryView<N>> {
    keyed_map(s, |e: Entry<N>| e@)
}

impl<N> View for Entries<N> {
    type V = Map<Seq<char>, EntryView<N>>;

    open spec fn view(&self) -> Map<Seq<char>, EntryView<N>> {
        entries_map(self.items@)
    }
}

impl<N> Entries<N> {
    /// Ids and each entry's metric names in strictly increasing order.
    pub open spec fn wf(&self) -> bool {
        &&& keyed_wf(self.items@)
        &&& forall|i: int| 0 <= i < self.items@.len() ==> keyed_wf(#[trigger] self.items@[i].1.metrics@)
    }

    /// No accepted bench: a fresh repo has accepted nothing yet.
    pub fn new() -> (r: Self)
        ensures
            r.wf(),
            r@ == Map::<Seq<char>, EntryView<N>>::empty(),
    {
        let r = Entries { items: Vec::new() };
        assert(r@ =~= Map::<Seq<char>, EntryView<N>>::empty());
        r
    }
}

/// The accepted value of `id`'s `metric`, when an entry covers it: the
/// entry exists, its `base_fingerprint` is the reference side's, and the
/// metric was part of the accept.
pub open spec fn spec_accepted<N>(
    m: Map<Seq<char>, EntryView<N>>,
    id: Seq<char>,
    metric: Seq<char>,
    base_fingerprint: Seq<char>,
) -> Option<N> {
    if m.contains_key(id) && m[id].base == base_fingerprint && m[id].metrics.contains_key(metric) {
        Some(m[id].metrics[metric])
    } else {
        None
    }
}

/// The accepted value `gate` holds `id`'s `metric` to instead of the
/// reference value. `None` means "not accepted" (no entry, no matching
/// `base_fingerprint`, or this metric wasn't part of the accept): the
/// caller falls through to a normal FAIL against the original reference
/// value. With `Some`, the verdict is a one-sided ceiling over the accepted
/// value, so an improvement past the accepted number always passes too.
pub fn accepted_value<N: Copy>(
    entries: &Entries<N>,
    id: &str,
    metric: &str,
    base_fingerprint: &str,
) -> (r: Option<N>)
    requires
        entries.wf(),
    ensures
        r == spec_accepted(entries@, id@, metric@, base_fingerprint@),
{
    match find_key(&entries.items, id) {
        Err(_) => None,
        Ok(i) => {
            let e = &entries.items[i].1;
            proof {
                lemma_value_at(entries.items@, i as int);
            }
            if !str_eq(e.base_fingerprint.as_str(), base_fingerprint) {
                return None;
            }
            match find_key(&e.metrics, metric) {
                Err(_) => None,
                Ok(j) => {
                    proof {
                        lemma_value_at(e.metrics@, j as int);
                    }
                    Some(e.metrics[j].1)
                },
            }
        },
    }
}

/// Whether `id` has an accepted entry whose `base_fingerprint` no longer
/// matches — the reference side moved past the reviewed commit, so `gate
/// accept` needs to run again.
pub fn is_stale<N>(entries: &Entries<N>, id: &str, base_fingerprint: &str) -> (r: bool)
    requires
        entries.wf(),
    ensures
        r == (entries@.contains_key(id@) && entries@[id@].base != base_fingerprint@),
{
    match find_key(&entries.items, id) {
        Err(_) => false,
        Ok(i) => {
            proof {
                lemma_value_at(entries.items@, i as int);
            }
            !str_eq(entries.items[i].1.base_fingerprint.as_str(), base_fingerprint)
        },
    }
}

/// The most recently accepted justification for `id`, if any.
pub fn latest_justification<'a, N>(entries: &'a Entries<N>, id: &str) -> (r: Option<&'a str>)
    requires
        entries.wf(),
    ensures
        r is Some <==> (entries@.contains_key(id@) && entries@[id@].justifications.len() > 0),
        r is Some ==> r->0@ == entries@[id@].justifications.last().0,
{
    match find_key(&entries.items, id) {
        Err(_) => None,
        Ok(i) => {
            proof {
                lemma_value_at(entries.items@, i as int);
            }
            let js = &entries.items[i].1.justifications;
            if js.len() == 0 {
                None
            } else {
                Some(js[js.len() - 1].text.as_str())
            }
        },
    }
}

/// The metrics an entry for `id` carries before an accept (none for a
/// bench accepted for the first time).
pub open spec fn prior_metrics<N>(m: Map<Seq<char>, EntryView<N>>, id: Seq<char>) -> Map<
    Seq<char>,
    N,
> {
    if m.contains_key(id) {
        m[id].metrics
    } else {
        Map::empty()
    }
}

/// The justifications an entry for `id` carries before an accept.
pub open spec fn prior_justifications<N>(m: Map<Seq<char>, EntryView<N>>, id: Seq<char>) -> Seq<
    (Seq<char>, u64),
> {
    if m.contains_key(id) {
        m[id].justifications
    } else {
        Seq::empty()
    }
}

/// The entry `gate accept` leaves for `id`: the fingerprints it was
/// reviewed against, its earlier metrics overlaid with the newly failing
/// ones at their new values, and the new justification appended.
pub open spec fn accepted_entry<N>(
    m: Map<Seq<char>, EntryView<N>>,
    id: Seq<char>,
    base_fingerprint: Seq<char>,
    head_fingerprint: Seq<char>,
    metrics: Seq<(String, N)>,
    text: Seq<char>,
    accepted_unix: u64,
) -> EntryView<N> {
    EntryView {
        base: base_fingerprint,
        head: head_fingerprint,
        metrics: prior_metrics(m, id).union_prefer_right(pairs_map(metrics)),
        justifications: prior_justifications(m, id).push((text, accepted_unix)),
    }
}

/// Records a reviewed accept of `id`'s failing `metrics` (name and new
/// value each) into the lock: the entry is created or updated, keeps every
/// metric accepted earlier that this accept does not name, and appends the
/// justification. No other entry changes.
pub fn record_accept<N: Copy>(
    entries: &mut Entries<N>,
    id: &str,
    base_fingerprint: &str,
    head_fingerprint: &str,
    metrics: &Vec<(String, N)>,
    text: &str,
    accepted_unix: u64,
)
    requires
        old(entries).wf(),
    ensures
        final(entries).wf(),
        final(entries)@ == old(entries)@.insert(
            id@,
            accepted_entry(
                old(entries)@,
                id@,
                base_fingerprint@,
                head_fingerprint@,
                metrics@,
                text@,
                accepted_unix,
            ),
        ),
{
    let ghost m0 = entries@;
    let ghost s0 = entries.items@;
    let prior = take_key(&mut entries.items, id);
    proof {
        if has_key(s0, id@) {
            let i = crate::keyed::key_pos(s0, id@);
            assert(s0[i].0@ == id@);
            lemma_value_at(s0, i);
        }
    }
    let mut e: Entry<N> = match prior {
        Some(p) => p,
        None => Entry {
            base_fingerprint: String::new(),
            head_fingerprint: String::new(),
            metrics: Vec::new(),
            justifications: Vec::new(),
        },
    };
    proof {
        assert(e@.metrics =~= prior_metrics(m0, id@));
        assert(e@.justifications =~= prior_justifications(m0, id@));
    }
    e.base_fingerprint = copy_str(base_fingerprint);
    e.head_fingerprint = copy_str(head_fingerprint);
    let ghost before = prior_metrics(m0, id@);
    let mut j: usize = 0;
    while j < metrics.len()
        invariant
            j <= metrics@.len(),
            keyed_wf(e.metrics@),
            e.base_fingerprint@ == base_fingerprint@,
            e.head_fingerprint@ == head_fingerprint@,
            e@.justifications == prior_justifications(m0, id@),
            metrics_map(e.metrics@) == before.union_prefer_right(
                pairs_map(metrics@.take(j as int)),
            ),
        decreases metrics.len() - j,
    {
        let ghost m_before = e.metrics@;
        put(&mut e.metrics, metrics[j].0.as_str(), metrics[j].1);
        proof {
            let t = metrics@.take(j as int + 1);
            assert(t.drop_last() =~= metrics@.take(j as int));
            assert(t.last() == metrics@[j as int]);
            assert(metrics_map(e.metrics@) =~= metrics_map(m_before).insert(
                metrics@[j as int].0@,
                metrics@[j as int].1,
            ));
            assert(metrics_map(e.metrics@) =~= before.union_prefer_right(pairs_map(t)));
        }
        j = j + 1;
    }
    proof {
        assert(metrics@.take(metrics@.len() as int) =~= metrics@);
    }
    let ghost js0 = e@.justifications;
    e.justifications.push(Justification { text: copy_str(text), accepted_unix });
    proof {
        assert(e@.justifications =~= js0.push((text@, accepted_unix)));
    }
    let ghost ev = e@;
    let ghost s1 = entries.items@;
    let ghost old_items = entries.items@;
    put(&mut entries.items, id, e);
    proof {
        let s2 = entries.items@;
        assert forall|i: int| 0 <= i < s2.len() implies keyed_wf(#[trigger] s2[i].1.metrics@) by {
            lemma_value_at(s2, i);
            if s2[i].0@ != id@ {
                let k = crate::keyed::key_pos(s1, s2[i].0@);
                lemma_value_at(s1, k);
                let k0 = crate::keyed::key_pos(s0, s2[i].0@);
                lemma_value_at(s0, k0);
            }
        }
        assert forall|x: Seq<char>| #[trigger] has_key(s2, x) implies value_of(s2, x)@ == m0.insert(
            id@,
            ev,
        )[x] by {
            if x != id@ {
                let k0 = crate::keyed::key_pos(s0, x);
                lemma_value_at(s0, k0);
            }
        }
        assert(entries@ =~= m0.insert(id@, ev));
        let want = accepted_entry(
            m0,
            id@,
            base_fingerprint@,
            head_fingerprint@,
            metrics@,
            text@,
            accepted_unix,
        );
        assert(ev.metrics =~= want.metrics);
        assert(ev.justifications =~= want.justifications);
        assert(ev == want);
    }
}

/// Whether a freshly saved baseline absorbs `id`'s entry: the run measured
/// the bench at the entry's `head_fingerprint`, so the workload hasn't
/// changed since the accept and the baseline now carries the accepted cost
/// as the norm.
pub open spec fn absorbed<N>(
    m: Map<Seq<char>, EntryView<N>>,
    fingerprints: Seq<(String, String)>,
    id: Seq<char>,
) -> bool {
    m.contains_key(id) && has_key(fingerprints, id) && value_of(fingerprints, id)@ == m[id].head
}

/// Drops the entries a freshly saved baseline absorbs (see [`absorbed`]);
/// `fingerprints` is the run's measured items, id and fingerprint each, in
/// id order. Returns the pruned entries and the dropped ids, in id order,
/// for the caller to log.
pub fn prune_absorbed<N>(entries: Entries<N>, fingerprints: &Vec<(String, String)>) -> (r: (
    Entries<N>,
    Vec<String>,
))
    requires
        entries.wf(),
        keyed_wf(fingerprints@),
    ensures
        r.0.wf(),
        r.0@ == Map::new(
            |k: Seq<char>| entries@.contains_key(k) && !absorbed(entries@, fingerprints@, k),
            |k: Seq<char>| entries@[k],
        ),
        r.1@.map_values(|s: String| s@) == keys_of(entries.items@).filter(
            |k: Seq<char>| absorbed(entries@, fingerprints@, k),
        ),
{
    let ghost m0 = entries@;
    let ghost s0 = entries.items@;
    let ghost fp = fingerprints@;
    let ghost n = s0.len();
    let ghost keep = |k: Seq<char>| absorbed(m0, fp, k);
    let mut items = entries.items;
    let mut removed: Vec<String> = Vec::new();
    let mut i: usize = 0;
    let ghost mut k: int = 0;
    while i < items.len()
        invariant
            keyed_wf(items@),
            forall|t: int| 0 <= t < items@.len() ==> keyed_wf(#[trigger] items@[t].1.metrics@),
            m0 == entries_map(s0),
            fp == fingerprints@,
            keyed_wf(fp),
            keyed_wf(s0),
            keep == (|k: Seq<char>| absorbed(m0, fp, k)),
            0 <= i <= k <= n,
            n == s0.len(),
            items@.len() == i + (n - k),
            forall|t: int| 0 <= t < n - k ==> #[trigger] items@[i + t] == s0[k + t],
            entries_map(items@) == Map::new(
                |x: Seq<char>| m0.contains_key(x) && !(absorbed(m0, fp, x) && has_key(
                    s0.take(k),
                    x,
                )),
                |x: Seq<char>| m0[x],
            ),
            removed@.map_values(|s: String| s@) == keys_of(s0).take(k).filter(keep),
        decreases items.len() - i,
    {
        let ghost cur = items@;
        assert(items@[i + 0] == s0[k + 0]);
        proof {
            lemma_value_at(s0, k);
            lemma_value_at(cur, i as int);
        }
        let is_absorbed = match find_key(fingerprints, items[i].0.as_str()) {
            Ok(j) => {
                proof {
                    lemma_value_at(fp, j as int);
                }
                str_eq(fingerprints[j].1.as_str(), items[i].1.head_fingerprint.as_str())
            },
            Err(_) => false,
        };
        assert(is_absorbed == absorbed(m0, fp, s0[k].0@));
        proof {
            let tk1 = keys_of(s0).take(k + 1);
            assert(tk1.drop_last() =~= keys_of(s0).take(k));
            assert(tk1.last() == s0[k].0@);
            assert forall|x: Seq<char>| #[trigger]
                has_key(s0.take(k + 1), x) <==> (has_key(s0.take(k), x) || x == s0[k].0@) by {
                if has_key(s0.take(k + 1), x) {
                    let j = choose|j: int| 0 <= j < k + 1 && (#[trigger] s0.take(k + 1)[j]).0@ == x;
                    if j < k {
                        assert(s0.take(k)[j] == s0[j]);
                    }
                }
                if has_key(s0.take(k), x) {
                    let j = choose|j: int| 0 <= j < k && (#[trigger] s0.take(k)[j]).0@ == x;
                    assert(s0.take(k + 1)[j] == s0[j]);
                }
                if x == s0[k].0@ {
                    assert(s0.take(k + 1)[k] == s0[k]);
                }
            }
        }
        if is_absorbed {
            proof {
                lemma_keyed_remove(cur, i as int);
            }
            let (rid, _) = items.remove(i);
            proof {
                let after = items@;
                let prev = entries_map(cur);
                let target = Map::new(
                    |x: Seq<char>| m0.contains_key(x) && !(absorbed(m0, fp, x) && has_key(
                        s0.take(k + 1),
                        x,
                    )),
                    |x: Seq<char>| m0[x],
                );
                assert forall|x: Seq<char>| #[trigger]
                    entries_map(after).dom().contains(x) <==> target.dom().contains(x) by {
                    assert(has_key(after, x) <==> (has_key(cur, x) && x != cur[i as int].0@));
                    assert(prev.dom().contains(x) <==> has_key(cur, x));
                }
                assert forall|x: Seq<char>| #[trigger]
                    entries_map(after).dom().contains(x) implies entries_map(after)[x]
                    == target[x] by {
                    assert(has_key(after, x));
                    assert(value_of(after, x) == value_of(cur, x));
                    assert(prev.dom().contains(x));
                    assert(prev[x] == value_of(cur, x)@);
                }
                assert(entries_map(after) =~= target);
                assert forall|t: int| 0 <= t < after.len() implies keyed_wf(
                    #[trigger] after[t].1.metrics@,
                ) by {
                    if t < i {
                        assert(after[t] == cur[t]);
                    } else {
                        assert(after[t] == cur[t + 1]);
                    }
                }
                assert forall|t: int| 0 <= t < n - (k + 1) implies #[trigger] after[i + t] == s0[k
                    + 1 + t] by {
                    assert(after[i + t] == cur[i + (t + 1)]);
                }
            }
            let ghost rv = removed@.map_values(|s: String| s@);
            removed.push(rid);
            proof {
                reveal(Seq::filter);
                let tk1 = keys_of(s0).take(k + 1);
                assert(tk1.last() == s0[k].0@);
                assert(keep(tk1.last()));
                assert(tk1.filter(keep) == tk1.drop_last().filter(keep).push(tk1.last()));
                assert(removed@.map_values(|s: String| s@) =~= rv.push(s0[k].0@));
                assert(removed@.map_values(|s: String| s@) =~= keys_of(s0).take(k + 1).filter(
                    keep,
                ));
                assert(entries_map(items@) =~= Map::new(
                    |x: Seq<char>| m0.contains_key(x) && !(absorbed(m0, fp, x) && has_key(
                        s0.take(k + 1),
                        x,
                    )),
                    |x: Seq<char>| m0[x],
                ));
                k = k + 1;
            }
        } else {
            proof {
                reveal(Seq::filter);
                let tk1 = keys_of(s0).take(k + 1);
                assert(tk1.last() == s0[k].0@);
                assert(!keep(tk1.last()));
                assert(tk1.filter(keep) == tk1.drop_last().filter(keep));
                assert(removed@.map_values(|s: String| s@) =~= keys_of(s0).take(k + 1).filter(
                    keep,
                ));
                assert(entries_map(items@) =~= Map::new(
                    |x: Seq<char>| m0.contains_key(x) && !(absorbed(m0, fp, x) && has_key(
                        s0.take(k + 1),
                        x,
                    )),
                    |x: Seq<char>| m0[x],
                ));
                k = k + 1;
                assert forall|t: int| 0 <= t < n - k implies #[trigger] items@[(i + 1) + t]
                    == s0[k + t] by {
                    assert(items@[i + (t + 1)] == s0[(k - 1) + (t + 1)]);
                }
            }
            i = i + 1;
        }
    }
    proof {
        assert(k == n);
        assert(s0.take(n as int) =~= s0);
        assert(keys_of(s0).take(n as int) =~= keys_of(s0));
    }
    let r = Entries { items };
    proof {
        assert(r@ =~= Map::new(
            |k: Seq<char>| m0.contains_key(k) && !absorbed(m0, fp, k),
            |k: Seq<char>| m0[k],
        ));
    }
    (r, removed)
}

/// What `gate accept` records, `gate` then reads back: once a metric of a
/// bench is accepted at a value, the lock covers that metric at that value
/// for as long as the reference side is the one the accept was reviewed
/// against (the last value wins when a metric is named twice).
pub proof fn law_accept_then_covered<N>(
    m: Map<Seq<char>, EntryView<N>>,
    id: Seq<char>,
    base_fingerprint: Seq<char>,
    head_fingerprint: Seq<char>,
    metrics: Seq<(String, N)>,
    text: Seq<char>,
    accepted_unix: u64,
    metric: Seq<char>,
)
    requires
        pairs_map(metrics).contains_key(metric),
    ensures
        spec_accepted(
            m.insert(
                id,
                accepted_entry(m, id, base_fingerprint, head_fingerprint, metrics, text, accepted_unix),
            ),
            id,
            metric,
            base_fingerprint,
        ) == Some(pairs_map(metrics)[metric]),
{
}

/// A re-accept keeps what an earlier accept of the same bench covered: a
/// metric it does not name stays accepted at its earlier value, now under
/// the newly reviewed reference side.
pub proof fn law_reaccept_keeps_earlier<N>(
    m: Map<Seq<char>, EntryView<N>>,
    id: Seq<char>,
    base_fingerprint: Seq<char>,
    head_fingerprint: Seq<char>,
    metrics: Seq<(String, N)>,
    text: Seq<char>,
    accepted_unix: u64,
    metric: Seq<char>,
)
    requires
        m.contains_key(id),
        m[id].metrics.contains_key(metric),
        !pairs_map(metrics).contains_key(metric),
    ensures
        spec_accepted(
            m.insert(
                id,
                accepted_entry(m, id, base_fingerprint, head_fingerprint, metrics, text, accepted_unix),
            ),
            id,
            metric,
            base_fingerprint,
        ) == Some(m[id].metrics[metric]),
{
}

/// Accepting one bench touches no other bench's entry.
pub proof fn law_accept_is_local<N>(
    m: Map<Seq<char>, EntryView<N>>,
    id: Seq<char>,
    base_fingerprint: Seq<char>,
    head_fingerprint: Seq<char>,
    metrics: Seq<(String, N)>,
    text: Seq<char>,
    accepted_unix: u64,
    other: Seq<char>,
    metric: Seq<char>,
    other_base: Seq<char>,
)
    requires
        other != id,
    ensures
        spec_accepted(
            m.insert(
                id,
                accepted_entry(m, id, base_fingerprint, head_fingerprint, metrics, text, accepted_unix),
            ),
            other,
            metric,
            other_base,
        ) == spec_accepted(m, other, metric, other_base),
{
}

/// An entry whose reviewed reference side has moved on covers nothing: a
/// stale entry never turns a failure into an accepted one.
pub proof fn law_stale_covers_nothing<N>(
    m: Map<Seq<char>, EntryView<N>>,
    id: Seq<char>,
    base_fingerprint: Seq<char>,
    metric: Seq<char>,
)
    requires
        m.contains_key(id) && m[id].base != base_fingerprint,
    ensures
        spec_accepted(m, id, metric, base_fingerprint) is None,
{
}

/// A baseline saved from the very build an accept was reviewed at absorbs
/// that accept: when the run measures the bench at the accept's head
/// fingerprint, pruning drops the entry.
pub proof fn law_baseline_absorbs_accept<N>(
    m: Map<Seq<char>, EntryView<N>>,
    id: Seq<char>,
    base_fingerprint: Seq<char>,
    head_fingerprint: Seq<char>,
    metrics: Seq<(String, N)>,
    text: Seq<char>,
    accepted_unix: u64,
    fingerprints: Seq<(String, String)>,
)
    requires
        has_key(fingerprints, id),
        value_of(fingerprints, id)@ == head_fingerprint,
    ensures
        absorbed(
            m.insert(
                id,
                accepted_entry(m, id, base_fingerprint, head_fingerprint, metrics, text, accepted_unix),
            ),
            fingerprints,
            id,
        ),
{
}

} // verus!
