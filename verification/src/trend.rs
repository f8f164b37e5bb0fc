//! Trend points: which of a saved baseline's items a point built from it
//! holds, and which items a series of points covers.

use vstd::prelude::*;

use crate::invoke::{buildcost_key, id_pkg, is_buildcost_key, spec_id_pkg, spec_scope_keeps, SaveScope};
use crate::keyed::{has_key, keyed_wf, keys_of, put};
use crate::text::{chars_eq, chars_of, copy_str, debug_quoted, debug_str, replace_char, replaced};
use crate::toml_lines::strs;

verus! {

/// An optional string slice as plain values.
pub open spec fn ref_view(o: Option<&str>) -> Option<Seq<char>> {
    match o {
        Some(s) => Some(s@),
        None => None,
    }
}

/// Whether a point built from a saved baseline keeps the item `id`: never a
/// buildcost pseudo-item, and with a package, only that package's items
/// (its name with `-` read as `_`).
pub open spec fn spec_trend_keeps(id: Seq<char>, pkg: Option<Seq<char>>) -> bool {
    !is_buildcost_key(id) && match pkg {
        None => true,
        Some(p) => spec_id_pkg(id) == replaced(p, '-', '_'),
    }
}

/// See [`spec_trend_keeps`].
pub fn trend_keeps(id: &str, pkg: Option<&str>) -> (r: bool)
    ensures
        r == spec_trend_keeps(id@, ref_view(pkg)),
{
    if buildcost_key(&chars_of(id)) {
        return false;
    }
    match pkg {
        None => true,
        Some(p) => chars_eq(&chars_of(id_pkg(id).as_str()), &replace_char(p, '-', '_')),
    }
}

/// The items of `ids` a point keeps, in order.
pub open spec fn trend_slice(ids: Seq<Seq<char>>, pkg: Option<Seq<char>>) -> Seq<Seq<char>>
    decreases ids.len(),
{
    if ids.len() == 0 {
        Seq::empty()
    } else if spec_trend_keeps(ids.last(), pkg) {
        trend_slice(ids.drop_last(), pkg).push(ids.last())
    } else {
        trend_slice(ids.drop_last(), pkg)
    }
}

/// Why a point would be empty: nothing measured for the package (or at all).
pub open spec fn no_items_message(pkg: Option<Seq<char>>) -> Seq<char> {
    "no bench items"@ + match pkg {
        Some(p) => " for package "@ + debug_quoted(p),
        None => Seq::empty(),
    } + " — measure into it first"@
}

/// The items of a saved baseline (`ids`, its item names in order) that a
/// trend point for `pkg` holds: exactly what `trend append -p PKG` would
/// have measured. An empty slice is an error, not an empty point.
pub fn point_items(ids: &Vec<String>, pkg: Option<&str>) -> (r: Result<Vec<String>, String>)
    ensures
        match r {
            Ok(kept) => strs(kept@) == trend_slice(strs(ids@), ref_view(pkg)) && kept@.len() > 0,
            Err(e) => trend_slice(strs(ids@), ref_view(pkg)).len() == 0 && e@ == no_items_message(
                ref_view(pkg),
            ),
        },
{
    let mut kept: Vec<String> = Vec::new();
    let mut i: usize = 0;
    while i < ids.len()
        invariant
            i <= ids@.len(),
            strs(kept@) == trend_slice(strs(ids@.take(i as int)), ref_view(pkg)),
        decreases ids.len() - i,
    {
        let ghost before = kept@;
        assert(strs(ids@.take(i + 1)).drop_last() =~= strs(ids@.take(i as int)));
        assert(strs(ids@.take(i + 1)).last() == ids@[i as int]@);
        if trend_keeps(ids[i].as_str(), pkg) {
            kept.push(copy_str(ids[i].as_str()));
            assert(strs(kept@) =~= strs(before).push(ids@[i as int]@));
        }
        i = i + 1;
    }
    assert(ids@.take(ids@.len() as int) =~= ids@);
    if kept.len() == 0 {
        let mut msg = copy_str("no bench items");
        match pkg {
            Some(p) => {
                msg.append(" for package ");
                msg.append(debug_str(p).as_str());
            },
            None => {},
        }
        msg.append(" — measure into it first");
        proof {
            assert(strs(kept@).len() == 0);
            reveal_strlit("");
            if pkg is None {
                assert(msg@ =~= no_items_message(ref_view(pkg)));
            }
        }
        return Err(msg);
    }
    Ok(kept)
}

/// A point for `pkg` keeps an item exactly when a full bench run of that
/// package (of the whole workspace without one) would replace it in a saved
/// baseline, less the buildcost pseudo-items that such a run leaves alone.
pub proof fn law_trend_point_is_the_full_run_slice(id: Seq<char>, pkg: Option<String>)
    ensures
        spec_trend_keeps(
            id,
            match pkg {
                Some(p) => Some(p@),
                None => None,
            },
        ) == !spec_scope_keeps(SaveScope::BenchFull(pkg), id),
{
}

/// Every item of a series of points, flattened in order.
pub open spec fn flat(points: Seq<Seq<Seq<char>>>) -> Seq<Seq<char>>
    decreases points.len(),
{
    if points.len() == 0 {
        Seq::empty()
    } else {
        flat(points.drop_last()) + points.last()
    }
}

/// Each point's item names as plain values.
pub open spec fn points_view(points: Seq<Vec<String>>) -> Seq<Seq<Seq<char>>> {
    points.map_values(|v: Vec<String>| strs(v@))
}

/// The items a series of points covers (`points`, each point's item names),
/// each once, in name order.
pub fn trend_ids(points: &Vec<Vec<String>>) -> (r: Vec<String>)
    ensures
        crate::workspace::sorted_strict(strs(r@)),
        forall|x: Seq<char>| #[trigger] strs(r@).contains(x) <==> flat(points_view(points@)).contains(x),
{
    let ghost pv = points_view(points@);
    let mut acc: Vec<(String, ())> = Vec::new();
    assert(keys_of(acc@) =~= Seq::<Seq<char>>::empty());
    assert(pv.take(0) =~= Seq::<Seq<Seq<char>>>::empty());
    let mut i: usize = 0;
    while i < points.len()
        invariant
            i <= points@.len(),
            pv == points_view(points@),
            keyed_wf(acc@),
            forall|x: Seq<char>| #[trigger] has_key(acc@, x) <==> flat(pv.take(i as int)).contains(x),
        decreases points.len() - i,
    {
        let ghost base = flat(pv.take(i as int));
        let p = &points[i];
        assert(pv[i as int] == strs(p@));
        let mut j: usize = 0;
        while j < p.len()
            invariant
                j <= p@.len(),
                keyed_wf(acc@),
                forall|x: Seq<char>| #[trigger] has_key(acc@, x) <==> (base + strs(p@).take(j as int)).contains(x),
            decreases p.len() - j,
        {
            let ghost before = base + strs(p@).take(j as int);
            put(&mut acc, p[j].as_str(), ());
            proof {
                let after = base + strs(p@).take(j + 1);
                assert(after =~= before.push(p@[j as int]@));
                assert forall|x: Seq<char>| #[trigger] after.contains(x) <==> (before.contains(x) || x
                    == p@[j as int]@) by {
                    if after.contains(x) {
                        let k = choose|k: int| 0 <= k < after.len() && after[k] == x;
                        if k < before.len() {
                            assert(before[k] == x);
                        }
                    }
                    if before.contains(x) {
                        let k = choose|k: int| 0 <= k < before.len() && before[k] == x;
                        assert(after[k] == x);
                    }
                    if x == p@[j as int]@ {
                        assert(after[before.len() as int] == x);
                    }
                }
            }
            j = j + 1;
        }
        proof {
            assert(strs(p@).take(p@.len() as int) =~= strs(p@));
            assert(pv.take(i + 1).drop_last() =~= pv.take(i as int));
            assert(flat(pv.take(i + 1)) == base + strs(p@));
        }
        i = i + 1;
    }
    assert(pv.take(points@.len() as int) =~= pv);
    let mut r: Vec<String> = Vec::new();
    let mut k: usize = 0;
    while k < acc.len()
        invariant
            k <= acc@.len(),
            strs(r@) =~= keys_of(acc@).take(k as int),
        decreases acc.len() - k,
    {
        r.push(copy_str(acc[k].0.as_str()));
        assert(keys_of(acc@).take(k + 1) =~= keys_of(acc@).take(k as int).push(acc@[k as int].0@));
        k = k + 1;
    }
    assert(keys_of(acc@).take(acc@.len() as int) =~= keys_of(acc@));
    proof {
        assert forall|x: Seq<char>| #[trigger] strs(r@).contains(x) <==> has_key(acc@, x) by {
            if strs(r@).contains(x) {
                let k = choose|k: int| 0 <= k < strs(r@).len() && strs(r@)[k] == x;
                assert(acc@[k].0@ == x);
            }
            if has_key(acc@, x) {
                let k = choose|k: int| 0 <= k < acc@.len() && acc@[k].0@ == x;
                assert(strs(r@)[k] == x);
            }
        }
    }
    r
}

} // verus!
