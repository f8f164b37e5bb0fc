//! Documentation and test coverage figures.

use vstd::prelude::*;

verus! {

/// The items covered: all but the missing ones, none when more are
/// missing than there are.
pub open spec fn covered(total: u32, missing: u32) -> int {
    if missing <= total {
        total - missing
    } else {
        0
    }
}

/// The integer floor percentage of covered items.
pub open spec fn floor_percent(total: u32, missing: u32) -> int {
    (covered(total, missing) * 100) / (total as int)
}

/// Integer floor percentage of covered items; an empty surface counts as
/// fully covered.
pub fn pct(total: u32, missing: u32) -> (r: u32)
    ensures
        total == 0 ==> r == 100,
        total > 0 ==> r == floor_percent(total, missing),
{
    if total == 0 {
        return 100;
    }
    let covered: u64 = if missing <= total {
        (total - missing) as u64
    } else {
        0
    };
    let scaled: u64 = covered * 100;
    let q: u64 = scaled / (total as u64);
    assert(q <= 100) by (nonlinear_arith)
        requires
            q == scaled / (total as u64),
            scaled == covered * 100,
            covered <= total,
            total > 0,
    ;
    q as u32
}

/// A coverage figure is a percentage: never above a hundred.
pub proof fn law_pct_at_most_hundred(total: u32, missing: u32)
    requires
        total > 0,
    ensures
        0 <= floor_percent(total, missing) <= 100,
{
    let n = covered(total, missing) * 100;
    assert(0 <= n <= (total as int) * 100);
    assert(0 <= n / (total as int) <= 100) by (nonlinear_arith)
        requires
            0 <= n <= (total as int) * 100,
            total > 0,
    ;
}

/// With nothing missing the figure is exactly a hundred, and only then.
pub proof fn law_nothing_missing_is_full(total: u32, missing: u32)
    requires
        total > 0,
        missing <= total,
    ensures
        floor_percent(total, missing) == 100 <==> missing == 0,
{
    let c = (total - missing) as int;
    let t = total as int;
    assert(c * 100 / t == 100 <==> c == t) by (nonlinear_arith)
        requires
            0 <= c <= t,
            t > 0,
    {
        if c < t {
            assert(c * 100 <= t * 100 - 100);
            assert(c * 100 / t < 100);
        }
    }
}

} // verus!
