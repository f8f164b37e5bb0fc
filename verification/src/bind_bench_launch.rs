//! Per-language launch outcomes for `bind bench`.

use vstd::prelude::*;

use crate::text::{chars_of, occurs_at_exec};

verus! {

/// Why a script didn't run.
pub enum LaunchError {
    /// A required tool, or a build artifact it depends on, isn't there;
    /// the caller skips the entry.
    Missing(String),
    /// Setup ran but failed for a real reason; the caller fails the entry.
    Failed(String),
}

/// Whether `s` ends with `suffix`.
pub open spec fn has_suffix(s: Seq<char>, suffix: Seq<char>) -> bool {
    suffix.len() <= s.len() && s.subrange(s.len() - suffix.len(), s.len() as int) == suffix
}

/// Index of the first of `artifacts` (from `i` on) ending in `suffix`.
pub open spec fn first_with_suffix(artifacts: Seq<String>, suffix: Seq<char>, i: int) -> Option<int>
    decreases artifacts.len() - i,
{
    if i < 0 || i >= artifacts.len() {
        None
    } else if has_suffix(artifacts[i]@, suffix) {
        Some(i)
    } else {
        first_with_suffix(artifacts, suffix, i + 1)
    }
}

/// The first of `artifacts` ending in `suffix`.
pub fn find_artifact<'a>(artifacts: &'a [String], suffix: &str) -> (r: Option<&'a str>)
    ensures
        match first_with_suffix(artifacts@, suffix@, 0) {
            Some(i) => r is Some && r->0@ == artifacts@[i]@,
            None => r is None,
        },
{
    let suf = chars_of(suffix);
    let mut i: usize = 0;
    while i < artifacts.len()
        invariant
            suf@ == suffix@,
            i <= artifacts.len(),
            first_with_suffix(artifacts@, suffix@, i as int) == first_with_suffix(
                artifacts@,
                suffix@,
                0,
            ),
        decreases artifacts.len() - i,
    {
        let a = chars_of(artifacts[i].as_str());
        let ends = suf.len() <= a.len() && occurs_at_exec(&a, &suf, a.len() - suf.len());
        if ends {
            return Some(artifacts[i].as_str());
        }
        i = i + 1;
    }
    None
}

} // verus!
