//! Argument and path helpers of `cargo soothfast bind`.

use vstd::prelude::*;

use crate::text::{chars_of, split_by, split_chars, string_of, trim_chars, trimmed};

verus! {

/// The trimmed, non-empty pieces of `pieces` from index `i` on.
pub open spec fn kept_pieces(pieces: Seq<Seq<char>>, i: int) -> Seq<Seq<char>>
    decreases pieces.len() - i,
{
    if i < 0 || i >= pieces.len() {
        Seq::empty()
    } else if trimmed(pieces[i]).len() > 0 {
        seq![trimmed(pieces[i])] + kept_pieces(pieces, i + 1)
    } else {
        kept_pieces(pieces, i + 1)
    }
}

/// `--only python,node`: the comma-separated names, trimmed, empty ones
/// dropped.
pub open spec fn spec_parse_only(value: Seq<char>) -> Seq<Seq<char>> {
    kept_pieces(split_by(value, ","@), 0)
}

/// Parse `--only python,node` into the languages to keep.
pub fn parse_only(value: &str) -> (r: Vec<String>)
    ensures
        r@.map_values(|s: String| s@) == spec_parse_only(value@),
{
    let v = chars_of(value);
    let comma = chars_of(",");
    proof {
        reveal_strlit(",");
    }
    let pieces = split_chars(&v, &comma);
    let ghost ps = pieces@.map_values(|p: Vec<char>| p@);
    let mut out: Vec<String> = Vec::new();
    let mut i: usize = 0;
    while i < pieces.len()
        invariant
            ps == pieces@.map_values(|p: Vec<char>| p@),
            ps == split_by(value@, ","@),
            i <= pieces.len(),
            out@.map_values(|s: String| s@) + kept_pieces(ps, i as int) == spec_parse_only(value@),
        decreases pieces.len() - i,
    {
        assert(ps[i as int] == pieces@[i as int]@);
        let t = trim_chars(&pieces[i]);
        let ghost before = out@.map_values(|s: String| s@);
        if t.len() > 0 {
            let s = string_of(t.as_slice());
            out.push(s);
            assert(out@.map_values(|s: String| s@) =~= before.push(s@));
            assert(before + kept_pieces(ps, i as int) =~= before.push(s@) + kept_pieces(ps, i + 1));
        }
        i = i + 1;
    }
    assert(out@.map_values(|s: String| s@) + kept_pieces(ps, i as int) =~= out@.map_values(
        |s: String| s@,
    ));
    out
}

/// The number of non-empty pieces among `pieces` from index `i` on.
pub open spec fn nonempty_count(pieces: Seq<Seq<char>>, i: int) -> int
    decreases pieces.len() - i,
{
    if i < 0 || i >= pieces.len() {
        0
    } else {
        (if pieces[i].len() > 0 { 1int } else { 0int }) + nonempty_count(pieces, i + 1)
    }
}

/// `..` repeated `n` times, joined by `/`.
pub open spec fn parent_steps(n: nat) -> Seq<char>
    decreases n,
{
    if n <= 1 {
        ".."@
    } else {
        parent_steps((n - 1) as nat) + "/.."@
    }
}

/// The path from an output directory back to the package root: one `..`
/// per non-empty segment of `out`, at least one.
pub open spec fn spec_crate_path(out: Seq<char>) -> Seq<char> {
    let depth = nonempty_count(split_by(out, "/"@), 0);
    parent_steps(if depth < 1 { 1nat } else { depth as nat })
}

proof fn lemma_count_bounds(pieces: Seq<Seq<char>>, i: int)
    requires
        0 <= i <= pieces.len(),
    ensures
        0 <= nonempty_count(pieces, i) <= pieces.len() - i,
    decreases pieces.len() - i,
{
    if i < pieces.len() {
        lemma_count_bounds(pieces, i + 1);
    }
}

/// The path from the glue crate back to the package it binds, one `..` per
/// segment of the output directory.
pub fn crate_path(out: &str) -> (r: String)
    ensures
        r@ == spec_crate_path(out@),
{
    let v = chars_of(out);
    let slash = chars_of("/");
    proof {
        reveal_strlit("/");
        reveal_strlit("..");
        reveal_strlit("/..");
    }
    let pieces = split_chars(&v, &slash);
    let ghost ps = pieces@.map_values(|p: Vec<char>| p@);
    let mut depth: usize = 0;
    let mut i: usize = 0;
    proof {
        lemma_count_bounds(ps, 0);
    }
    while i < pieces.len()
        invariant
            ps == pieces@.map_values(|p: Vec<char>| p@),
            i <= pieces.len(),
            depth as int + nonempty_count(ps, i as int) == nonempty_count(ps, 0),
            nonempty_count(ps, 0) <= pieces.len(),
            depth <= i,
        decreases pieces.len() - i,
    {
        assert(ps[i as int] == pieces@[i as int]@);
        proof {
            lemma_count_bounds(ps, i + 1);
        }
        if pieces[i].len() > 0 {
            depth = depth + 1;
        }
        i = i + 1;
    }
    if depth < 1 {
        depth = 1;
    }
    let mut r = crate::text::copy_str("..");
    let mut k: usize = 1;
    while k < depth
        invariant
            1 <= k <= depth,
            r@ == parent_steps(k as nat),
        decreases depth - k,
    {
        r.append("/..");
        k = k + 1;
    }
    r
}

} // verus!
