//! The buildcost backend's plan: compile time and artifact size are
//! measured per declared feature combination (`--features-matrix
//! "default;full;a,b"`), never the powerset.

use vstd::prelude::*;

use crate::invoke::{buildcost_pkg, is_buildcost_key};
use crate::text::{
    chars_of, copy_str, occurs_at, split_by, split_chars, split_walk, str_eq, string_of, trim_chars,
    trimmed,
};

verus! {

/// The non-empty trimmed pieces among `pieces`, in order.
pub open spec fn nonempty_trimmed(pieces: Seq<Seq<char>>) -> Seq<Seq<char>>
    decreases pieces.len(),
{
    if pieces.len() == 0 {
        Seq::empty()
    } else {
        nonempty_trimmed(pieces.drop_last()) + if trimmed(pieces.last()).len() > 0 {
            seq![trimmed(pieces.last())]
        } else {
            Seq::empty()
        }
    }
}

/// The combos a matrix declares: its `;`-separated parts, trimmed, empty
/// ones dropped.
pub open spec fn spec_matrix_combos(matrix: Seq<char>) -> Seq<Seq<char>> {
    nonempty_trimmed(split_by(matrix, ";"@))
}

/// See [`spec_matrix_combos`].
pub fn matrix_combos(matrix: &str) -> (r: Vec<String>)
    ensures
        r@.map_values(|s: String| s@) == spec_matrix_combos(matrix@),
{
    proof {
        reveal_strlit(";");
    }
    let pieces = split_chars(&chars_of(matrix), &chars_of(";"));
    let ghost ps = pieces@.map_values(|p: Vec<char>| p@);
    let mut r: Vec<String> = Vec::new();
    let mut i: usize = 0;
    while i < pieces.len()
        invariant
            ps == pieces@.map_values(|p: Vec<char>| p@),
            i <= pieces@.len(),
            r@.map_values(|s: String| s@) == nonempty_trimmed(ps.take(i as int)),
        decreases pieces.len() - i,
    {
        let t = trim_chars(&pieces[i]);
        let ghost before = r@.map_values(|s: String| s@);
        proof {
            let tk = ps.take(i as int + 1);
            assert(tk.drop_last() =~= ps.take(i as int));
            assert(tk.last() == pieces@[i as int]@);
        }
        if t.len() > 0 {
            r.push(string_of(t.as_slice()));
            assert(r@.map_values(|s: String| s@) =~= before + seq![t@]);
        } else {
            assert(r@.map_values(|s: String| s@) =~= before + Seq::<Seq<char>>::empty());
        }
        i = i + 1;
    }
    assert(ps.take(pieces@.len() as int) =~= ps);
    r
}

/// The feature flags of a combo's build: `default` adds none, `none`
/// turns the default features off, and anything else names the features.
pub open spec fn spec_combo_flags(combo: Seq<char>) -> Seq<Seq<char>> {
    if combo == "default"@ {
        Seq::empty()
    } else if combo == "none"@ {
        seq!["--no-default-features"@]
    } else {
        seq!["--features"@, combo]
    }
}

/// See [`spec_combo_flags`].
pub fn combo_flags(combo: &str) -> (r: Vec<String>)
    ensures
        r@.map_values(|s: String| s@) == spec_combo_flags(combo@),
{
    let mut r: Vec<String> = Vec::new();
    if str_eq(combo, "default") {
    } else if str_eq(combo, "none") {
        r.push(copy_str("--no-default-features"));
    } else {
        r.push(copy_str("--features"));
        r.push(copy_str(combo));
    }
    assert(r@.map_values(|s: String| s@) =~= spec_combo_flags(combo@));
    r
}

/// The item id of a combo's measurement: `buildcost::PKG::COMBO`.
pub fn buildcost_id(pkg: &str, combo: &str) -> (r: String)
    ensures
        r@ == "buildcost::"@ + pkg@ + "::"@ + combo@,
{
    let mut r = copy_str("buildcost::");
    r.append(pkg);
    r.append("::");
    r.append(combo);
    r
}

/// The first piece `str::split` yields is everything before the first
/// occurrence of the separator.
proof fn lemma_first_piece(s: Seq<char>, sep: Seq<char>, pos: int, k: int)
    requires
        sep.len() > 0,
        0 <= pos <= k,
        occurs_at(s, sep, k),
        forall|j: int| pos <= j < k ==> !occurs_at(s, sep, j),
    ensures
        split_walk(s, sep, 0, pos)[0] == s.subrange(0, k),
    decreases k - pos,
{
    if pos < k {
        lemma_first_piece(s, sep, pos + 1, k);
    }
}

/// Every buildcost item measured for a package lies in that package's
/// buildcost slice, the slice a buildcost save of the package replaces,
/// as long as the package name holds no `:`.
pub proof fn law_buildcost_ids_sit_in_their_package_slice(pkg: Seq<char>, combo: Seq<char>)
    requires
        !pkg.contains(':'),
    ensures
        is_buildcost_key("buildcost::"@ + pkg + "::"@ + combo),
        buildcost_pkg("buildcost::"@ + pkg + "::"@ + combo) == pkg,
{
    reveal_strlit("buildcost::");
    reveal_strlit("::");
    let id = "buildcost::"@ + pkg + "::"@ + combo;
    assert(id.take(11) =~= "buildcost::"@);
    let rest = id.subrange(11, id.len() as int);
    assert(rest =~= pkg + "::"@ + combo);
    assert(rest.subrange(pkg.len() as int, pkg.len() as int + 2) =~= "::"@);
    assert forall|j: int| 0 <= j < pkg.len() implies !occurs_at(rest, "::"@, j) by {
        if occurs_at(rest, "::"@, j) {
            assert(rest.subrange(j, j + 2)[0] == ':');
            assert(rest[j] == pkg[j]);
        }
    }
    lemma_first_piece(rest, "::"@, 0, pkg.len() as int);
    assert(rest.subrange(0, pkg.len() as int) =~= pkg);
}

} // verus!
