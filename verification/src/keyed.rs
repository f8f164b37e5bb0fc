//! Sequences of `(name, value)` pairs kept in strictly increasing name
//! order: the shape of a `BTreeMap<String, T>` held as a `Vec`, with the map
//! it stands for as its model.

use vstd::prelude::*;

use crate::text::{chars_eq, chars_lt, chars_of, copy_str, lemma_lex_irreflexive, lemma_lex_total,
    lemma_lex_transitive, lex_lt};
use crate::workspace::sorted_strict;

verus! {

/// The names of a keyed sequence, in order.
pub open spec fn keys_of<T>(s: Seq<(String, T)>) -> Seq<Seq<char>> {
    s.map_values(|p: (String, T)| p.0@)
}

/// Names strictly increasing, so each occurs once.
pub open spec fn keyed_wf<T>(s: Seq<(String, T)>) -> bool {
    sorted_strict(keys_of(s))
}

/// Whether some pair is named `k`.
pub open spec fn has_key<T>(s: Seq<(String, T)>, k: Seq<char>) -> bool {
    exists|i: int| 0 <= i < s.len() && s[i].0@ == k
}

/// The position of a pair named `k`.
pub open spec fn key_pos<T>(s: Seq<(String, T)>, k: Seq<char>) -> int {
    choose|i: int| 0 <= i < s.len() && s[i].0@ == k
}

/// The value paired with `k`.
pub open spec fn value_of<T>(s: Seq<(String, T)>, k: Seq<char>) -> T {
    s[key_pos(s, k)].1
}

/// The map a keyed sequence stands for, each value seen through `f`.
pub open spec fn keyed_map<T, W>(s: Seq<(String, T)>, f: spec_fn(T) -> W) -> Map<Seq<char>, W> {
    Map::new(|k: Seq<char>| has_key(s, k), |k: Seq<char>| f(value_of(s, k)))
}

/// The map a list of pairs builds when each is inserted in turn, the last
/// of equal names winning.
pub open spec fn pairs_map<T>(s: Seq<(String, T)>) -> Map<Seq<char>, T>
    decreases s.len(),
{
    if s.len() == 0 {
        Map::empty()
    } else {
        pairs_map(s.drop_last()).insert(s.last().0@, s.last().1)
    }
}

pub proof fn lemma_keys_distinct<T>(s: Seq<(String, T)>, i: int, j: int)
    requires
        keyed_wf(s),
        0 <= i < s.len(),
        0 <= j < s.len(),
        s[i].0@ == s[j].0@,
    ensures
        i == j,
{
    if i < j {
        assert(lex_lt(keys_of(s)[i], keys_of(s)[j]));
        lemma_lex_irreflexive(s[i].0@);
    } else if j < i {
        assert(lex_lt(keys_of(s)[j], keys_of(s)[i]));
        lemma_lex_irreflexive(s[i].0@);
    }
}

/// In a well-formed keyed sequence the value of a pair's name is that
/// pair's value.
pub proof fn lemma_value_at<T>(s: Seq<(String, T)>, i: int)
    requires
        keyed_wf(s),
        0 <= i < s.len(),
    ensures
        has_key(s, s[i].0@),
        value_of(s, s[i].0@) == s[i].1,
{
    let k = s[i].0@;
    assert(has_key(s, k));
    let j = key_pos(s, k);
    lemma_keys_distinct(s, i, j);
}

/// Where `k` stands among the sorted names: `Ok(i)` at its pair, or
/// `Err(i)` where a pair named `k` would be inserted.
pub fn find_key<T>(s: &Vec<(String, T)>, k: &str) -> (r: Result<usize, usize>)
    requires
        keyed_wf(s@),
    ensures
        match r {
            Ok(i) => i < s@.len() && s@[i as int].0@ == k@,
            Err(i) => i <= s@.len() && !has_key(s@, k@) && (forall|j: int|
                0 <= j < i ==> lex_lt(#[trigger] s@[j].0@, k@)) && (forall|j: int|
                i <= j < s@.len() ==> lex_lt(k@, #[trigger] s@[j].0@)),
        },
{
    let kv = chars_of(k);
    let mut i: usize = 0;
    while i < s.len()
        invariant
            keyed_wf(s@),
            kv@ == k@,
            i <= s@.len(),
            forall|j: int| 0 <= j < i ==> lex_lt(#[trigger] s@[j].0@, k@),
        decreases s.len() - i,
    {
        let cur = chars_of(s[i].0.as_str());
        if chars_eq(&cur, &kv) {
            return Ok(i);
        }
        if chars_lt(&kv, &cur) {
            proof {
                assert forall|j: int| i <= j < s@.len() implies lex_lt(k@, #[trigger] s@[j].0@) by {
                    if j > i {
                        assert(lex_lt(keys_of(s@)[i as int], keys_of(s@)[j]));
                        lemma_lex_transitive(k@, s@[i as int].0@, s@[j].0@);
                    }
                }
                if has_key(s@, k@) {
                    let j = choose|j: int| 0 <= j < s@.len() && s@[j].0@ == k@;
                    lemma_lex_irreflexive(k@);
                    if j < i {
                        assert(lex_lt(s@[j].0@, k@));
                    } else {
                        assert(lex_lt(k@, s@[j].0@));
                    }
                }
            }
            return Err(i);
        }
        proof {
            lemma_lex_total(cur@, kv@);
        }
        i = i + 1;
    }
    proof {
        if has_key(s@, k@) {
            let j = choose|j: int| 0 <= j < s@.len() && s@[j].0@ == k@;
            lemma_lex_irreflexive(k@);
            assert(lex_lt(s@[j].0@, k@));
        }
    }
    Err(i)
}

/// Removes the pair at `i`; the rest stay in order.
pub proof fn lemma_keyed_remove<T>(s: Seq<(String, T)>, i: int)
    requires
        keyed_wf(s),
        0 <= i < s.len(),
    ensures
        keyed_wf(s.remove(i)),
        forall|x: Seq<char>| #[trigger]
            has_key(s.remove(i), x) <==> (has_key(s, x) && x != s[i].0@),
        forall|x: Seq<char>| #[trigger]
            has_key(s.remove(i), x) ==> value_of(s.remove(i), x) == value_of(s, x),
{
    let t = s.remove(i);
    assert forall|a: int, b: int| 0 <= a < b < t.len() implies lex_lt(
        keys_of(t)[a],
        keys_of(t)[b],
    ) by {
        let a0 = if a < i { a } else { a + 1 };
        let b0 = if b < i { b } else { b + 1 };
        assert(keys_of(t)[a] == keys_of(s)[a0]);
        assert(keys_of(t)[b] == keys_of(s)[b0]);
    }
    assert forall|x: Seq<char>| #[trigger]
        has_key(t, x) <==> (has_key(s, x) && x != s[i].0@) by {
        if has_key(t, x) {
            let j = choose|j: int| 0 <= j < t.len() && t[j].0@ == x;
            let j0 = if j < i { j } else { j + 1 };
            assert(s[j0] == t[j]);
            if x == s[i].0@ {
                lemma_keys_distinct(s, i, j0);
            }
        }
        if has_key(s, x) && x != s[i].0@ {
            let j = choose|j: int| 0 <= j < s.len() && s[j].0@ == x;
            if j < i {
                assert(t[j] == s[j]);
            } else {
                assert(t[j - 1] == s[j]);
            }
        }
    }
    assert forall|x: Seq<char>| #[trigger] has_key(t, x) implies value_of(t, x) == value_of(s, x) by {
        let j = key_pos(t, x);
        let j0 = if j < i { j } else { j + 1 };
        assert(s[j0] == t[j]);
        lemma_value_at(t, j);
        lemma_value_at(s, j0);
    }
}

/// Inserts a pair at the place its name sorts to.
pub proof fn lemma_keyed_insert<T>(s: Seq<(String, T)>, i: int, p: (String, T))
    requires
        keyed_wf(s),
        0 <= i <= s.len(),
        forall|j: int| 0 <= j < i ==> lex_lt(#[trigger] s[j].0@, p.0@),
        forall|j: int| i <= j < s.len() ==> lex_lt(p.0@, #[trigger] s[j].0@),
    ensures
        keyed_wf(s.insert(i, p)),
        forall|x: Seq<char>| #[trigger] has_key(s.insert(i, p), x) <==> (has_key(s, x) || x == p.0@),
        forall|x: Seq<char>| #[trigger]
            has_key(s.insert(i, p), x) ==> value_of(s.insert(i, p), x) == if x == p.0@ {
                p.1
            } else {
                value_of(s, x)
            },
{
    let t = s.insert(i, p);
    assert forall|a: int, b: int| 0 <= a < b < t.len() implies lex_lt(
        keys_of(t)[a],
        keys_of(t)[b],
    ) by {
        if b < i {
            assert(keys_of(t)[a] == keys_of(s)[a]);
            assert(keys_of(t)[b] == keys_of(s)[b]);
        } else if b == i {
            assert(t[a] == s[a]);
        } else if a < i {
            assert(t[a] == s[a]);
            assert(t[b] == s[b - 1]);
            lemma_lex_transitive(s[a].0@, p.0@, s[b - 1].0@);
        } else if a == i {
            assert(t[b] == s[b - 1]);
        } else {
            assert(keys_of(t)[a] == keys_of(s)[a - 1]);
            assert(keys_of(t)[b] == keys_of(s)[b - 1]);
        }
    }
    assert(t[i] == p);
    assert forall|x: Seq<char>| #[trigger] has_key(t, x) <==> (has_key(s, x) || x == p.0@) by {
        if has_key(t, x) {
            let j = choose|j: int| 0 <= j < t.len() && t[j].0@ == x;
            if j < i {
                assert(s[j] == t[j]);
            } else if j > i {
                assert(s[j - 1] == t[j]);
            }
        }
        if has_key(s, x) {
            let j = choose|j: int| 0 <= j < s.len() && s[j].0@ == x;
            if j < i {
                assert(t[j] == s[j]);
            } else {
                assert(t[j + 1] == s[j]);
            }
        }
    }
    assert forall|x: Seq<char>| #[trigger] has_key(t, x) implies value_of(t, x) == if x == p.0@ {
        p.1
    } else {
        value_of(s, x)
    } by {
        let j = key_pos(t, x);
        lemma_value_at(t, j);
        if j < i {
            assert(s[j] == t[j]);
            lemma_value_at(s, j);
            if x == p.0@ {
                lemma_keys_distinct(t, i, j);
            }
        } else if j > i {
            assert(s[j - 1] == t[j]);
            lemma_value_at(s, j - 1);
            if x == p.0@ {
                lemma_keys_distinct(t, i, j);
            }
        }
    }
}

/// Removes the pair named `k`, if there is one, and hands back its value.
pub fn take_key<T>(s: &mut Vec<(String, T)>, k: &str) -> (r: Option<T>)
    requires
        keyed_wf(old(s)@),
    ensures
        keyed_wf(final(s)@),
        r == if has_key(old(s)@, k@) {
            Some(value_of(old(s)@, k@))
        } else {
            None::<T>
        },
        forall|x: Seq<char>| #[trigger]
            has_key(final(s)@, x) <==> (has_key(old(s)@, x) && x != k@),
        forall|x: Seq<char>| #[trigger]
            has_key(final(s)@, x) ==> value_of(final(s)@, x) == value_of(old(s)@, x),
{
    match find_key(s, k) {
        Ok(i) => {
            let ghost s0 = s@;
            proof {
                lemma_keyed_remove(s0, i as int);
                lemma_value_at(s0, i as int);
            }
            let (_, v) = s.remove(i);
            Some(v)
        },
        Err(_) => None,
    }
}

/// Pairs `k` with `v`: replaces the value of a pair named `k`, or inserts
/// one at the place its name sorts to.
pub fn put<T>(s: &mut Vec<(String, T)>, k: &str, v: T)
    requires
        keyed_wf(old(s)@),
    ensures
        keyed_wf(final(s)@),
        forall|x: Seq<char>| #[trigger] has_key(final(s)@, x) <==> (has_key(old(s)@, x) || x == k@),
        forall|x: Seq<char>| #[trigger]
            has_key(final(s)@, x) ==> value_of(final(s)@, x) == if x == k@ {
                v
            } else {
                value_of(old(s)@, x)
            },
{
    let ghost s0 = s@;
    match find_key(s, k) {
        Ok(i) => {
            proof {
                lemma_keyed_remove(s0, i as int);
            }
            let _ = s.remove(i);
            let ghost s1 = s@;
            let p = (copy_str(k), v);
            proof {
                assert forall|j: int| 0 <= j < i implies lex_lt(#[trigger] s1[j].0@, p.0@) by {
                    assert(s1[j] == s0[j]);
                    assert(lex_lt(keys_of(s0)[j], keys_of(s0)[i as int]));
                }
                assert forall|j: int| i <= j < s1.len() implies lex_lt(p.0@, #[trigger] s1[j].0@) by {
                    assert(s1[j] == s0[j + 1]);
                    assert(lex_lt(keys_of(s0)[i as int], keys_of(s0)[j + 1]));
                }
                lemma_keyed_insert(s1, i as int, p);
            }
            s.insert(i, p);
        },
        Err(i) => {
            let p = (copy_str(k), v);
            proof {
                lemma_keyed_insert(s0, i as int, p);
            }
            s.insert(i, p);
        },
    }
}

} // verus!
