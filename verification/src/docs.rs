//! Helpers of the living-docs checker: the sniffed head of a spec file,
//! the fingerprint text a lock records, and how binds and exported items
//! are reconciled with the committed lock.

use vstd::prelude::*;
use vstd::string::StringSliceAdditionalSpecFns;
use vstd::utf8::{encode_utf8_valid_utf8, is_char_boundary};

use crate::keyed::{find_key, has_key, keyed_wf, keys_of, lemma_value_at, value_of};
use crate::text::{digit_char, has_prefix, starts_with_chars, chars_of, str_eq, copy_str};

verus! {

/// The largest char boundary of `bytes` at or below `j`.
pub open spec fn boundary_at_or_below(bytes: Seq<u8>, j: int) -> int
    decreases j,
{
    if j <= 0 {
        0
    } else if is_char_boundary(bytes, j) {
        j
    } else {
        boundary_at_or_below(bytes, j - 1)
    }
}

/// The byte length of the head [`head_for_sniff`] keeps: the largest char
/// boundary no further than `limit` bytes in (and no further than the end).
pub open spec fn sniff_cut(bytes: Seq<u8>, limit: int) -> int {
    boundary_at_or_below(bytes, if bytes.len() < limit { bytes.len() as int } else { limit })
}

/// First at most `limit` bytes of `text`, backed off to a char boundary so
/// slicing non-ASCII docs can't panic.
pub fn head_for_sniff(text: &str, limit: usize) -> (r: &str)
    requires
        text.spec_bytes().len() <= usize::MAX,
    ensures
        r.spec_bytes() == text.spec_bytes().take(sniff_cut(text.spec_bytes(), limit as int)),
{
    proof {
        encode_utf8_valid_utf8(text@);
    }
    let mut i: usize = if text.len() < limit { text.len() } else { limit };
    while i > 0 && !text.is_char_boundary(i)
        invariant
            i <= text.spec_bytes().len(),
            vstd::utf8::valid_utf8(text.spec_bytes()),
            boundary_at_or_below(text.spec_bytes(), i as int) == sniff_cut(
                text.spec_bytes(),
                limit as int,
            ),
        decreases i,
    {
        i = i - 1;
    }
    let (head, _) = text.split_at(i);
    head
}

} // verus!

verus! {

/// The lowercase hex digit for `d < 16`.
pub open spec fn hex_char(d: nat) -> char {
    if d < 10 {
        digit_char(d)
    } else if d == 10 {
        'a'
    } else if d == 11 {
        'b'
    } else if d == 12 {
        'c'
    } else if d == 13 {
        'd'
    } else if d == 14 {
        'e'
    } else {
        'f'
    }
}

/// The last `width` hex digits of `n`, zero-padded on the left, as
/// `{:0width$x}` formats a number that fits.
pub open spec fn hex_padded(n: nat, width: nat) -> Seq<char>
    decreases width,
{
    if width == 0 {
        Seq::empty()
    } else {
        hex_padded(n / 16, (width - 1) as nat).push(hex_char(n % 16))
    }
}

pub(crate) fn hex_char_exec(d: u64) -> (c: char)
    requires
        d < 16,
    ensures
        c == hex_char(d as nat),
{
    if d == 0 {
        '0'
    } else if d == 1 {
        '1'
    } else if d == 2 {
        '2'
    } else if d == 3 {
        '3'
    } else if d == 4 {
        '4'
    } else if d == 5 {
        '5'
    } else if d == 6 {
        '6'
    } else if d == 7 {
        '7'
    } else if d == 8 {
        '8'
    } else if d == 9 {
        '9'
    } else if d == 10 {
        'a'
    } else if d == 11 {
        'b'
    } else if d == 12 {
        'c'
    } else if d == 13 {
        'd'
    } else if d == 14 {
        'e'
    } else {
        'f'
    }
}

fn hex_padded_exec(n: u64, width: usize) -> (v: Vec<char>)
    ensures
        v@ == hex_padded(n as nat, width as nat),
    decreases width,
{
    if width == 0 {
        Vec::new()
    } else {
        let mut v = hex_padded_exec(n / 16, width - 1);
        v.push(hex_char_exec(n % 16));
        v
    }
}

/// A contract fingerprint as the lock records it: sixteen lowercase hex
/// digits (`{:016x}`).
pub fn fingerprint_hex(fp: u64) -> (s: String)
    ensures
        s@ == hex_padded(fp as nat, 16),
{
    let v = hex_padded_exec(fp, 16);
    crate::text::string_of(v.as_slice())
}

/// How an item stands against the committed lock.
#[derive(Debug, PartialEq, Eq, Structural, Clone, Copy)]
pub enum LockVerdict {
    /// The lock records the item at its current fingerprint.
    Fresh,
    /// The lock does not record the item: it has never been reviewed.
    NotLocked,
    /// The lock records another fingerprint: the code changed under the
    /// reviewed prose or signature.
    Stale,
}

/// An item's verdict from its current fingerprint and what the lock holds
/// for it.
pub open spec fn spec_lock_verdict(current: Seq<char>, locked: Option<Seq<char>>) -> LockVerdict {
    match locked {
        None => LockVerdict::NotLocked,
        Some(l) => if l == current {
            LockVerdict::Fresh
        } else {
            LockVerdict::Stale
        },
    }
}

/// See [`spec_lock_verdict`].
pub fn lock_verdict(current: &str, locked: Option<&str>) -> (v: LockVerdict)
    ensures
        v == spec_lock_verdict(current@, match locked {
            Some(l) => Some(l@),
            None => None,
        }),
{
    match locked {
        None => LockVerdict::NotLocked,
        Some(l) => if str_eq(l, current) {
            LockVerdict::Fresh
        } else {
            LockVerdict::Stale
        },
    }
}

/// What the lock holds for `id`, if anything.
pub open spec fn locked_at(locked: Seq<(String, String)>, id: Seq<char>) -> Option<Seq<char>> {
    if has_key(locked, id) {
        Some(value_of(locked, id)@)
    } else {
        None
    }
}

/// Reconciles a package's exported items with the lock. `fresh` holds each
/// exported item's id and current fingerprint, `locked` what the lock
/// records, both in id order; `prefix` is the package's id prefix. Returns
/// each exported item's verdict, in `fresh` order, and the locked ids under
/// the prefix that are no longer exported (consumers lose them), in lock
/// order.
pub fn export_findings(
    fresh: &Vec<(String, String)>,
    locked: &Vec<(String, String)>,
    prefix: &str,
) -> (r: (Vec<LockVerdict>, Vec<String>))
    requires
        keyed_wf(fresh@),
        keyed_wf(locked@),
    ensures
        r.0@.len() == fresh@.len(),
        forall|i: int|
            0 <= i < fresh@.len() ==> r.0@[i] == spec_lock_verdict(
                #[trigger] fresh@[i].1@,
                locked_at(locked@, fresh@[i].0@),
            ),
        r.1@.map_values(|s: String| s@) == keys_of(locked@).filter(
            |k: Seq<char>| has_prefix(k, prefix@) && !has_key(fresh@, k),
        ),
{
    let mut verdicts: Vec<LockVerdict> = Vec::new();
    let mut i: usize = 0;
    while i < fresh.len()
        invariant
            keyed_wf(locked@),
            i <= fresh@.len(),
            verdicts@.len() == i,
            forall|j: int|
                0 <= j < i ==> verdicts@[j] == spec_lock_verdict(
                    #[trigger] fresh@[j].1@,
                    locked_at(locked@, fresh@[j].0@),
                ),
        decreases fresh.len() - i,
    {
        let v = match find_key(locked, fresh[i].0.as_str()) {
            Ok(k) => {
                proof {
                    lemma_value_at(locked@, k as int);
                }
                lock_verdict(fresh[i].1.as_str(), Some(locked[k].1.as_str()))
            },
            Err(_) => lock_verdict(fresh[i].1.as_str(), None),
        };
        verdicts.push(v);
        i = i + 1;
    }
    let ghost pred = |k: Seq<char>| has_prefix(k, prefix@) && !has_key(fresh@, k);
    let pv = chars_of(prefix);
    let mut dropped: Vec<String> = Vec::new();
    let mut j: usize = 0;
    while j < locked.len()
        invariant
            keyed_wf(fresh@),
            pv@ == prefix@,
            j <= locked@.len(),
            pred == (|k: Seq<char>| has_prefix(k, prefix@) && !has_key(fresh@, k)),
            dropped@.map_values(|s: String| s@) == keys_of(locked@).take(j as int).filter(pred),
        decreases locked.len() - j,
    {
        let id = locked[j].0.as_str();
        let gone = starts_with_chars(&chars_of(id), &pv) && match find_key(fresh, id) {
            Ok(_) => false,
            Err(_) => true,
        };
        let ghost before = dropped@.map_values(|s: String| s@);
        proof {
            reveal(Seq::filter);
            let t = keys_of(locked@).take(j as int + 1);
            assert(t.drop_last() =~= keys_of(locked@).take(j as int));
            assert(t.last() == id@);
        }
        if gone {
            dropped.push(copy_str(id));
            assert(dropped@.map_values(|s: String| s@) =~= before.push(id@));
        }
        j = j + 1;
    }
    assert(keys_of(locked@).take(locked@.len() as int) =~= keys_of(locked@));
    (verdicts, dropped)
}

/// The value of one lowercase hex digit.
pub open spec fn hex_char_value(c: char) -> nat {
    if '0' <= c <= '9' {
        (c as nat - '0' as nat) as nat
    } else if 'a' <= c <= 'f' {
        (c as nat - 'a' as nat + 10) as nat
    } else {
        0
    }
}

/// The number a string of lowercase hex digits spells.
pub open spec fn hex_value(s: Seq<char>) -> nat
    decreases s.len(),
{
    if s.len() == 0 {
        0
    } else {
        hex_value(s.drop_last()) * 16 + hex_char_value(s.last())
    }
}

/// Sixteen to the power `w`.
pub open spec fn pow16(w: nat) -> nat
    decreases w,
{
    if w == 0 {
        1
    } else {
        16 * pow16((w - 1) as nat)
    }
}

proof fn lemma_pow16_positive(w: nat)
    ensures
        pow16(w) > 0,
    decreases w,
{
    if w > 0 {
        lemma_pow16_positive((w - 1) as nat);
    }
}

proof fn lemma_hex_char_value(d: nat)
    requires
        d < 16,
    ensures
        hex_char_value(hex_char(d)) == d,
{
}

/// The padded digits spell the number's last `width` hex digits back.
pub proof fn lemma_hex_padded_value(n: nat, width: nat)
    ensures
        hex_padded(n, width).len() == width,
        hex_value(hex_padded(n, width)) == n % pow16(width),
    decreases width,
{
    if width > 0 {
        let w1 = (width - 1) as nat;
        lemma_hex_padded_value(n / 16, w1);
        lemma_pow16_positive(w1);
        let h = hex_padded(n, width);
        assert(h.drop_last() =~= hex_padded(n / 16, w1));
        lemma_hex_char_value(n % 16);
        vstd::arithmetic::div_mod::lemma_mod_breakdown(n as int, 16, pow16(w1) as int);
    }
}

/// The lock's fingerprint text is faithful: always sixteen digits, and two
/// different fingerprints never print alike, so any change to a locked
/// item's contract reads as STALE.
pub proof fn law_fingerprint_text_is_faithful(a: u64, b: u64)
    ensures
        hex_padded(a as nat, 16).len() == 16,
        a != b ==> hex_padded(a as nat, 16) != hex_padded(b as nat, 16),
{
    lemma_hex_padded_value(a as nat, 16);
    lemma_hex_padded_value(b as nat, 16);
    reveal_with_fuel(pow16, 17);
    assert(pow16(16) == 0x1_0000_0000_0000_0000);
}

} // verus!
