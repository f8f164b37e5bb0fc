//! `bind bench` record naming: which shapes a host script may report and
//! the baseline id each shape's ratio is filed under.

use vstd::prelude::*;

use crate::text::{chars_of, push_chars, replace_char, replaced};

verus! {

/// `c.is_ascii_alphabetic() || c == '_'`.
pub open spec fn ident_start(c: char) -> bool {
    ('a' <= c <= 'z') || ('A' <= c <= 'Z') || c == '_'
}

/// `c.is_ascii_alphanumeric() || c == '_'`.
pub open spec fn ident_continue(c: char) -> bool {
    ident_start(c) || ('0' <= c <= '9')
}

/// Whether `shape` has the shape of a Rust identifier: an ASCII letter or
/// `_`, then ASCII letters, digits or `_`.
pub open spec fn spec_valid_shape(shape: Seq<char>) -> bool {
    shape.len() > 0 && ident_start(shape[0]) && forall|i: int|
        1 <= i < shape.len() ==> ident_continue(#[trigger] shape[i])
}

/// A shape name has to survive `item.backend.metric` claim parsing (which
/// splits on `.`) and read cleanly in a baseline id, so it's held to the
/// same identifier shape as a Rust item name.
pub fn valid_shape(shape: &str) -> (r: bool)
    ensures
        r == spec_valid_shape(shape@),
{
    let v = chars_of(shape);
    if v.len() == 0 {
        return false;
    }
    let c0 = v[0];
    if !(('a' <= c0 && c0 <= 'z') || ('A' <= c0 && c0 <= 'Z') || c0 == '_') {
        return false;
    }
    let mut i: usize = 1;
    while i < v.len()
        invariant
            v@ == shape@,
            1 <= i <= v.len(),
            forall|k: int| 1 <= k < i ==> ident_continue(#[trigger] v@[k]),
        decreases v.len() - i,
    {
        let c = v[i];
        if !(('a' <= c && c <= 'z') || ('A' <= c && c <= 'Z') || c == '_' || ('0' <= c && c <= '9')) {
            return false;
        }
        i = i + 1;
    }
    true
}

/// `<crate>::bind::<lang>::<shape>`, the crate name with `-` normalized to
/// `_`.
pub open spec fn spec_item_id(pkg: Seq<char>, lang: Seq<char>, shape: Seq<char>) -> Seq<char> {
    replaced(pkg, '-', '_') + "::bind::"@ + lang + "::"@ + shape
}

/// The baseline item id one shape's ratio is filed under. Matches the
/// normalized-crate-name form every other measured item id already uses,
/// so a claim on `<id>.ratio.ratio` resolves the same way `alloc` and
/// `walltime` claims do.
pub fn item_id(pkg: &str, lang: &str, shape: &str) -> (r: String)
    ensures
        r@ == spec_item_id(pkg@, lang@, shape@),
{
    let mut out = String::new();
    push_chars(&mut out, &replace_char(pkg, '-', '_'));
    out.append("::bind::");
    out.append(lang);
    out.append("::");
    out.append(shape);
    out
}

} // verus!
