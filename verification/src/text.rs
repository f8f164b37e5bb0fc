//! Character-level helpers shared by the string-producing functions.

use vstd::prelude::*;

verus! {

broadcast use vstd::string::axiom_spec_iter, vstd::string::next_postcondition;

/// The characters of `s`, in order.
pub fn chars_of(s: &str) -> (v: Vec<char>)
    ensures
        v@ == s@,
{
    let mut v: Vec<char> = Vec::new();
    for c in it: s.chars()
        invariant
            it.seq() == s@,
            v@ == it.seq().take(it.index() as int),
    {
        v.push(c);
    }
    v
}

} // verus!

verus! {

/// Appends one character, as `String::push` does.
#[verifier::external_body]
pub(crate) fn push_char(s: &mut String, c: char)
    ensures
        final(s)@ == old(s)@.push(c),
{
    s.push(c);
}

/// What `escape` turns one character into.
pub open spec fn escape_char(c: char) -> Seq<char> {
    if c == '&' {
        seq!['&', 'a', 'm', 'p', ';']
    } else if c == '<' {
        seq!['&', 'l', 't', ';']
    } else if c == '>' {
        seq!['&', 'g', 't', ';']
    } else if c == '"' {
        seq!['&', 'q', 'u', 'o', 't', ';']
    } else if c == '\'' {
        seq!['&', '#', '3', '9', ';']
    } else {
        seq![c]
    }
}

/// `s` with every character replaced by its HTML escape.
pub open spec fn escaped(s: Seq<char>) -> Seq<char>
    decreases s.len(),
{
    if s.len() == 0 {
        Seq::empty()
    } else {
        escaped(s.drop_last()) + escape_char(s.last())
    }
}

/// HTML-escapes text for element content and attribute values.
pub fn escape(s: &str) -> (out: String)
    ensures
        out@ == escaped(s@),
{
    let cs = chars_of(s);
    let mut out = String::new();
    let mut i: usize = 0;
    while i < cs.len()
        invariant
            cs@ == s@,
            i <= cs.len(),
            out@ == escaped(s@.take(i as int)),
        decreases cs.len() - i,
    {
        let c = cs[i];
        proof {
            reveal_strlit("&amp;");
            reveal_strlit("&lt;");
            reveal_strlit("&gt;");
            reveal_strlit("&quot;");
            reveal_strlit("&#39;");
        }
        if c == '&' {
            out.append("&amp;");
        } else if c == '<' {
            out.append("&lt;");
        } else if c == '>' {
            out.append("&gt;");
        } else if c == '"' {
            out.append("&quot;");
        } else if c == '\'' {
            out.append("&#39;");
        } else {
            push_char(&mut out, c);
        }
        assert(s@.take(i + 1).drop_last() =~= s@.take(i as int));
        i = i + 1;
    }
    assert(s@.take(cs.len() as int) =~= s@);
    out
}

} // verus!

verus! {

/// A string holding exactly the characters `v`.
pub fn string_of(v: &[char]) -> (s: String)
    ensures
        s@ == v@,
{
    let mut s = String::new();
    let mut i: usize = 0;
    while i < v.len()
        invariant
            i <= v.len(),
            s@ == v@.take(i as int),
        decreases v.len() - i,
    {
        push_char(&mut s, v[i]);
        assert(v@.take(i + 1) =~= v@.take(i as int).push(v@[i as int]));
        i = i + 1;
    }
    assert(v@.take(v@.len() as int) =~= v@);
    s
}

/// Whether `c` has the Unicode `White_Space` property, as `char::is_whitespace`
/// decides it.
pub open spec fn is_ws(c: char) -> bool {
    let u = c as u32;
    ||| u == 0x20
    ||| 0x09 <= u <= 0x0d
    ||| u == 0x85
    ||| u == 0xa0
    ||| u == 0x1680
    ||| 0x2000 <= u <= 0x200a
    ||| u == 0x2028
    ||| u == 0x2029
    ||| u == 0x202f
    ||| u == 0x205f
    ||| u == 0x3000
}

/// Executable form of [`is_ws`].
pub fn char_is_ws(c: char) -> (r: bool)
    ensures
        r == is_ws(c),
{
    let u = c as u32;
    u == 0x20 || (0x09 <= u && u <= 0x0d) || u == 0x85 || u == 0xa0 || u == 0x1680 || (0x2000
        <= u && u <= 0x200a) || u == 0x2028 || u == 0x2029 || u == 0x202f || u == 0x205f || u
        == 0x3000
}

/// Index of the first character at or after `i` that is not whitespace.
pub open spec fn skip_ws(s: Seq<char>, i: int) -> int
    decreases s.len() - i,
{
    if 0 <= i < s.len() && is_ws(s[i]) {
        skip_ws(s, i + 1)
    } else {
        i
    }
}

/// End of `s.take(j)` once trailing whitespace is dropped.
pub open spec fn back_ws(s: Seq<char>, j: int) -> int
    decreases j,
{
    if 0 < j <= s.len() && is_ws(s[j - 1]) {
        back_ws(s, j - 1)
    } else {
        j
    }
}

/// `s` without leading and trailing whitespace, as `str::trim` gives it.
pub open spec fn trimmed(s: Seq<char>) -> Seq<char> {
    let t = s.subrange(skip_ws(s, 0), s.len() as int);
    t.take(back_ws(t, t.len() as int))
}

/// Index of the first character at or after `i` that is not `c`.
pub open spec fn skip_char(s: Seq<char>, c: char, i: int) -> int
    decreases s.len() - i,
{
    if 0 <= i < s.len() && s[i] == c {
        skip_char(s, c, i + 1)
    } else {
        i
    }
}

/// End of `s.take(j)` once trailing copies of `c` are dropped.
pub open spec fn back_char(s: Seq<char>, c: char, j: int) -> int
    decreases j,
{
    if 0 < j <= s.len() && s[j - 1] == c {
        back_char(s, c, j - 1)
    } else {
        j
    }
}

/// `s` without leading and trailing copies of `c`, as `str::trim_matches`
/// with a single character gives it.
pub open spec fn trimmed_char(s: Seq<char>, c: char) -> Seq<char> {
    let t = s.subrange(skip_char(s, c, 0), s.len() as int);
    t.take(back_char(t, c, t.len() as int))
}

/// The characters of `v[lo..hi]`.
pub fn slice_chars(v: &Vec<char>, lo: usize, hi: usize) -> (r: Vec<char>)
    requires
        lo <= hi <= v.len(),
    ensures
        r@ == v@.subrange(lo as int, hi as int),
{
    let mut r: Vec<char> = Vec::new();
    let mut i = lo;
    while i < hi
        invariant
            lo <= i <= hi <= v.len(),
            r@ == v@.subrange(lo as int, i as int),
        decreases hi - i,
    {
        r.push(v[i]);
        assert(v@.subrange(lo as int, i + 1) =~= v@.subrange(lo as int, i as int).push(v@[i as int]));
        i = i + 1;
    }
    r
}

/// [`trimmed`] over a character vector.
pub fn trim_chars(v: &Vec<char>) -> (r: Vec<char>)
    ensures
        r@ == trimmed(v@),
{
    let mut a: usize = 0;
    while a < v.len() && char_is_ws(v[a])
        invariant
            a <= v.len(),
            skip_ws(v@, a as int) == skip_ws(v@, 0),
        decreases v.len() - a,
    {
        a = a + 1;
    }
    let t = slice_chars(v, a, v.len());
    let mut b: usize = t.len();
    while b > 0 && char_is_ws(t[b - 1])
        invariant
            b <= t.len(),
            back_ws(t@, b as int) == back_ws(t@, t@.len() as int),
        decreases b,
    {
        b = b - 1;
    }
    slice_chars(&t, 0, b)
}

/// [`trimmed_char`] over a character vector.
pub fn trim_char(v: &Vec<char>, c: char) -> (r: Vec<char>)
    ensures
        r@ == trimmed_char(v@, c),
{
    let mut a: usize = 0;
    while a < v.len() && v[a] == c
        invariant
            a <= v.len(),
            skip_char(v@, c, a as int) == skip_char(v@, c, 0),
        decreases v.len() - a,
    {
        a = a + 1;
    }
    let t = slice_chars(v, a, v.len());
    let mut b: usize = t.len();
    while b > 0 && t[b - 1] == c
        invariant
            b <= t.len(),
            back_char(t@, c, b as int) == back_char(t@, c, t@.len() as int),
        decreases b,
    {
        b = b - 1;
    }
    slice_chars(&t, 0, b)
}

} // verus!

verus! {

/// Whether `sep` occurs in `s` starting at index `i`.
pub open spec fn occurs_at(s: Seq<char>, sep: Seq<char>, i: int) -> bool {
    0 <= i && i + sep.len() <= s.len() && s.subrange(i, i + sep.len()) == sep
}

/// Whether `s` begins with `p`.
pub open spec fn has_prefix(s: Seq<char>, p: Seq<char>) -> bool {
    p.len() <= s.len() && s.take(p.len() as int) == p
}

/// The pieces `str::split` yields for the part of `s` after `start`, with
/// the search for the next separator resumed at `pos`: separators are
/// found left to right without overlapping, and the piece after the last
/// one (possibly empty) ends the list.
pub open spec fn split_walk(s: Seq<char>, sep: Seq<char>, start: int, pos: int) -> Seq<Seq<char>>
    decreases s.len() - pos,
{
    if sep.len() == 0 || pos < start || pos + sep.len() > s.len() {
        seq![s.subrange(start, s.len() as int)]
    } else if occurs_at(s, sep, pos) {
        seq![s.subrange(start, pos)] + split_walk(s, sep, pos + sep.len(), pos + sep.len())
    } else {
        split_walk(s, sep, start, pos + 1)
    }
}

/// `s.split(sep)` for a non-empty separator.
pub open spec fn split_by(s: Seq<char>, sep: Seq<char>) -> Seq<Seq<char>> {
    split_walk(s, sep, 0, 0)
}

/// Exec test of [`occurs_at`].
pub fn occurs_at_exec(s: &Vec<char>, sep: &Vec<char>, i: usize) -> (r: bool)
    ensures
        r == occurs_at(s@, sep@, i as int),
{
    if sep.len() > s.len() || i > s.len() - sep.len() {
        return false;
    }
    let mut k: usize = 0;
    while k < sep.len()
        invariant
            i + sep.len() <= s.len(),
            k <= sep.len(),
            forall|m: int| 0 <= m < k ==> s@[i + m] == sep@[m],
        decreases sep.len() - k,
    {
        if s[i + k] != sep[k] {
            assert(s@.subrange(i as int, i + sep.len())[k as int] != sep@[k as int]);
            return false;
        }
        k = k + 1;
    }
    assert(s@.subrange(i as int, i + sep.len()) =~= sep@);
    true
}

/// Exec test of [`has_prefix`].
pub fn starts_with_chars(s: &Vec<char>, p: &Vec<char>) -> (r: bool)
    ensures
        r == has_prefix(s@, p@),
{
    let r = occurs_at_exec(s, p, 0);
    assert(s@.subrange(0, p@.len() as int) =~= s@.take(p@.len() as int));
    r
}

/// [`split_by`] over a character vector.
pub fn split_chars(s: &Vec<char>, sep: &Vec<char>) -> (r: Vec<Vec<char>>)
    requires
        sep.len() > 0,
    ensures
        r@.map_values(|p: Vec<char>| p@) == split_by(s@, sep@),
{
    let mut out: Vec<Vec<char>> = Vec::new();
    let mut start: usize = 0;
    let mut pos: usize = 0;
    while pos < s.len() && sep.len() <= s.len() - pos
        invariant
            sep.len() > 0,
            start <= pos <= s.len(),
            out@.map_values(|p: Vec<char>| p@) + split_walk(s@, sep@, start as int, pos as int)
                == split_by(s@, sep@),
        decreases s.len() - pos,
    {
        if occurs_at_exec(s, sep, pos) {
            let piece = slice_chars(s, start, pos);
            let ghost before = out@.map_values(|p: Vec<char>| p@);
            out.push(piece);
            assert(out@.map_values(|p: Vec<char>| p@) =~= before.push(piece@));
            assert(split_walk(s@, sep@, start as int, pos as int) == seq![piece@] + split_walk(
                s@,
                sep@,
                pos + sep@.len(),
                pos + sep@.len(),
            ));
            assert(before + split_walk(s@, sep@, start as int, pos as int) =~= before.push(piece@)
                + split_walk(s@, sep@, pos + sep@.len(), pos + sep@.len()));
            pos = pos + sep.len();
            start = pos;
        } else {
            pos = pos + 1;
        }
    }
    let last = slice_chars(s, start, s.len());
    let ghost before = out@.map_values(|p: Vec<char>| p@);
    out.push(last);
    assert(out@.map_values(|p: Vec<char>| p@) =~= before.push(last@));
    assert(before + split_walk(s@, sep@, start as int, pos as int) =~= before.push(last@));
    out
}

/// A line as `str::lines` yields it from a piece that ended in `\n`: the
/// newline and one carriage return before it are dropped.
pub open spec fn strip_line_end(piece: Seq<char>) -> Seq<char> {
    if piece.len() > 0 && piece.last() == '\r' {
        piece.drop_last()
    } else {
        piece
    }
}

/// The lines `str::lines` yields for the part of `s` after `start`, with the
/// scan for the next `\n` resumed at `pos`. A final line without a newline
/// is kept as it is; an empty tail after the last newline yields nothing.
pub open spec fn lines_walk(s: Seq<char>, start: int, pos: int) -> Seq<Seq<char>>
    decreases s.len() - pos,
{
    if pos < start || pos >= s.len() {
        if 0 <= start < s.len() {
            seq![s.subrange(start, s.len() as int)]
        } else {
            Seq::empty()
        }
    } else if s[pos] == '\n' {
        seq![strip_line_end(s.subrange(start, pos))] + lines_walk(s, pos + 1, pos + 1)
    } else {
        lines_walk(s, start, pos + 1)
    }
}

/// `s.lines()`.
pub open spec fn lines_of(s: Seq<char>) -> Seq<Seq<char>> {
    lines_walk(s, 0, 0)
}

/// [`lines_of`] over a character vector.
pub fn lines_chars(s: &Vec<char>) -> (r: Vec<Vec<char>>)
    ensures
        r@.map_values(|p: Vec<char>| p@) == lines_of(s@),
{
    let mut out: Vec<Vec<char>> = Vec::new();
    let mut start: usize = 0;
    let mut pos: usize = 0;
    while pos < s.len()
        invariant
            start <= pos <= s.len(),
            out@.map_values(|p: Vec<char>| p@) + lines_walk(s@, start as int, pos as int)
                == lines_of(s@),
        decreases s.len() - pos,
    {
        if s[pos] == '\n' {
            let mut end = pos;
            if end > start && s[end - 1] == '\r' {
                end = end - 1;
            }
            let piece = slice_chars(s, start, end);
            assert(piece@ =~= strip_line_end(s@.subrange(start as int, pos as int)));
            let ghost before = out@.map_values(|p: Vec<char>| p@);
            out.push(piece);
            assert(out@.map_values(|p: Vec<char>| p@) =~= before.push(piece@));
            assert(before + lines_walk(s@, start as int, pos as int) =~= before.push(piece@)
                + lines_walk(s@, pos + 1, pos + 1));
            pos = pos + 1;
            start = pos;
        } else {
            pos = pos + 1;
        }
    }
    if start < s.len() {
        let last = slice_chars(s, start, s.len());
        let ghost before = out@.map_values(|p: Vec<char>| p@);
        out.push(last);
        assert(out@.map_values(|p: Vec<char>| p@) =~= before.push(last@));
        assert(before + lines_walk(s@, start as int, pos as int) =~= before.push(last@));
    } else {
        assert(out@.map_values(|p: Vec<char>| p@) + lines_walk(s@, start as int, pos as int)
            =~= out@.map_values(|p: Vec<char>| p@));
    }
    out
}

} // verus!

verus! {

/// Whether two character vectors hold the same characters.
pub fn chars_eq(a: &Vec<char>, b: &Vec<char>) -> (r: bool)
    ensures
        r == (a@ == b@),
{
    if a.len() != b.len() {
        return false;
    }
    let mut i: usize = 0;
    while i < a.len()
        invariant
            a.len() == b.len(),
            i <= a.len(),
            forall|k: int| 0 <= k < i ==> a@[k] == b@[k],
        decreases a.len() - i,
    {
        if a[i] != b[i] {
            return false;
        }
        i = i + 1;
    }
    assert(a@ =~= b@);
    true
}

/// Whether two strings hold the same characters.
pub fn str_eq(a: &str, b: &str) -> (r: bool)
    ensures
        r == (a@ == b@),
{
    chars_eq(&chars_of(a), &chars_of(b))
}

/// A copy of `s`.
pub fn copy_str(s: &str) -> (r: String)
    ensures
        r@ == s@,
{
    s.to_owned()
}

} // verus!

verus! {

/// `s` with every `from` replaced by `to`.
pub open spec fn replaced(s: Seq<char>, from: char, to: char) -> Seq<char> {
    s.map_values(|c: char| if c == from { to } else { c })
}

/// [`replaced`] over a string.
pub fn replace_char(s: &str, from: char, to: char) -> (r: Vec<char>)
    ensures
        r@ == replaced(s@, from, to),
{
    let v = chars_of(s);
    let mut r: Vec<char> = Vec::new();
    let mut i: usize = 0;
    while i < v.len()
        invariant
            v@ == s@,
            i <= v.len(),
            r@ == replaced(v@.take(i as int), from, to),
        decreases v.len() - i,
    {
        let c = v[i];
        r.push(if c == from { to } else { c });
        assert(replaced(v@.take(i + 1), from, to) =~= replaced(v@.take(i as int), from, to).push(
            if c == from { to } else { c },
        ));
        i = i + 1;
    }
    assert(v@.take(v@.len() as int) =~= v@);
    r
}

/// Whether `sep` occurs anywhere in `s`.
pub open spec fn contains_seq(s: Seq<char>, sep: Seq<char>) -> bool {
    exists|i: int| occurs_at(s, sep, i)
}

/// [`contains_seq`] over character vectors.
pub fn contains_chars(s: &Vec<char>, sep: &Vec<char>) -> (r: bool)
    ensures
        r == contains_seq(s@, sep@),
{
    if sep.len() > s.len() {
        return false;
    }
    if sep.len() == 0 {
        assert(s@.subrange(0, 0) =~= sep@);
        assert(occurs_at(s@, sep@, 0));
        return true;
    }
    let mut i: usize = 0;
    while i <= s.len() - sep.len()
        invariant
            0 < sep.len() <= s.len(),
            i <= s.len() - sep.len() + 1,
            forall|k: int| 0 <= k < i ==> !occurs_at(s@, sep@, k),
        decreases s.len() - sep.len() + 1 - i,
    {
        if occurs_at_exec(s, sep, i) {
            return true;
        }
        i = i + 1;
    }
    assert forall|k: int| !occurs_at(s@, sep@, k) by {
        if 0 <= k < i {
        }
    }
    false
}

} // verus!

verus! {

/// `str::split` always yields at least one piece.
pub proof fn lemma_split_walk_nonempty(s: Seq<char>, sep: Seq<char>, start: int, pos: int)
    requires
        0 <= start <= s.len(),
    ensures
        split_walk(s, sep, start, pos).len() >= 1,
    decreases s.len() - pos,
{
    if sep.len() == 0 || pos < start || pos + sep.len() > s.len() {
    } else if occurs_at(s, sep, pos) {
    } else {
        lemma_split_walk_nonempty(s, sep, start, pos + 1);
    }
}

} // verus!

verus! {

/// Lexicographic order of character sequences by code point, which is the
/// order `String`'s `Ord` gives (UTF-8 preserves code point order).
pub open spec fn lex_lt(a: Seq<char>, b: Seq<char>) -> bool
    decreases a.len(),
{
    if a.len() == 0 {
        b.len() > 0
    } else if b.len() == 0 {
        false
    } else if a[0] != b[0] {
        a[0] < b[0]
    } else {
        lex_lt(a.drop_first(), b.drop_first())
    }
}

pub proof fn lemma_lex_irreflexive(a: Seq<char>)
    ensures
        !lex_lt(a, a),
    decreases a.len(),
{
    if a.len() > 0 {
        lemma_lex_irreflexive(a.drop_first());
    }
}

pub proof fn lemma_lex_total(a: Seq<char>, b: Seq<char>)
    ensures
        a == b || lex_lt(a, b) || lex_lt(b, a),
    decreases a.len(),
{
    if a.len() > 0 && b.len() > 0 && a[0] == b[0] {
        lemma_lex_total(a.drop_first(), b.drop_first());
        if a.drop_first() == b.drop_first() {
            assert(a =~= seq![a[0]] + a.drop_first());
            assert(b =~= seq![b[0]] + b.drop_first());
        }
    } else if a.len() == 0 && b.len() == 0 {
        assert(a =~= b);
    }
}

pub proof fn lemma_lex_asymmetric(a: Seq<char>, b: Seq<char>)
    ensures
        !(lex_lt(a, b) && lex_lt(b, a)),
    decreases a.len(),
{
    if a.len() > 0 && b.len() > 0 && a[0] == b[0] {
        lemma_lex_asymmetric(a.drop_first(), b.drop_first());
    }
}

pub proof fn lemma_lex_transitive(a: Seq<char>, b: Seq<char>, c: Seq<char>)
    requires
        lex_lt(a, b),
        lex_lt(b, c),
    ensures
        lex_lt(a, c),
    decreases a.len(),
{
    if a.len() > 0 && b.len() > 0 && c.len() > 0 && a[0] == b[0] && b[0] == c[0] {
        lemma_lex_transitive(a.drop_first(), b.drop_first(), c.drop_first());
    }
}

/// [`lex_lt`] over character vectors.
pub fn chars_lt(a: &Vec<char>, b: &Vec<char>) -> (r: bool)
    ensures
        r == lex_lt(a@, b@),
{
    let mut i: usize = 0;
    proof {
        assert(a@.subrange(0, a@.len() as int) =~= a@);
        assert(b@.subrange(0, b@.len() as int) =~= b@);
    }
    while i < a.len() && i < b.len() && a[i] == b[i]
        invariant
            i <= a.len(),
            i <= b.len(),
            lex_lt(a@.subrange(i as int, a@.len() as int), b@.subrange(i as int, b@.len() as int))
                == lex_lt(a@, b@),
        decreases a.len() - i,
    {
        let ghost sa = a@.subrange(i as int, a@.len() as int);
        let ghost sb = b@.subrange(i as int, b@.len() as int);
        assert(sa.drop_first() =~= a@.subrange(i + 1, a@.len() as int));
        assert(sb.drop_first() =~= b@.subrange(i + 1, b@.len() as int));
        i = i + 1;
    }
    if i == a.len() {
        i < b.len()
    } else if i == b.len() {
        false
    } else {
        a[i] < b[i]
    }
}

} // verus!

verus! {

/// `c.to_ascii_lowercase()`.
pub open spec fn ascii_lower(c: char) -> char {
    if 'A' <= c <= 'Z' {
        ((c as u32) + 32) as char
    } else {
        c
    }
}

/// `c.to_ascii_uppercase()`.
pub open spec fn ascii_upper(c: char) -> char {
    if 'a' <= c <= 'z' {
        ((c as u32) - 32) as char
    } else {
        c
    }
}

/// `s.to_ascii_lowercase()`.
pub open spec fn lowered(s: Seq<char>) -> Seq<char> {
    s.map_values(|c: char| ascii_lower(c))
}

/// `s.to_ascii_uppercase()`.
pub open spec fn uppered(s: Seq<char>) -> Seq<char> {
    s.map_values(|c: char| ascii_upper(c))
}

/// See [`ascii_lower`].
pub(crate) fn char_lower(c: char) -> (r: char)
    ensures
        r == ascii_lower(c),
{
    if 'A' <= c && c <= 'Z' {
        let b: u8 = (c as u8) + 32;
        b as char
    } else {
        c
    }
}

/// See [`ascii_upper`].
pub(crate) fn char_upper(c: char) -> (r: char)
    ensures
        r == ascii_upper(c),
{
    if 'a' <= c && c <= 'z' {
        let b: u8 = (c as u8) - 32;
        b as char
    } else {
        c
    }
}

/// What `{:?}` writes for a string: std's `Debug` for `str`, the
/// characters in double quotes with quotes, backslashes and unprintable
/// characters escaped. A function of the characters alone.
pub uninterp spec fn debug_quoted(s: Seq<char>) -> Seq<char>;

/// `format!("{:?}", s)`; what the escaping does is not stated, only that
/// the result is [`debug_quoted`] of the characters.
#[verifier::external_body]
pub(crate) fn debug_str(s: &str) -> (r: String)
    ensures
        r@ == debug_quoted(s@),
{
    format!("{:?}", s)
}

/// [`lowered`] over a string.
pub fn lower_str(s: &str) -> (r: Vec<char>)
    ensures
        r@ == lowered(s@),
{
    let v = chars_of(s);
    let mut r: Vec<char> = Vec::new();
    let mut i: usize = 0;
    while i < v.len()
        invariant
            v@ == s@,
            i <= v.len(),
            r@ == lowered(v@.take(i as int)),
        decreases v.len() - i,
    {
        r.push(char_lower(v[i]));
        assert(lowered(v@.take(i + 1)) =~= lowered(v@.take(i as int)).push(ascii_lower(v@[i as int])));
        i = i + 1;
    }
    assert(v@.take(v@.len() as int) =~= v@);
    r
}

/// [`uppered`] over a string.
pub fn upper_str(s: &str) -> (r: Vec<char>)
    ensures
        r@ == uppered(s@),
{
    let v = chars_of(s);
    let mut r: Vec<char> = Vec::new();
    let mut i: usize = 0;
    while i < v.len()
        invariant
            v@ == s@,
            i <= v.len(),
            r@ == uppered(v@.take(i as int)),
        decreases v.len() - i,
    {
        r.push(char_upper(v[i]));
        assert(uppered(v@.take(i + 1)) =~= uppered(v@.take(i as int)).push(ascii_upper(v@[i as int])));
        i = i + 1;
    }
    assert(v@.take(v@.len() as int) =~= v@);
    r
}

/// Index of the last `c` in `s.take(j)`.
pub open spec fn last_index_of(s: Seq<char>, c: char, j: int) -> Option<int>
    decreases j,
{
    if j <= 0 || j > s.len() {
        None
    } else if s[j - 1] == c {
        Some(j - 1)
    } else {
        last_index_of(s, c, j - 1)
    }
}

/// [`last_index_of`] over the whole of `v`.
pub fn rfind_char(v: &Vec<char>, c: char) -> (r: Option<usize>)
    ensures
        match r {
            Some(k) => last_index_of(v@, c, v@.len() as int) == Some(k as int) && k < v.len(),
            None => last_index_of(v@, c, v@.len() as int) is None,
        },
{
    let mut j: usize = v.len();
    while j > 0
        invariant
            j <= v.len(),
            last_index_of(v@, c, j as int) == last_index_of(v@, c, v@.len() as int),
        decreases j,
    {
        if v[j - 1] == c {
            return Some(j - 1);
        }
        j = j - 1;
    }
    None
}

/// Appends the characters of `v`.
pub fn push_chars(s: &mut String, v: &Vec<char>)
    ensures
        final(s)@ == old(s)@ + v@,
{
    let mut i: usize = 0;
    while i < v.len()
        invariant
            i <= v.len(),
            s@ == old(s)@ + v@.take(i as int),
        decreases v.len() - i,
    {
        push_char(s, v[i]);
        assert(old(s)@ + v@.take(i + 1) =~= (old(s)@ + v@.take(i as int)).push(v@[i as int]));
        i = i + 1;
    }
    assert(v@.take(v@.len() as int) =~= v@);
}

} // verus!

verus! {

/// The ASCII digit for `d < 10`.
pub open spec fn digit_char(d: nat) -> char {
    if d == 0 {
        '0'
    } else if d == 1 {
        '1'
    } else if d == 2 {
        '2'
    } else if d == 3 {
        '3'
    } else if d == 4 {
        '4'
    } else if d == 5 {
        '5'
    } else if d == 6 {
        '6'
    } else if d == 7 {
        '7'
    } else if d == 8 {
        '8'
    } else {
        '9'
    }
}

/// The decimal form of `n`, as `{}` formats an unsigned integer.
pub open spec fn decimal(n: nat) -> Seq<char>
    decreases n,
{
    if n < 10 {
        seq![digit_char(n)]
    } else {
        decimal(n / 10) + seq![digit_char(n % 10)]
    }
}

fn digit_exec(d: u64) -> (c: char)
    requires
        d < 10,
    ensures
        c == digit_char(d as nat),
{
    if d == 0 {
        '0'
    } else if d == 1 {
        '1'
    } else if d == 2 {
        '2'
    } else if d == 3 {
        '3'
    } else if d == 4 {
        '4'
    } else if d == 5 {
        '5'
    } else if d == 6 {
        '6'
    } else if d == 7 {
        '7'
    } else if d == 8 {
        '8'
    } else {
        '9'
    }
}

/// The decimal form of `n`.
pub fn decimal_string(n: u64) -> (s: String)
    ensures
        s@ == decimal(n as nat),
{
    // Digits are found least significant first, then emitted in reverse.
    let mut rev: Vec<char> = Vec::new();
    let mut m: u64 = n;
    rev.push(digit_exec(m % 10));
    m = m / 10;
    while m > 0
        invariant
            m > 0 ==> decimal(n as nat) == decimal(m as nat) + rev@.reverse(),
            m == 0 ==> decimal(n as nat) == rev@.reverse(),
        decreases m,
    {
        let d = m % 10;
        let ghost before = rev@;
        rev.push(digit_exec(d));
        proof {
            assert(rev@.reverse() =~= seq![digit_char(d as nat)] + before.reverse());
            if m >= 10 {
                assert(decimal(m as nat) == decimal((m / 10) as nat) + seq![digit_char(d as nat)]);
            } else {
                assert(decimal(m as nat) == seq![digit_char(d as nat)]);
            }
        }
        m = m / 10;
    }
    let mut s = String::new();
    let mut i: usize = rev.len();
    while i > 0
        invariant
            i <= rev.len(),
            s@ == rev@.reverse().take((rev.len() - i) as int),
        decreases i,
    {
        push_char(&mut s, rev[i - 1]);
        assert(rev@.reverse().take((rev.len() - i + 1) as int) =~= rev@.reverse().take(
            (rev.len() - i) as int,
        ).push(rev@[i - 1]));
        i = i - 1;
    }
    assert(rev@.reverse().take(rev.len() as int) =~= rev@.reverse());
    s
}

/// Escaped text is inert markup: it holds no `<`, `>`, `"` or `'`, so it
/// can stand in element content and in either kind of quoted attribute.
pub proof fn law_escaped_is_inert(s: Seq<char>)
    ensures
        !escaped(s).contains('<'),
        !escaped(s).contains('>'),
        !escaped(s).contains('"'),
        !escaped(s).contains('\''),
    decreases s.len(),
{
    if s.len() > 0 {
        law_escaped_is_inert(s.drop_last());
        let a = escaped(s.drop_last());
        let b = escape_char(s.last());
        assert forall|c: char| (c == '<' || c == '>' || c == '"' || c == '\'') implies !(a + b).contains(c) by {
            if (a + b).contains(c) {
                let i = choose|i: int| 0 <= i < (a + b).len() && (a + b)[i] == c;
                if i < a.len() {
                    assert(a[i] == c);
                } else {
                    assert(b[i - a.len()] == c);
                }
            }
        }
    }
}

/// What [`last_index_of`] finds is the last `c` before `j`; `None` means
/// there is none.
pub proof fn lemma_last_index_of(s: Seq<char>, c: char, j: int)
    requires
        0 <= j <= s.len(),
    ensures
        match last_index_of(s, c, j) {
            Some(i) => 0 <= i < j && s[i] == c && forall|k: int| i < k < j ==> s[k] != c,
            None => forall|k: int| 0 <= k < j ==> s[k] != c,
        },
    decreases j,
{
    if j > 0 && s[j - 1] != c {
        lemma_last_index_of(s, c, j - 1);
    }
}

} // verus!
