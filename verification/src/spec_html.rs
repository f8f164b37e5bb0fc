//! Naming and classification helpers for the rendered API reference pages:
//! page names for spec files, method and status badges, and the resource
//! groups operations are listed under.

use vstd::prelude::*;

use crate::text::{
    ascii_upper, chars_eq, chars_of, escape, escaped, last_index_of, lemma_last_index_of, lower_str, lowered,
    replaced, rfind_char, slice_chars, split_by, split_chars, string_of, upper_str, uppered,
};

verus! {

/// The part of `s` after its last `/` (all of it when there is none).
pub open spec fn after_last_slash(s: Seq<char>) -> Seq<char> {
    match last_index_of(s, '/', s.len() as int) {
        Some(i) => s.subrange(i + 1, s.len() as int),
        None => s,
    }
}

/// A filesystem-friendly page name for a spec file: its base name without
/// the last extension (`server/mcp-tools.json` -> `mcp-tools`).
pub open spec fn spec_page_stem(spec_file: Seq<char>) -> Seq<char> {
    let base = after_last_slash(spec_file);
    match last_index_of(base, '.', base.len() as int) {
        Some(i) => base.take(i),
        None => base,
    }
}

/// A filesystem-friendly page name for a spec file, distinct from the spec
/// file's own extension (`openapi.yaml` -> `openapi`).
pub fn page_stem(spec_file: &str) -> (r: String)
    ensures
        r@ == spec_page_stem(spec_file@),
{
    let v = chars_of(spec_file);
    let base = match rfind_char(&v, '/') {
        Some(i) => slice_chars(&v, i + 1, v.len()),
        None => slice_chars(&v, 0, v.len()),
    };
    assert(base@ == after_last_slash(v@)) by {
        if last_index_of(v@, '/', v@.len() as int) is None {
            assert(v@.subrange(0, v@.len() as int) =~= v@);
        }
    }
    let stem = match rfind_char(&base, '.') {
        Some(i) => slice_chars(&base, 0, i),
        None => slice_chars(&base, 0, base.len()),
    };
    proof {
        if last_index_of(base@, '.', base@.len() as int) is None {
            assert(base@.subrange(0, base@.len() as int) =~= base@);
        } else {
            assert(base@.subrange(0, last_index_of(base@, '.', base@.len() as int)->0)
                =~= base@.take(last_index_of(base@, '.', base@.len() as int)->0));
        }
    }
    string_of(stem.as_slice())
}

/// The badge class a method or action is colored by: what it costs a
/// caller — read, create, mutate, destroy — compared case-insensitively.
pub open spec fn spec_method_class(verb: Seq<char>) -> Seq<char> {
    let v = lowered(verb);
    if v == "get"@ || v == "receive"@ || v == "query"@ {
        "spec-method-get"@
    } else if v == "post"@ || v == "send"@ {
        "spec-method-post"@
    } else if v == "put"@ || v == "patch"@ || v == "mutation"@ {
        "spec-method-put"@
    } else if v == "delete"@ {
        "spec-method-delete"@
    } else {
        "spec-method-options"@
    }
}

fn is_word(v: &Vec<char>, w: &str) -> (r: bool)
    ensures
        r == (v@ == w@),
{
    chars_eq(v, &chars_of(w))
}

/// A method/action badge's class, by what the verb costs a caller.
pub fn method_class(verb: &str) -> (r: &'static str)
    ensures
        r@ == spec_method_class(verb@),
{
    proof {
        reveal_strlit("get");
        reveal_strlit("receive");
        reveal_strlit("query");
        reveal_strlit("post");
        reveal_strlit("send");
        reveal_strlit("put");
        reveal_strlit("patch");
        reveal_strlit("mutation");
        reveal_strlit("delete");
    }
    let v = lower_str(verb);
    if is_word(&v, "get") || is_word(&v, "receive") || is_word(&v, "query") {
        "spec-method-get"
    } else if is_word(&v, "post") || is_word(&v, "send") {
        "spec-method-post"
    } else if is_word(&v, "put") || is_word(&v, "patch") || is_word(&v, "mutation") {
        "spec-method-put"
    } else if is_word(&v, "delete") {
        "spec-method-delete"
    } else {
        "spec-method-options"
    }
}

/// `<span class="spec-method CLASS">VERB</span>`, the verb upper-cased and
/// escaped.
pub open spec fn spec_method_badge(verb: Seq<char>) -> Seq<char> {
    "<span class=\"spec-method "@ + spec_method_class(verb) + "\">"@ + escaped(uppered(verb))
        + "</span>"@
}

/// A method/action badge, colored by what the verb costs a caller.
pub fn method_badge(verb: &str) -> (r: String)
    ensures
        r@ == spec_method_badge(verb@),
{
    let mut out = crate::text::copy_str("<span class=\"spec-method ");
    out.append(method_class(verb));
    out.append("\">");
    let up = string_of(upper_str(verb).as_slice());
    out.append(escape(up.as_str()).as_str());
    out.append("</span>");
    out
}

/// Whether a path segment looks like a version (`v` then one or more ASCII
/// digits).
pub open spec fn looks_versioned(seg: Seq<char>) -> bool {
    seg.len() >= 2 && seg[0] == 'v' && forall|i: int| 1 <= i < seg.len() ==> '0' <= #[trigger] seg[i] <= '9'
}

/// The non-empty pieces of `s` split on `/`, from index `i` on.
pub open spec fn segments_from(pieces: Seq<Seq<char>>, i: int) -> Seq<Seq<char>>
    decreases pieces.len() - i,
{
    if i < 0 || i >= pieces.len() {
        Seq::empty()
    } else if pieces[i].len() > 0 {
        seq![pieces[i]] + segments_from(pieces, i + 1)
    } else {
        segments_from(pieces, i + 1)
    }
}

/// The non-empty `/`-separated segments of a path.
pub open spec fn path_segments(path: Seq<char>) -> Seq<Seq<char>> {
    segments_from(split_by(path, "/"@), 0)
}

/// The resource a path belongs to: its first segment, or the second when
/// the first is a version (`/v2/quote/{symbol}` -> `quote`); `root` for a
/// path with no segments.
pub open spec fn spec_group_key(path: Seq<char>) -> Seq<char> {
    let segs = path_segments(path);
    let first = if segs.len() > 0 { segs[0] } else { Seq::empty() };
    let key = if looks_versioned(first) && segs.len() > 1 { segs[1] } else { first };
    if key.len() == 0 { "root"@ } else { key }
}

fn versioned(seg: &Vec<char>) -> (r: bool)
    ensures
        r == looks_versioned(seg@),
{
    if seg.len() < 2 || seg[0] != 'v' {
        return false;
    }
    let mut i: usize = 1;
    while i < seg.len()
        invariant
            1 <= i <= seg.len(),
            forall|k: int| 1 <= k < i ==> '0' <= #[trigger] seg@[k] <= '9',
        decreases seg.len() - i,
    {
        if !('0' <= seg[i] && seg[i] <= '9') {
            return false;
        }
        i = i + 1;
    }
    true
}

/// The resource a path belongs to, standing in for an OpenAPI `tags` list:
/// a version-shaped first segment (`v2`, `v1`) is skipped so the group is
/// the resource name a reader actually recognizes.
pub fn group_key(path: &str) -> (r: String)
    ensures
        r@ == spec_group_key(path@),
{
    let v = chars_of(path);
    let slash = chars_of("/");
    proof {
        reveal_strlit("/");
        reveal_strlit("root");
    }
    let pieces = split_chars(&v, &slash);
    let ghost ps = pieces@.map_values(|p: Vec<char>| p@);
    let mut segs: Vec<Vec<char>> = Vec::new();
    let mut i: usize = 0;
    while i < pieces.len()
        invariant
            ps == pieces@.map_values(|p: Vec<char>| p@),
            ps == split_by(path@, "/"@),
            i <= pieces.len(),
            segs@.map_values(|p: Vec<char>| p@) + segments_from(ps, i as int) == path_segments(
                path@,
            ),
        decreases pieces.len() - i,
    {
        assert(ps[i as int] == pieces@[i as int]@);
        let ghost before = segs@.map_values(|p: Vec<char>| p@);
        if pieces[i].len() > 0 {
            let c = slice_chars(&pieces[i], 0, pieces[i].len());
            assert(c@ == ps[i as int]);
            assert(segments_from(ps, i as int) == seq![ps[i as int]] + segments_from(ps, i + 1));
            segs.push(c);
            assert(segs@.map_values(|p: Vec<char>| p@) =~= before.push(c@));
            assert(before + segments_from(ps, i as int) =~= before.push(c@) + segments_from(
                ps,
                i + 1,
            ));
        }
        i = i + 1;
    }
    assert(segs@.map_values(|p: Vec<char>| p@) + segments_from(ps, i as int)
        =~= segs@.map_values(|p: Vec<char>| p@));
    let ghost sv = segs@.map_values(|p: Vec<char>| p@);
    let first: Vec<char> = if segs.len() > 0 {
        assert(sv[0] == segs@[0]@);
        slice_chars(&segs[0], 0, segs[0].len())
    } else {
        Vec::new()
    };
    let key: Vec<char> = if versioned(&first) && segs.len() > 1 {
        assert(sv[1] == segs@[1]@);
        slice_chars(&segs[1], 0, segs[1].len())
    } else {
        first
    };
    assert(sv == path_segments(path@));
    assert(first@ == (if sv.len() > 0 { sv[0] } else { Seq::<char>::empty() }));
    assert(key@ == (if looks_versioned(first@) && sv.len() > 1 { sv[1] } else { first@ }));
    if key.len() == 0 {
        crate::text::copy_str("root")
    } else {
        string_of(key.as_slice())
    }
}

/// `key` with its first character upper-cased, then `-` and `_` turned into
/// spaces.
pub open spec fn spec_group_title(key: Seq<char>) -> Seq<char> {
    let cap = if key.len() > 0 { seq![ascii_upper(key[0])] + key.drop_first() } else { key };
    replaced(replaced(cap, '-', ' '), '_', ' ')
}

/// `capital-gains` -> `Capital gains` — a group heading, not a slug.
pub fn group_title(key: &str) -> (r: String)
    ensures
        r@ == spec_group_title(key@),
{
    let v = chars_of(key);
    let mut out: Vec<char> = Vec::new();
    let mut i: usize = 0;
    let ghost cap = if v@.len() > 0 { seq![ascii_upper(v@[0])] + v@.drop_first() } else { v@ };
    while i < v.len()
        invariant
            v@ == key@,
            cap == (if v@.len() > 0 { seq![ascii_upper(v@[0])] + v@.drop_first() } else { v@ }),
            cap.len() == v@.len(),
            i <= v.len(),
            out@ == replaced(replaced(cap.take(i as int), '-', ' '), '_', ' '),
        decreases v.len() - i,
    {
        let c0 = if i == 0 { crate::text::char_upper(v[0]) } else { v[i] };
        assert(cap[i as int] == c0);
        let c = if c0 == '-' || c0 == '_' { ' ' } else { c0 };
        out.push(c);
        assert(replaced(replaced(cap.take(i + 1), '-', ' '), '_', ' ') =~= replaced(
            replaced(cap.take(i as int), '-', ' '),
            '_',
            ' ',
        ).push(c));
        i = i + 1;
    }
    assert(cap.take(v@.len() as int) =~= cap);
    string_of(out.as_slice())
}

/// The status-code bucket a response badge is colored by, from its first
/// character: `2`, `3`, `4`, `5` name their bucket, and `default` and every
/// other code fall in with the 4xx errors.
pub open spec fn spec_status_class(code: Seq<char>) -> Seq<char> {
    if code.len() > 0 && code[0] == '2' {
        "spec-status-2xx"@
    } else if code.len() > 0 && code[0] == '3' {
        "spec-status-3xx"@
    } else if code.len() > 0 && code[0] == '5' {
        "spec-status-5xx"@
    } else {
        "spec-status-4xx"@
    }
}

/// Which status-code bucket a response's badge is colored by.
pub fn status_class(code: &str) -> (r: &'static str)
    ensures
        r@ == spec_status_class(code@),
{
    let v = chars_of(code);
    if v.len() > 0 && v[0] == '2' {
        "spec-status-2xx"
    } else if v.len() > 0 && v[0] == '3' {
        "spec-status-3xx"
    } else if v.len() > 0 && v[0] == '5' {
        "spec-status-5xx"
    } else {
        "spec-status-4xx"
    }
}

/// A page name never reaches into a directory: it holds no `/`.
pub proof fn law_page_stem_has_no_slash(spec_file: Seq<char>)
    ensures
        !spec_page_stem(spec_file).contains('/'),
{
    lemma_last_index_of(spec_file, '/', spec_file.len() as int);
    let base = after_last_slash(spec_file);
    assert(!base.contains('/')) by {
        if base.contains('/') {
            let k = choose|k: int| 0 <= k < base.len() && base[k] == '/';
            match last_index_of(spec_file, '/', spec_file.len() as int) {
                Some(i) => assert(spec_file[i + 1 + k] == '/'),
                None => assert(spec_file[k] == '/'),
            }
        }
    }
    lemma_last_index_of(base, '.', base.len() as int);
    if spec_page_stem(spec_file).contains('/') {
        let k = choose|k: int|
            0 <= k < spec_page_stem(spec_file).len() && spec_page_stem(spec_file)[k] == '/';
        assert(base[k] == '/');
    }
}

/// Every operation lands in a named group: the group key is never empty.
pub proof fn law_group_key_is_never_empty(path: Seq<char>)
    ensures
        spec_group_key(path).len() > 0,
{
    reveal_strlit("root");
}

} // verus!
