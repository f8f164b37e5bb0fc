//! Response framing for `spec probe`'s hand-rolled HTTP/1.1 client: the
//! status line, the headers that decide how the body is delimited, and the
//! chunked transfer coding.

use vstd::prelude::*;
use vstd::string::StringSliceAdditionalSpecFns;
use vstd::utf8::{decode_utf8, encode_utf8_decode_utf8, valid_utf8};

use crate::gate::{contains_str, strs};
use crate::text::{
    back_ws, char_is_ws, chars_of, copy_str, decimal, decimal_string, has_prefix, is_ws,
    lemma_split_walk_nonempty, lower_str, lowered, skip_ws, slice_chars, split_by, split_chars,
    starts_with_chars, string_of, trim_chars, trimmed,
};

verus! {

/// `std::str::from_utf8`: the bytes as a string slice when they are valid
/// UTF-8, nothing otherwise, as std documents it.
#[verifier::external_body]
fn str_from_utf8(bytes: &[u8]) -> (r: Option<&str>)
    ensures
        match r {
            Some(s) => valid_utf8(bytes@) && s.spec_bytes() == bytes@,
            None => !valid_utf8(bytes@),
        },
{
    std::str::from_utf8(bytes).ok()
}

/// The value of an ASCII hex digit, as `char::to_digit(16)` gives it.
pub open spec fn hex_digit(c: char) -> Option<nat> {
    if '0' <= c <= '9' {
        Some((c as u32 - '0' as u32) as nat)
    } else if 'a' <= c <= 'f' {
        Some((c as u32 - 'a' as u32 + 10) as nat)
    } else if 'A' <= c <= 'F' {
        Some((c as u32 - 'A' as u32 + 10) as nat)
    } else {
        None
    }
}

/// The value of a string of hex digits, `None` when one is not a digit.
pub open spec fn hex_value(s: Seq<char>) -> Option<nat>
    decreases s.len(),
{
    if s.len() == 0 {
        Some(0)
    } else {
        match (hex_value(s.drop_last()), hex_digit(s.last())) {
            (Some(v), Some(d)) => Some(v * 16 + d),
            _ => None,
        }
    }
}

/// `usize::from_str_radix(s, 16)`: an optional `+`, then at least one hex
/// digit, with a value that fits in `usize`.
pub open spec fn parse_hex_usize(s: Seq<char>) -> Option<nat> {
    let digits = if s.len() > 0 && s[0] == '+' { s.drop_first() } else { s };
    if digits.len() == 0 {
        None
    } else {
        match hex_value(digits) {
            Some(v) => if v <= usize::MAX { Some(v) } else { None },
            None => None,
        }
    }
}

/// The size a chunk-size line announces: the line trimmed, any chunk
/// extension after `;` dropped, the rest read as hex.
pub open spec fn chunk_size(line: Seq<char>) -> Option<nat> {
    parse_hex_usize(split_by(trimmed(line), ";"@)[0])
}

fn hex_digit_exec(c: char) -> (r: Option<usize>)
    ensures
        match hex_digit(c) {
            Some(d) => r == Some(d as usize),
            None => r is None,
        },
{
    if '0' <= c && c <= '9' {
        Some((c as u32 - '0' as u32) as usize)
    } else if 'a' <= c && c <= 'f' {
        Some((c as u32 - 'a' as u32 + 10) as usize)
    } else if 'A' <= c && c <= 'F' {
        Some((c as u32 - 'A' as u32 + 10) as usize)
    } else {
        None
    }
}

proof fn lemma_hex_value_monotone(s: Seq<char>, k: int)
    requires
        0 <= k <= s.len(),
        hex_value(s) is Some,
    ensures
        hex_value(s.take(k)) is Some,
        hex_value(s.take(k))->0 <= hex_value(s)->0,
    decreases s.len() - k,
{
    if k < s.len() {
        assert(s.take(k + 1).drop_last() =~= s.take(k));
        lemma_hex_value_monotone(s, k + 1);
        assert(s.take(s.len() as int) =~= s);
    } else {
        assert(s.take(k) =~= s);
    }
}

/// [`parse_hex_usize`] over a character vector.
fn parse_hex(s: &Vec<char>) -> (r: Option<usize>)
    ensures
        match parse_hex_usize(s@) {
            Some(v) => r == Some(v as usize),
            None => r is None,
        },
{
    let start: usize = if s.len() > 0 && s[0] == '+' { 1 } else { 0 };
    let ghost digits = if s@.len() > 0 && s@[0] == '+' { s@.drop_first() } else { s@ };
    assert(digits =~= s@.subrange(start as int, s@.len() as int));
    if start == s.len() {
        return None;
    }
    let mut v: usize = 0;
    let mut i: usize = start;
    while i < s.len()
        invariant
            start <= i <= s.len(),
            digits == s@.subrange(start as int, s@.len() as int),
            digits == (if s@.len() > 0 && s@[0] == '+' { s@.drop_first() } else { s@ }),
            digits.len() > 0,
            hex_value(digits.take((i - start) as int)) == Some(v as nat),
        decreases s.len() - i,
    {
        let ghost pre = digits.take((i - start) as int);
        let ghost next = digits.take((i - start + 1) as int);
        assert(next.drop_last() =~= pre);
        assert(digits[(i - start) as int] == s@[i as int]);
        assert(next.last() == s@[i as int]);
        assert(hex_value(next) == match (hex_value(pre), hex_digit(s@[i as int])) {
            (Some(a), Some(b)) => Some(a * 16 + b),
            _ => None::<nat>,
        });
        match hex_digit_exec(s[i]) {
            None => {
                proof {
                    assert(hex_value(next) is None);
                    if hex_value(digits) is Some {
                        lemma_hex_value_monotone(digits, (i - start + 1) as int);
                    }
                    assert(hex_value(digits) is None);
                    assert(digits.len() > 0);
                    assert(parse_hex_usize(s@) is None);
                }
                return None;
            },
            Some(d) => {
                if v > (usize::MAX - d) / 16 {
                    proof {
                        assert(v * 16 + d > usize::MAX) by (nonlinear_arith)
                            requires
                                v > (usize::MAX - d) / 16,
                                d < 16,
                        ;
                        assert(hex_value(next) == Some((v * 16 + d) as nat));
                        if hex_value(digits) is Some {
                            lemma_hex_value_monotone(digits, (i - start + 1) as int);
                            assert(hex_value(digits)->0 > usize::MAX);
                        }
                        assert(digits.len() > 0);
                        assert(parse_hex_usize(s@) is None);
                    }
                    return None;
                }
                proof {
                    assert(v * 16 + d <= usize::MAX) by (nonlinear_arith)
                        requires
                            v <= (usize::MAX - d) / 16,
                            d < 16,
                    ;
                }
                v = v * 16 + d;
            },
        }
        i = i + 1;
    }
    assert(digits.take((s.len() - start) as int) =~= digits);
    Some(v)
}

/// Why a chunked body could not be decoded.
pub enum ChunkError {
    /// A chunk-size line is not UTF-8.
    NotUtf8,
    /// A chunk-size line (as read, line ending included) is not a size.
    BadSize(String),
    /// The stream ended inside a chunk or its closing CRLF.
    Truncated,
}

/// The chunk-size line's failure or size, as plain values.
pub enum ChunkErrorView {
    NotUtf8,
    BadSize(Seq<char>),
    Truncated,
}

/// Index just past the line starting at `pos`: after its `\n`, or the end
/// of the data when there is none.
pub open spec fn line_end(data: Seq<u8>, pos: int) -> int
    decreases data.len() - pos,
{
    if pos < 0 || pos >= data.len() {
        data.len() as int
    } else if data[pos] == 10u8 {
        pos + 1
    } else {
        line_end(data, pos + 1)
    }
}

proof fn lemma_line_end_bounds(data: Seq<u8>, pos: int)
    requires
        0 <= pos <= data.len(),
    ensures
        pos <= line_end(data, pos) <= data.len(),
    decreases data.len() - pos,
{
    if pos < data.len() && data[pos] != 10u8 {
        lemma_line_end_bounds(data, pos + 1);
    }
}

/// The body a chunked transfer coding carries, read from `pos` on: each
/// chunk-size line is followed by that many bytes and a line break (two
/// bytes, not inspected); a size of zero ends the body, whatever follows.
pub open spec fn dechunk_from(data: Seq<u8>, pos: int) -> Result<Seq<u8>, ChunkErrorView>
    decreases data.len() - pos,
{
    if pos < 0 || pos > data.len() {
        Err(ChunkErrorView::Truncated)
    } else {
        let end = line_end(data, pos);
        let line = data.subrange(pos, end);
        if !valid_utf8(line) {
            Err(ChunkErrorView::NotUtf8)
        } else {
            match chunk_size(decode_utf8(line)) {
                None => Err(ChunkErrorView::BadSize(decode_utf8(line))),
                Some(n) => if n == 0 {
                    Ok(Seq::empty())
                } else if end + n + 2 > data.len() || end < pos {
                    Err(ChunkErrorView::Truncated)
                } else {
                    match dechunk_from(data, end + n + 2) {
                        Ok(rest) => Ok(data.subrange(end, end + n) + rest),
                        Err(e) => Err(e),
                    }
                },
            }
        }
    }
}

/// An error as plain values.
pub open spec fn chunk_error_view(e: ChunkError) -> ChunkErrorView {
    match e {
        ChunkError::NotUtf8 => ChunkErrorView::NotUtf8,
        ChunkError::BadSize(s) => ChunkErrorView::BadSize(s@),
        ChunkError::Truncated => ChunkErrorView::Truncated,
    }
}

/// `prefix` put before a decoded remainder.
pub open spec fn prepend(prefix: Seq<u8>, r: Result<Seq<u8>, ChunkErrorView>) -> Result<
    Seq<u8>,
    ChunkErrorView,
> {
    match r {
        Ok(rest) => Ok(prefix + rest),
        Err(e) => Err(e),
    }
}

/// Decode a body sent with `Transfer-Encoding: chunked`, given everything
/// the server sent after the header block.
pub fn read_chunked(data: &[u8]) -> (r: Result<Vec<u8>, ChunkError>)
    ensures
        match r {
            Ok(body) => dechunk_from(data@, 0) == Ok::<Seq<u8>, ChunkErrorView>(body@),
            Err(e) => dechunk_from(data@, 0) == Err::<Seq<u8>, ChunkErrorView>(chunk_error_view(e)),
        },
{
    let mut body: Vec<u8> = Vec::new();
    let mut pos: usize = 0;
    let semi = chars_of(";");
    proof {
        reveal_strlit(";");
        assert(semi@.len() == 1);
    }
    loop
        invariant
            pos <= data.len(),
            semi@ == ";"@,
            semi@.len() == 1,
            dechunk_from(data@, 0) == prepend(body@, dechunk_from(data@, pos as int)),
        decreases data.len() - pos,
    {
        let mut end: usize = pos;
        while end < data.len() && data[end] != 10u8
            invariant
                pos <= end <= data.len(),
                line_end(data@, end as int) == line_end(data@, pos as int),
            decreases data.len() - end,
        {
            end = end + 1;
        }
        if end < data.len() {
            end = end + 1;
        }
        assert(end as int == line_end(data@, pos as int));
        let mut line: Vec<u8> = Vec::new();
        let mut k: usize = pos;
        while k < end
            invariant
                pos <= k <= end <= data.len(),
                line@ == data@.subrange(pos as int, k as int),
            decreases end - k,
        {
            line.push(data[k]);
            assert(data@.subrange(pos as int, k + 1) =~= data@.subrange(pos as int, k as int).push(
                data@[k as int],
            ));
            k = k + 1;
        }
        let text = match str_from_utf8(line.as_slice()) {
            Some(t) => t,
            None => {
                return Err(ChunkError::NotUtf8);
            },
        };
        proof {
            encode_utf8_decode_utf8(text@);
        }
        let chars = chars_of(text);
        assert(chars@ == decode_utf8(line@));
        let t = trim_chars(&chars);
        proof {
            lemma_split_walk_nonempty(t@, semi@, 0, 0);
        }
        let parts = split_chars(&t, &semi);
        assert(parts@.map_values(|p: Vec<char>| p@)[0] == parts@[0]@);
        let size = match parse_hex(&parts[0]) {
            Some(n) => n,
            None => {
                return Err(ChunkError::BadSize(string_of(chars.as_slice())));
            },
        };
        if size == 0 {
            return Ok(body);
        }
        if end > data.len() || size > data.len() - end || 2 > data.len() - end - size {
            return Err(ChunkError::Truncated);
        }
        let ghost before = body@;
        let mut j: usize = end;
        while j < end + size
            invariant
                end + size + 2 <= data.len(),
                end <= j <= end + size,
                body@ == before + data@.subrange(end as int, j as int),
            decreases end + size - j,
        {
            body.push(data[j]);
            assert(data@.subrange(end as int, j + 1) =~= data@.subrange(end as int, j as int).push(
                data@[j as int],
            ));
            j = j + 1;
        }
        proof {
            assert(dechunk_from(data@, pos as int) == prepend(
                data@.subrange(end as int, end + size),
                dechunk_from(data@, end + size + 2),
            ));
            assert(before + data@.subrange(end as int, end + size) == body@);
            match dechunk_from(data@, end + size + 2) {
                Ok(rest) => {
                    assert(before + (data@.subrange(end as int, end + size) + rest) =~= body@
                        + rest);
                },
                Err(_) => {},
            }
        }
        pos = end + size + 2;
    }
}

} // verus!

verus! {

/// The value of a string of decimal digits, `None` when one is not a digit.
pub open spec fn dec_value(s: Seq<char>) -> Option<nat>
    decreases s.len(),
{
    if s.len() == 0 {
        Some(0)
    } else if '0' <= s.last() <= '9' {
        match dec_value(s.drop_last()) {
            Some(v) => Some(v * 10 + (s.last() as nat - '0' as nat) as nat),
            None => None,
        }
    } else {
        None
    }
}

/// `str::parse` into an unsigned integer type whose largest value is
/// `max`: an optional `+`, then at least one decimal digit, within range.
pub open spec fn parse_unsigned(s: Seq<char>, max: nat) -> Option<nat> {
    let digits = if s.len() > 0 && s[0] == '+' { s.drop_first() } else { s };
    if digits.len() == 0 {
        None
    } else {
        match dec_value(digits) {
            Some(v) => if v <= max { Some(v) } else { None },
            None => None,
        }
    }
}

proof fn lemma_dec_value_monotone(s: Seq<char>, k: int)
    requires
        0 <= k <= s.len(),
        dec_value(s) is Some,
    ensures
        dec_value(s.take(k)) is Some,
        dec_value(s.take(k))->0 <= dec_value(s)->0,
    decreases s.len() - k,
{
    if k < s.len() {
        assert(s.take(k + 1).drop_last() =~= s.take(k));
        lemma_dec_value_monotone(s, k + 1);
        assert(s.take(s.len() as int) =~= s);
    } else {
        assert(s.take(k) =~= s);
    }
}

/// [`parse_unsigned`] over a character vector.
fn parse_dec(s: &Vec<char>, max: u64) -> (r: Option<u64>)
    ensures
        match parse_unsigned(s@, max as nat) {
            Some(v) => r == Some(v as u64),
            None => r is None,
        },
{
    let start: usize = if s.len() > 0 && s[0] == '+' { 1 } else { 0 };
    let ghost digits = if s@.len() > 0 && s@[0] == '+' { s@.drop_first() } else { s@ };
    assert(digits =~= s@.subrange(start as int, s@.len() as int));
    if start == s.len() {
        return None;
    }
    let mut v: u64 = 0;
    let mut i: usize = start;
    while i < s.len()
        invariant
            start <= i <= s.len(),
            digits == s@.subrange(start as int, s@.len() as int),
            digits == (if s@.len() > 0 && s@[0] == '+' { s@.drop_first() } else { s@ }),
            digits.len() > 0,
            dec_value(digits.take((i - start) as int)) == Some(v as nat),
            v <= max,
        decreases s.len() - i,
    {
        let ghost pre = digits.take((i - start) as int);
        let ghost next = digits.take((i - start + 1) as int);
        assert(next.drop_last() =~= pre);
        assert(digits[(i - start) as int] == s@[i as int]);
        assert(next.last() == s@[i as int]);
        let c = s[i];
        if !('0' <= c && c <= '9') {
            proof {
                assert(dec_value(next) is None);
                if dec_value(digits) is Some {
                    lemma_dec_value_monotone(digits, (i - start + 1) as int);
                }
            }
            return None;
        }
        let d = (c as u32 - '0' as u32) as u64;
        if d > max || v > (max - d) / 10 {
            proof {
                if d <= max {
                    assert(v * 10 + d > max) by (nonlinear_arith)
                        requires
                            v > (max - d) / 10,
                            d <= max,
                    ;
                }
                assert(dec_value(next) == Some((v * 10 + d) as nat));
                if dec_value(digits) is Some {
                    lemma_dec_value_monotone(digits, (i - start + 1) as int);
                }
            }
            return None;
        }
        proof {
            assert(v * 10 + d <= max) by (nonlinear_arith)
                requires
                    v <= (max - d) / 10,
                    d <= max,
            ;
        }
        v = v * 10 + d;
        i = i + 1;
    }
    assert(digits.take((s.len() - start) as int) =~= digits);
    Some(v)
}

/// Index of the first character at or after `i` that is whitespace.
pub open spec fn skip_word(s: Seq<char>, i: int) -> int
    decreases s.len() - i,
{
    if 0 <= i < s.len() && !is_ws(s[i]) {
        skip_word(s, i + 1)
    } else {
        i
    }
}

/// The second whitespace-separated word of `s`, as
/// `split_whitespace().nth(1)` gives it.
pub open spec fn second_word(s: Seq<char>) -> Option<Seq<char>> {
    let a = skip_ws(s, 0);
    let b = skip_word(s, a);
    let c = skip_ws(s, b);
    let d = skip_word(s, c);
    if 0 <= c < s.len() {
        Some(s.subrange(c, d))
    } else {
        None
    }
}

proof fn lemma_skip_bounds(s: Seq<char>, i: int)
    requires
        0 <= i <= s.len(),
    ensures
        i <= skip_ws(s, i) <= s.len(),
        i <= skip_word(s, i) <= s.len(),
    decreases s.len() - i,
{
    if i < s.len() {
        lemma_skip_bounds(s, i + 1);
    }
}

fn skip_ws_exec(v: &Vec<char>, i: usize) -> (r: usize)
    requires
        i <= v.len(),
    ensures
        r == skip_ws(v@, i as int),
        i <= r <= v.len(),
{
    let mut j = i;
    while j < v.len() && char_is_ws(v[j])
        invariant
            i <= j <= v.len(),
            skip_ws(v@, j as int) == skip_ws(v@, i as int),
        decreases v.len() - j,
    {
        j = j + 1;
    }
    j
}

fn skip_word_exec(v: &Vec<char>, i: usize) -> (r: usize)
    requires
        i <= v.len(),
    ensures
        r == skip_word(v@, i as int),
        i <= r <= v.len(),
{
    let mut j = i;
    while j < v.len() && !char_is_ws(v[j])
        invariant
            i <= j <= v.len(),
            skip_word(v@, j as int) == skip_word(v@, i as int),
        decreases v.len() - j,
    {
        j = j + 1;
    }
    j
}

/// The status code of an HTTP status line (`HTTP/1.1 200 OK`): its second
/// word read as a `u16`.
pub fn status_code(line: &str) -> (r: Option<u16>)
    ensures
        r == match second_word(line@) {
            Some(w) => match parse_unsigned(w, 65535) {
                Some(v) => Some(v as u16),
                None => None,
            },
            None => None::<u16>,
        },
{
    let v = chars_of(line);
    let a = skip_ws_exec(&v, 0);
    let b = skip_word_exec(&v, a);
    let c = skip_ws_exec(&v, b);
    let d = skip_word_exec(&v, c);
    if c >= v.len() {
        return None;
    }
    let w = slice_chars(&v, c, d);
    match parse_dec(&w, 65535) {
        Some(n) => Some(n as u16),
        None => None,
    }
}

/// How a response body is delimited, as its headers say.
#[derive(Debug, PartialEq, Eq, Clone, Copy)]
pub struct Framing {
    /// The last `Content-Length` header's value, `None` when there is none
    /// or it is not a number.
    pub content_length: Option<usize>,
    /// Whether a `Transfer-Encoding: chunked` header was seen.
    pub chunked: bool,
}

/// Index of the first `c` at or after `i`.
pub open spec fn first_index_of(s: Seq<char>, c: char, i: int) -> Option<int>
    decreases s.len() - i,
{
    if i < 0 || i >= s.len() {
        None
    } else if s[i] == c {
        Some(i)
    } else {
        first_index_of(s, c, i + 1)
    }
}

/// What one header line (line ending included) does to the framing: the
/// line trimmed at its end, split at its first `:`, the name compared
/// without ASCII case and the value trimmed.
pub open spec fn header_step(f: Framing, line: Seq<char>) -> Framing {
    let l = line.take(back_ws(line, line.len() as int));
    match first_index_of(l, ':', 0) {
        None => f,
        Some(k) => {
            let name = lowered(l.take(k));
            let value = trimmed(l.subrange(k + 1, l.len() as int));
            if name == "content-length"@ {
                Framing {
                    content_length: match parse_unsigned(value, usize::MAX as nat) {
                        Some(n) => Some(n as usize),
                        None => None,
                    },
                    ..f
                }
            } else if name == "transfer-encoding"@ && lowered(value) == "chunked"@ {
                Framing { chunked: true, ..f }
            } else {
                f
            }
        },
    }
}

/// The framing a run of header lines sets, from none.
pub open spec fn headers_framing(lines: Seq<Seq<char>>) -> Framing
    decreases lines.len(),
{
    if lines.len() == 0 {
        Framing { content_length: None, chunked: false }
    } else {
        header_step(headers_framing(lines.drop_last()), lines.last())
    }
}

proof fn lemma_first_colon_at(s: Seq<char>, k: int, i: int)
    requires
        0 <= i <= k < s.len(),
        s[k] == ':',
        forall|j: int| i <= j < k ==> s[j] != ':',
    ensures
        first_index_of(s, ':', i) == Some(k),
    decreases k - i,
{
    if i < k {
        lemma_first_colon_at(s, k, i + 1);
    }
}

/// A header line `name:value` with its `\r\n`: what [`header_step`] cuts it
/// into, when the name holds no `:` and the value does not end in
/// whitespace.
proof fn lemma_header_line(n: Seq<char>, v: Seq<char>)
    requires
        forall|j: int| 0 <= j < n.len() ==> n[j] != ':',
        v.len() > 0,
        !is_ws(v.last()),
    ensures
        ({
            let line = n + seq![':'] + v + seq!['\r', '\n'];
            let l = line.take(back_ws(line, line.len() as int));
            &&& first_index_of(l, ':', 0) == Some(n.len() as int)
            &&& l.take(n.len() as int) == n
            &&& l.subrange(n.len() as int + 1, l.len() as int) == v
        }),
{
    let line = n + seq![':'] + v + seq!['\r', '\n'];
    let len = line.len() as int;
    assert(line[len - 1] == '\n');
    assert(line[len - 2] == '\r');
    assert(line[len - 3] == v.last());
    assert(is_ws('\n') && is_ws('\r'));
    assert(back_ws(line, len - 2) == len - 2);
    assert(back_ws(line, len - 1) == len - 2);
    assert(back_ws(line, len) == len - 2);
    let l = line.take(len - 2);
    assert(l =~= n + seq![':'] + v);
    assert(l[n.len() as int] == ':');
    lemma_first_colon_at(l, n.len() as int, 0);
    assert(l.take(n.len() as int) =~= n);
    assert(l.subrange(n.len() as int + 1, l.len() as int) =~= v);
}

/// Header names are matched without ASCII case: two header lines whose
/// names agree once lower-cased set the framing alike, whatever the value.
pub proof fn law_header_names_ignore_ascii_case(f: Framing, n1: Seq<char>, n2: Seq<char>, v: Seq<char>)
    requires
        lowered(n1) == lowered(n2),
        forall|j: int| 0 <= j < n1.len() ==> n1[j] != ':',
        v.len() > 0,
        !is_ws(v.last()),
    ensures
        header_step(f, n1 + seq![':'] + v + seq!['\r', '\n']) == header_step(f, n2 + seq![':'] + v + seq!['\r', '\n']),
{
    assert(n1.len() == lowered(n1).len() && n2.len() == lowered(n2).len());
    assert forall|j: int| 0 <= j < n2.len() implies n2[j] != ':' by {
        assert(lowered(n1)[j] == crate::text::ascii_lower(n1[j]));
        assert(lowered(n2)[j] == crate::text::ascii_lower(n2[j]));
    }
    lemma_header_line(n1, v);
    lemma_header_line(n2, v);
}

/// A `Transfer-Encoding: chunked` header, in any ASCII case of its name and
/// value, marks the body as chunked and leaves its length as it was.
pub proof fn law_chunked_transfer_encoding_is_seen(f: Framing, n: Seq<char>, v: Seq<char>)
    requires
        lowered(n) == "transfer-encoding"@,
        lowered(trimmed(v)) == "chunked"@,
        v.len() > 0,
        !is_ws(v.last()),
    ensures
        header_step(f, n + seq![':'] + v + seq!['\r', '\n']) == (Framing { chunked: true, ..f }),
{
    reveal_strlit("transfer-encoding");
    reveal_strlit("content-length");
    assert(n.len() == lowered(n).len());
    assert forall|j: int| 0 <= j < n.len() implies n[j] != ':' by {
        assert(lowered(n)[j] == crate::text::ascii_lower(n[j]));
    }
    lemma_header_line(n, v);
    assert(lowered(n) != "content-length"@);
}

proof fn lemma_step_keeps_chunked(f: Framing, line: Seq<char>)
    requires
        f.chunked,
    ensures
        header_step(f, line).chunked,
{
}

/// Once any header line of a response is a `Transfer-Encoding: chunked`
/// header (in any ASCII case), the response's framing is chunked, whatever
/// the lines before or after it.
pub proof fn law_a_chunked_header_anywhere_makes_the_body_chunked(
    lines: Seq<Seq<char>>,
    i: int,
    n: Seq<char>,
    v: Seq<char>,
)
    requires
        0 <= i < lines.len(),
        lines[i] == n + seq![':'] + v + seq!['\r', '\n'],
        lowered(n) == "transfer-encoding"@,
        lowered(trimmed(v)) == "chunked"@,
        v.len() > 0,
        !is_ws(v.last()),
    ensures
        headers_framing(lines).chunked,
    decreases lines.len(),
{
    if i == lines.len() - 1 {
        law_chunked_transfer_encoding_is_seen(headers_framing(lines.drop_last()), n, v);
    } else {
        assert(lines.drop_last()[i] == lines[i]);
        law_a_chunked_header_anywhere_makes_the_body_chunked(lines.drop_last(), i, n, v);
        lemma_step_keeps_chunked(headers_framing(lines.drop_last()), lines.last());
    }
}

/// A `Content-Length` header, in any ASCII case of its name, sets the
/// length to its trimmed value read as a number (none when it is not
/// one) and leaves the chunked mark as it was.
pub proof fn law_content_length_is_read(f: Framing, n: Seq<char>, v: Seq<char>)
    requires
        lowered(n) == "content-length"@,
        v.len() > 0,
        !is_ws(v.last()),
    ensures
        header_step(f, n + seq![':'] + v + seq!['\r', '\n']).content_length == match parse_unsigned(
            trimmed(v),
            usize::MAX as nat,
        ) {
            Some(x) => Some(x as usize),
            None => None,
        },
        header_step(f, n + seq![':'] + v + seq!['\r', '\n']).chunked == f.chunked,
{
    reveal_strlit("content-length");
    assert(n.len() == lowered(n).len());
    assert forall|j: int| 0 <= j < n.len() implies n[j] != ':' by {
        assert(lowered(n)[j] == crate::text::ascii_lower(n[j]));
    }
    lemma_header_line(n, v);
}

proof fn lemma_back_ws_le(s: Seq<char>, j: int)
    requires
        0 <= j <= s.len(),
    ensures
        0 <= back_ws(s, j) <= j,
    decreases j,
{
    if 0 < j && is_ws(s[j - 1]) {
        lemma_back_ws_le(s, j - 1);
    }
}

fn first_colon(v: &Vec<char>) -> (r: Option<usize>)
    ensures
        match first_index_of(v@, ':', 0) {
            Some(k) => r == Some(k as usize) && 0 <= k < v@.len(),
            None => r is None,
        },
{
    let mut i: usize = 0;
    while i < v.len()
        invariant
            i <= v.len(),
            first_index_of(v@, ':', i as int) == first_index_of(v@, ':', 0),
        decreases v.len() - i,
    {
        if v[i] == ':' {
            return Some(i);
        }
        i = i + 1;
    }
    None
}

/// [`header_step`] on one line.
fn apply_header(f: Framing, line: &str) -> (r: Framing)
    ensures
        r == header_step(f, line@),
{
    let v = chars_of(line);
    let mut e = v.len();
    while e > 0 && char_is_ws(v[e - 1])
        invariant
            e <= v.len(),
            back_ws(v@, e as int) == back_ws(v@, v@.len() as int),
        decreases e,
    {
        e = e - 1;
    }
    let l = slice_chars(&v, 0, e);
    assert(l@ =~= v@.take(back_ws(v@, v@.len() as int)));
    match first_colon(&l) {
        None => f,
        Some(k) => {
            let name = lower_str(string_of(slice_chars(&l, 0, k).as_slice()).as_str());
            let value = trim_chars(&slice_chars(&l, k + 1, l.len()));
            assert(l@.take(k as int) =~= l@.subrange(0, k as int));
            proof {
                reveal_strlit("content-length");
                reveal_strlit("transfer-encoding");
                reveal_strlit("chunked");
            }
            if crate::text::chars_eq(&name, &chars_of("content-length")) {
                let n = parse_dec(&value, usize::MAX as u64);
                Framing {
                    content_length: match n {
                        Some(x) => Some(x as usize),
                        None => None,
                    },
                    ..f
                }
            } else if crate::text::chars_eq(&name, &chars_of("transfer-encoding"))
                && crate::text::chars_eq(
                &lower_str(string_of(value.as_slice()).as_str()),
                &chars_of("chunked"),
            ) {
                Framing { chunked: true, ..f }
            } else {
                f
            }
        },
    }
}

/// The framing a response's header lines (each as read, line ending
/// included; the blank line that ends them left out) set.
pub fn framing(lines: &Vec<String>) -> (r: Framing)
    ensures
        r == headers_framing(lines@.map_values(|s: String| s@)),
{
    let ghost ls = lines@.map_values(|s: String| s@);
    let mut f = Framing { content_length: None, chunked: false };
    let mut i: usize = 0;
    while i < lines.len()
        invariant
            ls == lines@.map_values(|s: String| s@),
            i <= lines@.len(),
            f == headers_framing(ls.take(i as int)),
        decreases lines.len() - i,
    {
        let ghost t = ls.take(i as int + 1);
        assert(t.drop_last() =~= ls.take(i as int));
        assert(t.last() == lines@[i as int]@);
        f = apply_header(f, lines[i].as_str());
        i = i + 1;
    }
    assert(ls.take(lines@.len() as int) =~= ls);
    f
}

/// The `host:port` a probe base URL names: what follows `http://`, up to
/// the first `/`. `None` for any other scheme (no TLS here).
pub open spec fn spec_base_authority(base: Seq<char>) -> Option<Seq<char>> {
    if has_prefix(base, "http://"@) {
        Some(split_by(base.subrange(7, base.len() as int), "/"@)[0])
    } else {
        None
    }
}

/// See [`spec_base_authority`].
pub fn base_authority(base: &str) -> (r: Option<String>)
    ensures
        match r {
            Some(a) => spec_base_authority(base@) == Some(a@),
            None => spec_base_authority(base@) is None,
        },
{
    proof {
        reveal_strlit("http://");
        reveal_strlit("/");
    }
    let v = chars_of(base);
    if !starts_with_chars(&v, &chars_of("http://")) {
        return None;
    }
    let rest = slice_chars(&v, 7, v.len());
    let sep = chars_of("/");
    proof {
        lemma_split_walk_nonempty(rest@, sep@, 0, 0);
    }
    let parts = split_chars(&rest, &sep);
    assert(parts@.map_values(|q: Vec<char>| q@)[0] == parts@[0]@);
    Some(string_of(parts[0].as_slice()))
}

/// The head of a probe request: request line, `Host`, `Accept`, and
/// `Connection: close`, then the JSON body's type and length when there is
/// a body, then the blank line.
pub open spec fn spec_request_head(
    method: Seq<char>,
    path: Seq<char>,
    authority: Seq<char>,
    body_len: Option<nat>,
) -> Seq<char> {
    method + " "@ + path + " HTTP/1.1\r\nHost: "@ + authority
        + "\r\nAccept: application/json\r\nConnection: close\r\n"@ + match body_len {
        Some(n) => "Content-Type: application/json\r\nContent-Length: "@ + decimal(n) + "\r\n"@,
        None => Seq::empty(),
    } + "\r\n"@
}

/// See [`spec_request_head`]; `body_len` is the body's length in bytes.
pub fn request_head(method: &str, path: &str, authority: &str, body_len: Option<u64>) -> (r: String)
    ensures
        r@ == spec_request_head(
            method@,
            path@,
            authority@,
            match body_len {
                Some(n) => Some(n as nat),
                None => None,
            },
        ),
{
    let mut h = copy_str(method);
    h.append(" ");
    h.append(path);
    h.append(" HTTP/1.1\r\nHost: ");
    h.append(authority);
    h.append("\r\nAccept: application/json\r\nConnection: close\r\n");
    let ghost before = h@;
    match body_len {
        Some(n) => {
            h.append("Content-Type: application/json\r\nContent-Length: ");
            let d = decimal_string(n);
            h.append(d.as_str());
            h.append("\r\n");
            assert(h@ =~= before + ("Content-Type: application/json\r\nContent-Length: "@ + decimal(
                n as nat,
            ) + "\r\n"@));
        },
        None => {
            assert(h@ =~= before + Seq::<char>::empty());
        },
    }
    h.append("\r\n");
    h
}

/// Statuses whose responses carry no body, so an empty one is the
/// contract rather than a missing answer.
pub open spec fn no_content_status(status: u16) -> bool {
    status == 204 || status == 205 || status == 304
}

/// `u8::is_ascii_whitespace`: space, tab, line feed, form feed, carriage
/// return.
pub open spec fn ascii_ws_byte(b: u8) -> bool {
    b == 0x20 || b == 0x09 || b == 0x0a || b == 0x0c || b == 0x0d
}

/// Whether a response body holds nothing to parse: only ASCII whitespace.
pub fn body_is_blank(body: &[u8]) -> (r: bool)
    ensures
        r == forall|i: int| 0 <= i < body@.len() ==> ascii_ws_byte(#[trigger] body@[i]),
{
    let mut i: usize = 0;
    while i < body.len()
        invariant
            i <= body@.len(),
            forall|j: int| 0 <= j < i ==> ascii_ws_byte(#[trigger] body@[j]),
        decreases body.len() - i,
    {
        let b = body[i];
        if !(b == 0x20 || b == 0x09 || b == 0x0a || b == 0x0c || b == 0x0d) {
            return false;
        }
        i = i + 1;
    }
    true
}

/// Whether an empty answer is a problem: only a status that cannot carry
/// content may answer empty when the probe declared expectations
/// (assertions, or a shape check against the spec). Anywhere else an empty
/// body would skip every declared check in silence, and a first accept
/// would lock a broken endpoint as the baseline.
pub fn empty_body_problem(status: u16, has_asserts: bool, shape_checked: bool) -> (r: bool)
    ensures
        r == (!no_content_status(status) && (has_asserts || shape_checked)),
{
    !(status == 204 || status == 205 || status == 304) && (has_asserts || shape_checked)
}

/// Probes the lock holds that the manifest no longer declares, in lock
/// order. Only a full accept or `--allow-gone` drops them; otherwise each
/// is a failure, so a partial write never deletes a locked probe as a side
/// effect of an unrelated failure.
pub fn gone_probes(locked: &Vec<String>, declared: &Vec<String>) -> (r: Vec<String>)
    ensures
        strs(r@) == strs(locked@).filter(|n: Seq<char>| !strs(declared@).contains(n)),
{
    let ghost pred = |n: Seq<char>| !strs(declared@).contains(n);
    let mut r: Vec<String> = Vec::new();
    let mut i: usize = 0;
    while i < locked.len()
        invariant
            i <= locked@.len(),
            pred == (|n: Seq<char>| !strs(declared@).contains(n)),
            strs(r@) == strs(locked@).take(i as int).filter(pred),
        decreases locked.len() - i,
    {
        let name = locked[i].as_str();
        let ghost before = strs(r@);
        proof {
            reveal(Seq::filter);
            let t = strs(locked@).take(i as int + 1);
            assert(t.drop_last() =~= strs(locked@).take(i as int));
            assert(t.last() == name@);
        }
        if !contains_str(declared, name) {
            r.push(copy_str(name));
            assert(strs(r@) =~= before.push(name@));
        }
        i = i + 1;
    }
    assert(strs(locked@).take(locked@.len() as int) =~= strs(locked@));
    r
}

/// Whether locked probes the manifest no longer declares leave the lock:
/// only a full accept or `--allow-gone` drops them.
pub fn drops_gone(allow_gone: bool, accept: bool) -> (r: bool)
    ensures
        r == (allow_gone || accept),
{
    allow_gone || accept
}

/// The failure line for a gone probe that stays locked.
pub open spec fn gone_probe_line(name: Seq<char>) -> Seq<char> {
    "FAIL  probe `"@ + name + "` is locked but no longer in probes.toml (--allow-gone to drop)"@
}

/// One failure line per gone probe, in order, unless they are dropped; each
/// line is one failure of the run.
pub fn gone_probe_failures(gone: &Vec<String>, dropped: bool) -> (r: Vec<String>)
    ensures
        dropped ==> r@.len() == 0,
        !dropped ==> r@.len() == gone@.len(),
        !dropped ==> forall|i: int| 0 <= i < gone@.len() ==> #[trigger] r@[i]@ == gone_probe_line(gone@[i]@),
{
    let mut lines: Vec<String> = Vec::new();
    if dropped {
        return lines;
    }
    let mut i: usize = 0;
    while i < gone.len()
        invariant
            i <= gone@.len(),
            lines@.len() == i,
            forall|j: int| 0 <= j < i ==> #[trigger] lines@[j]@ == gone_probe_line(gone@[j]@),
        decreases gone.len() - i,
    {
        let mut line = copy_str("FAIL  probe `");
        line.append(gone[i].as_str());
        line.append("` is locked but no longer in probes.toml (--allow-gone to drop)");
        lines.push(line);
        i = i + 1;
    }
    lines
}

/// How a probe run ends.
#[derive(Debug, PartialEq, Eq, Structural, Clone, Copy)]
pub enum ProbeOutcome {
    /// Every probe held; exit 0.
    Passed,
    /// Some check failed; exit 1.
    Failed,
    /// An accept with failures: a run that fails its own checks must not
    /// ratify a lock, so nothing is written; exit 1.
    NotAccepted,
    /// Everything was accepted into the lock; exit 0.
    Accepted,
    /// `--accept-passing` locked the probes that passed and left the rest at
    /// their existing values; exit 1.
    PartlyAccepted,
}

/// See [`ProbeOutcome`].
pub open spec fn spec_probe_outcome(accepting: bool, accept_passing: bool, failures: u32) -> ProbeOutcome {
    if accepting {
        if failures == 0 {
            ProbeOutcome::Accepted
        } else if accept_passing {
            ProbeOutcome::PartlyAccepted
        } else {
            ProbeOutcome::NotAccepted
        }
    } else if failures == 0 {
        ProbeOutcome::Passed
    } else {
        ProbeOutcome::Failed
    }
}

/// See [`ProbeOutcome`].
pub fn probe_outcome(accepting: bool, accept_passing: bool, failures: u32) -> (r: ProbeOutcome)
    ensures
        r == spec_probe_outcome(accepting, accept_passing, failures),
{
    if accepting {
        if failures == 0 {
            ProbeOutcome::Accepted
        } else if accept_passing {
            ProbeOutcome::PartlyAccepted
        } else {
            ProbeOutcome::NotAccepted
        }
    } else if failures == 0 {
        ProbeOutcome::Passed
    } else {
        ProbeOutcome::Failed
    }
}

/// A probe run with failures never exits cleanly, and a run that accepts
/// while failing writes the lock only when `--accept-passing` asked for it.
pub proof fn law_failures_never_pass(accepting: bool, accept_passing: bool, failures: u32)
    requires
        failures > 0,
    ensures
        spec_probe_outcome(accepting, accept_passing, failures) != ProbeOutcome::Passed,
        spec_probe_outcome(accepting, accept_passing, failures) != ProbeOutcome::Accepted,
        accepting && !accept_passing ==> spec_probe_outcome(accepting, accept_passing, failures)
            == ProbeOutcome::NotAccepted,
{
}

// ---------------------------------------------------------------- one probe's report

/// What checking a probe's observed fields against the lock found.
pub struct PopulationFindings {
    /// Fields that were always populated and are now empty.
    pub regressed: Vec<String>,
    /// Fields the lock has never seen.
    pub new_fields: Vec<String>,
    /// Fields the spec declares that were never populated.
    pub uncovered: Vec<String>,
}

/// Each item between `prefix` and `suffix`.
pub open spec fn framed(items: Seq<Seq<char>>, prefix: Seq<char>, suffix: Seq<char>) -> Seq<Seq<char>> {
    items.map_values(|p: Seq<char>| prefix + p + suffix)
}

/// A probe's problems once its fields are held to the lock: its own
/// checks' problems, then each regressed field, each new field, and each
/// declared field never populated.
pub open spec fn gate_problem_lines(
    problems: Seq<Seq<char>>,
    regressed: Seq<Seq<char>>,
    new_fields: Seq<Seq<char>>,
    uncovered: Seq<Seq<char>>,
) -> Seq<Seq<char>> {
    problems + framed(regressed, "population: `"@, "` was always populated, now empty"@) + framed(
        new_fields,
        "population: `"@,
        "` is new — run spec probe --accept"@,
    ) + framed(uncovered, "coverage: `"@, "` is declared but never populated — wire it or accept it"@)
}

fn push_framed(out: &mut Vec<String>, items: &Vec<String>, prefix: &str, suffix: &str)
    ensures
        strs(final(out)@) == strs(old(out)@) + framed(strs(items@), prefix@, suffix@),
{
    let ghost start = strs(out@);
    let mut i: usize = 0;
    while i < items.len()
        invariant
            i <= items@.len(),
            strs(out@) == start + framed(strs(items@).take(i as int), prefix@, suffix@),
        decreases items.len() - i,
    {
        let mut line = copy_str(prefix);
        line.append(items[i].as_str());
        line.append(suffix);
        let ghost before = strs(out@);
        out.push(line);
        assert(strs(out@) =~= before.push(prefix@ + items@[i as int]@ + suffix@));
        assert(framed(strs(items@).take(i + 1), prefix@, suffix@) =~= framed(
            strs(items@).take(i as int),
            prefix@,
            suffix@,
        ).push(prefix@ + items@[i as int]@ + suffix@));
        i = i + 1;
    }
    assert(strs(items@).take(items@.len() as int) =~= strs(items@));
}

/// See [`gate_problem_lines`].
pub fn gate_problems(problems: &Vec<String>, findings: &PopulationFindings) -> (r: Vec<String>)
    ensures
        strs(r@) == gate_problem_lines(
            strs(problems@),
            strs(findings.regressed@),
            strs(findings.new_fields@),
            strs(findings.uncovered@),
        ),
{
    let mut out: Vec<String> = Vec::new();
    assert(strs(out@) =~= Seq::<Seq<char>>::empty());
    push_framed(&mut out, problems, "", "");
    proof {
        reveal_strlit("");
    }
    assert(framed(strs(problems@), ""@, ""@) =~= strs(problems@));
    push_framed(&mut out, &findings.regressed, "population: `", "` was always populated, now empty");
    push_framed(&mut out, &findings.new_fields, "population: `", "` is new — run spec probe --accept");
    push_framed(
        &mut out,
        &findings.uncovered,
        "coverage: `",
        "` is declared but never populated — wire it or accept it",
    );
    out
}

/// The lines a checked probe prints, and whether it failed: an ok line
/// with its field count when it has no problem, else a FAIL line and one
/// indented line per problem.
pub open spec fn probe_lines(name: Seq<char>, problems: Seq<Seq<char>>, fields: nat) -> (bool, Seq<Seq<char>>) {
    if problems.len() == 0 {
        (false, seq!["probe: "@ + name + " — ok ("@ + decimal(fields) + " fields)"@])
    } else {
        (true, seq!["FAIL  "@ + name + ":"@] + framed(problems, "      "@, ""@))
    }
}

/// The lines an accepting run prints for a probe, and whether it failed:
/// the accepted line with its field count (and how many declared fields
/// stay uncovered, when any do), or, when the probe's own checks found a
/// problem, that it was not accepted and why.
pub open spec fn accept_lines(name: Seq<char>, problems: Seq<Seq<char>>, fields: nat, uncovered: nat) -> (
    bool,
    Seq<Seq<char>>,
) {
    if problems.len() == 0 {
        (
            false,
            seq![
                "probe: "@ + name + " — accepted ("@ + decimal(fields) + " fields"@ + (if uncovered == 0 {
                    Seq::empty()
                } else {
                    ", "@ + decimal(uncovered) + " uncovered"@
                }) + ")"@,
            ],
        )
    } else {
        (true, seq!["FAIL  "@ + name + ": not accepted:"@] + framed(problems, "      "@, ""@))
    }
}

/// See [`probe_lines`].
pub fn probe_report(name: &str, problems: &Vec<String>, fields: usize) -> (r: (bool, Vec<String>))
    ensures
        (r.0, strs(r.1@)) == probe_lines(name@, strs(problems@), fields as nat),
{
    let mut out: Vec<String> = Vec::new();
    if problems.len() == 0 {
        let mut line = copy_str("probe: ");
        line.append(name);
        line.append(" — ok (");
        line.append(decimal_string(fields as u64).as_str());
        line.append(" fields)");
        out.push(line);
        assert(strs(out@) =~= seq!["probe: "@ + name@ + " — ok ("@ + decimal(fields as nat) + " fields)"@]);
        (false, out)
    } else {
        let mut head = copy_str("FAIL  ");
        head.append(name);
        head.append(":");
        out.push(head);
        assert(strs(out@) =~= seq!["FAIL  "@ + name@ + ":"@]);
        push_framed(&mut out, problems, "      ", "");
        (true, out)
    }
}

/// See [`accept_lines`]; `uncovered` is how many declared fields the
/// accepted lock entry leaves uncovered.
pub fn accept_report(name: &str, problems: &Vec<String>, fields: usize, uncovered: usize) -> (r: (bool, Vec<String>))
    ensures
        (r.0, strs(r.1@)) == accept_lines(name@, strs(problems@), fields as nat, uncovered as nat),
{
    let mut out: Vec<String> = Vec::new();
    if problems.len() == 0 {
        let mut line = copy_str("probe: ");
        line.append(name);
        line.append(" — accepted (");
        line.append(decimal_string(fields as u64).as_str());
        line.append(" fields");
        if uncovered > 0 {
            line.append(", ");
            line.append(decimal_string(uncovered as u64).as_str());
            line.append(" uncovered");
        }
        line.append(")");
        proof {
            reveal_strlit("");
        }
        assert(line@ =~= "probe: "@ + name@ + " — accepted ("@ + decimal(fields as nat) + " fields"@ + (if uncovered
            == 0 {
            Seq::empty()
        } else {
            ", "@ + decimal(uncovered as nat) + " uncovered"@
        }) + ")"@);
        out.push(line);
        assert(strs(out@) =~= seq![
            "probe: "@ + name@ + " — accepted ("@ + decimal(fields as nat) + " fields"@ + (if uncovered == 0 {
                Seq::empty()
            } else {
                ", "@ + decimal(uncovered as nat) + " uncovered"@
            }) + ")"@,
        ]);
        (false, out)
    } else {
        let mut head = copy_str("FAIL  ");
        head.append(name);
        head.append(": not accepted:");
        out.push(head);
        assert(strs(out@) =~= seq!["FAIL  "@ + name@ + ": not accepted:"@]);
        push_framed(&mut out, problems, "      ", "");
        (true, out)
    }
}

} // verus!
