//! The small JSON dialect of the WebUI socket: string literals are written
//! with escapes, and request fields are read from a single-line object
//! without a general parser.
use vstd::prelude::*;

use crate::numfmt::hex_digit;
use crate::text::{
    all_digits, chars_of, has_prefix_at, index_of_from, lemma_skip_ws_bounds, parse_digits,
    parse_unsigned, push_char, skip_ws, skip_ws_from,
};

verus! {

// ---------------------------------------------------------------------------
// Writing string literals
// ---------------------------------------------------------------------------

/// How one char is written inside a JSON string literal.
pub open spec fn escape_char(c: char) -> Seq<char> {
    if c == '"' {
        seq!['\\', '"']
    } else if c == '\\' {
        seq!['\\', '\\']
    } else if c == '\n' {
        seq!['\\', 'n']
    } else if c == '\r' {
        seq!['\\', 'r']
    } else if c == '\t' {
        seq!['\\', 't']
    } else if (c as u32) < 0x20 {
        seq!['\\', 'u', '0', '0', hex_digit((c as u32 / 16) as nat), hex_digit((c as u32 % 16) as nat)]
    } else {
        seq![c]
    }
}

/// The escaped form of every char of `s`, in order.
pub open spec fn escaped(s: Seq<char>) -> Seq<char>
    decreases s.len(),
{
    if s.len() == 0 {
        Seq::empty()
    } else {
        escaped(s.drop_last()) + escape_char(s.last())
    }
}

/// `s` as a JSON string literal.
pub open spec fn json_string(s: Seq<char>) -> Seq<char> {
    seq!['"'] + escaped(s) + seq!['"']
}

fn hex_digit_char(d: u32) -> (c: char)
    requires
        d < 16,
    ensures
        c == hex_digit(d as nat),
{
    let b: u8 = d as u8;
    if b < 10 {
        (b + 48) as char
    } else {
        (b + 87) as char
    }
}

/// Appends the escaped form of `c`.
fn push_escaped(out: &mut String, c: char)
    ensures
        final(out)@ == old(out)@ + escape_char(c),
{
    if c == '"' {
        push_char(out, '\\');
        push_char(out, '"');
    } else if c == '\\' {
        push_char(out, '\\');
        push_char(out, '\\');
    } else if c == '\n' {
        push_char(out, '\\');
        push_char(out, 'n');
    } else if c == '\r' {
        push_char(out, '\\');
        push_char(out, 'r');
    } else if c == '\t' {
        push_char(out, '\\');
        push_char(out, 't');
    } else if (c as u32) < 0x20 {
        let v = c as u32;
        push_char(out, '\\');
        push_char(out, 'u');
        push_char(out, '0');
        push_char(out, '0');
        push_char(out, hex_digit_char(v / 16));
        push_char(out, hex_digit_char(v % 16));
    } else {
        push_char(out, c);
    }
    assert(out@ =~= old(out)@ + escape_char(c));
}

/// Appends `s` as a JSON string literal.
pub fn push_json_str(out: &mut String, s: &str)
    ensures
        final(out)@ == old(out)@ + json_string(s@),
{
    let v = chars_of(s);
    let ghost start = out@;
    push_char(out, '"');
    let mut i: usize = 0;
    while i < v.len()
        invariant
            i <= v@.len(),
            v@ == s@,
            out@ == start + seq!['"'] + escaped(v@.take(i as int)),
        decreases v@.len() - i,
    {
        let ghost before = out@;
        push_escaped(out, v[i]);
        proof {
            assert(v@.take(i + 1).drop_last() =~= v@.take(i as int));
            assert(escaped(v@.take(i + 1)) == escaped(v@.take(i as int)) + escape_char(v@[i as int]));
        }
        i += 1;
        assert(out@ =~= start + seq!['"'] + escaped(v@.take(i as int)));
    }
    push_char(out, '"');
    assert(v@.take(v@.len() as int) =~= v@);
    assert(out@ =~= start + json_string(s@));
}

/// Encode a string as a JSON string literal (UTF-8 safe).
pub fn json_str(s: &str) -> (r: String)
    ensures
        r@ == json_string(s@),
{
    let mut out = String::new();
    push_json_str(&mut out, s);
    assert(out@ =~= json_string(s@));
    out
}

// ---------------------------------------------------------------------------
// Reading request fields
// ---------------------------------------------------------------------------

/// First index `>= i` at which `p` occurs in `s` (`str::find` from `i`).
pub open spec fn find_from(s: Seq<char>, p: Seq<char>, i: int) -> Option<int>
    decreases s.len() + 1 - i,
{
    if i < 0 || i + p.len() > s.len() {
        None
    } else if s.subrange(i, i + p.len()) == p {
        Some(i)
    } else {
        find_from(s, p, i + 1)
    }
}

/// `"key"`, the quoted key a field starts with.
pub open spec fn quoted_key(key: Seq<char>) -> Seq<char> {
    seq!['"'] + key + seq!['"']
}

/// Where a field's value starts: after the first `"key"`, optional
/// whitespace, a ':' and optional whitespace.
pub open spec fn field_value_pos(line: Seq<char>, key: Seq<char>) -> Option<int> {
    match find_from(line, quoted_key(key), 0) {
        None => None,
        Some(i) => {
            let a = skip_ws_from(line, i + quoted_key(key).len());
            if a < line.len() && line[a] == ':' {
                Some(skip_ws_from(line, a + 1))
            } else {
                None
            }
        },
    }
}

pub open spec fn is_hex(c: char) -> bool {
    ('0' <= c && c <= '9') || ('a' <= c && c <= 'f') || ('A' <= c && c <= 'F')
}

pub open spec fn all_hex(d: Seq<char>) -> bool {
    forall|i: int| 0 <= i < d.len() ==> is_hex(#[trigger] d[i])
}

pub open spec fn hex_val(c: char) -> nat {
    if '0' <= c && c <= '9' {
        (c as nat - 48) as nat
    } else if 'a' <= c && c <= 'f' {
        (c as nat - 87) as nat
    } else {
        (c as nat - 55) as nat
    }
}

pub open spec fn hex_digits_value(s: Seq<char>) -> nat
    decreases s.len(),
{
    if s.len() == 0 {
        0
    } else {
        hex_digits_value(s.drop_last()) * 16 + hex_val(s.last())
    }
}

/// `u32::from_str_radix(s, 16)` on at most four chars: an optional '+',
/// then at least one hex digit and nothing else.
pub open spec fn parse_hex4(s: Seq<char>) -> Option<nat> {
    let d = if s.len() > 0 && s[0] == '+' {
        s.skip(1)
    } else {
        s
    };
    if d.len() == 0 || !all_hex(d) {
        None
    } else {
        Some(hex_digits_value(d))
    }
}

/// A Unicode scalar value: what `char::from_u32` accepts.
pub open spec fn is_scalar(v: nat) -> bool {
    v <= 0x10FFFF && !(0xD800 <= v && v <= 0xDFFF)
}

/// The char a simple escape `\e` stands for.
pub open spec fn simple_escape(e: char) -> Option<char> {
    if e == '"' {
        Some('"')
    } else if e == '\\' {
        Some('\\')
    } else if e == '/' {
        Some('/')
    } else if e == 'n' {
        Some('\n')
    } else if e == 't' {
        Some('\t')
    } else if e == 'r' {
        Some('\r')
    } else if e == 'b' {
        Some('\u{8}')
    } else if e == 'f' {
        Some('\u{c}')
    } else {
        None
    }
}

/// Decoding the body of a string literal from `i` on, `out` decoded so far:
/// the closing quote ends it; `\uXXXX` (the next four chars, fewer at the
/// end) adds its char when it is valid hex of a scalar value; another escape
/// adds its char or nothing; running out of input gives `None`.
pub open spec fn decode_from(s: Seq<char>, i: int, out: Seq<char>) -> Option<Seq<char>>
    decreases s.len() - i,
{
    if i < 0 || i >= s.len() {
        None
    } else if s[i] == '"' {
        Some(out)
    } else if s[i] == '\\' {
        if i + 1 >= s.len() {
            None
        } else if s[i + 1] == 'u' {
            let end = if i + 6 <= s.len() {
                i + 6
            } else {
                s.len() as int
            };
            let next = match parse_hex4(s.subrange(i + 2, end)) {
                Some(v) => if is_scalar(v) {
                    out.push(v as char)
                } else {
                    out
                },
                None => out,
            };
            decode_from(s, end, next)
        } else {
            let next = match simple_escape(s[i + 1]) {
                Some(c) => out.push(c),
                None => out,
            };
            decode_from(s, i + 2, next)
        }
    } else {
        decode_from(s, i + 1, out.push(s[i]))
    }
}

/// The decoded string value of field `key`, if the line has one.
pub open spec fn json_field(line: Seq<char>, key: Seq<char>) -> Option<Seq<char>> {
    match field_value_pos(line, key) {
        None => None,
        Some(p) => if p < line.len() && line[p] == '"' {
            decode_from(line, p + 1, Seq::empty())
        } else {
            None
        },
    }
}

/// First index `>= i` whose char is not an ASCII digit, or `s.len()`.
pub open spec fn digit_run_end(s: Seq<char>, i: int) -> int
    decreases s.len() - i,
{
    if 0 <= i < s.len() && '0' <= s[i] && s[i] <= '9' {
        digit_run_end(s, i + 1)
    } else {
        i
    }
}

/// The number value of field `key`: the ASCII digits that follow, read as a
/// `u64`.
pub open spec fn json_number(line: Seq<char>, key: Seq<char>) -> Option<nat> {
    match field_value_pos(line, key) {
        None => None,
        Some(p) => parse_unsigned(line.subrange(p, digit_run_end(line, p)), u64::MAX as nat),
    }
}

/// `"method"`.
pub open spec fn method_key() -> Seq<char> {
    seq!['"', 'm', 'e', 't', 'h', 'o', 'd', '"']
}

/// The method of a request line: in the text between the first `"method"`
/// and the next one (or the end), the text between its first '"' and the
/// next '"' (or the end of that text); empty when either is missing.
pub open spec fn request_method(line: Seq<char>) -> Seq<char> {
    match find_from(line, method_key(), 0) {
        None => Seq::empty(),
        Some(i) => {
            let st = i + 8;
            let end = match find_from(line, method_key(), st) {
                Some(j) => j,
                None => line.len() as int,
            };
            let piece = line.subrange(st, end);
            let q1 = index_of_from(piece, '"', 0);
            if q1 >= piece.len() {
                Seq::empty()
            } else {
                piece.subrange(q1 + 1, index_of_from(piece, '"', q1 + 1))
            }
        },
    }
}

proof fn lemma_find_bounds(s: Seq<char>, p: Seq<char>, i: int)
    requires
        0 <= i,
    ensures
        find_from(s, p, i) matches Some(j) ==> i <= j && j + p.len() <= s.len() && s.subrange(
            j,
            j + p.len(),
        ) == p,
    decreases s.len() + 1 - i,
{
    if i + p.len() <= s.len() && s.subrange(i, i + p.len()) != p {
        lemma_find_bounds(s, p, i + 1);
    }
}

/// `find_from` computed.
fn find_seq(v: &Vec<char>, p: &Vec<char>, i: usize) -> (r: Option<usize>)
    ensures
        match find_from(v@, p@, i as int) {
            Some(j) => r == Some(j as usize),
            None => r is None,
        },
        r matches Some(j) ==> i <= j && j + p@.len() <= v@.len(),
{
    proof {
        lemma_find_bounds(v@, p@, i as int);
    }
    let mut k = i;
    loop
        invariant
            i <= k,
            find_from(v@, p@, k as int) == find_from(v@, p@, i as int),
        decreases v@.len() + 1 - k,
    {
        if p.len() > v.len() || k > v.len() - p.len() {
            return None;
        }
        if has_prefix_at(v, k, p.as_slice()) {
            return Some(k);
        }
        if k == v.len() - p.len() {
            assert(find_from(v@, p@, k + 1) is None);
            return None;
        }
        k += 1;
    }
}

/// `field_value_pos` computed.
fn value_pos(v: &Vec<char>, key: &str) -> (r: Option<usize>)
    ensures
        match field_value_pos(v@, key@) {
            Some(p) => r == Some(p as usize),
            None => r is None,
        },
        r matches Some(p) ==> p <= v@.len(),
        field_value_pos(v@, key@) matches Some(p) ==> 0 <= p <= v@.len(),
{
    let mut needle: Vec<char> = Vec::new();
    needle.push('"');
    let k = chars_of(key);
    let mut j: usize = 0;
    while j < k.len()
        invariant
            j <= k@.len(),
            needle@ == seq!['"'] + k@.take(j as int),
        decreases k@.len() - j,
    {
        needle.push(k[j]);
        j += 1;
        assert(needle@ =~= seq!['"'] + k@.take(j as int));
    }
    needle.push('"');
    assert(k@.take(k@.len() as int) =~= k@);
    assert(needle@ =~= quoted_key(key@));
    proof {
        lemma_find_bounds(v@, needle@, 0);
    }
    match find_seq(v, &needle, 0) {
        None => None,
        Some(i) => {
            let vlen = v.len();
            assert(i + needle@.len() <= vlen);
            proof {
                lemma_skip_ws_bounds(v@, i + needle@.len());
            }
            let a = skip_ws(v, i + needle.len());
            proof {
                if a < vlen {
                    lemma_skip_ws_bounds(v@, a + 1);
                }
            }
            if a < v.len() && v[a] == ':' {
                Some(skip_ws(v, a + 1))
            } else {
                None
            }
        },
    }
}

proof fn lemma_hex_step(s: Seq<char>, k: int)
    requires
        0 <= k < s.len(),
    ensures
        hex_digits_value(s.take(k + 1)) == hex_digits_value(s.take(k)) * 16 + hex_val(s[k]),
{
    assert(s.take(k + 1).drop_last() =~= s.take(k));
}

/// `u32::from_str_radix(&v[lo..hi], 16)` for at most four chars.
fn parse_hex(v: &Vec<char>, lo: usize, hi: usize) -> (r: Option<u32>)
    requires
        lo <= hi <= v@.len(),
        hi - lo <= 4,
    ensures
        r matches Some(n) ==> parse_hex4(v@.subrange(lo as int, hi as int)) == Some(n as nat),
        r is None ==> parse_hex4(v@.subrange(lo as int, hi as int)) is None,
{
    let ghost s = v@.subrange(lo as int, hi as int);
    let start: usize = if lo < hi && v[lo] == '+' {
        lo + 1
    } else {
        lo
    };
    let ghost d = v@.subrange(start as int, hi as int);
    proof {
        if lo < hi && v@[lo as int] == '+' {
            assert(d =~= s.skip(1));
        } else {
            assert(d =~= s);
        }
    }
    if start == hi {
        assert(parse_hex4(s) is None);
        return None;
    }
    let mut acc: u32 = 0;
    let mut k = start;
    while k < hi
        invariant
            start <= k <= hi <= v@.len(),
            hi - start <= 4,
            d == v@.subrange(start as int, hi as int),
            s == v@.subrange(lo as int, hi as int),
            d == (if s.len() > 0 && s[0] == '+' {
                s.skip(1)
            } else {
                s
            }),
            forall|m: int| 0 <= m < k - start ==> is_hex(#[trigger] d[m]),
            acc == hex_digits_value(d.take(k - start)),
            acc < pow16(k - start),
        decreases hi - k,
    {
        let c = v[k];
        assert(d[k - start] == c);
        let dv: u32 = if '0' <= c && c <= '9' {
            (c as u32) - 48
        } else if 'a' <= c && c <= 'f' {
            (c as u32) - 87
        } else if 'A' <= c && c <= 'F' {
            (c as u32) - 55
        } else {
            assert(!is_hex(d[k - start]));
            return None;
        };
        proof {
            lemma_hex_step(d, k - start);
            assert(pow16(k + 1 - start) == pow16(k - start) * 16);
            assert(acc * 16 + dv < pow16(k + 1 - start)) by (nonlinear_arith)
                requires
                    acc < pow16(k - start),
                    dv < 16,
                    pow16(k + 1 - start) == pow16(k - start) * 16,
            ;
            assert(pow16(k + 1 - start) <= 65536) by {
                lemma_pow16_le4(k + 1 - start);
            }
        }
        acc = acc * 16 + dv;
        k += 1;
    }
    assert(d.take(hi - start) =~= d);
    assert(forall|m: int| 0 <= m < d.len() ==> is_hex(#[trigger] d[m]));
    Some(acc)
}

spec fn pow16(n: int) -> nat
    decreases n,
{
    if n <= 0 {
        1
    } else {
        16 * pow16(n - 1)
    }
}

proof fn lemma_pow16_le4(n: int)
    requires
        0 <= n <= 4,
    ensures
        pow16(n) <= 65536,
{
    reveal_with_fuel(pow16, 5);
}

/// `char::from_u32` (std): the char with scalar value `v`, `None` for
/// surrogates and values past `char::MAX`.
#[verifier::external_body]
fn char_from_u32(v: u32) -> (r: Option<char>)
    ensures
        is_scalar(v as nat) ==> r == Some(v as char),
        !is_scalar(v as nat) ==> r is None,
{
    char::from_u32(v)
}

fn simple_escape_char(e: char) -> (r: Option<char>)
    ensures
        r == simple_escape(e),
{
    if e == '"' {
        Some('"')
    } else if e == '\\' {
        Some('\\')
    } else if e == '/' {
        Some('/')
    } else if e == 'n' {
        Some('\n')
    } else if e == 't' {
        Some('\t')
    } else if e == 'r' {
        Some('\r')
    } else if e == 'b' {
        Some('\u{8}')
    } else if e == 'f' {
        Some('\u{c}')
    } else {
        None
    }
}

/// `decode_from` computed, from `i` with nothing decoded yet.
fn decode_string(v: &Vec<char>, i: usize) -> (r: Option<String>)
    requires
        i <= v@.len(),
    ensures
        match decode_from(v@, i as int, Seq::empty()) {
            Some(s) => r matches Some(t) && t@ == s,
            None => r is None,
        },
{
    let mut out = String::new();
    let mut k = i;
    loop
        invariant
            k <= v@.len(),
            decode_from(v@, k as int, out@) == decode_from(v@, i as int, Seq::empty()),
        decreases v@.len() - k,
    {
        if k >= v.len() {
            return None;
        }
        let c = v[k];
        if c == '"' {
            return Some(out);
        } else if c == '\\' {
            if k + 1 >= v.len() {
                return None;
            }
            let e = v[k + 1];
            if e == 'u' {
                let end = if v.len() - k >= 6 {
                    k + 6
                } else {
                    v.len()
                };
                let ghost h = v@.subrange(k + 2, end as int);
                match parse_hex(v, k + 2, end) {
                    Some(n) => {
                        assert(parse_hex4(h) == Some(n as nat));
                        match char_from_u32(n) {
                            Some(ch) => {
                                assert(ch == (n as nat) as char);
                                push_char(&mut out, ch);
                            },
                            None => {},
                        }
                    },
                    None => {},
                }
                k = end;
            } else {
                match simple_escape_char(e) {
                    Some(ch) => push_char(&mut out, ch),
                    None => {},
                }
                k = k + 2;
            }
        } else {
            push_char(&mut out, c);
            k = k + 1;
        }
    }
}

/// Extract and JSON-decode a string field (e.g. `"content"`) from a simple
/// JSON object line. Handles `\"`, `\\`, and control escapes.
pub fn extract_json_field(line: &str, key: &str) -> (r: Option<String>)
    ensures
        match json_field(line@, key@) {
            Some(s) => r matches Some(t) && t@ == s,
            None => r is None,
        },
{
    let v = chars_of(line);
    let p = match value_pos(&v, key) {
        Some(p) => p,
        None => return None,
    };
    if p < v.len() && v[p] == '"' {
        decode_string(&v, p + 1)
    } else {
        None
    }
}

/// Extract a JSON number field (e.g. `"count": 200`) from a simple object.
pub fn extract_json_number(line: &str, key: &str) -> (r: Option<u64>)
    ensures
        match json_number(line@, key@) {
            Some(n) => r == Some(n as u64),
            None => r is None,
        },
{
    let v = chars_of(line);
    let p = match value_pos(&v, key) {
        Some(p) => p,
        None => return None,
    };
    let mut e = p;
    while e < v.len() && '0' <= v[e] && v[e] <= '9'
        invariant
            p <= e <= v@.len(),
            digit_run_end(v@, e as int) == digit_run_end(v@, p as int),
            forall|m: int| p <= m < e ==> '0' <= #[trigger] v@[m] && v@[m] <= '9',
        decreases v@.len() - e,
    {
        e += 1;
    }
    let ghost d = v@.subrange(p as int, e as int);
    assert(e == digit_run_end(v@, p as int));
    assert(all_digits(d)) by {
        assert forall|m: int| 0 <= m < d.len() implies crate::text::is_digit(#[trigger] d[m]) by {
            assert(d[m] == v@[p + m]);
        }
    }
    let r = parse_digits(&v, p, e, u64::MAX);
    proof {
        if d.len() > 0 {
            assert(d[0] != '+');
        }
    }
    r
}

/// Extract `"method"` from a JSON line like `{"method":"get_status"}`.
pub fn parse_method(line: &str) -> (m: &str)
    ensures
        m@ == request_method(line@),
{
    proof {
        reveal_strlit("");
    }
    let v = chars_of(line);
    let key: Vec<char> = vec!['"', 'm', 'e', 't', 'h', 'o', 'd', '"'];
    assert(key@ =~= method_key());
    proof {
        lemma_find_bounds(v@, key@, 0);
    }
    let i = match find_seq(&v, &key, 0) {
        Some(i) => i,
        None => return "",
    };
    let vlen = v.len();
    assert(i + 8 <= vlen);
    let st = i + 8;
    proof {
        lemma_find_bounds(v@, key@, st as int);
    }
    let end = match find_seq(&v, &key, st) {
        Some(j) => j,
        None => v.len(),
    };
    let ghost piece = v@.subrange(st as int, end as int);
    let mut q1 = st;
    while q1 < end && v[q1] != '"'
        invariant
            st <= q1 <= end <= v@.len(),
            piece == v@.subrange(st as int, end as int),
            index_of_from(piece, '"', q1 - st) == index_of_from(piece, '"', 0),
        decreases end - q1,
    {
        assert(piece[q1 - st] == v@[q1 as int]);
        q1 += 1;
    }
    proof {
        if q1 < end {
            assert(piece[q1 - st] == v@[q1 as int]);
        }
    }
    if q1 >= end {
        return "";
    }
    let mut q2 = q1 + 1;
    while q2 < end && v[q2] != '"'
        invariant
            st <= q1 < q2 <= end <= v@.len(),
            piece == v@.subrange(st as int, end as int),
            index_of_from(piece, '"', q2 - st) == index_of_from(piece, '"', q1 + 1 - st),
        decreases end - q2,
    {
        assert(piece[q2 - st] == v@[q2 as int]);
        q2 += 1;
    }
    proof {
        if q2 < end {
            assert(piece[q2 - st] == v@[q2 as int]);
        }
        assert(piece.subrange(q1 + 1 - st, q2 - st) =~= line@.subrange(q1 + 1, q2 as int));
    }
    line.substring_char(q1 + 1, q2)
}

// ---------------------------------------------------------------------------
// What a written string reads back as
// ---------------------------------------------------------------------------

proof fn lemma_escaped_front(s: Seq<char>)
    requires
        s.len() > 0,
    ensures
        escaped(s) == escape_char(s[0]) + escaped(s.drop_first()),
    decreases s.len(),
{
    if s.len() == 1 {
        assert(s.drop_last() =~= Seq::<char>::empty());
        assert(s.drop_first() =~= Seq::<char>::empty());
        assert(escaped(s) =~= escape_char(s[0]) + escaped(s.drop_first()));
    } else {
        lemma_escaped_front(s.drop_last());
        assert(s.drop_last().drop_first() =~= s.drop_first().drop_last());
        assert(s.drop_first().last() == s.last());
        assert(s.drop_last()[0] == s[0]);
        assert(escaped(s) =~= escape_char(s[0]) + escaped(s.drop_first()));
    }
}

proof fn lemma_hex_digit_val(d: nat)
    requires
        d < 16,
    ensures
        is_hex(hex_digit(d)),
        hex_val(hex_digit(d)) == d,
{
}

/// Decoding the escape of one char adds that char.
proof fn lemma_decode_one(t: Seq<char>, i: int, c: char, out: Seq<char>)
    requires
        0 <= i,
        i + escape_char(c).len() < t.len(),
        t.subrange(i, i + escape_char(c).len()) == escape_char(c),
    ensures
        decode_from(t, i, out) == decode_from(t, i + escape_char(c).len(), out.push(c)),
{
    let e = escape_char(c);
    assert(forall|k: int| 0 <= k < e.len() ==> t[i + k] == #[trigger] e[k]) by {
        assert forall|k: int| 0 <= k < e.len() implies t[i + k] == #[trigger] e[k] by {
            assert(t.subrange(i, i + e.len())[k] == t[i + k]);
        }
    }
    if c == '"' || c == '\\' || c == '\n' || c == '\r' || c == '\t' {
        assert(t[i] == e[0] && t[i + 1] == e[1]);
    } else if (c as u32) < 0x20 {
        assert(t[i] == e[0] && t[i + 1] == e[1]);
        let v = c as u32;
        let hi = (v / 16) as nat;
        let lo = (v % 16) as nat;
        lemma_hex_digit_val(hi);
        lemma_hex_digit_val(lo);
        let h = t.subrange(i + 2, i + 6);
        assert(h =~= seq!['0', '0', hex_digit(hi), hex_digit(lo)]);
        assert(h[0] != '+');
        assert(all_hex(h));
        reveal_with_fuel(hex_digits_value, 5);
        assert(h.drop_last().drop_last().drop_last().drop_last() =~= Seq::<char>::empty());
        assert(hex_digits_value(h) == hi * 16 + lo);
        assert(hi * 16 + lo == v as nat);
        assert(parse_hex4(h) == Some(v as nat));
        assert(is_scalar(v as nat));
        assert((v as nat) as char == c);
    } else {
        assert(e == seq![c]);
        assert(t[i + 0] == e[0]);
        assert(t[i] == c);
    }
}

/// Decoding from `i`, where the escapes of `s` and then a closing quote
/// stand, gives `s` after what was decoded before.
proof fn lemma_decode_escaped(t: Seq<char>, i: int, s: Seq<char>, out: Seq<char>)
    requires
        0 <= i,
        i + escaped(s).len() < t.len(),
        t.subrange(i, i + escaped(s).len()) == escaped(s),
        t[i + escaped(s).len()] == '"',
    ensures
        decode_from(t, i, out) == Some(out + s),
    decreases s.len(),
{
    if s.len() == 0 {
        assert(escaped(s).len() == 0);
        assert(out + s =~= out);
    } else {
        lemma_escaped_front(s);
        let e = escape_char(s[0]);
        let rest = s.drop_first();
        assert(escaped(s) == e + escaped(rest));
        assert(t.subrange(i, i + e.len()) =~= e) by {
            assert forall|k: int| 0 <= k < e.len() implies t.subrange(i, i + e.len())[k] == e[k] by {
                assert(t.subrange(i, i + escaped(s).len())[k] == escaped(s)[k]);
            }
        }
        lemma_decode_one(t, i, s[0], out);
        let j = i + e.len();
        assert(t.subrange(j, j + escaped(rest).len()) =~= escaped(rest)) by {
            assert forall|k: int| 0 <= k < escaped(rest).len() implies t.subrange(
                j,
                j + escaped(rest).len(),
            )[k] == escaped(rest)[k] by {
                assert(t.subrange(i, i + escaped(s).len())[e.len() + k] == escaped(s)[e.len() + k]);
            }
        }
        lemma_decode_escaped(t, j, rest, out.push(s[0]));
        assert(out.push(s[0]) + rest =~= out + s);
    }
}

proof fn lemma_find_extend(a: Seq<char>, rest: Seq<char>, p: Seq<char>, i: int)
    requires
        0 <= i,
        find_from(a, p, i) is Some,
    ensures
        find_from(a + rest, p, i) == find_from(a, p, i),
    decreases a.len() + 1 - i,
{
    let b = a + rest;
    if i + p.len() <= a.len() {
        assert(b.subrange(i, i + p.len()) =~= a.subrange(i, i + p.len()));
        if a.subrange(i, i + p.len()) != p {
            lemma_find_extend(a, rest, p, i + 1);
        }
    }
}

/// A field written as `"key":` followed by a string literal reads back as
/// that string, whatever stands after it, provided this `"key"` is the
/// first one in the line.
pub proof fn law_json_field_roundtrip(prefix: Seq<char>, key: Seq<char>, s: Seq<char>, suffix: Seq<char>)
    requires
        find_from(prefix + quoted_key(key), quoted_key(key), 0) == Some(prefix.len() as int),
    ensures
        json_field(prefix + quoted_key(key) + seq![':'] + json_string(s) + suffix, key) == Some(s),
{
    let qk = quoted_key(key);
    let a = prefix + qk;
    let tail = seq![':'] + json_string(s) + suffix;
    let line = prefix + qk + seq![':'] + json_string(s) + suffix;
    assert(line =~= a + tail);
    lemma_find_extend(a, tail, qk, 0);
    let c = a.len() as int;
    assert(line[c] == ':');
    assert(skip_ws_from(line, c) == c);
    assert(line[c + 1] == '"');
    assert(skip_ws_from(line, c + 1) == c + 1);
    assert(field_value_pos(line, key) == Some(c + 1));
    let st = c + 2;
    let es = escaped(s);
    assert(line.subrange(st, st + es.len()) =~= es) by {
        assert forall|k: int| 0 <= k < es.len() implies line.subrange(st, st + es.len())[k] == es[k] by {
            assert(line[st + k] == json_string(s)[1 + k]);
        }
    }
    assert(line[st + es.len()] == json_string(s)[1 + es.len() as int]);
    lemma_decode_escaped(line, st, s, Seq::empty());
    assert(Seq::<char>::empty() + s =~= s);
}

} // verus!
