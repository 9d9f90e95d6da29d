//! Character-level text helpers shared by the rule engine, the command
//! parsers and the JSON helpers.  Everything here works on the `char`
//! sequence of a string (its view), the way `str`'s own methods do.
use vstd::prelude::*;

verus! {

// ---------------------------------------------------------------------------
// Specifications
// ---------------------------------------------------------------------------

/// `char::is_whitespace`: the Unicode `White_Space` property.
pub open spec fn is_ws(c: char) -> bool {
    ||| c == '\t' || c == '\n' || c == '\u{0b}' || c == '\u{0c}' || c == '\r' || c == ' '
    ||| c == '\u{85}' || c == '\u{a0}' || c == '\u{1680}'
    ||| ('\u{2000}' <= c && c <= '\u{200a}')
    ||| c == '\u{2028}' || c == '\u{2029}' || c == '\u{202f}' || c == '\u{205f}'
    ||| c == '\u{3000}'
}

/// `s` begins with `p`.
pub open spec fn starts_with(s: Seq<char>, p: Seq<char>) -> bool {
    p.len() <= s.len() && s.take(p.len() as int) == p
}

/// `s[i..]` begins with `p`.
pub open spec fn starts_with_at(s: Seq<char>, i: int, p: Seq<char>) -> bool {
    0 <= i && i + p.len() <= s.len() && s.subrange(i, i + p.len()) == p
}

/// First index `>= i` whose char is not whitespace (or `s.len()`).
pub open spec fn skip_ws_from(s: Seq<char>, i: int) -> int
    decreases s.len() - i,
{
    if 0 <= i < s.len() && is_ws(s[i]) {
        skip_ws_from(s, i + 1)
    } else {
        i
    }
}

/// Largest `j' <= j` with `j' >= lo` such that `s[j'..j]` is all whitespace
/// and `s[j' - 1]` (if `j' > lo`) is not whitespace.
pub open spec fn trim_ws_end_to(s: Seq<char>, lo: int, j: int) -> int
    decreases j - lo,
{
    if lo < j && j <= s.len() && is_ws(s[j - 1]) {
        trim_ws_end_to(s, lo, j - 1)
    } else {
        j
    }
}

/// `str::trim_start`.
pub open spec fn trim_start(s: Seq<char>) -> Seq<char> {
    s.skip(skip_ws_from(s, 0))
}

/// `str::trim`.
pub open spec fn trim(s: Seq<char>) -> Seq<char> {
    let a = skip_ws_from(s, 0);
    s.subrange(a, trim_ws_end_to(s, a, s.len() as int))
}

/// First index `>= i` whose char is not `c` (or `s.len()`).
pub open spec fn skip_char_from(s: Seq<char>, i: int, c: char) -> int
    decreases s.len() - i,
{
    if 0 <= i < s.len() && s[i] == c {
        skip_char_from(s, i + 1, c)
    } else {
        i
    }
}

/// End of `s[lo..j]` once every trailing `c` is removed.
pub open spec fn trim_char_end_to(s: Seq<char>, lo: int, j: int, c: char) -> int
    decreases j - lo,
{
    if lo < j && j <= s.len() && s[j - 1] == c {
        trim_char_end_to(s, lo, j - 1, c)
    } else {
        j
    }
}

/// First index `>= i` holding `c`, or `s.len()` when there is none.
pub open spec fn index_of_from(s: Seq<char>, c: char, i: int) -> int
    decreases s.len() - i,
{
    if i < 0 || i >= s.len() {
        s.len() as int
    } else if s[i] == c {
        i
    } else {
        index_of_from(s, c, i + 1)
    }
}

/// The char sequences of a sequence of `&str`s.
pub open spec fn str_views(v: Seq<&str>) -> Seq<Seq<char>> {
    v.map_values(|x: &str| x@)
}

/// The char sequences of a sequence of `String`s.
pub open spec fn string_views(v: Seq<String>) -> Seq<Seq<char>> {
    v.map_values(|x: String| x@)
}

pub proof fn lemma_string_views_push(v: Seq<String>, x: String)
    ensures
        string_views(v.push(x)) == string_views(v).push(x@),
{
    assert(string_views(v.push(x)) =~= string_views(v).push(x@));
}

pub proof fn lemma_str_views_push(v: Seq<&str>, x: &str)
    ensures
        str_views(v.push(x)) == str_views(v).push(x@),
{
    assert(str_views(v.push(x)) =~= str_views(v).push(x@));
}

/// Name for what `str::to_lowercase` returns: the Unicode lowercase mapping
/// of a whole string (context-sensitive, so not a per-char map).
pub uninterp spec fn unicode_lowercase(s: Seq<char>) -> Seq<char>;

// ---------------------------------------------------------------------------
// Lemmas about the specifications
// ---------------------------------------------------------------------------

pub proof fn lemma_skip_ws_bounds(s: Seq<char>, i: int)
    requires
        0 <= i <= s.len(),
    ensures
        i <= skip_ws_from(s, i) <= s.len(),
        forall|k: int| i <= k < skip_ws_from(s, i) ==> is_ws(#[trigger] s[k]),
        skip_ws_from(s, i) < s.len() ==> !is_ws(s[skip_ws_from(s, i)]),
    decreases s.len() - i,
{
    if i < s.len() && is_ws(s[i]) {
        lemma_skip_ws_bounds(s, i + 1);
    }
}

pub proof fn lemma_trim_ws_end_bounds(s: Seq<char>, lo: int, j: int)
    requires
        0 <= lo <= j <= s.len(),
    ensures
        lo <= trim_ws_end_to(s, lo, j) <= j,
    decreases j - lo,
{
    if lo < j && is_ws(s[j - 1]) {
        lemma_trim_ws_end_bounds(s, lo, j - 1);
    }
}

pub proof fn lemma_skip_char_bounds(s: Seq<char>, i: int, c: char)
    requires
        0 <= i <= s.len(),
    ensures
        i <= skip_char_from(s, i, c) <= s.len(),
    decreases s.len() - i,
{
    if i < s.len() && s[i] == c {
        lemma_skip_char_bounds(s, i + 1, c);
    }
}

pub proof fn lemma_trim_char_end_bounds(s: Seq<char>, lo: int, j: int, c: char)
    requires
        0 <= lo <= j <= s.len(),
    ensures
        lo <= trim_char_end_to(s, lo, j, c) <= j,
    decreases j - lo,
{
    if lo < j && s[j - 1] == c {
        lemma_trim_char_end_bounds(s, lo, j - 1, c);
    }
}

pub proof fn lemma_index_of_bounds(s: Seq<char>, c: char, i: int)
    requires
        0 <= i <= s.len(),
    ensures
        i <= index_of_from(s, c, i) <= s.len(),
        index_of_from(s, c, i) < s.len() ==> s[index_of_from(s, c, i)] == c,
        forall|k: int| i <= k < index_of_from(s, c, i) ==> #[trigger] s[k] != c,
    decreases s.len() - i,
{
    if i < s.len() && s[i] != c {
        lemma_index_of_bounds(s, c, i + 1);
    }
}

/// `index_of_from` finds nothing exactly when `c` does not occur in `s[i..]`.
pub proof fn lemma_index_of_absent(s: Seq<char>, c: char, i: int)
    requires
        0 <= i <= s.len(),
    ensures
        (index_of_from(s, c, i) == s.len()) <==> !s.subrange(i, s.len() as int).contains(c),
{
    lemma_index_of_bounds(s, c, i);
    let t = s.subrange(i, s.len() as int);
    if index_of_from(s, c, i) == s.len() {
        assert forall|k: int| 0 <= k < t.len() implies t[k] != c by {
            assert(t[k] == s[i + k]);
        }
    } else {
        let k = index_of_from(s, c, i);
        assert(t[k - i] == c);
    }
}

// ---------------------------------------------------------------------------
// Executable helpers
// ---------------------------------------------------------------------------

/// The characters of `s`, in order.
pub fn chars_of(s: &str) -> (out: Vec<char>)
    ensures
        out@ == s@,
{
    let mut out: Vec<char> = Vec::new();
    for c in it: s.chars()
        invariant
            out@ == it.seq().take(it.index() as int),
    {
        out.push(c);
    }
    out
}

/// `String::push` (std): appends one char.
#[verifier::external_body]
pub(crate) fn push_char(s: &mut String, c: char)
    ensures
        final(s)@ == old(s)@.push(c),
{
    s.push(c);
}

/// `str::to_lowercase` (std).  Its result is the Unicode lowercase mapping of
/// the whole argument; that mapping is only named here, not spelled out.
#[verifier::external_body]
pub(crate) fn str_to_lowercase(s: &str) -> (r: String)
    ensures
        r@ == unicode_lowercase(s@),
{
    s.to_lowercase()
}

/// Appends the chars `v[lo..hi]` to `s`.
pub fn push_chars(s: &mut String, v: &Vec<char>, lo: usize, hi: usize)
    requires
        lo <= hi <= v@.len(),
    ensures
        final(s)@ == old(s)@ + v@.subrange(lo as int, hi as int),
{
    let mut i = lo;
    while i < hi
        invariant
            lo <= i <= hi <= v@.len(),
            s@ == old(s)@ + v@.subrange(lo as int, i as int),
        decreases hi - i,
    {
        push_char(s, v[i]);
        i += 1;
        assert(v@.subrange(lo as int, i as int) == v@.subrange(lo as int, i - 1).push(v@[i - 1]));
    }
}

/// A new `String` holding the chars `v[lo..hi]`.
pub fn string_of(v: &Vec<char>, lo: usize, hi: usize) -> (s: String)
    requires
        lo <= hi <= v@.len(),
    ensures
        s@ == v@.subrange(lo as int, hi as int),
{
    let mut s = String::new();
    push_chars(&mut s, v, lo, hi);
    s
}

/// Appends all of `t` to `s`.
pub fn push_str(s: &mut String, t: &str)
    ensures
        final(s)@ == old(s)@ + t@,
{
    let v = chars_of(t);
    push_chars(s, &v, 0, v.len());
    assert(v@.subrange(0, v@.len() as int) == v@);
}

/// Whether `v[i..]` starts with the chars of `p`.
pub fn has_prefix_at(v: &Vec<char>, i: usize, p: &[char]) -> (b: bool)
    ensures
        b == starts_with_at(v@, i as int, p@),
{
    let n = v.len();
    if i > n || p.len() > n - i {
        return false;
    }
    let mut k: usize = 0;
    while k < p.len()
        invariant
            i + p@.len() <= v@.len(),
            n == v@.len(),
            k <= p@.len(),
            forall|m: int| 0 <= m < k ==> v@[i + m] == p@[m],
        decreases p@.len() - k,
    {
        assert(i + k < v@.len());
        if v[i + k] != p[k] {
            assert(v@.subrange(i as int, i + p@.len())[k as int] != p@[k as int]);
            return false;
        }
        k += 1;
    }
    assert(v@.subrange(i as int, i + p@.len()) =~= p@);
    true
}

/// `skip_ws_from` computed.
pub fn skip_ws(v: &Vec<char>, i: usize) -> (r: usize)
    requires
        i <= v@.len(),
    ensures
        r == skip_ws_from(v@, i as int),
        i <= r <= v@.len(),
{
    let mut k = i;
    while k < v.len() && is_whitespace(v[k])
        invariant
            i <= k <= v@.len(),
            skip_ws_from(v@, k as int) == skip_ws_from(v@, i as int),
        decreases v@.len() - k,
    {
        k += 1;
    }
    k
}

/// `trim_ws_end_to` computed.
pub fn trim_ws_end(v: &Vec<char>, lo: usize, j: usize) -> (r: usize)
    requires
        lo <= j <= v@.len(),
    ensures
        r == trim_ws_end_to(v@, lo as int, j as int),
        lo <= r <= j,
{
    let mut k = j;
    while k > lo && is_whitespace(v[k - 1])
        invariant
            lo <= k <= j <= v@.len(),
            trim_ws_end_to(v@, lo as int, k as int) == trim_ws_end_to(v@, lo as int, j as int),
        decreases k,
    {
        k -= 1;
    }
    k
}

/// `skip_char_from` computed.
pub fn skip_char(v: &Vec<char>, i: usize, c: char) -> (r: usize)
    requires
        i <= v@.len(),
    ensures
        r == skip_char_from(v@, i as int, c),
        i <= r <= v@.len(),
{
    let mut k = i;
    while k < v.len() && v[k] == c
        invariant
            i <= k <= v@.len(),
            skip_char_from(v@, k as int, c) == skip_char_from(v@, i as int, c),
        decreases v@.len() - k,
    {
        k += 1;
    }
    k
}

/// `trim_char_end_to` computed.
pub fn trim_char_end(v: &Vec<char>, lo: usize, j: usize, c: char) -> (r: usize)
    requires
        lo <= j <= v@.len(),
    ensures
        r == trim_char_end_to(v@, lo as int, j as int, c),
        lo <= r <= j,
{
    let mut k = j;
    while k > lo && v[k - 1] == c
        invariant
            lo <= k <= j <= v@.len(),
            trim_char_end_to(v@, lo as int, k as int, c) == trim_char_end_to(
                v@,
                lo as int,
                j as int,
                c,
            ),
        decreases k,
    {
        k -= 1;
    }
    k
}

/// `index_of_from` computed.
pub fn find_char(v: &Vec<char>, c: char, i: usize) -> (r: usize)
    requires
        i <= v@.len(),
    ensures
        r == index_of_from(v@, c, i as int),
        i <= r <= v@.len(),
{
    proof {
        lemma_index_of_bounds(v@, c, i as int);
    }
    let mut k = i;
    while k < v.len() && v[k] != c
        invariant
            i <= k <= v@.len(),
            index_of_from(v@, c, k as int) == index_of_from(v@, c, i as int),
        decreases v@.len() - k,
    {
        k += 1;
    }
    k
}

/// `char::is_whitespace`.
pub fn is_whitespace(c: char) -> (b: bool)
    ensures
        b == is_ws(c),
{
    c == '\t' || c == '\n' || c == '\u{0b}' || c == '\u{0c}' || c == '\r' || c == ' ' || c
        == '\u{85}' || c == '\u{a0}' || c == '\u{1680}' || ('\u{2000}' <= c && c <= '\u{200a}')
        || c == '\u{2028}' || c == '\u{2029}' || c == '\u{202f}' || c == '\u{205f}' || c
        == '\u{3000}'
}


/// `to_ascii_lowercase` of one char.
pub open spec fn ascii_lower_char(c: char) -> char {
    if 'A' <= c && c <= 'Z' {
        ((c as u8) + 32) as u8 as char
    } else {
        c
    }
}

/// `str::to_ascii_lowercase`.
pub open spec fn ascii_lower(s: Seq<char>) -> Seq<char> {
    s.map_values(|c: char| ascii_lower_char(c))
}

/// The ASCII-lowercase chars of `s`.
pub fn to_ascii_lowercase(s: &str) -> (v: Vec<char>)
    ensures
        v@ == ascii_lower(s@),
{
    let src = chars_of(s);
    let mut v: Vec<char> = Vec::new();
    let mut k: usize = 0;
    while k < src.len()
        invariant
            k <= src@.len(),
            src@ == s@,
            v@ == ascii_lower(s@).take(k as int),
        decreases src@.len() - k,
    {
        let c = src[k];
        let l = if 'A' <= c && c <= 'Z' {
            ((c as u8) + 32) as char
        } else {
            c
        };
        v.push(l);
        k += 1;
        assert(v@ =~= ascii_lower(s@).take(k as int));
    }
    assert(ascii_lower(s@).take(src@.len() as int) =~= ascii_lower(s@));
    v
}

/// Whether two char vectors are equal.
pub fn chars_eq(a: &Vec<char>, b: &Vec<char>) -> (r: bool)
    ensures
        r == (a@ == b@),
{
    if a.len() != b.len() {
        return false;
    }
    let mut k: usize = 0;
    while k < a.len()
        invariant
            a@.len() == b@.len(),
            k <= a@.len(),
            forall|m: int| 0 <= m < k ==> a@[m] == b@[m],
        decreases a@.len() - k,
    {
        if a[k] != b[k] {
            return false;
        }
        k += 1;
    }
    assert(a@ =~= b@);
    true
}

/// `a == b` on `str`.
pub fn str_eq(a: &str, b: &str) -> (r: bool)
    ensures
        r == (a@ == b@),
{
    let x = chars_of(a);
    let y = chars_of(b);
    chars_eq(&x, &y)
}

// ---------------------------------------------------------------------------
// Decimal numbers
// ---------------------------------------------------------------------------

pub open spec fn is_digit(c: char) -> bool {
    '0' <= c && c <= '9'
}

pub open spec fn all_digits(s: Seq<char>) -> bool {
    forall|i: int| 0 <= i < s.len() ==> is_digit(#[trigger] s[i])
}

/// The value of a string of decimal digits.
pub open spec fn digits_value(s: Seq<char>) -> nat
    decreases s.len(),
{
    if s.len() == 0 {
        0
    } else {
        digits_value(s.drop_last()) * 10 + ((s.last() as u32) - 48) as nat
    }
}

/// `u64`/`u32`/`u16` `from_str` (radix 10): an optional '+', then at least
/// one ASCII digit and nothing else, with a value of at most `max`.
pub open spec fn parse_unsigned(s: Seq<char>, max: nat) -> Option<nat> {
    let d = if s.len() > 0 && s[0] == '+' {
        s.skip(1)
    } else {
        s
    };
    if d.len() == 0 || !all_digits(d) || digits_value(d) > max {
        None
    } else {
        Some(digits_value(d))
    }
}

/// `i32::from_str` (radix 10): an optional '+' or '-', then at least one
/// ASCII digit and nothing else, with the value in range.
pub open spec fn parse_i32(s: Seq<char>) -> Option<int> {
    if s.len() > 0 && s[0] == '-' {
        let d = s.skip(1);
        if d.len() == 0 || !all_digits(d) || digits_value(d) > 2147483648 {
            None
        } else {
            Some(0 - digits_value(d))
        }
    } else {
        match parse_unsigned(s, 2147483647) {
            Some(v) => Some(v as int),
            None => None,
        }
    }
}

proof fn lemma_digits_value_prefix(s: Seq<char>, k: int)
    requires
        0 <= k <= s.len(),
        all_digits(s),
    ensures
        digits_value(s.take(k)) <= digits_value(s),
    decreases s.len(),
{
    if k < s.len() {
        assert(s.drop_last().take(k) =~= s.take(k));
        lemma_digits_value_prefix(s.drop_last(), k);
        assert(s.drop_last().take(s.len() - 1) =~= s.drop_last());
    } else {
        assert(s.take(k) =~= s);
    }
}

proof fn lemma_digits_step(s: Seq<char>, k: int)
    requires
        0 <= k < s.len(),
    ensures
        digits_value(s.take(k + 1)) == digits_value(s.take(k)) * 10 + ((s[k] as u32) - 48) as nat,
{
    assert(s.take(k + 1).drop_last() =~= s.take(k));
}

proof fn lemma_mul_bound(acc: nat, d: nat, max: nat)
    requires
        d <= 9,
        d <= max,
    ensures
        (acc * 10 + d <= max) <==> (acc <= (max - d) / 10),
{
    assert((acc * 10 + d <= max) <==> (acc <= (max - d) / 10)) by (nonlinear_arith)
        requires
            d <= max,
    ;
}

/// The value of the digits `v[lo..hi]`, when all are digits, there is at
/// least one, and the value is at most `max`.
pub fn parse_digits(v: &Vec<char>, lo: usize, hi: usize, max: u64) -> (r: Option<u64>)
    requires
        lo <= hi <= v@.len(),
    ensures
        ({
            let d = v@.subrange(lo as int, hi as int);
            if d.len() == 0 || !all_digits(d) || digits_value(d) > max {
                r is None
            } else {
                r == Some(digits_value(d) as u64)
            }
        }),
{
    let ghost d = v@.subrange(lo as int, hi as int);
    if lo == hi {
        return None;
    }
    let mut k = lo;
    while k < hi
        invariant
            lo <= k <= hi <= v@.len(),
            d == v@.subrange(lo as int, hi as int),
            all_digits(d.take(k - lo)),
        decreases hi - k,
    {
        let c = v[k];
        if !('0' <= c && c <= '9') {
            assert(d[k - lo] == c);
            return None;
        }
        assert(d.take(k + 1 - lo)[k - lo] == c);
        k += 1;
    }
    assert(d.take(hi - lo) =~= d);
    let mut acc: u64 = 0;
    let mut k = lo;
    while k < hi
        invariant
            lo <= k <= hi <= v@.len(),
            d == v@.subrange(lo as int, hi as int),
            all_digits(d),
            acc == digits_value(d.take(k - lo)),
            acc <= max,
        decreases hi - k,
    {
        proof {
            assert(d[k - lo] == v@[k as int]);
            assert(is_digit(d[k - lo]));
            lemma_digits_step(d, k - lo);
        }
        let c = v[k];
        assert((c as u32) >= 48);
        let dig = (c as u32 - 48) as u64;
        if dig > max || acc > (max - dig) / 10 {
            proof {
                if dig <= max {
                    lemma_mul_bound(acc as nat, dig as nat, max as nat);
                }
                lemma_digits_value_prefix(d, k + 1 - lo);
            }
            return None;
        }
        proof {
            lemma_mul_bound(acc as nat, dig as nat, max as nat);
        }
        acc = acc * 10 + dig;
        k += 1;
    }
    assert(d.take(hi - lo) =~= d);
    Some(acc)
}

/// `str::parse::<u64>` bounded by `max`: `u64`, `u32` and `u16` parsing.
pub fn parse_unsigned_str(s: &str, max: u64) -> (r: Option<u64>)
    ensures
        match parse_unsigned(s@, max as nat) {
            Some(v) => r == Some(v as u64),
            None => r is None,
        },
{
    let v = chars_of(s);
    let lo: usize = if v.len() > 0 && v[0] == '+' {
        1
    } else {
        0
    };
    let r = parse_digits(&v, lo, v.len(), max);
    proof {
        if lo == 1 {
            assert(v@.subrange(1, v@.len() as int) =~= s@.skip(1));
        } else {
            assert(v@.subrange(0, v@.len() as int) =~= s@);
        }
    }
    r
}

/// `str::parse::<u16>`.
pub fn parse_u16(s: &str) -> (r: Option<u16>)
    ensures
        match parse_unsigned(s@, 65535) {
            Some(v) => r == Some(v as u16),
            None => r is None,
        },
{
    match parse_unsigned_str(s, 65535) {
        Some(v) => Some(v as u16),
        None => None,
    }
}

/// `str::parse::<u32>`.
pub fn parse_u32(s: &str) -> (r: Option<u32>)
    ensures
        match parse_unsigned(s@, 4294967295) {
            Some(v) => r == Some(v as u32),
            None => r is None,
        },
{
    match parse_unsigned_str(s, 4294967295) {
        Some(v) => Some(v as u32),
        None => None,
    }
}

/// `str::parse::<i32>`.
pub fn parse_i32_str(s: &str) -> (r: Option<i32>)
    ensures
        match parse_i32(s@) {
            Some(v) => r == Some(v as i32),
            None => r is None,
        },
{
    let v = chars_of(s);
    if v.len() > 0 && v[0] == '-' {
        let r = parse_digits(&v, 1, v.len(), 2147483648);
        assert(v@.subrange(1, v@.len() as int) =~= s@.skip(1));
        match r {
            Some(m) => {
                if m == 2147483648 {
                    Some(i32::MIN)
                } else {
                    Some(-(m as i32))
                }
            },
            None => None,
        }
    } else {
        match parse_unsigned_str(s, 2147483647) {
            Some(m) => Some(m as i32),
            None => None,
        }
    }
}

} // verus!
