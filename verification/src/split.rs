//! Splitting strings into pieces: `str::split` on one char and
//! `str::split_whitespace`, with their results stated as char sequences.
use vstd::prelude::*;

use crate::text::{
    chars_of, find_char, index_of_from, is_whitespace, is_ws, lemma_index_of_bounds,
    lemma_skip_ws_bounds, lemma_string_views_push, skip_ws, skip_ws_from, string_of, string_views,
};

verus! {

/// The pieces of `s[i..]` between occurrences of `c` (`str::split(c)` on
/// that suffix): always at least one piece, possibly empty.
pub open spec fn split_from(s: Seq<char>, c: char, i: int) -> Seq<Seq<char>>
    decreases s.len() - i,
{
    if i < 0 || i > s.len() {
        Seq::empty()
    } else {
        let k = index_of_from(s, c, i);
        if k >= s.len() {
            seq![s.subrange(i, s.len() as int)]
        } else {
            proof {
                lemma_index_of_bounds(s, c, i);
            }
            seq![s.subrange(i, k)] + split_from(s, c, k + 1)
        }
    }
}

/// `str::split(c)`.
pub open spec fn split_on(s: Seq<char>, c: char) -> Seq<Seq<char>> {
    split_from(s, c, 0)
}

pub proof fn lemma_split_nonempty(s: Seq<char>, c: char, i: int)
    requires
        0 <= i <= s.len(),
    ensures
        split_from(s, c, i).len() >= 1,
    decreases s.len() - i,
{
    lemma_index_of_bounds(s, c, i);
    let k = index_of_from(s, c, i);
    if k < s.len() {
        lemma_split_nonempty(s, c, k + 1);
    }
}

/// A line without the '\r' of a "\r\n" ending.
pub open spec fn strip_cr(l: Seq<char>) -> Seq<char> {
    if l.len() > 0 && l.last() == '\r' {
        l.drop_last()
    } else {
        l
    }
}

/// `str::lines`: the pieces between '\n's, each without a '\r' before its
/// '\n'; a last piece that no '\n' ends is kept as it is, unless empty.
pub open spec fn lines_of(s: Seq<char>) -> Seq<Seq<char>> {
    let p = split_on(s, '\n');
    let body = p.drop_last().map_values(|l: Seq<char>| strip_cr(l));
    if p.last().len() == 0 {
        body
    } else {
        body.push(p.last())
    }
}

/// First index `>= i` holding whitespace, or `s.len()`.
pub open spec fn ws_index_from(s: Seq<char>, i: int) -> int
    decreases s.len() - i,
{
    if i < 0 || i >= s.len() {
        s.len() as int
    } else if is_ws(s[i]) {
        i
    } else {
        ws_index_from(s, i + 1)
    }
}

pub proof fn lemma_ws_index_bounds(s: Seq<char>, i: int)
    requires
        0 <= i <= s.len(),
    ensures
        i <= ws_index_from(s, i) <= s.len(),
        ws_index_from(s, i) < s.len() ==> is_ws(s[ws_index_from(s, i)]),
        forall|k: int| i <= k < ws_index_from(s, i) ==> !is_ws(#[trigger] s[k]),
    decreases s.len() - i,
{
    if i < s.len() && !is_ws(s[i]) {
        lemma_ws_index_bounds(s, i + 1);
    }
}

/// The maximal runs of non-whitespace chars in `s[i..]`
/// (`str::split_whitespace` on that suffix).
pub open spec fn ws_tokens_from(s: Seq<char>, i: int) -> Seq<Seq<char>>
    decreases s.len() - i,
{
    if i < 0 || i > s.len() {
        Seq::empty()
    } else {
        let j = skip_ws_from(s, i);
        if j >= s.len() {
            Seq::empty()
        } else {
            proof {
                lemma_skip_ws_bounds(s, i);
                lemma_ws_index_bounds(s, j);
                lemma_ws_index_bounds(s, j + 1);
            }
            let k = ws_index_from(s, j);
            seq![s.subrange(j, k)] + ws_tokens_from(s, k)
        }
    }
}

/// `str::split_whitespace`.
pub open spec fn ws_tokens(s: Seq<char>) -> Seq<Seq<char>> {
    ws_tokens_from(s, 0)
}

/// The first whitespace-separated token of `s`, or the empty sequence.
pub open spec fn first_token(s: Seq<char>) -> Seq<char> {
    if ws_tokens(s).len() > 0 {
        ws_tokens(s)[0]
    } else {
        Seq::empty()
    }
}

/// `ws_index_from` computed.
fn ws_index(v: &Vec<char>, i: usize) -> (r: usize)
    requires
        i <= v@.len(),
    ensures
        r == ws_index_from(v@, i as int),
{
    let mut k = i;
    while k < v.len() && !is_whitespace(v[k])
        invariant
            i <= k <= v@.len(),
            ws_index_from(v@, k as int) == ws_index_from(v@, i as int),
        decreases v@.len() - k,
    {
        k += 1;
    }
    k
}

/// `s.split(c)`, collected.
pub fn split_char(s: &str, c: char) -> (r: Vec<String>)
    ensures
        string_views(r@) == split_on(s@, c),
{
    let v = chars_of(s);
    let mut out: Vec<String> = Vec::new();
    let mut i: usize = 0;
    proof {
        assert(string_views(out@) =~= Seq::<Seq<char>>::empty());
        assert(split_from(v@, c, 0) =~= string_views(out@) + split_from(v@, c, 0));
    }
    loop
        invariant
            i <= v@.len(),
            v@ == s@,
            string_views(out@) + split_from(v@, c, i as int) == split_from(v@, c, 0),
        decreases v@.len() - i,
    {
        let k = find_char(&v, c, i);
        if k >= v.len() {
            let piece = string_of(&v, i, v.len());
            let ghost before = out@;
            out.push(piece);
            proof {
                lemma_string_views_push(before, piece);
                assert(split_from(v@, c, i as int) == seq![v@.subrange(i as int, v@.len() as int)]);
                assert(string_views(out@) =~= string_views(before) + split_from(v@, c, i as int));
            }
            return out;
        }
        let piece = string_of(&v, i, k);
        let ghost before = out@;
        out.push(piece);
        proof {
            lemma_string_views_push(before, piece);
            assert(split_from(v@, c, i as int) == seq![v@.subrange(i as int, k as int)] + split_from(
                v@,
                c,
                k + 1,
            ));
            assert(string_views(out@) + split_from(v@, c, k + 1) =~= string_views(before)
                + split_from(v@, c, i as int));
        }
        i = k + 1;
    }
}

fn strip_cr_string(l: &String) -> (r: String)
    ensures
        r@ == strip_cr(l@),
{
    let v = chars_of(l.as_str());
    if v.len() > 0 && v[v.len() - 1] == '\r' {
        string_of(&v, 0, v.len() - 1)
    } else {
        l.clone()
    }
}

/// `s.lines()`, collected.
pub fn split_lines(s: &str) -> (r: Vec<String>)
    ensures
        string_views(r@) == lines_of(s@),
{
    let parts = split_char(s, '\n');
    let ghost p = split_on(s@, '\n');
    proof {
        lemma_split_nonempty(s@, '\n', 0);
    }
    let n = parts.len();
    assert(n == p.len());
    let mut out: Vec<String> = Vec::new();
    let mut i: usize = 0;
    while i + 1 < n
        invariant
            n == parts@.len(),
            n >= 1,
            string_views(parts@) == p,
            i + 1 <= n,
            string_views(out@) == p.drop_last().map_values(|l: Seq<char>| strip_cr(l)).take(
                i as int,
            ),
        decreases n - i,
    {
        let line = strip_cr_string(&parts[i]);
        let ghost before = out@;
        out.push(line);
        proof {
            lemma_string_views_push(before, line);
            assert(string_views(parts@)[i as int] == parts@[i as int]@);
            assert(string_views(out@) =~= p.drop_last().map_values(|l: Seq<char>| strip_cr(l)).take(
                i + 1,
            ));
        }
        i += 1;
    }
    let ghost body = p.drop_last().map_values(|l: Seq<char>| strip_cr(l));
    assert(body.take(n - 1) =~= body);
    assert(string_views(parts@)[n - 1] == parts@[n - 1]@);
    let last = &parts[n - 1];
    if last.as_str().unicode_len() > 0 {
        let ghost before = out@;
        let l = last.clone();
        out.push(l);
        proof {
            lemma_string_views_push(before, l);
        }
    }
    out
}

/// `s.split_whitespace()`, collected.
pub fn split_whitespace(s: &str) -> (r: Vec<String>)
    ensures
        string_views(r@) == ws_tokens(s@),
{
    let v = chars_of(s);
    let mut out: Vec<String> = Vec::new();
    let mut i: usize = 0;
    proof {
        assert(string_views(out@) =~= Seq::<Seq<char>>::empty());
        assert(ws_tokens_from(v@, 0) =~= string_views(out@) + ws_tokens_from(v@, 0));
    }
    loop
        invariant
            i <= v@.len(),
            v@ == s@,
            string_views(out@) + ws_tokens_from(v@, i as int) == ws_tokens_from(v@, 0),
        decreases v@.len() - i,
    {
        let j = skip_ws(&v, i);
        if j >= v.len() {
            proof {
                assert(ws_tokens_from(v@, i as int) == Seq::<Seq<char>>::empty());
                assert(string_views(out@) =~= string_views(out@) + ws_tokens_from(v@, i as int));
            }
            return out;
        }
        proof {
            lemma_skip_ws_bounds(v@, i as int);
            lemma_ws_index_bounds(v@, j as int);
            lemma_ws_index_bounds(v@, j + 1);
        }
        let k = ws_index(&v, j);
        let piece = string_of(&v, j, k);
        let ghost before = out@;
        out.push(piece);
        proof {
            lemma_string_views_push(before, piece);
            assert(ws_tokens_from(v@, i as int) == seq![v@.subrange(j as int, k as int)]
                + ws_tokens_from(v@, k as int));
            assert(string_views(out@) + ws_tokens_from(v@, k as int) =~= string_views(before)
                + ws_tokens_from(v@, i as int));
        }
        i = k;
    }
}

} // verus!
