//! Building a rule set from rule files: which paths a rules setting names,
//! which lines of a file are rules, and the content hash each watched file
//! is recorded with.  Reading the files and walking directories is the
//! caller's.
use vstd::prelude::*;

use crate::numfmt::hex_digit;
use crate::rules::adblock::{declared, RuleSet};
use crate::split::{lines_of, split_char, split_lines, split_on};
use crate::text::{
    chars_of, find_char, lemma_index_of_absent, lemma_str_views_push, lemma_string_views_push,
    skip_ws, str_views, string_of, string_views, trim, trim_ws_end,
};

verus! {

// ---------------------------------------------------------------------------
// Paths
// ---------------------------------------------------------------------------

/// The paths a rules setting names: with a ',' in it, each comma-separated
/// piece trimmed; without one, the setting itself.
pub open spec fn rule_paths(setting: Seq<char>) -> Seq<Seq<char>> {
    if setting.contains(',') {
        split_on(setting, ',').map_values(|p: Seq<char>| trim(p))
    } else {
        seq![setting]
    }
}

/// `str::trim`, as a new string.
pub fn trimmed(s: &str) -> (r: String)
    ensures
        r@ == trim(s@),
{
    let v = chars_of(s);
    let a = skip_ws(&v, 0);
    let b = trim_ws_end(&v, a, v.len());
    string_of(&v, a, b)
}

/// The paths a rules setting names (see `rule_paths`).
pub fn split_rule_paths(setting: &str) -> (r: Vec<String>)
    ensures
        string_views(r@) == rule_paths(setting@),
{
    let v = chars_of(setting);
    let k = find_char(&v, ',', 0);
    proof {
        lemma_index_of_absent(v@, ',', 0);
        assert(v@.subrange(0, v@.len() as int) =~= v@);
    }
    if k >= v.len() {
        let mut out: Vec<String> = Vec::new();
        out.push(String::from_str(setting));
        assert(string_views(out@) =~= seq![setting@]);
        return out;
    }
    let parts = split_char(setting, ',');
    let ghost p = split_on(setting@, ',');
    let mut out: Vec<String> = Vec::new();
    let mut i: usize = 0;
    while i < parts.len()
        invariant
            i <= parts@.len(),
            string_views(parts@) == p,
            string_views(out@) == p.map_values(|x: Seq<char>| trim(x)).take(i as int),
        decreases parts@.len() - i,
    {
        let t = trimmed(parts[i].as_str());
        let ghost before = out@;
        out.push(t);
        proof {
            lemma_string_views_push(before, t);
            assert(string_views(parts@)[i as int] == parts@[i as int]@);
            assert(string_views(out@) =~= p.map_values(|x: Seq<char>| trim(x)).take(i + 1));
        }
        i += 1;
    }
    assert(p.map_values(|x: Seq<char>| trim(x)).take(parts@.len() as int) =~= p.map_values(
        |x: Seq<char>| trim(x),
    ));
    out
}

// ---------------------------------------------------------------------------
// Rule lines
// ---------------------------------------------------------------------------

/// A trimmed line that is a rule: not empty, not a `!` comment, not a `[`
/// header.
pub open spec fn is_rule_line(t: Seq<char>) -> bool {
    t.len() > 0 && t[0] != '!' && t[0] != '['
}

/// The rule lines among `lines`, trimmed, in order.
pub open spec fn rule_lines_in(lines: Seq<Seq<char>>) -> Seq<Seq<char>>
    decreases lines.len(),
{
    if lines.len() == 0 {
        Seq::empty()
    } else {
        let rest = rule_lines_in(lines.drop_last());
        let t = trim(lines.last());
        if is_rule_line(t) {
            rest.push(t)
        } else {
            rest
        }
    }
}

/// The rule lines of a file's text.
pub open spec fn text_rule_lines(text: Seq<char>) -> Seq<Seq<char>> {
    rule_lines_in(lines_of(text))
}

/// Appends the rule lines of `text` to `out`.
pub fn push_rule_lines(out: &mut Vec<String>, text: &str)
    ensures
        string_views(final(out)@) == string_views(old(out)@) + text_rule_lines(text@),
{
    let lines = split_lines(text);
    let ghost ls = lines_of(text@);
    let ghost start = string_views(out@);
    let mut i: usize = 0;
    proof {
        assert(ls.take(0) =~= Seq::<Seq<char>>::empty());
        assert(start + rule_lines_in(ls.take(0)) =~= start);
    }
    while i < lines.len()
        invariant
            i <= lines@.len(),
            string_views(lines@) == ls,
            string_views(out@) == start + rule_lines_in(ls.take(i as int)),
        decreases lines@.len() - i,
    {
        let t = trimmed(lines[i].as_str());
        proof {
            assert(string_views(lines@)[i as int] == lines@[i as int]@);
            assert(ls.take(i + 1).drop_last() =~= ls.take(i as int));
            assert(ls.take(i + 1).last() == ls[i as int]);
        }
        let tv = chars_of(t.as_str());
        if tv.len() > 0 && tv[0] != '!' && tv[0] != '[' {
            let ghost before = out@;
            out.push(t);
            proof {
                assert(string_views(out@) =~= string_views(before).push(t@));
            }
        }
        i += 1;
    }
    assert(ls.take(lines@.len() as int) =~= ls);
}

/// The rule lines of the readable files among `sources`, in order.
pub open spec fn sources_rule_lines(sources: Seq<(String, String, Option<String>)>) -> Seq<Seq<char>>
    decreases sources.len(),
{
    if sources.len() == 0 {
        Seq::empty()
    } else {
        let rest = sources_rule_lines(sources.drop_last());
        match sources.last().2 {
            Some(text) => rest + text_rule_lines(text@),
            None => rest,
        }
    }
}

/// The (path, hash) pairs of `sources`.
pub open spec fn watched_of(sources: Seq<(String, String, Option<String>)>) -> Seq<(String, String)> {
    sources.map_values(|s: (String, String, Option<String>)| (s.0, s.1))
}

/// The rule set for the rule files `sources`: each is (path, content hash,
/// text, `None` when it could not be read as text).  Every file is watched;
/// the rules are the rule lines of the readable ones.
pub fn compile_rules(sources: &Vec<(String, String, Option<String>)>) -> (r: RuleSet)
    ensures
        r.files() == watched_of(sources@),
        r.allow_domains() == declared(sources_rule_lines(sources@), true),
        r.block_domains() == declared(sources_rule_lines(sources@), false).difference(
            declared(sources_rule_lines(sources@), true),
        ),
{
    let ghost src = sources@;
    let mut lines: Vec<String> = Vec::new();
    let mut watched: Vec<(String, String)> = Vec::new();
    let mut i: usize = 0;
    let n = sources.len();
    proof {
        assert(string_views(lines@) =~= sources_rule_lines(src.take(0)));
        assert(watched@ =~= watched_of(src.take(0)));
    }
    while i < n
        invariant
            n == src.len(),
            i <= n,
            sources@ == src,
            string_views(lines@) == sources_rule_lines(src.take(i as int)),
            watched@ == watched_of(src.take(i as int)),
        decreases n - i,
    {
        let entry = &sources[i];
        proof {
            assert(src.take(i + 1).drop_last() =~= src.take(i as int));
            assert(src.take(i + 1).last() == src[i as int]);
        }
        match &entry.2 {
            Some(t) => push_rule_lines(&mut lines, t.as_str()),
            None => {},
        }
        watched.push((entry.0.clone(), entry.1.clone()));
        proof {
            assert(watched@ =~= watched_of(src.take(i + 1)));
        }
        i += 1;
    }
    assert(src.take(n as int) =~= src);
    let mut refs: Vec<&str> = Vec::new();
    let mut k: usize = 0;
    while k < lines.len()
        invariant
            k <= lines@.len(),
            str_views(refs@) == string_views(lines@).take(k as int),
        decreases lines@.len() - k,
    {
        let ghost before = refs@;
        let line: &str = lines[k].as_str();
        refs.push(line);
        proof {
            lemma_str_views_push(before, line);
            assert(string_views(lines@)[k as int] == lines@[k as int]@);
            assert(str_views(refs@) =~= string_views(lines@).take(k + 1));
        }
        k += 1;
    }
    assert(string_views(lines@).take(lines@.len() as int) =~= string_views(lines@));
    RuleSet::from_rules(refs.as_slice()).with_watched_files(watched)
}

// ---------------------------------------------------------------------------
// Content hashes
// ---------------------------------------------------------------------------

/// Name for the SHA-256 digest of a byte string (as `sha2::Sha256` computes
/// it).
pub uninterp spec fn sha256_digest(data: Seq<u8>) -> Seq<u8>;

/// `<sha2::Sha256 as sha2::Digest>::digest` (sha2 crate): the 32-byte
/// SHA-256 digest of `data`.
#[verifier::external_body]
fn sha256(data: &[u8]) -> (r: Vec<u8>)
    ensures
        r@ == sha256_digest(data@),
        r@.len() == 32,
{
    <sha2::Sha256 as sha2::Digest>::digest(data).to_vec()
}

/// Lowercase hex text of bytes, two digits per byte.
pub open spec fn hex_text(b: Seq<u8>) -> Seq<char>
    decreases b.len(),
{
    if b.len() == 0 {
        Seq::empty()
    } else {
        hex_text(b.drop_last()) + seq![hex_digit((b.last() / 16) as nat), hex_digit((b.last() % 16) as nat)]
    }
}

/// `hex::encode` (hex crate): the lowercase hex text of `data`, two digits
/// per byte, in order.
#[verifier::external_body]
fn hex_encode(data: &[u8]) -> (r: String)
    ensures
        r@ == hex_text(data@),
{
    hex::encode(data)
}

/// The content hash a rule file is recorded with: the lowercase hex of the
/// SHA-256 digest of its bytes.
pub fn file_hash(bytes: &[u8]) -> (h: String)
    ensures
        h@ == hex_text(sha256_digest(bytes@)),
{
    let digest = sha256(bytes);
    hex_encode(digest.as_slice())
}

} // verus!
