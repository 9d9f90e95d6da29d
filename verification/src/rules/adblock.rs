//! Lightweight domain-based rule engine.
//!
//! It understands the Adblock filter syntaxes that matter for DNS-level
//! blocking:
//!
//! * `||example.com^`   – block the domain and all sub-domains
//! * `@@||example.com^` – exception (allow) for the domain
//!
//! Cosmetic / element-hiding rules are ignored: they mean nothing at the
//! DNS level.
use vstd::prelude::*;


use crate::text::{
    chars_of, find_char, has_prefix_at, index_of_from, lemma_index_of_bounds,
    lemma_trim_char_end_bounds, skip_char, skip_char_from, skip_ws, starts_with, starts_with_at,
    str_to_lowercase, str_views, string_of, string_views, trim, trim_char_end, trim_char_end_to,
    trim_ws_end, unicode_lowercase,
};

verus! {

/// Outcome of a rule-matching operation.
#[derive(Debug, Clone, Copy, PartialEq, Eq, Structural)]
pub enum FilterAction {
    Allow,
    Block,
}

// ---------------------------------------------------------------------------
// Specification of rule parsing and matching
// ---------------------------------------------------------------------------

pub open spec fn https_prefix() -> Seq<char> {
    seq!['h', 't', 't', 'p', 's', ':', '/', '/']
}

pub open spec fn http_prefix() -> Seq<char> {
    seq!['h', 't', 't', 'p', ':', '/', '/']
}

pub open spec fn is_host_sep(c: char) -> bool {
    c == '/' || c == '?' || c == ':'
}

/// First index `>= i` holding '/', '?' or ':' (or `s.len()`).
pub open spec fn host_sep_from(s: Seq<char>, i: int) -> int
    decreases s.len() - i,
{
    if i < 0 || i >= s.len() {
        s.len() as int
    } else if is_host_sep(s[i]) {
        i
    } else {
        host_sep_from(s, i + 1)
    }
}

/// The bare hostname of a (pseudo-)URL: the scheme `https://` or `http://`
/// is dropped, then trailing '/'s, then everything from the first '/', '?'
/// or ':'.
pub open spec fn spec_extract_hostname(url: Seq<char>) -> Seq<char> {
    let s1 = if starts_with(url, https_prefix()) {
        url.skip(8)
    } else if starts_with(url, http_prefix()) {
        url.skip(7)
    } else {
        url
    };
    let s2 = s1.take(trim_char_end_to(s1, 0, s1.len() as int, '/'));
    s2.take(host_sep_from(s2, 0))
}

/// The raw domain part of a `||…` rule, before normalisation.
pub open spec fn rule_domain_part(rule: Seq<char>) -> Option<Seq<char>> {
    if !starts_with(rule, seq!['|', '|']) {
        None
    } else {
        let caret = index_of_from(rule, '^', 2);
        if caret < rule.len() {
            Some(rule.subrange(2, caret))
        } else if (rule.len() > 2 && rule[2] == '$') || rule.skip(2).contains('#') {
            None
        } else {
            Some(rule.subrange(2, index_of_from(rule, '$', 2)))
        }
    }
}

/// Normalisation of a domain part: leading '*'s and then one '.' are dropped,
/// trailing '.'s are dropped, and the rest is lowercased.
pub open spec fn normalize_domain(part: Seq<char>) -> Option<Seq<char>> {
    if part.len() == 0 || part[0] == '$' || part.contains('/') || part.contains('#') {
        None
    } else {
        let a = skip_char_from(part, 0, '*');
        let a2 = if a < part.len() && part[a] == '.' {
            a + 1
        } else {
            a
        };
        let b = trim_char_end_to(part, a2, part.len() as int, '.');
        let d = unicode_lowercase(part.subrange(a2, b));
        if d.len() == 0 || d == seq!['*'] {
            None
        } else {
            Some(d)
        }
    }
}

/// The domain a filter rule names, if it is a `||domain^` rule.
pub open spec fn spec_extract_domain(rule: Seq<char>) -> Option<Seq<char>> {
    match rule_domain_part(rule) {
        Some(part) => normalize_domain(part),
        None => None,
    }
}

/// What one line of a filter list contributes: `(is_exception, domain)`.
pub open spec fn rule_entry(line: Seq<char>) -> Option<(bool, Seq<char>)> {
    let t = trim(line);
    if t.len() == 0 || t[0] == '!' || t[0] == '[' {
        None
    } else if starts_with(t, seq!['@', '@']) {
        match spec_extract_domain(t.skip(2)) {
            Some(d) => Some((true, d)),
            None => None,
        }
    } else {
        match spec_extract_domain(t) {
            Some(d) => Some((false, d)),
            None => None,
        }
    }
}

/// The domains that the lines declare, as exceptions or as blocks.
pub open spec fn declared(lines: Seq<Seq<char>>, exception: bool) -> Set<Seq<char>> {
    Set::new(
        |d: Seq<char>|
            exists|i: int| 0 <= i < lines.len() && #[trigger] rule_entry(lines[i]) == Some((exception, d)),
    )
}

/// `host` is covered by `set`: some suffix of its lowercase form that starts
/// at the beginning or right after a '.' is in `set`.
pub open spec fn covered_by(set: Set<Seq<char>>, host: Seq<char>) -> bool {
    let h = unicode_lowercase(host);
    exists|i: int|
        0 <= i <= h.len() && (i == 0 || h[i - 1] == '.') && #[trigger] set.contains(
            h.subrange(i, h.len() as int),
        )
}

/// The decision for a URL: allow rules win, then block rules, else allow.
pub open spec fn decide(allow: Set<Seq<char>>, block: Set<Seq<char>>, url: Seq<char>) -> FilterAction {
    let h = spec_extract_hostname(url);
    if h.len() == 0 {
        FilterAction::Allow
    } else if covered_by(allow, h) {
        FilterAction::Allow
    } else if covered_by(block, h) {
        FilterAction::Block
    } else {
        FilterAction::Allow
    }
}

pub open spec fn views(v: Seq<Vec<char>>) -> Seq<Seq<char>> {
    v.map_values(|x: Vec<char>| x@)
}


// ---------------------------------------------------------------------------
// The rule set
// ---------------------------------------------------------------------------

/// Lightweight domain-based rule set.
pub struct RuleSet {
    /// Suffix-based blocklist: "example.com" covers "example.com" and every
    /// sub-domain such as "ads.example.com".
    block_suffix: Vec<Vec<char>>,
    /// Suffix-based allowlist (exceptions).
    allow_suffix: Vec<Vec<char>>,
    /// Metadata about the watched rule files (path, sha256).
    watched_files: Vec<(String, String)>,
}

impl RuleSet {
    #[verifier::type_invariant]
    spec fn inv(self) -> bool {
        &&& views(self.block_suffix@).no_duplicates()
        &&& views(self.allow_suffix@).no_duplicates()
        &&& self.block_domains().disjoint(self.allow_domains())
    }

    /// Domains whose `||domain^` rule blocks.
    pub closed spec fn block_domains(self) -> Set<Seq<char>> {
        views(self.block_suffix@).to_set()
    }

    /// Domains whose `@@||domain^` rule allows.
    pub closed spec fn allow_domains(self) -> Set<Seq<char>> {
        views(self.allow_suffix@).to_set()
    }

    /// The watched rule files, as (path, hash) pairs.
    pub closed spec fn files(self) -> Seq<(String, String)> {
        self.watched_files@
    }

    /// Create an empty rule set with no rules loaded.
    pub fn new() -> (r: Self)
        ensures
            r.block_domains() == Set::<Seq<char>>::empty(),
            r.allow_domains() == Set::<Seq<char>>::empty(),
            r.files() == Seq::<(String, String)>::empty(),
    {
        let r = RuleSet { block_suffix: Vec::new(), allow_suffix: Vec::new(), watched_files: Vec::new() };
        proof {
            assert(views(r.block_suffix@) =~= Seq::<Seq<char>>::empty());
            assert(views(r.allow_suffix@) =~= Seq::<Seq<char>>::empty());
            assert(r.block_domains() =~= Set::<Seq<char>>::empty());
            assert(r.allow_domains() =~= Set::<Seq<char>>::empty());
        }
        r
    }

    /// Build a rule set from raw filter lines (one rule per line).
    ///
    /// Lines starting with `!` (comments) or `[` (headers) are skipped.  Only
    /// `||…^` and `@@||…^` patterns are extracted; everything else is
    /// ignored.  A domain that is also an exception is not blocked.
    pub fn from_rules(lines: &[&str]) -> (r: Self)
        ensures
            r.allow_domains() == declared(str_views(lines@), true),
            r.block_domains() == declared(str_views(lines@), false).difference(
                declared(str_views(lines@), true),
            ),
            r.files() == Seq::<(String, String)>::empty(),
    {
        let ghost ls = str_views(lines@);
        let mut block: Vec<Vec<char>> = Vec::new();
        let mut allow: Vec<Vec<char>> = Vec::new();
        let mut i: usize = 0;
        proof {
            assert(views(block@) =~= Seq::<Seq<char>>::empty());
            assert(views(allow@) =~= Seq::<Seq<char>>::empty());
            assert(declared(ls.take(0), true) =~= Set::<Seq<char>>::empty());
            assert(declared(ls.take(0), false) =~= Set::<Seq<char>>::empty());
        }
        while i < lines.len()
            invariant
                i <= lines@.len(),
                ls == str_views(lines@),
                views(block@).no_duplicates(),
                views(allow@).no_duplicates(),
                views(allow@).to_set() == declared(ls.take(i as int), true),
                views(block@).to_set() == declared(ls.take(i as int), false),
            decreases lines@.len() - i,
        {
            let entry = parse_rule_line(lines[i]);
            let ghost prev = ls.take(i as int);
            let ghost next = ls.take(i + 1);
            proof {
                assert(next =~= prev.push(ls[i as int]));
                assert(ls[i as int] == lines@[i as int]@);
            }
            match entry {
                Some((exception, d)) => {
                    if exception {
                        insert_unique(&mut allow, d);
                    } else {
                        insert_unique(&mut block, d);
                    }
                },
                None => {},
            }
            proof {
                lemma_declared_push(prev, ls[i as int], true);
                lemma_declared_push(prev, ls[i as int], false);
            }
            i += 1;
        }
        proof {
            assert(ls.take(lines@.len() as int) =~= ls);
        }
        let block = remove_all(block, &allow);
        let r = RuleSet { block_suffix: block, allow_suffix: allow, watched_files: Vec::new() };
        r
    }

    /// Check whether a URL should be blocked.
    ///
    /// The `url` is expected to be a pseudo-URL like `"https://example.com/"`.
    /// `source_domain` and `resource_type` do not influence DNS-level
    /// filtering.
    pub fn matches(&self, url: &str, source_domain: &str, resource_type: &str) -> (r: FilterAction)
        ensures
            r == decide(self.allow_domains(), self.block_domains(), url@),
    {
        let hostname = extract_hostname(url);
        if hostname.unicode_len() == 0 {
            return FilterAction::Allow;
        }
        if suffix_set_covers(&self.allow_suffix, hostname) {
            return FilterAction::Allow;
        }
        if suffix_set_covers(&self.block_suffix, hostname) {
            return FilterAction::Block;
        }
        FilterAction::Allow
    }

    /// Number of blocking rules loaded.
    pub fn block_count(&self) -> (n: usize)
        ensures
            n == self.block_domains().len(),
    {
        proof {
            use_type_invariant(self);
            views(self.block_suffix@).unique_seq_to_set();
        }
        self.block_suffix.len()
    }

    /// Number of exception rules loaded.
    pub fn allow_count(&self) -> (n: usize)
        ensures
            n == self.allow_domains().len(),
    {
        proof {
            use_type_invariant(self);
            views(self.allow_suffix@).unique_seq_to_set();
        }
        self.allow_suffix.len()
    }

    /// The watched rule files, as (path, sha256 hex) pairs.
    pub fn watched_files(&self) -> (f: &Vec<(String, String)>)
        ensures
            f@ == self.files(),
    {
        &self.watched_files
    }

    /// The same rules, recorded as coming from `files`.
    pub fn with_watched_files(self, files: Vec<(String, String)>) -> (r: Self)
        ensures
            r.block_domains() == self.block_domains(),
            r.allow_domains() == self.allow_domains(),
            r.files() == files@,
    {
        proof {
            use_type_invariant(&self);
        }
        RuleSet { block_suffix: self.block_suffix, allow_suffix: self.allow_suffix, watched_files: files }
    }
}

// ---------------------------------------------------------------------------
// Laws of the rule engine
// ---------------------------------------------------------------------------

/// Allow rules win: a URL whose host an exception covers is allowed,
/// whatever the block rules say.
pub proof fn law_allow_rules_win(allow: Set<Seq<char>>, block: Set<Seq<char>>, url: Seq<char>)
    requires
        covered_by(allow, spec_extract_hostname(url)),
    ensures
        decide(allow, block, url) == FilterAction::Allow,
{
}

/// Without rules every URL is allowed.
pub proof fn law_empty_rules_allow_all(url: Seq<char>)
    ensures
        decide(Set::<Seq<char>>::empty(), Set::<Seq<char>>::empty(), url) == FilterAction::Allow,
{
}

/// Only rules block: a blocked URL's host is covered by a block rule and by
/// no exception.
pub proof fn law_block_needs_a_rule(allow: Set<Seq<char>>, block: Set<Seq<char>>, url: Seq<char>)
    requires
        decide(allow, block, url) == FilterAction::Block,
    ensures
        covered_by(block, spec_extract_hostname(url)),
        !covered_by(allow, spec_extract_hostname(url)),
{
}

/// A blocked domain blocks itself and all its sub-domains: a host whose
/// lowercase form is the domain, or ends with '.' and the domain, is blocked
/// unless an exception covers it.
pub proof fn law_block_covers_subdomains(
    allow: Set<Seq<char>>,
    block: Set<Seq<char>>,
    url: Seq<char>,
    domain: Seq<char>,
    prefix: Seq<char>,
)
    requires
        block.contains(domain),
        unicode_lowercase(spec_extract_hostname(url)) == prefix + domain,
        prefix.len() == 0 || prefix.last() == '.',
        spec_extract_hostname(url).len() > 0,
        !covered_by(allow, spec_extract_hostname(url)),
    ensures
        decide(allow, block, url) == FilterAction::Block,
{
    let h = unicode_lowercase(spec_extract_hostname(url));
    let i = prefix.len() as int;
    assert(h.subrange(i, h.len() as int) =~= domain);
    if i > 0 {
        assert(h[i - 1] == prefix.last());
    }
    assert(block.contains(h.subrange(i, h.len() as int)));
}

/// An exception line lifts every block of its domain: the domain is
/// allowed and not among the blocked domains, whichever lines block it.
pub proof fn law_exception_lifts_block(lines: Seq<Seq<char>>, i: int, domain: Seq<char>)
    requires
        0 <= i < lines.len(),
        rule_entry(lines[i]) == Some((true, domain)),
    ensures
        declared(lines, true).contains(domain),
        !declared(lines, false).difference(declared(lines, true)).contains(domain),
{
    assert(declared(lines, true).contains(domain));
}

/// Blank lines, `!` comments and `[` headers add no rule.
pub proof fn law_comments_add_nothing(lines: Seq<Seq<char>>, line: Seq<char>, exception: bool)
    requires
        trim(line).len() == 0 || trim(line)[0] == '!' || trim(line)[0] == '[',
    ensures
        declared(lines.push(line), exception) == declared(lines, exception),
{
    lemma_declared_push(lines, line, exception);
}

proof fn lemma_index_of_exact(s: Seq<char>, c: char, i: int, k: int)
    requires
        0 <= i <= k < s.len(),
        s[k] == c,
        forall|m: int| i <= m < k ==> s[m] != c,
    ensures
        index_of_from(s, c, i) == k,
{
    lemma_index_of_bounds(s, c, i);
    let r = index_of_from(s, c, i);
    if r < k {
        assert(s[r] == c);
    } else if r > k {
        assert(s[k] != c);
    }
}

proof fn lemma_trim_end_shift(p: Seq<char>, d: Seq<char>, j: int, c: char)
    requires
        0 <= j <= d.len(),
    ensures
        trim_char_end_to(p + d, p.len() as int, p.len() + j, c) == p.len() + trim_char_end_to(
            d,
            0,
            j,
            c,
        ),
    decreases j,
{
    let s = p + d;
    if j > 0 {
        assert(s[p.len() + j - 1] == d[j - 1]);
        lemma_trim_end_shift(p, d, j - 1, c);
    }
}

/// A leading `*.` in a domain rule is dropped: `||*.d^` names the same
/// domain as `||d^` (for a `d` that does not itself start with `*`, `.` or
/// `$`, and holds no `^`).
pub proof fn law_wildcard_prefix_dropped(d: Seq<char>)
    requires
        d.len() > 0,
        d[0] != '*' && d[0] != '.' && d[0] != '$',
        !d.contains('^'),
    ensures
        spec_extract_domain(seq!['|', '|', '*', '.'] + d + seq!['^']) == spec_extract_domain(
            seq!['|', '|'] + d + seq!['^'],
        ),
{
    let r1 = seq!['|', '|', '*', '.'] + d + seq!['^'];
    let r2 = seq!['|', '|'] + d + seq!['^'];
    assert(r1.take(2) =~= seq!['|', '|']);
    assert(r2.take(2) =~= seq!['|', '|']);
    assert(starts_with(r1, seq!['|', '|']));
    assert(starts_with(r2, seq!['|', '|']));
    let k1 = r1.len() - 1;
    let k2 = r2.len() - 1;
    assert forall|m: int| 2 <= m < k1 implies r1[m] != '^' by {
        if m >= 4 {
            assert(r1[m] == d[m - 4]);
        }
    }
    assert forall|m: int| 2 <= m < k2 implies r2[m] != '^' by {
        assert(r2[m] == d[m - 2]);
    }
    lemma_index_of_exact(r1, '^', 2, k1);
    lemma_index_of_exact(r2, '^', 2, k2);
    let p1 = r1.subrange(2, k1);
    let p2 = r2.subrange(2, k2);
    assert(p1 =~= seq!['*', '.'] + d);
    assert(p2 =~= d);
    assert(rule_domain_part(r1) == Some(p1));
    assert(rule_domain_part(r2) == Some(p2));
    // The same conditions refuse both parts.
    assert(p1.contains('/') == d.contains('/')) by {
        if p1.contains('/') {
            let m = choose|m: int| 0 <= m < p1.len() && p1[m] == '/';
            assert(d[m - 2] == '/');
        }
        if d.contains('/') {
            let m = choose|m: int| 0 <= m < d.len() && d[m] == '/';
            assert(p1[m + 2] == '/');
        }
    }
    assert(p1.contains('#') == d.contains('#')) by {
        if p1.contains('#') {
            let m = choose|m: int| 0 <= m < p1.len() && p1[m] == '#';
            assert(d[m - 2] == '#');
        }
        if d.contains('#') {
            let m = choose|m: int| 0 <= m < d.len() && d[m] == '#';
            assert(p1[m + 2] == '#');
        }
    }
    assert(skip_char_from(p1, 1, '*') == 1);
    assert(skip_char_from(p1, 0, '*') == 1);
    assert(skip_char_from(d, 0, '*') == 0);
    lemma_trim_end_shift(seq!['*', '.'], d, d.len() as int, '.');
    let b2 = trim_char_end_to(d, 0, d.len() as int, '.');
    lemma_trim_char_end_bounds(d, 0, d.len() as int, '.');
    assert(p1.subrange(2, 2 + b2) =~= d.subrange(0, b2));
}

/// The caret is optional: `||d^` names the domain `d` (normalised), `||d`
/// names the same domain, and so does `||d$opts` with options after a `$`
/// (for a `d` that holds no `^`, `$` or `#`, and options that hold no `^` or
/// `#`).
pub proof fn law_caret_optional(d: Seq<char>, opts: Seq<char>)
    requires
        d.len() > 0,
        !d.contains('^'),
        !d.contains('$'),
        !d.contains('#'),
        !opts.contains('^'),
        !opts.contains('#'),
    ensures
        spec_extract_domain(seq!['|', '|'] + d + seq!['^']) == normalize_domain(d),
        spec_extract_domain(seq!['|', '|'] + d) == spec_extract_domain(
            seq!['|', '|'] + d + seq!['^'],
        ),
        spec_extract_domain(seq!['|', '|'] + d + seq!['$'] + opts) == spec_extract_domain(
            seq!['|', '|'] + d + seq!['^'],
        ),
{
    let bar = seq!['|', '|'];
    let r0 = bar + d + seq!['^'];
    let r1 = bar + d;
    let r2 = bar + d + seq!['$'] + opts;
    assert(r0.take(2) =~= bar);
    assert(r1.take(2) =~= bar);
    assert(r2.take(2) =~= bar);
    let k: int = 2 + d.len() as int;
    // With the caret, the part is `d`.
    assert forall|m: int| 2 <= m < k implies r0[m] != '^' by {
        assert(r0[m] == d[m - 2]);
    }
    lemma_index_of_exact(r0, '^', 2, k);
    assert(r0.subrange(2, k) =~= d);
    assert(rule_domain_part(r0) == Some(d));
    // Without it, the whole rest of the rule is `d`.
    lemma_index_of_bounds(r1, '^', 2);
    assert(index_of_from(r1, '^', 2) == r1.len()) by {
        let c = index_of_from(r1, '^', 2);
        if c < r1.len() {
            assert(d[c - 2] == '^');
        }
    }
    assert(r1[2] == d[0]);
    assert(d[0] != '$');
    assert(r1.skip(2) =~= d);
    lemma_index_of_bounds(r1, '$', 2);
    assert(index_of_from(r1, '$', 2) == r1.len()) by {
        let c = index_of_from(r1, '$', 2);
        if c < r1.len() {
            assert(d[c - 2] == '$');
        }
    }
    assert(r1.subrange(2, r1.len() as int) =~= d);
    assert(rule_domain_part(r1) == Some(d));
    // With options, the part ends at the `$`.
    lemma_index_of_bounds(r2, '^', 2);
    assert(index_of_from(r2, '^', 2) == r2.len()) by {
        let c = index_of_from(r2, '^', 2);
        if c < r2.len() {
            if c < k {
                assert(d[c - 2] == '^');
            } else if c > k {
                assert(opts[c - k - 1] == '^');
            }
        }
    }
    assert(r2[2] == d[0]);
    assert(!r2.skip(2).contains('#')) by {
        if r2.skip(2).contains('#') {
            let c = choose|c: int| 0 <= c < r2.skip(2).len() && r2.skip(2)[c] == '#';
            if c < d.len() {
                assert(d[c] == '#');
            } else if c > d.len() {
                assert(opts[c - d.len() - 1] == '#');
            }
        }
    }
    assert forall|m: int| 2 <= m < k implies r2[m] != '$' by {
        assert(r2[m] == d[m - 2]);
    }
    lemma_index_of_exact(r2, '$', 2, k);
    assert(r2.subrange(2, k) =~= d);
    assert(rule_domain_part(r2) == Some(d));
}

proof fn lemma_declared_push(prev: Seq<Seq<char>>, line: Seq<char>, exception: bool)
    ensures
        declared(prev.push(line), exception) == (match rule_entry(line) {
            Some((e, d)) => if e == exception {
                declared(prev, exception).insert(d)
            } else {
                declared(prev, exception)
            },
            None => declared(prev, exception),
        }),
{
    let next = prev.push(line);
    let lhs = declared(next, exception);
    let rhs = match rule_entry(line) {
        Some((e, d)) => if e == exception {
            declared(prev, exception).insert(d)
        } else {
            declared(prev, exception)
        },
        None => declared(prev, exception),
    };
    assert forall|x: Seq<char>| lhs.contains(x) implies rhs.contains(x) by {
        let i = choose|i: int| 0 <= i < next.len() && #[trigger] rule_entry(next[i]) == Some((exception, x));
        if i < prev.len() {
            assert(next[i] == prev[i]);
        }
    }
    assert forall|x: Seq<char>| rhs.contains(x) implies lhs.contains(x) by {
        if rule_entry(line) == Some((exception, x)) {
            assert(next[prev.len() as int] == line);
        } else {
            let i = choose|i: int| 0 <= i < prev.len() && #[trigger] rule_entry(prev[i]) == Some((exception, x));
            assert(next[i] == prev[i]);
        }
    }
    assert(lhs =~= rhs);
}

/// Whether `a@ == b@[lo..]`.
fn same_chars(a: &Vec<char>, b: &Vec<char>, lo: usize) -> (r: bool)
    requires
        lo <= b@.len(),
    ensures
        r == (a@ == b@.subrange(lo as int, b@.len() as int)),
{
    let bn = b.len();
    if a.len() != bn - lo {
        return false;
    }
    let mut k: usize = 0;
    while k < a.len()
        invariant
            bn == b@.len(),
            lo <= bn,
            a@.len() == bn - lo,
            k <= a@.len(),
            forall|m: int| 0 <= m < k ==> a@[m] == b@[lo + m],
        decreases a@.len() - k,
    {
        if a[k] != b[lo + k] {
            assert(b@.subrange(lo as int, b@.len() as int)[k as int] != a@[k as int]);
            return false;
        }
        k += 1;
    }
    assert(a@ =~= b@.subrange(lo as int, b@.len() as int));
    true
}

/// Whether `set` holds `b@[lo..]`.
fn set_holds(set: &Vec<Vec<char>>, b: &Vec<char>, lo: usize) -> (r: bool)
    requires
        lo <= b@.len(),
    ensures
        r == views(set@).to_set().contains(b@.subrange(lo as int, b@.len() as int)),
{
    let ghost target = b@.subrange(lo as int, b@.len() as int);
    let mut k: usize = 0;
    while k < set.len()
        invariant
            lo <= b@.len(),
            target == b@.subrange(lo as int, b@.len() as int),
            k <= set@.len(),
            forall|m: int| 0 <= m < k ==> set@[m]@ != target,
        decreases set@.len() - k,
    {
        if same_chars(&set[k], b, lo) {
            proof {
                assert(views(set@)[k as int] == set@[k as int]@);
                assert(views(set@).contains(target));
            }
            return true;
        }
        k += 1;
    }
    proof {
        if views(set@).contains(target) {
            let m = choose|m: int| 0 <= m < views(set@).len() && views(set@)[m] == target;
            assert(views(set@)[m] == set@[m]@);
        }
    }
    false
}

/// Whether `v@` is already in `set`.
fn holds_chars(set: &Vec<Vec<char>>, v: &Vec<char>) -> (r: bool)
    ensures
        r == views(set@).to_set().contains(v@),
{
    let r = set_holds(set, v, 0);
    assert(v@.subrange(0, v@.len() as int) =~= v@);
    r
}

/// Adds `d` to `set` unless it is already there.
fn insert_unique(set: &mut Vec<Vec<char>>, d: Vec<char>)
    requires
        views(old(set)@).no_duplicates(),
    ensures
        views(final(set)@).no_duplicates(),
        views(final(set)@).to_set() == views(old(set)@).to_set().insert(d@),
{
    if holds_chars(set, &d) {
        assert(views(set@).to_set().insert(d@) =~= views(set@).to_set());
        return;
    }
    let ghost before = views(set@);
    set.push(d);
    proof {
        assert(views(set@) =~= before.push(d@));
        assert(!before.contains(d@));
        assert forall|a: int, b: int| 0 <= a < b < views(set@).len() implies views(set@)[a]
            != views(set@)[b] by {
            if b == before.len() {
                assert(before[a] == views(set@)[a]);
            } else {
                assert(before[a] == views(set@)[a]);
                assert(before[b] == views(set@)[b]);
            }
        }
        before.lemma_push_to_set_commute(d@);
    }
}

/// The entries of `block` that are not in `allow`.
fn remove_all(block: Vec<Vec<char>>, allow: &Vec<Vec<char>>) -> (r: Vec<Vec<char>>)
    requires
        views(block@).no_duplicates(),
    ensures
        views(r@).no_duplicates(),
        views(r@).to_set() == views(block@).to_set().difference(views(allow@).to_set()),
{
    let mut out: Vec<Vec<char>> = Vec::new();
    let mut k: usize = 0;
    let ghost bv = views(block@);
    let ghost av = views(allow@).to_set();
    proof {
        assert(views(out@) =~= Seq::<Seq<char>>::empty());
        assert(bv.take(0).to_set() =~= Set::<Seq<char>>::empty());
        assert(views(out@).to_set() =~= bv.take(0).to_set().difference(av));
    }
    while k < block.len()
        invariant
            k <= block@.len(),
            bv == views(block@),
            av == views(allow@).to_set(),
            bv.no_duplicates(),
            views(out@).no_duplicates(),
            views(out@).to_set() == bv.take(k as int).to_set().difference(av),
        decreases block@.len() - k,
    {
        let ghost prev = views(out@);
        proof {
            assert(bv.take(k + 1) =~= bv.take(k as int).push(bv[k as int]));
            bv.take(k as int).lemma_push_to_set_commute(bv[k as int]);
            assert(bv[k as int] == block@[k as int]@);
        }
        if !holds_chars(allow, &block[k]) {
            let d = block[k].clone();
            out.push(d);
            proof {
                assert(views(out@) =~= prev.push(bv[k as int]));
                assert(!prev.contains(bv[k as int])) by {
                    if prev.contains(bv[k as int]) {
                        assert(prev.to_set().contains(bv[k as int]));
                        assert(bv.take(k as int).to_set().contains(bv[k as int]));
                        assert(bv.take(k as int).contains(bv[k as int]));
                        let j = choose|j: int| 0 <= j < k && bv.take(k as int)[j] == bv[k as int];
                        assert(bv[j] == bv[k as int]);
                    }
                }
                assert forall|a: int, b: int| 0 <= a < b < views(out@).len() implies views(out@)[a]
                    != views(out@)[b] by {
                    assert(prev[a] == views(out@)[a]);
                    if b < prev.len() {
                        assert(prev[b] == views(out@)[b]);
                    }
                }
                prev.lemma_push_to_set_commute(bv[k as int]);
                assert(views(out@).to_set() =~= bv.take(k + 1).to_set().difference(av));
            }
        } else {
            proof {
                assert(views(out@).to_set() =~= bv.take(k + 1).to_set().difference(av));
            }
        }
        k += 1;
    }
    proof {
        assert(bv.take(block@.len() as int) =~= bv);
    }
    out
}

/// Parses one filter-list line into `(is_exception, domain)`.
fn parse_rule_line(line: &str) -> (r: Option<(bool, Vec<char>)>)
    ensures
        r matches Some((e, d)) ==> rule_entry(line@) == Some((e, d@)),
        r is None ==> rule_entry(line@) is None,
{
    let v = chars_of(line);
    let a = skip_ws(&v, 0);
    let b = trim_ws_end(&v, a, v.len());
    let t = sub_vec(&v, a, b);
    assert(t@ == trim(line@));
    if t.len() == 0 || t[0] == '!' || t[0] == '[' {
        return None;
    }
    let exception = has_prefix_at(&t, 0, &['@', '@']);
    let start = if exception {
        a + 2
    } else {
        a
    };
    proof {
        assert(t@.take(2) == t@.subrange(0, 2) || t@.len() < 2);
        assert(starts_with(t@, seq!['@', '@']) == exception);
        if exception {
            assert(v@.subrange(start as int, b as int) =~= t@.skip(2));
        } else {
            assert(v@.subrange(start as int, b as int) =~= t@);
        }
    }
    let rest = line.substring_char(start, b);
    match extract_domain_from_rule(rest) {
        Some(d) => Some((exception, chars_of(&d))),
        None => None,
    }
}

/// Whether `v@[lo..]` contains `c`.
fn contains_from(v: &Vec<char>, c: char, lo: usize, hi: usize) -> (r: bool)
    requires
        lo <= hi <= v@.len(),
    ensures
        r == v@.subrange(lo as int, hi as int).contains(c),
{
    let p = find_char(v, c, lo);
    proof {
        lemma_index_of_bounds(v@, c, lo as int);
        let t = v@.subrange(lo as int, hi as int);
        if p < hi {
            assert(t[p - lo] == c);
        } else {
            assert forall|k: int| 0 <= k < t.len() implies t[k] != c by {
                assert(t[k] == v@[lo + k]);
            }
        }
    }
    p < hi
}

/// A copy of `v[lo..hi]`.
fn sub_vec(v: &Vec<char>, lo: usize, hi: usize) -> (r: Vec<char>)
    requires
        lo <= hi <= v@.len(),
    ensures
        r@ == v@.subrange(lo as int, hi as int),
{
    let mut r: Vec<char> = Vec::new();
    let mut k = lo;
    while k < hi
        invariant
            lo <= k <= hi <= v@.len(),
            r@ == v@.subrange(lo as int, k as int),
        decreases hi - k,
    {
        r.push(v[k]);
        k += 1;
        assert(r@ =~= v@.subrange(lo as int, k as int));
    }
    r
}

/// Extract a bare hostname from a (pseudo-)URL.
///
/// * `"https://example.com/"` → `"example.com"`
/// * `"example.com"`          → `"example.com"`
/// * `""`                     → `""`
pub fn extract_hostname(url: &str) -> (h: &str)
    ensures
        h@ == spec_extract_hostname(url@),
{
    let v = chars_of(url);
    let start: usize = if has_prefix_at(&v, 0, &['h', 't', 't', 'p', 's', ':', '/', '/']) {
        8
    } else if has_prefix_at(&v, 0, &['h', 't', 't', 'p', ':', '/', '/']) {
        7
    } else {
        0
    };
    let ghost s1 = if starts_with(url@, https_prefix()) {
        url@.skip(8)
    } else if starts_with(url@, http_prefix()) {
        url@.skip(7)
    } else {
        url@
    };
    proof {
        assert(starts_with(url@, https_prefix()) == starts_with_at(v@, 0, https_prefix()));
        assert(starts_with(url@, http_prefix()) == starts_with_at(v@, 0, http_prefix()));
        assert(s1 =~= v@.skip(start as int));
    }
    let w = sub_vec(&v, start, v.len());
    assert(w@ =~= s1);
    let e = trim_char_end(&w, 0, w.len(), '/');
    let ghost s2 = s1.take(e as int);
    let mut k: usize = 0;
    while k < e && !(w[k] == '/' || w[k] == '?' || w[k] == ':')
        invariant
            k <= e <= w@.len(),
            w@ == s1,
            s2 == s1.take(e as int),
            host_sep_from(s2, k as int) == host_sep_from(s2, 0),
        decreases e - k,
    {
        assert(s2[k as int] == w@[k as int]);
        k += 1;
    }
    proof {
        if k < e {
            assert(s2[k as int] == w@[k as int]);
        }
    }
    url.substring_char(start, start + k)
}

/// Try to extract a domain from a filter rule.
///
/// Returns `Some("example.com")` for the pattern `||example.com^`, and `None`
/// for patterns that are not domain-based (cosmetic rules, element hiding,
/// option-only rules, paths).
pub fn extract_domain_from_rule(rule: &str) -> (r: Option<String>)
    ensures
        r matches Some(d) ==> spec_extract_domain(rule@) == Some(d@),
        r is None ==> spec_extract_domain(rule@) is None,
{
    let v = chars_of(rule);
    if !has_prefix_at(&v, 0, &['|', '|']) {
        proof {
            assert(starts_with(rule@, seq!['|', '|']) == starts_with_at(v@, 0, seq!['|', '|']));
        }
        return None;
    }
    proof {
        assert(starts_with(rule@, seq!['|', '|']));
    }
    let n = v.len();
    let caret = find_char(&v, '^', 2);
    let end: usize;
    if caret < n {
        end = caret;
    } else {
        let has_hash = contains_from(&v, '#', 2, n);
        proof {
            assert(rule@.skip(2) =~= v@.subrange(2, n as int));
        }
        if (n > 2 && v[2] == '$') || has_hash {
            return None;
        }
        end = find_char(&v, '$', 2);
    }
    let part = sub_vec(&v, 2, end);
    assert(rule_domain_part(rule@) == Some(part@));
    let pn = part.len();
    if pn == 0 || part[0] == '$' || contains_from(&part, '/', 0, pn) || contains_from(
        &part,
        '#',
        0,
        pn,
    ) {
        proof {
            assert(part@.subrange(0, pn as int) =~= part@);
        }
        return None;
    }
    proof {
        assert(part@.subrange(0, pn as int) =~= part@);
    }
    let a = skip_char(&part, 0, '*');
    let a2 = if a < pn && part[a] == '.' {
        a + 1
    } else {
        a
    };
    let b = trim_char_end(&part, a2, pn, '.');
    let raw = string_of(&part, a2, b);
    let d = str_to_lowercase(raw.as_str());
    let dv = chars_of(&d);
    if dv.len() == 0 || (dv.len() == 1 && dv[0] == '*') {
        proof {
            if dv.len() == 1 {
                assert(dv@ =~= seq!['*']);
            }
        }
        return None;
    }
    proof {
        if d@ == seq!['*'] {
            assert(dv@[0] == '*');
        }
    }
    Some(d)
}

/// Whether some dot-boundary suffix of the lowercase `hostname` is in `set`.
fn suffix_set_covers(set: &Vec<Vec<char>>, hostname: &str) -> (r: bool)
    ensures
        r == covered_by(views(set@).to_set(), hostname@),
{
    if set.len() == 0 {
        proof {
            assert(views(set@).to_set() =~= Set::<Seq<char>>::empty());
        }
        return false;
    }
    let lower = str_to_lowercase(hostname);
    let h = chars_of(&lower);
    let ghost hs = h@;
    let ghost s = views(set@).to_set();
    let n = h.len();
    let mut i: usize = 0;
    loop
        invariant
            hs == h@,
            hs == unicode_lowercase(hostname@),
            s == views(set@).to_set(),
            n == hs.len(),
            i <= n,
            i == 0 || hs[i - 1] == '.',
            forall|j: int|
                0 <= j < i && (j == 0 || hs[j - 1] == '.') ==> !#[trigger] s.contains(
                    hs.subrange(j, n as int),
                ),
        decreases n - i,
    {
        if set_holds(set, &h, i) {
            return true;
        }
        let p = find_char(&h, '.', i);
        proof {
            lemma_index_of_bounds(hs, '.', i as int);
        }
        if p == n {
            proof {
                assert forall|j: int|
                    0 <= j <= hs.len() && (j == 0 || hs[j - 1] == '.') implies !#[trigger] s.contains(
                    hs.subrange(j, hs.len() as int),
                ) by {
                    if j > i {
                        assert(hs[j - 1] != '.');
                    }
                }
            }
            return false;
        }
        proof {
            assert forall|j: int|
                0 <= j < p + 1 && (j == 0 || hs[j - 1] == '.') implies !#[trigger] s.contains(
                hs.subrange(j, n as int),
            ) by {
                if j > i {
                    assert(hs[j - 1] != '.' || j - 1 == p);
                }
            }
        }
        i = p + 1;
    }
}

/// Check if `hostname` is covered by a suffix set entry.
///
/// `||example.com^` semantics: the (lowercase) hostname equals
/// "example.com" or ends with ".example.com".
pub fn domain_in_suffix_set(set: &Vec<String>, hostname: &str) -> (r: bool)
    ensures
        r == covered_by(string_views(set@).to_set(), hostname@),
{
    let mut vs: Vec<Vec<char>> = Vec::new();
    let mut k: usize = 0;
    while k < set.len()
        invariant
            k <= set@.len(),
            views(vs@) == string_views(set@).take(k as int),
        decreases set@.len() - k,
    {
        let c = chars_of(set[k].as_str());
        assert(c@ == string_views(set@)[k as int]);
        let ghost prev = vs@;
        vs.push(c);
        assert(views(vs@) =~= views(prev).push(c@));
        k += 1;
        assert(views(vs@) =~= string_views(set@).take(k as int));
    }
    assert(string_views(set@).take(set@.len() as int) =~= string_views(set@));
    suffix_set_covers(&vs, hostname)
}

} // verus!
