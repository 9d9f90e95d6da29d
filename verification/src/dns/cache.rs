//! TTL-aware DNS response cache keyed by (domain, query type), and the
//! packet parsing it needs (QTYPE of a query, minimum TTL of a response).
use vstd::prelude::*;

use crate::dns::wire::{be16_at, be32u_at};
use crate::sys::be16;
use crate::text::{ascii_lower, chars_eq, to_ascii_lowercase};

verus! {

/// Default max entries in the DNS cache.
pub const DEFAULT_MAX_ENTRIES: usize = 2048;

/// Minimum TTL honoured for cache entries (seconds).
pub const MIN_CACHE_TTL: u64 = 60;

/// Maximum TTL honoured for cache entries (seconds).
pub const MAX_CACHE_TTL: u64 = 3600;

/// TTL used when none can be parsed from a response (seconds).
pub const FALLBACK_TTL: u64 = 300;

// ---------------------------------------------------------------------------
// Packet parsing
// ---------------------------------------------------------------------------

/// Position after the (possibly compressed) name that starts at `pos`: a
/// zero byte ends it, a byte >= 0xC0 is a two-byte pointer that ends it,
/// anything else is a label length.
pub open spec fn spec_skip_name(p: Seq<u8>, pos: int) -> Option<int>
    decreases p.len() - pos,
{
    if pos < 0 || pos >= p.len() {
        None
    } else if p[pos] == 0 {
        Some(pos + 1)
    } else if p[pos] >= 0xC0 {
        Some(pos + 2)
    } else if pos + 1 + p[pos] as int > p.len() {
        None
    } else {
        spec_skip_name(p, pos + 1 + p[pos] as int)
    }
}

/// The QTYPE of a raw query: the two bytes after the QNAME.
pub open spec fn spec_query_type(p: Seq<u8>) -> Option<u16> {
    if p.len() < 14 {
        None
    } else {
        match spec_skip_name(p, 12) {
            None => None,
            Some(pos) => if pos + 2 > p.len() {
                None
            } else {
                Some(be16_at(p, pos) as u16)
            },
        }
    }
}

/// Position after `n` questions starting at `pos` (each a name plus QTYPE
/// and QCLASS), or `None` when a name cannot be skipped.
pub open spec fn skip_questions(p: Seq<u8>, pos: int, n: nat) -> Option<int>
    decreases n,
{
    if n == 0 {
        Some(pos)
    } else {
        match spec_skip_name(p, pos) {
            Some(np) => skip_questions(p, np + 4, (n - 1) as nat),
            None => None,
        }
    }
}

/// The smaller of `cur` and the TTLs of up to `n` answer records starting
/// at `pos`; the scan stops at the first record that does not fit.
pub open spec fn answers_min_ttl(p: Seq<u8>, pos: int, n: nat, cur: u32) -> u32
    decreases n,
{
    if n == 0 {
        cur
    } else {
        match spec_skip_name(p, pos) {
            None => cur,
            Some(np) => if np + 10 > p.len() {
                cur
            } else {
                let ttl = be32u_at(p, np + 4) as u32;
                let m = if ttl < cur {
                    ttl
                } else {
                    cur
                };
                let next = np + 10 + be16_at(p, np + 8);
                if next > p.len() {
                    m
                } else {
                    answers_min_ttl(p, next, (n - 1) as nat, m)
                }
            },
        }
    }
}

/// The minimum TTL of the answer section of a response, or `FALLBACK_TTL`
/// when there is none or the packet cannot be parsed.
pub open spec fn spec_min_ttl(p: Seq<u8>) -> u64 {
    if p.len() < 12 {
        FALLBACK_TTL
    } else if be16_at(p, 6) == 0 {
        FALLBACK_TTL
    } else {
        match skip_questions(p, 12, be16_at(p, 4) as nat) {
            None => FALLBACK_TTL,
            Some(pos) => {
                let m = answers_min_ttl(p, pos, be16_at(p, 6) as nat, u32::MAX);
                if m == u32::MAX {
                    FALLBACK_TTL
                } else {
                    m as u64
                }
            },
        }
    }
}

proof fn lemma_skip_name_bound(p: Seq<u8>, pos: int)
    ensures
        spec_skip_name(p, pos) matches Some(np) ==> pos < np <= p.len() + 1,
    decreases p.len() - pos,
{
    if 0 <= pos < p.len() && p[pos] != 0 && p[pos] < 0xC0 && pos + 1 + p[pos] as int <= p.len() {
        lemma_skip_name_bound(p, pos + 1 + p[pos] as int);
    }
}

proof fn lemma_skip_questions_past_end(p: Seq<u8>, pos: int, n: nat)
    requires
        pos >= p.len(),
        n > 0,
    ensures
        skip_questions(p, pos, n) is None,
{
}

/// Skip a DNS name (possibly compressed) and return the position after it,
/// capped at the packet length (a pointer in the last byte would end one
/// past it; every caller treats both the same).
pub fn skip_name(packet: &[u8], pos: usize) -> (r: Option<usize>)
    ensures
        r is None <==> spec_skip_name(packet@, pos as int) is None,
        r matches Some(x) ==> spec_skip_name(packet@, pos as int) matches Some(np) && x == (if np
            > packet@.len() {
            packet@.len() as int
        } else {
            np
        }),
{
    let n = packet.len();
    let mut cur = pos;
    loop
        invariant
            n == packet@.len(),
            spec_skip_name(packet@, pos as int) == spec_skip_name(packet@, cur as int),
        decreases n - cur,
    {
        if cur >= n {
            return None;
        }
        let len = packet[cur] as usize;
        if len == 0 {
            return Some(cur + 1);
        }
        if len >= 0xC0 {
            if cur + 1 == n {
                return Some(n);
            }
            return Some(cur + 2);
        }
        if len + 1 > n - cur {
            return None;
        }
        cur += 1 + len;
    }
}

/// Extract the QTYPE from a raw DNS query packet; `None` when the packet is
/// too short to contain one.
pub fn parse_query_type(packet: &[u8]) -> (r: Option<u16>)
    ensures
        r == spec_query_type(packet@),
{
    let n = packet.len();
    if n < 14 {
        return None;
    }
    let pos = match skip_name(packet, 12) {
        Some(p) => p,
        None => return None,
    };
    if pos > n || 2 > n - pos {
        return None;
    }
    Some((packet[pos] as u16) * 256 + (packet[pos + 1] as u16))
}

/// Parse the minimum TTL from the answer section of a DNS response.
///
/// The question section is skipped by reading QDCOUNT and scanning past
/// each question (QNAME + QTYPE + QCLASS); then the answer TTLs are read.
/// Returns `FALLBACK_TTL` on parse failure.
pub fn parse_min_ttl(packet: &[u8]) -> (t: u64)
    ensures
        t == spec_min_ttl(packet@),
{
    let n = packet.len();
    if n < 12 {
        return FALLBACK_TTL;
    }
    let qdcount = (packet[4] as usize) * 256 + (packet[5] as usize);
    let ancount = (packet[6] as usize) * 256 + (packet[7] as usize);
    if ancount == 0 {
        return FALLBACK_TTL;
    }
    let ghost p = packet@;
    let mut pos: usize = 12;
    let mut i: usize = 0;
    // Skip the question section.
    while i < qdcount
        invariant
            n == p.len(),
            p == packet@,
            i <= qdcount,
            pos <= n,
            n >= 12,
            qdcount == be16_at(p, 4),
            ancount == be16_at(p, 6),
            ancount > 0,
            skip_questions(p, 12, qdcount as nat) == skip_questions(
                p,
                pos as int,
                (qdcount - i) as nat,
            ),
        decreases qdcount - i,
    {
        match skip_name(packet, pos) {
            Some(np) => {
                proof {
                    lemma_skip_name_bound(p, pos as int);
                }
                if 4 > n - np {
                    // Past the end: every later step fails too.
                    let ghost end_pos = spec_skip_name(p, pos as int)->0;
                    proof {
                        if qdcount - i > 1 {
                            lemma_skip_questions_past_end(p, end_pos + 4, (qdcount - i - 1) as nat);
                        }
                    }
                    proof {
                        assert(skip_questions(p, pos as int, (qdcount - i) as nat) == skip_questions(
                            p,
                            end_pos + 4,
                            (qdcount - i - 1) as nat,
                        ));
                    }
                    if i + 1 < qdcount {
                        return FALLBACK_TTL;
                    }
                    // The last question ends past the packet: no answer can be read.
                    proof {
                        assert(skip_questions(p, end_pos + 4, 0) == Some(end_pos + 4));
                        assert(skip_questions(p, 12, qdcount as nat) == Some(end_pos + 4));
                        assert(spec_skip_name(p, end_pos + 4) is None);
                        assert(answers_min_ttl(p, end_pos + 4, ancount as nat, u32::MAX) == u32::MAX);
                    }
                    return FALLBACK_TTL;
                }
                pos = np + 4;
            },
            None => {
                proof {
                    assert(skip_questions(p, pos as int, (qdcount - i) as nat) is None);
                }
                return FALLBACK_TTL;
            },
        }
        proof {
            assert(skip_questions(p, pos as int, (qdcount - i - 1) as nat) == skip_questions(
                p,
                pos as int,
                (qdcount - i - 1) as nat,
            ));
        }
        i += 1;
    }
    // Parse answer TTLs, tracking the minimum.
    let mut min_ttl: u32 = u32::MAX;
    let mut j: usize = 0;
    while j < ancount
        invariant_except_break
            n == p.len(),
            p == packet@,
            j <= ancount,
            pos <= n,
            n >= 12,
            qdcount == be16_at(p, 4),
            ancount == be16_at(p, 6),
            ancount > 0,
            skip_questions(p, 12, qdcount as nat) is Some,
            answers_min_ttl(p, pos as int, (ancount - j) as nat, min_ttl) == answers_min_ttl(
                p,
                skip_questions(p, 12, qdcount as nat)->0,
                ancount as nat,
                u32::MAX,
            ),
        ensures
            min_ttl == answers_min_ttl(
                p,
                skip_questions(p, 12, qdcount as nat)->0,
                ancount as nat,
                u32::MAX,
            ),
        decreases ancount - j,
    {
        match skip_name(packet, pos) {
            Some(np) => {
                proof {
                    lemma_skip_name_bound(p, pos as int);
                }
                if 10 > n - np {
                    break;
                }
                pos = np;
            },
            None => break,
        }
        let ttl: u32 = (packet[pos + 4] as u32) * 16777216 + (packet[pos + 5] as u32) * 65536
            + (packet[pos + 6] as u32) * 256 + (packet[pos + 7] as u32);
        let rdlength = (packet[pos + 8] as usize) * 256 + (packet[pos + 9] as usize);
        if ttl < min_ttl {
            min_ttl = ttl;
        }
        if rdlength > n - pos - 10 {
            break;
        }
        pos += 10 + rdlength;
        j += 1;
    }
    if min_ttl == u32::MAX {
        FALLBACK_TTL
    } else {
        min_ttl as u64
    }
}


// ---------------------------------------------------------------------------
// The cache
// ---------------------------------------------------------------------------

/// A cache key: (lowercase domain, query type).
pub type CacheKey = (Seq<char>, u16);

/// A cached response and the time (ms) at which it expires.
pub type CacheValue = (Seq<u8>, u64);

struct CacheEntry {
    domain: Vec<char>,
    qtype: u16,
    response: Vec<u8>,
    expires_at: u64,
}

spec fn entry_key(e: CacheEntry) -> CacheKey {
    (e.domain@, e.qtype)
}

spec fn entry_val(e: CacheEntry) -> CacheValue {
    (e.response@, e.expires_at)
}

spec fn keys_of(es: Seq<CacheEntry>) -> Seq<CacheKey> {
    es.map_values(|e: CacheEntry| entry_key(e))
}

spec fn map_of(es: Seq<CacheEntry>) -> Map<CacheKey, CacheValue> {
    Map::new(
        |k: CacheKey| keys_of(es).contains(k),
        |k: CacheKey| entry_val(es[choose|i: int| 0 <= i < es.len() && entry_key(es[i]) == k]),
    )
}

/// What `put` keeps before inserting: when the cache is full, the entries
/// that have not expired at `now`.
pub open spec fn live_entries(m: Map<CacheKey, CacheValue>, now: u64) -> Map<CacheKey, CacheValue> {
    Map::new(|k: CacheKey| m.contains_key(k) && m[k].1 > now, |k: CacheKey| m[k])
}

/// `k` expires no later than any other key of `m`.
pub open spec fn earliest_expiry(m: Map<CacheKey, CacheValue>, k: CacheKey) -> bool {
    m.contains_key(k) && forall|j: CacheKey| #[trigger] m.contains_key(j) ==> m[k].1 <= m[j].1
}

/// What `put` keeps before inserting: the entries that have not expired
/// when the cache is full, else all of them.
pub open spec fn evict_expired(m0: Map<CacheKey, CacheValue>, cap: usize, now: u64) -> Map<CacheKey, CacheValue> {
    if m0.dom().len() >= cap {
        live_entries(m0, now)
    } else {
        m0
    }
}

/// `m` is `m1` with `k` set to `v`, after evicting an entry that expires
/// first when `m1` is still full.
pub open spec fn inserted_after_eviction(
    m1: Map<CacheKey, CacheValue>,
    cap: usize,
    k: CacheKey,
    v: CacheValue,
    m: Map<CacheKey, CacheValue>,
) -> bool {
    if m1.dom().len() >= cap && m1.dom().len() > 0 {
        exists|e: CacheKey| earliest_expiry(m1, e) && m == m1.remove(e).insert(k, v)
    } else {
        m == m1.insert(k, v)
    }
}

/// The TTL (seconds) a response is cached for: its minimum answer TTL
/// clamped to [MIN_CACHE_TTL, MAX_CACHE_TTL].
pub open spec fn cache_ttl(response: Seq<u8>) -> u64 {
    let t = spec_min_ttl(response);
    if t < MIN_CACHE_TTL {
        MIN_CACHE_TTL
    } else if t > MAX_CACHE_TTL {
        MAX_CACHE_TTL
    } else {
        t
    }
}

/// An in-memory, TTL-aware DNS response cache keyed by (domain, query type).
/// Times are milliseconds on a monotonic clock chosen by the caller.
pub struct DnsCache {
    entries: Vec<CacheEntry>,
    max_entries: usize,
}

proof fn lemma_map_of_index(es: Seq<CacheEntry>, i: int)
    requires
        keys_of(es).no_duplicates(),
        0 <= i < es.len(),
    ensures
        map_of(es).contains_key(entry_key(es[i])),
        map_of(es)[entry_key(es[i])] == entry_val(es[i]),
{
    let k = entry_key(es[i]);
    assert(keys_of(es)[i] == k);
    let j = choose|j: int| 0 <= j < es.len() && entry_key(es[j]) == k;
    assert(keys_of(es)[j] == k);
}

proof fn lemma_map_of_has(es: Seq<CacheEntry>, k: CacheKey)
    ensures
        map_of(es).contains_key(k) <==> exists|i: int| 0 <= i < es.len() && entry_key(es[i]) == k,
{
    if map_of(es).contains_key(k) {
        let j = choose|j: int| 0 <= j < keys_of(es).len() && keys_of(es)[j] == k;
        assert(entry_key(es[j]) == k);
    }
    if exists|i: int| 0 <= i < es.len() && entry_key(es[i]) == k {
        let i = choose|i: int| 0 <= i < es.len() && entry_key(es[i]) == k;
        assert(keys_of(es)[i] == k);
    }
}

proof fn lemma_map_of_len(es: Seq<CacheEntry>)
    requires
        keys_of(es).no_duplicates(),
    ensures
        map_of(es).dom().finite(),
        map_of(es).dom().len() == es.len(),
{
    assert(map_of(es).dom() =~= keys_of(es).to_set());
    keys_of(es).unique_seq_to_set();
}

/// Two maps built from entry sequences are equal when they have the same
/// keys and agree on each entry of the first.
proof fn lemma_map_of_ext(a: Seq<CacheEntry>, m: Map<CacheKey, CacheValue>)
    requires
        keys_of(a).no_duplicates(),
        forall|k: CacheKey| m.contains_key(k) <==> exists|i: int| 0 <= i < a.len() && entry_key(a[i]) == k,
        forall|i: int| 0 <= i < a.len() ==> m[entry_key(#[trigger] a[i])] == entry_val(a[i]),
    ensures
        map_of(a) == m,
{
    assert forall|k: CacheKey| map_of(a).contains_key(k) <==> m.contains_key(k) by {
        lemma_map_of_has(a, k);
    }
    assert forall|k: CacheKey| map_of(a).contains_key(k) implies map_of(a)[k] == m[k] by {
        lemma_map_of_has(a, k);
        let i = choose|i: int| 0 <= i < a.len() && entry_key(a[i]) == k;
        lemma_map_of_index(a, i);
    }
    assert(map_of(a) =~= m);
}

fn copy_bytes(v: &Vec<u8>) -> (r: Vec<u8>)
    ensures
        r@ == v@,
{
    let mut r: Vec<u8> = Vec::new();
    let mut k: usize = 0;
    while k < v.len()
        invariant
            k <= v@.len(),
            r@ == v@.take(k as int),
        decreases v@.len() - k,
    {
        r.push(v[k]);
        k += 1;
        assert(r@ =~= v@.take(k as int));
    }
    assert(v@.take(v@.len() as int) =~= v@);
    r
}

/// Index of the entry with key `(d, t)`, if any.
fn find_entry(es: &Vec<CacheEntry>, d: &Vec<char>, t: u16) -> (r: Option<usize>)
    ensures
        r matches Some(i) ==> i < es@.len() && entry_key(es@[i as int]) == (d@, t),
        r is None ==> forall|i: int| 0 <= i < es@.len() ==> entry_key(#[trigger] es@[i]) != (d@, t),
{
    let mut k: usize = 0;
    while k < es.len()
        invariant
            k <= es@.len(),
            forall|i: int| 0 <= i < k ==> entry_key(#[trigger] es@[i]) != (d@, t),
        decreases es@.len() - k,
    {
        if es[k].qtype == t && chars_eq(&es[k].domain, d) {
            return Some(k);
        }
        k += 1;
    }
    None
}

impl DnsCache {
    #[verifier::type_invariant]
    spec fn inv(self) -> bool {
        &&& keys_of(self.entries@).no_duplicates()
        &&& (self.entries@.len() <= self.max_entries || self.entries@.len() <= 1)
    }

    /// The cached responses by (lowercase domain, query type).
    pub closed spec fn view(&self) -> Map<CacheKey, CacheValue> {
        map_of(self.entries@)
    }

    /// The capacity the cache was created with.
    pub closed spec fn capacity(&self) -> usize {
        self.max_entries
    }

    /// Create a cache holding at most `max_entries` responses (at most one
    /// when `max_entries` is 0).
    pub fn new(max_entries: usize) -> (c: Self)
        ensures
            c@ == Map::<CacheKey, CacheValue>::empty(),
            c.capacity() == max_entries,
    {
        let c = DnsCache { entries: Vec::new(), max_entries };
        proof {
            assert(map_of(c.entries@) =~= Map::<CacheKey, CacheValue>::empty());
        }
        c
    }

    /// Number of cached responses.
    pub fn len(&self) -> (n: usize)
        ensures
            n == self@.dom().len(),
            self@.dom().finite(),
            n <= self.capacity() || n <= 1,
    {
        proof {
            use_type_invariant(self);
            lemma_map_of_len(self.entries@);
        }
        self.entries.len()
    }

    /// Look up a cached response for `domain` (ASCII case-insensitive) and
    /// `qtype`.  `None` on a miss or when the entry has expired at `now`.
    pub fn get(&self, domain: &str, qtype: u16, now: u64) -> (r: Option<Vec<u8>>)
        ensures
            ({
                let k = (ascii_lower(domain@), qtype);
                if self@.contains_key(k) && self@[k].1 > now {
                    r matches Some(v) && v@ == self@[k].0
                } else {
                    r is None
                }
            }),
    {
        proof {
            use_type_invariant(self);
        }
        let d = to_ascii_lowercase(domain);
        let ghost k = (d@, qtype);
        proof {
            lemma_map_of_has(self.entries@, k);
        }
        match find_entry(&self.entries, &d, qtype) {
            Some(i) => {
                proof {
                    lemma_map_of_index(self.entries@, i as int);
                }
                if self.entries[i].expires_at <= now {
                    None
                } else {
                    Some(copy_bytes(&self.entries[i].response))
                }
            },
            None => None,
        }
    }

    /// Drop all cached entries (on a network change, so that addresses
    /// from the previous network are not served).
    pub fn flush(&mut self)
        ensures
            final(self)@ == Map::<CacheKey, CacheValue>::empty(),
            final(self).capacity() == old(self).capacity(),
    {
        self.entries = Vec::new();
        proof {
            assert(map_of(self.entries@) =~= Map::<CacheKey, CacheValue>::empty());
        }
    }

    /// Store a response for `domain` and `qtype` at time `now`; it expires
    /// after its minimum answer TTL, clamped to [60 s, 3600 s].
    ///
    /// When the cache is full, expired entries are dropped first; if it is
    /// still full, an entry with the earliest expiry is evicted.
    pub fn put(&mut self, domain: &str, qtype: u16, response: &[u8], now: u64)
        requires
            now <= u64::MAX - 3_600_000,
        ensures
            final(self).capacity() == old(self).capacity(),
            inserted_after_eviction(
                evict_expired(old(self)@, old(self).capacity(), now),
                old(self).capacity(),
                (ascii_lower(domain@), qtype),
                (response@, (now + cache_ttl(response@) * 1000) as u64),
                final(self)@,
            ),
            final(self)@.contains_key((ascii_lower(domain@), qtype)),
            final(self)@[(ascii_lower(domain@), qtype)] == (
                response@,
                (now + cache_ttl(response@) * 1000) as u64,
            ),
            final(self)@.dom().finite(),
            final(self)@.dom().len() <= final(self).capacity() || final(self)@.dom().len() <= 1,
            old(self).capacity() >= 1 ==> final(self)@.dom().len() <= final(self).capacity(),
    {
        proof {
            use_type_invariant(&*self);
        }
        let ttl = parse_min_ttl(response);
        let ttl_secs = if ttl < MIN_CACHE_TTL {
            MIN_CACHE_TTL
        } else if ttl > MAX_CACHE_TTL {
            MAX_CACHE_TTL
        } else {
            ttl
        };
        let expires_at = now + ttl_secs * 1000;
        let d = to_ascii_lowercase(domain);
        let ghost k = (d@, qtype);
        let ghost v = (response@, expires_at);
        let max = self.max_entries;
        let mut es: Vec<CacheEntry> = Vec::new();
        std::mem::swap(&mut es, &mut self.entries);
        let ghost m0 = map_of(es@);
        let ghost len0 = es@.len();
        proof {
            lemma_map_of_len(es@);
        }
        // Evict expired entries if at capacity.
        if es.len() >= max {
            es = retain_live(es, now);
        }
        let ghost m1 = map_of(es@);
        let ghost len1 = es@.len();
        proof {
            lemma_map_of_len(es@);
        }
        let ghost mut evicted: Option<CacheKey> = None;
        // If still at capacity, evict the entry that expires first.
        if es.len() >= max && es.len() > 0 {
            let i = earliest(&es);
            let ghost before = es@;
            es.remove(i);
            proof {
                lemma_remove_entry(before, i as int);
                lemma_earliest_key(before, i as int);
                evicted = Some(entry_key(before[i as int]));
            }
        }
        let ghost m2 = map_of(es@);
        let ghost len2 = es@.len();
        let resp = copy_slice(response);
        let entry = CacheEntry { domain: d, qtype, response: resp, expires_at };
        proof {
            assert(entry_key(entry) == k);
            assert(entry_val(entry) == v);
        }
        es = upsert(es, entry);
        proof {
            assert(map_of(es@) == m2.insert(k, v));
            assert(len1 <= len0);
            assert(es@.len() <= max || es@.len() <= 1);
        }
        let ghost fin = es@;
        assert(m1 == if m0.dom().len() >= max {
            live_entries(m0, now)
        } else {
            m0
        });
        self.entries = es;
        proof {
            assert(self@ == map_of(fin));
            assert(m0 == old(self)@);
            assert(m0.dom().len() == len0);
            assert(m1.dom().len() == len1);
            assert(expires_at == (now + cache_ttl(response@) * 1000) as u64);
            assert(k == (ascii_lower(domain@), qtype));
            assert(evict_expired(old(self)@, old(self).capacity(), now) == m1);
            match evicted {
                Some(e) => {
                    assert(earliest_expiry(m1, e) && self@ == m1.remove(e).insert(k, v));
                    assert(inserted_after_eviction(m1, max, k, v, self@));
                },
                None => {
                    assert(self@ == m1.insert(k, v));
                    assert(inserted_after_eviction(m1, max, k, v, self@));
                },
            }
            assert(self.capacity() == old(self).capacity());
            lemma_map_of_len(fin);
            assert(self@.contains_key(k) && self@[k] == v);
        }
    }
}

impl Default for DnsCache {
    /// A cache of the default capacity.
    fn default() -> (c: Self)
        ensures
            c@ == Map::<CacheKey, CacheValue>::empty(),
            c.capacity() == DEFAULT_MAX_ENTRIES,
    {
        Self::new(DEFAULT_MAX_ENTRIES)
    }
}

fn copy_slice(v: &[u8]) -> (r: Vec<u8>)
    ensures
        r@ == v@,
{
    let mut r: Vec<u8> = Vec::new();
    let mut k: usize = 0;
    while k < v.len()
        invariant
            k <= v@.len(),
            r@ == v@.take(k as int),
        decreases v@.len() - k,
    {
        r.push(v[k]);
        k += 1;
        assert(r@ =~= v@.take(k as int));
    }
    assert(v@.take(v@.len() as int) =~= v@);
    r
}

/// `e` occurs in `src` at an index of at least `n`, and is live at `now`.
spec fn live_from(src: Seq<CacheEntry>, n: int, now: u64, e: CacheEntry) -> bool {
    exists|j: int| n <= j < src.len() && src[j] == e && e.expires_at > now
}

spec fn retained(src: Seq<CacheEntry>, out: Seq<CacheEntry>, n: int, now: u64) -> bool {
    &&& keys_of(out).no_duplicates()
    &&& out.len() + n <= src.len()
    &&& forall|i: int| 0 <= i < out.len() ==> #[trigger] live_from(src, n, now, out[i])
    &&& forall|j: int| n <= j < src.len() && src[j].expires_at > now ==> out.contains(#[trigger] src[j])
}

proof fn lemma_retained_start(src: Seq<CacheEntry>, now: u64)
    ensures
        retained(src, Seq::<CacheEntry>::empty(), src.len() as int, now),
{
    assert(keys_of(Seq::<CacheEntry>::empty()) =~= Seq::<CacheKey>::empty());
}

proof fn lemma_retained_keep(src: Seq<CacheEntry>, out: Seq<CacheEntry>, n: int, now: u64)
    requires
        keys_of(src).no_duplicates(),
        0 <= n < src.len(),
        retained(src, out, n + 1, now),
        src[n].expires_at > now,
    ensures
        retained(src, out.push(src[n]), n, now),
{
    let e = src[n];
    let after = out.push(e);
    assert forall|x: int, y: int| 0 <= x < y < keys_of(after).len() implies keys_of(after)[x]
        != keys_of(after)[y] by {
        if y == out.len() {
            assert(live_from(src, n + 1, now, out[x]));
            let j = choose|j: int| n + 1 <= j < src.len() && src[j] == out[x] && out[x].expires_at > now;
            assert(keys_of(src)[j] == entry_key(out[x]));
            assert(keys_of(src)[n] == entry_key(e));
            assert(after[x] == out[x]);
        } else {
            assert(keys_of(out)[x] == keys_of(after)[x]);
            assert(keys_of(out)[y] == keys_of(after)[y]);
        }
    }
    assert forall|i: int| 0 <= i < after.len() implies #[trigger] live_from(src, n, now, after[i]) by {
        if i < out.len() {
            assert(after[i] == out[i]);
            assert(live_from(src, n + 1, now, out[i]));
            let j = choose|j: int| n + 1 <= j < src.len() && src[j] == out[i] && out[i].expires_at > now;
            assert(n <= j < src.len() && src[j] == after[i] && after[i].expires_at > now);
        } else {
            assert(after[i] == src[n]);
            assert(n <= n < src.len() && src[n] == after[i] && after[i].expires_at > now);
        }
    }
    assert forall|j: int| n <= j < src.len() && src[j].expires_at > now implies after.contains(#[trigger] src[j]) by {
        if j == n {
            assert(after[out.len() as int] == src[j]);
        } else {
            assert(out.contains(src[j]));
            let i = choose|i: int| 0 <= i < out.len() && out[i] == src[j];
            assert(after[i] == src[j]);
        }
    }
}

proof fn lemma_retained_drop(src: Seq<CacheEntry>, out: Seq<CacheEntry>, n: int, now: u64)
    requires
        0 <= n < src.len(),
        retained(src, out, n + 1, now),
        src[n].expires_at <= now,
    ensures
        retained(src, out, n, now),
{
    assert forall|i: int| 0 <= i < out.len() implies #[trigger] live_from(src, n, now, out[i]) by {
        assert(live_from(src, n + 1, now, out[i]));
        let j = choose|j: int| n + 1 <= j < src.len() && src[j] == out[i] && out[i].expires_at > now;
        assert(n <= j < src.len() && src[j] == out[i] && out[i].expires_at > now);
    }
    assert forall|j: int| n <= j < src.len() && src[j].expires_at > now implies out.contains(#[trigger] src[j]) by {
        assert(j != n);
    }
}

proof fn lemma_retained_done(src: Seq<CacheEntry>, out: Seq<CacheEntry>, now: u64)
    requires
        keys_of(src).no_duplicates(),
        retained(src, out, 0, now),
    ensures
        keys_of(out).no_duplicates(),
        out.len() <= src.len(),
        map_of(out) == live_entries(map_of(src), now),
{
    let m = live_entries(map_of(src), now);
    assert forall|k: CacheKey| m.contains_key(k) <==> exists|i: int|
        0 <= i < out.len() && entry_key(out[i]) == k by {
        lemma_map_of_has(src, k);
        if m.contains_key(k) {
            let j = choose|j: int| 0 <= j < src.len() && entry_key(src[j]) == k;
            lemma_map_of_index(src, j);
            assert(src[j].expires_at > now);
            assert(out.contains(src[j]));
            let i = choose|i: int| 0 <= i < out.len() && out[i] == src[j];
            assert(entry_key(out[i]) == k);
        }
        if exists|i: int| 0 <= i < out.len() && entry_key(out[i]) == k {
            let i = choose|i: int| 0 <= i < out.len() && entry_key(out[i]) == k;
            assert(live_from(src, 0, now, out[i]));
            let j = choose|j: int| 0 <= j < src.len() && src[j] == out[i] && out[i].expires_at > now;
            lemma_map_of_index(src, j);
        }
    }
    assert forall|i: int| 0 <= i < out.len() implies m[entry_key(#[trigger] out[i])] == entry_val(out[i]) by {
        assert(live_from(src, 0, now, out[i]));
        let j = choose|j: int| 0 <= j < src.len() && src[j] == out[i] && out[i].expires_at > now;
        lemma_map_of_index(src, j);
    }
    lemma_map_of_ext(out, m);
}

/// The entries that have not expired at `now`.
fn retain_live(es: Vec<CacheEntry>, now: u64) -> (r: Vec<CacheEntry>)
    requires
        keys_of(es@).no_duplicates(),
    ensures
        keys_of(r@).no_duplicates(),
        r@.len() <= es@.len(),
        map_of(r@) == live_entries(map_of(es@), now),
{
    let ghost src = es@;
    let mut es = es;
    let mut out: Vec<CacheEntry> = Vec::new();
    proof {
        lemma_retained_start(src, now);
        assert(out@ =~= Seq::<CacheEntry>::empty());
    }
    while es.len() > 0
        invariant
            keys_of(src).no_duplicates(),
            es@ == src.take(es@.len() as int),
            es@.len() <= src.len(),
            retained(src, out@, es@.len() as int, now),
        decreases es@.len(),
    {
        let ghost n = es@.len() - 1;
        let ghost before = out@;
        let e = es.pop().unwrap();
        proof {
            assert(src[n] == e);
            assert(es@ =~= src.take(n));
        }
        if e.expires_at > now {
            out.push(e);
            proof {
                lemma_retained_keep(src, before, n, now);
            }
        } else {
            proof {
                lemma_retained_drop(src, before, n, now);
            }
        }
    }
    proof {
        lemma_retained_done(src, out@, now);
    }
    out
}

/// Index of an entry with the earliest expiry.
fn earliest(es: &Vec<CacheEntry>) -> (i: usize)
    requires
        es@.len() > 0,
    ensures
        i < es@.len(),
        forall|j: int| 0 <= j < es@.len() ==> es@[i as int].expires_at <= #[trigger] es@[j].expires_at,
{
    let mut best: usize = 0;
    let mut k: usize = 1;
    while k < es.len()
        invariant
            0 < es@.len(),
            best < es@.len(),
            1 <= k <= es@.len(),
            forall|j: int| 0 <= j < k ==> es@[best as int].expires_at <= #[trigger] es@[j].expires_at,
        decreases es@.len() - k,
    {
        if es[k].expires_at < es[best].expires_at {
            best = k;
        }
        k += 1;
    }
    best
}

proof fn lemma_remove_entry(before: Seq<CacheEntry>, i: int)
    requires
        keys_of(before).no_duplicates(),
        0 <= i < before.len(),
    ensures
        keys_of(before.remove(i)).no_duplicates(),
        map_of(before.remove(i)) == map_of(before).remove(entry_key(before[i])),
{
    let after = before.remove(i);
    assert forall|x: int, y: int| 0 <= x < y < keys_of(after).len() implies keys_of(after)[x]
        != keys_of(after)[y] by {
        let x2 = if x < i { x } else { x + 1 };
        let y2 = if y < i { y } else { y + 1 };
        assert(keys_of(after)[x] == keys_of(before)[x2]);
        assert(keys_of(after)[y] == keys_of(before)[y2]);
    }
    let m = map_of(before).remove(entry_key(before[i]));
    assert forall|k: CacheKey| m.contains_key(k) <==> exists|j: int| 0 <= j < after.len() && entry_key(after[j]) == k by {
        lemma_map_of_has(before, k);
        if m.contains_key(k) {
            let j = choose|j: int| 0 <= j < before.len() && entry_key(before[j]) == k;
            if j < i {
                assert(after[j] == before[j]);
            } else {
                assert(j != i);
                assert(after[j - 1] == before[j]);
            }
        }
        if exists|j: int| 0 <= j < after.len() && entry_key(after[j]) == k {
            let j = choose|j: int| 0 <= j < after.len() && entry_key(after[j]) == k;
            let j2 = if j < i { j } else { j + 1 };
            assert(after[j] == before[j2]);
            assert(keys_of(before)[j2] == k);
            assert(keys_of(before)[i] == entry_key(before[i]));
        }
    }
    assert forall|j: int| 0 <= j < after.len() implies m[entry_key(#[trigger] after[j])] == entry_val(after[j]) by {
        let j2 = if j < i { j } else { j + 1 };
        assert(after[j] == before[j2]);
        lemma_map_of_index(before, j2);
        assert(keys_of(before)[j2] == entry_key(before[j2]));
        assert(keys_of(before)[i] == entry_key(before[i]));
        assert(entry_key(before[j2]) != entry_key(before[i]));
    }
    lemma_map_of_ext(after, m);
}

proof fn lemma_earliest_key(es: Seq<CacheEntry>, i: int)
    requires
        keys_of(es).no_duplicates(),
        0 <= i < es.len(),
        forall|j: int| 0 <= j < es.len() ==> es[i].expires_at <= #[trigger] es[j].expires_at,
    ensures
        earliest_expiry(map_of(es), entry_key(es[i])),
{
    lemma_map_of_index(es, i);
    assert forall|k: CacheKey| #[trigger] map_of(es).contains_key(k) implies map_of(es)[entry_key(es[i])].1
        <= map_of(es)[k].1 by {
        lemma_map_of_has(es, k);
        let j = choose|j: int| 0 <= j < es.len() && entry_key(es[j]) == k;
        lemma_map_of_index(es, j);
    }
}

/// `es` with `entry` stored under its key (replacing an entry of that key).
fn upsert(es: Vec<CacheEntry>, entry: CacheEntry) -> (r: Vec<CacheEntry>)
    requires
        keys_of(es@).no_duplicates(),
    ensures
        keys_of(r@).no_duplicates(),
        map_of(r@) == map_of(es@).insert(entry_key(entry), entry_val(entry)),
        r@.len() <= es@.len() + 1,
{
    let mut es = es;
    let ghost before = es@;
    let ghost m = map_of(before).insert(entry_key(entry), entry_val(entry));
    match find_entry(&es, &entry.domain, entry.qtype) {
        Some(i) => {
            let ghost ek = entry_key(entry);
            es.set(i, entry);
            proof {
                let after = es@;
                assert(after =~= before.update(i as int, entry));
                assert forall|x: int, y: int| 0 <= x < y < keys_of(after).len() implies keys_of(after)[x]
                    != keys_of(after)[y] by {
                    assert(keys_of(before)[i as int] == ek);
                    if x != i {
                        assert(keys_of(after)[x] == keys_of(before)[x]);
                    }
                    if y != i {
                        assert(keys_of(after)[y] == keys_of(before)[y]);
                    }
                }
                assert forall|k: CacheKey| m.contains_key(k) <==> exists|j: int| 0 <= j < after.len() && entry_key(after[j]) == k by {
                    lemma_map_of_has(before, k);
                    if m.contains_key(k) {
                        if k == ek {
                            assert(entry_key(after[i as int]) == k);
                        } else {
                            let j = choose|j: int| 0 <= j < before.len() && entry_key(before[j]) == k;
                            assert(after[j] == before[j]);
                        }
                    }
                    if exists|j: int| 0 <= j < after.len() && entry_key(after[j]) == k {
                        let j = choose|j: int| 0 <= j < after.len() && entry_key(after[j]) == k;
                        if j != i {
                            assert(after[j] == before[j]);
                        }
                    }
                }
                assert forall|j: int| 0 <= j < after.len() implies m[entry_key(#[trigger] after[j])] == entry_val(after[j]) by {
                    if j != i {
                        assert(after[j] == before[j]);
                        lemma_map_of_index(before, j);
                        assert(keys_of(before)[j] == entry_key(before[j]));
                        assert(keys_of(before)[i as int] == ek);
                    }
                }
                lemma_map_of_ext(after, m);
            }
            es
        },
        None => {
            let ghost ek = entry_key(entry);
            es.push(entry);
            proof {
                let after = es@;
                assert(after =~= before.push(entry));
                assert forall|x: int, y: int| 0 <= x < y < keys_of(after).len() implies keys_of(after)[x]
                    != keys_of(after)[y] by {
                    assert(keys_of(after)[x] == entry_key(after[x]));
                    if y < before.len() {
                        assert(keys_of(before)[x] == keys_of(after)[x]);
                        assert(keys_of(before)[y] == keys_of(after)[y]);
                    } else {
                        assert(after[x] == before[x]);
                    }
                }
                assert forall|k: CacheKey| m.contains_key(k) <==> exists|j: int| 0 <= j < after.len() && entry_key(after[j]) == k by {
                    lemma_map_of_has(before, k);
                    if m.contains_key(k) {
                        if k == ek {
                            assert(entry_key(after[before.len() as int]) == k);
                        } else {
                            let j = choose|j: int| 0 <= j < before.len() && entry_key(before[j]) == k;
                            assert(after[j] == before[j]);
                        }
                    }
                    if exists|j: int| 0 <= j < after.len() && entry_key(after[j]) == k {
                        let j = choose|j: int| 0 <= j < after.len() && entry_key(after[j]) == k;
                        if j < before.len() {
                            assert(after[j] == before[j]);
                        }
                    }
                }
                assert forall|j: int| 0 <= j < after.len() implies m[entry_key(#[trigger] after[j])] == entry_val(after[j]) by {
                    if j < before.len() {
                        assert(after[j] == before[j]);
                        lemma_map_of_index(before, j);
                    }
                }
                lemma_map_of_ext(after, m);
            }
            es
        },
    }
}

/// A response just stored is what the cache holds for its key: after `put`
/// stores `v` under `k`, the cache maps `k` to `v`, whatever was evicted to
/// make room.
pub proof fn law_put_then_holds(
    before: Map<CacheKey, CacheValue>,
    cap: usize,
    now: u64,
    k: CacheKey,
    v: CacheValue,
    after: Map<CacheKey, CacheValue>,
)
    requires
        inserted_after_eviction(evict_expired(before, cap, now), cap, k, v, after),
    ensures
        after.contains_key(k),
        after[k] == v,
{
}

/// `put` keeps every other entry that is live at `now`, unless the cache
/// was still full and that entry was the one evicted (one of those that
/// expire first).
pub proof fn law_put_keeps_live_entries(
    before: Map<CacheKey, CacheValue>,
    cap: usize,
    now: u64,
    k: CacheKey,
    v: CacheValue,
    after: Map<CacheKey, CacheValue>,
    j: CacheKey,
)
    requires
        inserted_after_eviction(evict_expired(before, cap, now), cap, k, v, after),
        before.contains_key(j),
        before[j].1 > now,
        j != k,
        !after.contains_key(j),
    ensures
        earliest_expiry(evict_expired(before, cap, now), j),
{
    let m1 = evict_expired(before, cap, now);
    assert(m1.contains_key(j));
    if m1.dom().len() >= cap && m1.dom().len() > 0 {
        let e = choose|e: CacheKey| earliest_expiry(m1, e) && after == m1.remove(e).insert(k, v);
        if e != j {
            assert(after.contains_key(j));
        }
    } else {
        assert(after.contains_key(j));
    }
}

/// Entries are kept between one minute and one hour.
pub proof fn law_ttl_clamped(response: Seq<u8>)
    ensures
        MIN_CACHE_TTL <= cache_ttl(response) <= MAX_CACHE_TTL,
{
}

/// A name written as plain labels: for each label its length byte and its
/// bytes, then the zero byte that ends the name.
pub open spec fn plain_name(labels: Seq<Seq<u8>>) -> Seq<u8>
    decreases labels.len(),
{
    if labels.len() == 0 {
        seq![0u8]
    } else {
        seq![labels[0].len() as u8] + labels[0] + plain_name(labels.drop_first())
    }
}

/// Every label is 1 to 63 bytes long.
pub open spec fn plain_labels(labels: Seq<Seq<u8>>) -> bool {
    forall|i: int| 0 <= i < labels.len() ==> 0 < #[trigger] labels[i].len() < 64
}

proof fn lemma_skip_plain_name(p: Seq<u8>, pos: int, labels: Seq<Seq<u8>>)
    requires
        plain_labels(labels),
        0 <= pos,
        pos + plain_name(labels).len() <= p.len(),
        p.subrange(pos, pos + plain_name(labels).len()) == plain_name(labels),
    ensures
        spec_skip_name(p, pos) == Some(pos + plain_name(labels).len()),
    decreases labels.len(),
{
    let enc = plain_name(labels);
    assert(p[pos] == p.subrange(pos, pos + enc.len())[0]);
    if labels.len() > 0 {
        let l = labels[0];
        let rest = labels.drop_first();
        assert(0 < l.len() < 64);
        assert(enc[0] == l.len() as u8);
        assert(p[pos] == l.len());
        let q = pos + 1 + l.len();
        assert(plain_labels(rest)) by {
            assert forall|i: int| 0 <= i < rest.len() implies 0 < #[trigger] rest[i].len() < 64 by {
                assert(rest[i] == labels[i + 1]);
            }
        }
        assert(enc.len() == 1 + l.len() + plain_name(rest).len());
        assert(p.subrange(q, q + plain_name(rest).len()) =~= plain_name(rest)) by {
            assert forall|k: int| 0 <= k < plain_name(rest).len() implies p.subrange(
                q,
                q + plain_name(rest).len(),
            )[k] == plain_name(rest)[k] by {
                assert(p[q + k] == p.subrange(pos, pos + enc.len())[1 + l.len() + k]);
                assert(enc[1 + l.len() + k] == plain_name(rest)[k]);
            }
        }
        lemma_skip_plain_name(p, q, rest);
    }
}

/// The query type is read right after the question's name: for a query of a
/// 12-byte header, a name written as plain labels, then QTYPE and QCLASS
/// (and whatever follows), the query type is QTYPE, whatever QCLASS holds.
pub proof fn law_query_type_follows_name(
    header: Seq<u8>,
    labels: Seq<Seq<u8>>,
    qtype: u16,
    qclass: u16,
    rest: Seq<u8>,
)
    requires
        header.len() == 12,
        plain_labels(labels),
    ensures
        spec_query_type(header + plain_name(labels) + be16(qtype) + be16(qclass) + rest) == Some(
            qtype,
        ),
{
    let name = plain_name(labels);
    let q = header + name + be16(qtype) + be16(qclass) + rest;
    assert(name.len() >= 1) by {
        reveal_with_fuel(plain_name, 2);
    }
    assert(q.subrange(12, 12 + name.len() as int) =~= name);
    lemma_skip_plain_name(q, 12, labels);
    let pos: int = 12 + name.len() as int;
    assert(q[pos] == (qtype / 256) as u8);
    assert(q[pos + 1] == (qtype % 256) as u8);
    assert(be16_at(q, pos) == qtype);
}

/// The TTLs of the answer records read from `pos` on: up to `n` records, each
/// a name, TYPE, CLASS, TTL, RDLENGTH and RDATA.  Reading stops at the first
/// record whose fixed fields do not fit, and after one whose RDATA runs past
/// the end.
pub open spec fn answer_ttls_from(p: Seq<u8>, pos: int, n: nat) -> Seq<u32>
    decreases n,
{
    if n == 0 {
        seq![]
    } else {
        match spec_skip_name(p, pos) {
            None => seq![],
            Some(np) => if np + 10 > p.len() {
                seq![]
            } else {
                let ttl = be32u_at(p, np + 4) as u32;
                let next = np + 10 + be16_at(p, np + 8);
                if next > p.len() {
                    seq![ttl]
                } else {
                    seq![ttl] + answer_ttls_from(p, next, (n - 1) as nat)
                }
            },
        }
    }
}

/// The TTLs of a response's answer records, in order: none when the header
/// or the question section cannot be read.
pub open spec fn answer_ttls(p: Seq<u8>) -> Seq<u32> {
    if p.len() < 12 {
        seq![]
    } else {
        match skip_questions(p, 12, be16_at(p, 4) as nat) {
            None => seq![],
            Some(pos) => answer_ttls_from(p, pos, be16_at(p, 6) as nat),
        }
    }
}

proof fn lemma_answers_min_ttl(p: Seq<u8>, pos: int, n: nat, cur: u32)
    ensures
        answers_min_ttl(p, pos, n, cur) <= cur,
        forall|i: int|
            0 <= i < answer_ttls_from(p, pos, n).len() ==> answers_min_ttl(p, pos, n, cur)
                <= #[trigger] answer_ttls_from(p, pos, n)[i],
        answers_min_ttl(p, pos, n, cur) == cur || exists|i: int|
            0 <= i < answer_ttls_from(p, pos, n).len() && answers_min_ttl(p, pos, n, cur)
                == #[trigger] answer_ttls_from(p, pos, n)[i],
    decreases n,
{
    if n > 0 {
        if let Some(np) = spec_skip_name(p, pos) {
            if np + 10 <= p.len() {
                let ttl = be32u_at(p, np + 4) as u32;
                let m = if ttl < cur { ttl } else { cur };
                let next = np + 10 + be16_at(p, np + 8);
                let ts = answer_ttls_from(p, pos, n);
                let r = answers_min_ttl(p, pos, n, cur);
                if next > p.len() {
                    assert(ts =~= seq![ttl]);
                    assert(ts[0] == ttl);
                } else {
                    let tail = answer_ttls_from(p, next, (n - 1) as nat);
                    lemma_answers_min_ttl(p, next, (n - 1) as nat, m);
                    assert(ts =~= seq![ttl] + tail);
                    assert(r == answers_min_ttl(p, next, (n - 1) as nat, m));
                    assert forall|i: int| 0 <= i < ts.len() implies r <= #[trigger] ts[i] by {
                        if i > 0 {
                            assert(ts[i] == tail[i - 1]);
                        }
                    }
                    if r != cur {
                        if r == m {
                            assert(ts[0] == ttl);
                        } else {
                            let j = choose|j: int| 0 <= j < tail.len() && r == #[trigger] tail[j];
                            assert(ts[j + 1] == tail[j]);
                        }
                    }
                }
            }
        }
    }
}

/// What a response is cached for comes from its answer records: the minimum
/// TTL is at most the TTL of every answer record read, it is one of those
/// TTLs or FALLBACK_TTL, it is one of those TTLs whenever one of them is
/// below the largest `u32`, and it is FALLBACK_TTL when no record can be
/// read.
pub proof fn law_min_ttl_is_least_answer_ttl(p: Seq<u8>)
    ensures
        forall|i: int|
            0 <= i < answer_ttls(p).len() ==> spec_min_ttl(p) <= #[trigger] answer_ttls(p)[i],
        spec_min_ttl(p) == FALLBACK_TTL || exists|i: int|
            0 <= i < answer_ttls(p).len() && spec_min_ttl(p) == #[trigger] answer_ttls(p)[i],
        answer_ttls(p).len() == 0 ==> spec_min_ttl(p) == FALLBACK_TTL,
        (exists|i: int| 0 <= i < answer_ttls(p).len() && #[trigger] answer_ttls(p)[i] < u32::MAX)
            ==> exists|i: int|
            0 <= i < answer_ttls(p).len() && spec_min_ttl(p) == #[trigger] answer_ttls(p)[i],
{
    if p.len() >= 12 {
        if let Some(pos) = skip_questions(p, 12, be16_at(p, 4) as nat) {
            let n = be16_at(p, 6) as nat;
            lemma_answers_min_ttl(p, pos, n, u32::MAX);
            let m = answers_min_ttl(p, pos, n, u32::MAX);
            if n > 0 && m != u32::MAX {
                let j = choose|j: int|
                    0 <= j < answer_ttls_from(p, pos, n).len() && m == #[trigger] answer_ttls_from(
                        p,
                        pos,
                        n,
                    )[j];
                assert(answer_ttls(p)[j] == m);
            }
        }
    }
}

} // verus!
