//! NXDOMAIN reply built from a raw DNS query.
use vstd::prelude::*;

verus! {

/// Position just after the QNAME that starts at `pos`, which must be made of
/// plain labels (a byte with either of the top two bits set is refused).
pub open spec fn plain_qname_end(q: Seq<u8>, pos: int) -> Option<int>
    decreases q.len() - pos,
{
    if pos < 0 || pos >= q.len() {
        None
    } else if q[pos] == 0 {
        Some(pos + 1)
    } else if q[pos] >= 64 {
        None
    } else if pos + 1 + q[pos] as int > q.len() {
        None
    } else {
        plain_qname_end(q, pos + 1 + q[pos] as int)
    }
}

/// The reply header: the query's first 12 bytes with QR=1, the query's RD,
/// RA=1, RCODE=3 (NXDOMAIN), and ANCOUNT/NSCOUNT/ARCOUNT set to zero.
pub open spec fn nxdomain_header(q: Seq<u8>) -> Seq<u8> {
    seq![q[0], q[1], 0x80u8 | (q[2] & 0x01u8), 0x83u8, q[4], q[5], 0u8, 0u8, 0u8, 0u8, 0u8, 0u8]
}

/// The NXDOMAIN reply to `q`: the rewritten header followed by the question
/// (QNAME, QTYPE, QCLASS); `None` when the query is malformed.
pub open spec fn spec_nxdomain(q: Seq<u8>) -> Option<Seq<u8>> {
    if q.len() < 12 {
        None
    } else {
        match plain_qname_end(q, 12) {
            None => None,
            Some(p) => if p + 4 > q.len() {
                None
            } else {
                Some(nxdomain_header(q) + q.subrange(12, p + 4))
            },
        }
    }
}

/// Build a well-formed NXDOMAIN reply for `query`, echoing its ID, RD flag
/// and question section.
pub fn make_nxdomain_response(query: &[u8]) -> (r: Option<Vec<u8>>)
    ensures
        r matches Some(v) ==> spec_nxdomain(query@) == Some(v@),
        r is None ==> spec_nxdomain(query@) is None,
{
    let n = query.len();
    if n < 12 {
        return None;
    }
    let mut pos: usize = 12;
    loop
        invariant_except_break
            n == query@.len(),
            12 <= pos,
            plain_qname_end(query@, 12) == plain_qname_end(query@, pos as int),
        ensures
            n == query@.len(),
            plain_qname_end(query@, 12) == Some(pos as int),
            12 <= pos <= n,
        decreases n - pos,
    {
        if pos >= n {
            return None;
        }
        let label_len = query[pos] as usize;
        if label_len == 0 {
            pos += 1;
            break;
        }
        if label_len >= 64 {
            return None;
        }
        if label_len + 1 > n - pos {
            // The next position is past the end, where the walk fails.
            proof {
                assert(plain_qname_end(query@, pos + 1 + label_len) is None);
            }
            return None;
        }
        pos += 1 + label_len;
    }
    if pos > n || 4 > n - pos {
        return None;
    }
    let mut ans: Vec<u8> = Vec::new();
    ans.push(query[0]);
    ans.push(query[1]);
    ans.push(0x80u8 | (query[2] & 0x01u8));
    ans.push(0x83u8);
    ans.push(query[4]);
    ans.push(query[5]);
    let mut z: usize = 0;
    while z < 6
        invariant
            z <= 6,
            ans@ == nxdomain_header(query@).take(6 + z),
        decreases 6 - z,
    {
        ans.push(0u8);
        z += 1;
        assert(ans@ =~= nxdomain_header(query@).take(6 + z));
    }
    let mut k: usize = 12;
    while k < pos + 4
        invariant
            12 <= k <= pos + 4 <= n,
            n == query@.len(),
            ans@ == nxdomain_header(query@) + query@.subrange(12, k as int),
        decreases pos + 4 - k,
    {
        ans.push(query[k]);
        k += 1;
        assert(ans@ =~= nxdomain_header(query@) + query@.subrange(12, k as int));
    }
    Some(ans)
}

proof fn lemma_qname_end_bounds(q: Seq<u8>, pos: int)
    requires
        plain_qname_end(q, pos) is Some,
    ensures
        pos < plain_qname_end(q, pos).unwrap() <= q.len(),
    decreases q.len() - pos,
{
    if 0 <= pos < q.len() && q[pos] != 0 && q[pos] < 64 && pos + 1 + q[pos] as int <= q.len() {
        lemma_qname_end_bounds(q, pos + 1 + q[pos] as int);
    }
}

/// What an NXDOMAIN reply says: the query's ID and question count, the
/// response bit set, the query's RD bit kept, RCODE 3 (name does not exist),
/// no answer, authority or additional records, and the query's question
/// section (name, type and class) copied after the header.
pub proof fn law_nxdomain_reply(q: Seq<u8>)
    requires
        spec_nxdomain(q) is Some,
    ensures
        ({
            let r = spec_nxdomain(q).unwrap();
            &&& r.len() > 12
            &&& r[0] == q[0] && r[1] == q[1]
            &&& r[2] & 0x80u8 == 0x80u8
            &&& r[2] & 0x01u8 == q[2] & 0x01u8
            &&& r[3] & 0x0Fu8 == 3u8
            &&& r[4] == q[4] && r[5] == q[5]
            &&& forall|i: int| 6 <= i < 12 ==> r[i] == 0u8
            &&& r.skip(12) == q.subrange(12, r.len() as int)
        }),
{
    let r = spec_nxdomain(q).unwrap();
    let p = plain_qname_end(q, 12).unwrap();
    let b = q[2];
    assert((0x80u8 | (b & 0x01u8)) & 0x80u8 == 0x80u8) by (bit_vector);
    assert((0x80u8 | (b & 0x01u8)) & 0x01u8 == b & 0x01u8) by (bit_vector);
    assert(0x83u8 & 0x0Fu8 == 3u8) by (bit_vector);
    lemma_qname_end_bounds(q, 12);
    let h = nxdomain_header(q);
    assert(r == h + q.subrange(12, p + 4));
    assert(h.len() == 12);
    assert(r.len() == p + 4);
    assert(r[0] == h[0] && r[1] == h[1] && r[2] == h[2] && r[3] == h[3] && r[4] == h[4] && r[5]
        == h[5]);
    assert(forall|i: int| 6 <= i < 12 ==> r[i] == h[i]);
    assert(r.skip(12) =~= q.subrange(12, p + 4));
}

} // verus!
