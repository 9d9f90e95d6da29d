//! Response encoding for resnsend: raw DNS packets.
use vstd::prelude::*;

use crate::dns::nxdomain::{make_nxdomain_response, spec_nxdomain};
use crate::dns::status::{status_line, DnsProxyStatus};
use crate::dns::wire::{be32_bytes, len_and_data, write_be32, write_len_and_data};
use crate::sys::SysCodes;

verus! {

/// Negation with wrap-around (only `i32::MIN` wraps).
pub open spec fn neg_wrap(v: i32) -> i32 {
    if v == i32::MIN {
        v
    } else {
        (-v) as i32
    }
}

/// A raw-packet reply: status 222, the rcode, the length-prefixed packet.
pub open spec fn raw_packet_reply(rcode: i32, packet: Seq<u8>) -> Seq<u8> {
    status_line(222) + be32_bytes(rcode) + len_and_data(packet)
}

/// The block reply for a query: an NXDOMAIN packet (rcode 3) when one can
/// be built, else the negated ECONNREFUSED with no packet.
pub open spec fn block_reply(query: Seq<u8>, codes: SysCodes) -> Seq<u8> {
    match spec_nxdomain(query) {
        Some(nx) => raw_packet_reply(3, nx),
        None => status_line(222) + be32_bytes(neg_wrap(codes.econnrefused)),
    }
}

/// Sends a raw DNS packet response.  `rcode > 0` is a DNS RCODE (3 =
/// NXDOMAIN); `rcode < 0` is a negated errno.
pub fn send_raw_packet(w: &mut Vec<u8>, rcode: i32, dns_packet: &[u8])
    ensures
        final(w)@ == old(w)@ + raw_packet_reply(rcode, dns_packet@),
{
    DnsProxyStatus::DnsProxyQueryResult.write(w);
    write_be32(w, rcode);
    write_len_and_data(w, dns_packet);
}

/// Sends a failure response with a negated errno and no packet body.
pub fn send_errno(w: &mut Vec<u8>, neg_errno: i32)
    ensures
        final(w)@ == old(w)@ + status_line(222) + be32_bytes(neg_errno),
{
    DnsProxyStatus::DnsProxyQueryResult.write(w);
    write_be32(w, neg_errno);
}

/// Sends a block response for a DNS query: a well-formed NXDOMAIN reply
/// built from the query itself, or ECONNREFUSED when the query cannot be
/// parsed.
pub fn send_block(w: &mut Vec<u8>, raw_query: &[u8], codes: &SysCodes)
    ensures
        final(w)@ == old(w)@ + block_reply(raw_query@, *codes),
{
    match make_nxdomain_response(raw_query) {
        Some(nx) => send_raw_packet(w, 3, nx.as_slice()),
        None => {
            let e = codes.econnrefused;
            let neg = if e == i32::MIN {
                e
            } else {
                -e
            };
            send_errno(w, neg);
        },
    }
}

} // verus!
