//! Response encoding for gethostbyname / gethostbyaddr.
//!
//! The client reads: the status line, the NUL-terminated h_name, the
//! aliases ended by be32(0), be32(h_addrtype), be32(h_length), each address
//! as a length-prefixed 16-byte buffer, and be32(0) ending the list.
use vstd::prelude::*;

use crate::dns::status::{status_line, DnsProxyStatus};
use crate::dns::wire::{
    be32_bytes, len_and_cstring, len_and_data, write_be32, write_len_and_cstring,
    write_len_and_data,
};
use crate::sys::SysCodes;
use vstd::string::StringSliceAdditionalSpecFns;

verus! {

/// A hostent reply with one address buffer.
pub open spec fn hostent_reply(name: Seq<u8>, addrtype: i32, length: i32, addr: Seq<u8>) -> Seq<u8> {
    status_line(222) + len_and_cstring(name) + be32_bytes(0) + be32_bytes(addrtype) + be32_bytes(
        length,
    ) + len_and_data(addr) + be32_bytes(0)
}

/// An IPv4 address in the fixed 16-byte buffer of the hostent reply.
pub open spec fn padded_v4(ip: Seq<u8>) -> Seq<u8> {
    ip + Seq::new(12, |i: int| 0u8)
}

/// Sends a synthetic IPv4 hostent response for `hostname` and `ip`.
pub fn send_fake_ipv4(w: &mut Vec<u8>, hostname: &str, ip: [u8; 4], codes: &SysCodes)
    ensures
        final(w)@ == old(w)@ + hostent_reply(hostname.spec_bytes(), codes.af_inet, 4, padded_v4(ip@)),
{
    DnsProxyStatus::DnsProxyQueryResult.write(w);
    write_len_and_cstring(w, hostname);
    write_be32(w, 0);
    write_be32(w, codes.af_inet);
    write_be32(w, 4);
    let mut addr_buf = [0u8; 16];
    addr_buf[0] = ip[0];
    addr_buf[1] = ip[1];
    addr_buf[2] = ip[2];
    addr_buf[3] = ip[3];
    assert(addr_buf@ =~= padded_v4(ip@));
    write_len_and_data(w, &addr_buf);
    write_be32(w, 0);
    assert(w@ =~= old(w)@ + hostent_reply(hostname.spec_bytes(), codes.af_inet, 4, padded_v4(ip@)));
}

/// Sends a synthetic IPv6 hostent response for `hostname` and `ip`.
pub fn send_fake_ipv6(w: &mut Vec<u8>, hostname: &str, ip: [u8; 16], codes: &SysCodes)
    ensures
        final(w)@ == old(w)@ + hostent_reply(hostname.spec_bytes(), codes.af_inet6, 16, ip@),
{
    DnsProxyStatus::DnsProxyQueryResult.write(w);
    write_len_and_cstring(w, hostname);
    write_be32(w, 0);
    write_be32(w, codes.af_inet6);
    write_be32(w, 16);
    write_len_and_data(w, &ip);
    write_be32(w, 0);
    assert(w@ =~= old(w)@ + hostent_reply(hostname.spec_bytes(), codes.af_inet6, 16, ip@));
}

/// Sends a generic operation failure response, the gethostbyname failure
/// path.
pub fn send_operation_failed(w: &mut Vec<u8>)
    ensures
        final(w)@ == old(w)@ + status_line(401),
{
    DnsProxyStatus::DnsProxyOperationFailed.write(w);
}

} // verus!
