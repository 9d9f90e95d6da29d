//! dnsproxyd replies whose status is written as the full text line
//! ("222 DnsProxyQueryResult", "401 DnsProxyOperationFailed") rather than
//! the bare code.
use vstd::prelude::*;

use crate::dns::wire::{
    append_bytes, be32_bytes, len_and_data, len_field, write_be32 as wire_write_be32,
    write_len_and_data as wire_write_len_and_data,
};
use crate::sys::{be16, le16, u16_to_ne_bytes};
use vstd::string::StringSliceAdditionalSpecFns;

verus! {

/// "222 DnsProxyQueryResult" followed by a NUL.
pub open spec fn query_result_text() -> Seq<u8> {
    seq![50u8, 50u8, 50u8, 32u8, 68u8, 110u8, 115u8, 80u8, 114u8, 111u8, 120u8, 121u8, 81u8, 117u8, 101u8, 114u8, 121u8, 82u8, 101u8, 115u8, 117u8, 108u8, 116u8, 0u8]
}

/// "401 DnsProxyOperationFailed" followed by a NUL.
pub open spec fn operation_failed_text() -> Seq<u8> {
    seq![52u8, 48u8, 49u8, 32u8, 68u8, 110u8, 115u8, 80u8, 114u8, 111u8, 120u8, 121u8, 79u8, 112u8, 101u8, 114u8, 97u8, 116u8, 105u8, 111u8, 110u8, 70u8, 97u8, 105u8, 108u8, 101u8, 100u8, 0u8]
}

fn put_query_result_text(w: &mut Vec<u8>)
    ensures
        final(w)@ == old(w)@ + query_result_text(),
{
    let t = [50u8, 50u8, 50u8, 32u8, 68u8, 110u8, 115u8, 80u8, 114u8, 111u8, 120u8, 121u8, 81u8, 117u8, 101u8, 114u8, 121u8, 82u8, 101u8, 115u8, 117u8, 108u8, 116u8, 0u8];
    assert(t@ =~= query_result_text());
    append_bytes(w, &t);
}

/// Writes a 4-byte big-endian integer.
pub fn write_be32(w: &mut Vec<u8>, value: i32)
    ensures
        final(w)@ == old(w)@ + be32_bytes(value),
{
    wire_write_be32(w, value);
}

/// Writes be32(length) then the data; a length that does not fit an `i32`
/// is written as 0 with no data.
pub fn write_len_and_data(w: &mut Vec<u8>, data: &[u8])
    ensures
        final(w)@ == old(w)@ + len_and_data(data@),
{
    wire_write_len_and_data(w, data);
}

/// What `write_len_and_string` appends for a string with UTF-8 bytes `b`.
pub open spec fn len_and_string(b: Seq<u8>) -> Seq<u8> {
    if b.len() == 0 {
        be32_bytes(0)
    } else {
        len_and_data(b.push(0u8))
    }
}

/// Writes text with a C-style terminating NUL, the length counting the NUL;
/// an empty string is written as be32(0).
pub fn write_len_and_string(w: &mut Vec<u8>, s: &str)
    ensures
        final(w)@ == old(w)@ + len_and_string(s.spec_bytes()),
{
    let src = s.as_bytes();
    if src.len() == 0 {
        wire_write_be32(w, 0);
        return;
    }
    let mut bytes: Vec<u8> = Vec::new();
    append_bytes(&mut bytes, src);
    bytes.push(0u8);
    wire_write_len_and_data(w, bytes.as_slice());
}

/// The generic operation-failed reply: status 401
/// (`DnsProxyOperationFailed`) as text, ending with a NUL.
pub fn send_dns_operation_failed(w: &mut Vec<u8>)
    ensures
        final(w)@ == old(w)@ + operation_failed_text(),
{
    let t = [52u8, 48u8, 49u8, 32u8, 68u8, 110u8, 115u8, 80u8, 114u8, 111u8, 120u8, 121u8, 79u8, 112u8, 101u8, 114u8, 97u8, 116u8, 105u8, 111u8, 110u8, 70u8, 97u8, 105u8, 108u8, 101u8, 100u8, 0u8];
    assert(t@ =~= operation_failed_text());
    append_bytes(w, &t);
}

/// The hard-block reply: the query-result line, status 1 (error / no data)
/// and an empty payload.
pub fn send_dns_hard_block(w: &mut Vec<u8>)
    ensures
        final(w)@ == old(w)@ + query_result_text() + be32_bytes(1) + be32_bytes(0),
{
    put_query_result_text(w);
    wire_write_be32(w, 1);
    wire_write_be32(w, 0);
}

/// A sockaddr_in for AF_INET (2), port 0, the address, zero padding.
pub open spec fn inet_sockaddr(fam: Seq<u8>, ip: Seq<u8>) -> Seq<u8> {
    fam + seq![0u8, 0u8] + ip + seq![0u8, 0u8, 0u8, 0u8, 0u8, 0u8, 0u8, 0u8]
}

/// The single-entry IPv4 getaddrinfo reply for the family bytes `fam`.
pub open spec fn addrinfo_fake_reply(fam: Seq<u8>, ip: Seq<u8>) -> Seq<u8> {
    query_result_text() + be32_bytes(0) + be32_bytes(2) + be32_bytes(1) + be32_bytes(6)
        + len_and_data(inet_sockaddr(fam, ip)) + be32_bytes(0) + be32_bytes(0)
}

/// Fakes a `getaddrinfo` reply with a single IPv4 address (AF_INET,
/// SOCK_STREAM, IPPROTO_TCP).
pub fn send_addrinfo_fake_response(w: &mut Vec<u8>, ip: [u8; 4])
    ensures
        exists|fam: Seq<u8>|
            (fam == le16(2) || fam == be16(2)) && final(w)@ == old(w)@ + addrinfo_fake_reply(fam, ip@),
{
    put_query_result_text(w);
    wire_write_be32(w, 0);
    wire_write_be32(w, 2);
    wire_write_be32(w, 1);
    wire_write_be32(w, 6);
    let fam = u16_to_ne_bytes(2u16);
    let mut sockaddr: Vec<u8> = Vec::new();
    append_bytes(&mut sockaddr, &fam);
    sockaddr.push(0u8);
    sockaddr.push(0u8);
    append_bytes(&mut sockaddr, &ip);
    let zeros = [0u8; 8];
    append_bytes(&mut sockaddr, &zeros);
    assert(zeros@ =~= seq![0u8, 0u8, 0u8, 0u8, 0u8, 0u8, 0u8, 0u8]);
    assert(sockaddr@ =~= inet_sockaddr(fam@, ip@));
    wire_write_len_and_data(w, sockaddr.as_slice());
    wire_write_be32(w, 0);
    wire_write_be32(w, 0);
    assert(w@ =~= old(w)@ + addrinfo_fake_reply(fam@, ip@));
}

/// The `gethostbyname` / `gethostbyaddr` reply for `name` and `ip`.
pub open spec fn hostent_fake_reply(name: Seq<u8>, ip: Seq<u8>) -> Seq<u8> {
    query_result_text() + len_and_string(name) + be32_bytes(0) + be32_bytes(2) + be32_bytes(4)
        + len_and_data(ip) + be32_bytes(0)
}

/// Fakes a `gethostbyname` / `gethostbyaddr` reply for `hostname` with one
/// IPv4 address.
pub fn send_hostent_fake_response(w: &mut Vec<u8>, hostname: &str, ip: [u8; 4])
    ensures
        final(w)@ == old(w)@ + hostent_fake_reply(hostname.spec_bytes(), ip@),
{
    put_query_result_text(w);
    write_len_and_string(w, hostname);
    wire_write_be32(w, 0);
    wire_write_be32(w, 2);
    wire_write_be32(w, 4);
    wire_write_len_and_data(w, &ip);
    wire_write_be32(w, 0);
    assert(w@ =~= old(w)@ + hostent_fake_reply(hostname.spec_bytes(), ip@));
}

/// Wraps a raw DNS packet for resnsend: the query-result line, status 0,
/// the packet length (0 when it does not fit an `i32`), and the packet.
pub fn send_resnsend_raw_packet(w: &mut Vec<u8>, dns_packet: &[u8])
    ensures
        final(w)@ == old(w)@ + query_result_text() + be32_bytes(0) + be32_bytes(
            len_field(dns_packet@.len() as int),
        ) + dns_packet@,
{
    put_query_result_text(w);
    wire_write_be32(w, 0);
    let n = dns_packet.len();
    let len: i32 = if n <= 0x7fff_ffff {
        n as i32
    } else {
        0
    };
    wire_write_be32(w, len);
    append_bytes(w, dns_packet);
}

} // verus!
