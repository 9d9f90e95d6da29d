//! Response encoding for getaddrinfo.
//!
//! The client reads: the status line, then for each entry be32(have_more)
//! be32(ai_flags) be32(ai_family) be32(ai_socktype) be32(ai_protocol), the
//! length-prefixed sockaddr and the length-prefixed canonical name; a final
//! be32(0) ends the list.
use vstd::prelude::*;

use crate::dns::status::{status_line, DnsProxyStatus};
use crate::dns::wire::{
    append_bytes, be32_bytes, len_and_cstring, len_and_data, write_be32, write_len_and_cstring,
    write_len_and_data,
};
use crate::sys::{be16, le16, u16_to_ne_bytes, SysCodes};
use vstd::string::StringSliceAdditionalSpecFns;

verus! {

/// A sockaddr_in (16 bytes): family in machine order `fam`, port big-endian,
/// address, zero padding.
pub open spec fn sockaddr_in_bytes(fam: Seq<u8>, ip: Seq<u8>, port: u16) -> Seq<u8> {
    fam + be16(port) + ip + seq![0u8, 0u8, 0u8, 0u8, 0u8, 0u8, 0u8, 0u8]
}

/// A sockaddr_in6 (28 bytes): family in machine order, port big-endian,
/// zero flowinfo, address, zero scope id.
pub open spec fn sockaddr_in6_bytes(fam: Seq<u8>, ip: Seq<u8>, port: u16) -> Seq<u8> {
    fam + be16(port) + seq![0u8, 0u8, 0u8, 0u8] + ip + seq![0u8, 0u8, 0u8, 0u8]
}

/// The family field as `u16::to_ne_bytes` may give it.
pub open spec fn native_family(fam: Seq<u8>, family: i32) -> bool {
    fam == le16(family as u16) || fam == be16(family as u16)
}

/// One addrinfo entry: have_more=1, the four fields, the address, and the
/// canonical name (be32(0) when absent).
pub open spec fn addrinfo_entry(
    flags: i32,
    family: i32,
    socktype: i32,
    protocol: i32,
    addr: Seq<u8>,
    canon: Option<Seq<u8>>,
) -> Seq<u8> {
    be32_bytes(1) + be32_bytes(flags) + be32_bytes(family) + be32_bytes(socktype) + be32_bytes(
        protocol,
    ) + len_and_data(addr) + match canon {
        Some(b) => len_and_cstring(b),
        None => be32_bytes(0),
    }
}

fn put_u16_bytes(s: &mut Vec<u8>, b: [u8; 2])
    ensures
        final(s)@ == old(s)@ + b@,
{
    append_bytes(s, &b);
}

/// Builds a sockaddr_in (16 bytes, matching the C struct layout).
pub fn sockaddr_in(ip: [u8; 4], port: u16, codes: &SysCodes) -> (s: Vec<u8>)
    ensures
        exists|fam: Seq<u8>|
            native_family(fam, codes.af_inet) && s@ == sockaddr_in_bytes(fam, ip@, port),
{
    let mut s: Vec<u8> = Vec::new();
    let fam = u16_to_ne_bytes(#[verifier::truncate] (codes.af_inet as u16));
    put_u16_bytes(&mut s, fam);
    s.push((port / 256) as u8);
    s.push((port % 256) as u8);
    append_bytes(&mut s, &ip);
    let zeros = [0u8; 8];
    append_bytes(&mut s, &zeros);
    assert(zeros@ =~= seq![0u8, 0u8, 0u8, 0u8, 0u8, 0u8, 0u8, 0u8]);
    assert(s@ =~= sockaddr_in_bytes(fam@, ip@, port));
    assert(native_family(fam@, codes.af_inet));
    s
}

/// Builds a sockaddr_in6 (28 bytes, matching the C struct layout).
pub fn sockaddr_in6(ip: [u8; 16], port: u16, codes: &SysCodes) -> (s: Vec<u8>)
    ensures
        exists|fam: Seq<u8>|
            native_family(fam, codes.af_inet6) && s@ == sockaddr_in6_bytes(fam, ip@, port),
{
    let mut s: Vec<u8> = Vec::new();
    let fam = u16_to_ne_bytes(#[verifier::truncate] (codes.af_inet6 as u16));
    put_u16_bytes(&mut s, fam);
    s.push((port / 256) as u8);
    s.push((port % 256) as u8);
    let four = [0u8; 4];
    append_bytes(&mut s, &four);
    append_bytes(&mut s, &ip);
    append_bytes(&mut s, &four);
    assert(four@ =~= seq![0u8, 0u8, 0u8, 0u8]);
    assert(s@ =~= sockaddr_in6_bytes(fam@, ip@, port));
    assert(native_family(fam@, codes.af_inet6));
    s
}

/// Writes a single addrinfo entry in the dnsproxyd wire format.
pub fn write_addrinfo_entry(
    w: &mut Vec<u8>,
    ai_flags: i32,
    ai_family: i32,
    ai_socktype: i32,
    ai_protocol: i32,
    addr: &[u8],
    canonname: Option<&str>,
)
    ensures
        final(w)@ == old(w)@ + addrinfo_entry(
            ai_flags,
            ai_family,
            ai_socktype,
            ai_protocol,
            addr@,
            match canonname {
                Some(n) => Some(n.spec_bytes()),
                None => None,
            },
        ),
{
    write_be32(w, 1);
    write_be32(w, ai_flags);
    write_be32(w, ai_family);
    write_be32(w, ai_socktype);
    write_be32(w, ai_protocol);
    write_len_and_data(w, addr);
    match canonname {
        Some(name) => write_len_and_cstring(w, name),
        None => write_be32(w, 0),
    }
    assert(w@ =~= old(w)@ + addrinfo_entry(
        ai_flags,
        ai_family,
        ai_socktype,
        ai_protocol,
        addr@,
        match canonname {
            Some(n) => Some(n.spec_bytes()),
            None => None,
        },
    ));
}

/// The whole reply carrying one synthetic stream-socket entry for `addr`.
pub open spec fn fake_reply(codes: SysCodes, family: i32, addr: Seq<u8>) -> Seq<u8> {
    status_line(222) + addrinfo_entry(0, family, codes.sock_stream, codes.ipproto_tcp, addr, None)
        + be32_bytes(0)
}

/// Sends a synthetic AF_INET / SOCK_STREAM addrinfo response for `ip`.
pub fn send_fake_ipv4(w: &mut Vec<u8>, ip: [u8; 4], codes: &SysCodes)
    ensures
        exists|fam: Seq<u8>|
            native_family(fam, codes.af_inet) && final(w)@ == old(w)@ + fake_reply(
                *codes,
                codes.af_inet,
                sockaddr_in_bytes(fam, ip@, 0),
            ),
{
    DnsProxyStatus::DnsProxyQueryResult.write(w);
    let addr = sockaddr_in(ip, 0, codes);
    let ghost fam = choose|fam: Seq<u8>|
        native_family(fam, codes.af_inet) && addr@ == sockaddr_in_bytes(fam, ip@, 0);
    write_addrinfo_entry(w, 0, codes.af_inet, codes.sock_stream, codes.ipproto_tcp, addr.as_slice(), None);
    write_be32(w, 0);
    assert(w@ =~= old(w)@ + fake_reply(*codes, codes.af_inet, sockaddr_in_bytes(fam, ip@, 0)));
}

/// Sends a synthetic AF_INET6 / SOCK_STREAM addrinfo response for `ip`.
pub fn send_fake_ipv6(w: &mut Vec<u8>, ip: [u8; 16], codes: &SysCodes)
    ensures
        exists|fam: Seq<u8>|
            native_family(fam, codes.af_inet6) && final(w)@ == old(w)@ + fake_reply(
                *codes,
                codes.af_inet6,
                sockaddr_in6_bytes(fam, ip@, 0),
            ),
{
    DnsProxyStatus::DnsProxyQueryResult.write(w);
    let addr = sockaddr_in6(ip, 0, codes);
    let ghost fam = choose|fam: Seq<u8>|
        native_family(fam, codes.af_inet6) && addr@ == sockaddr_in6_bytes(fam, ip@, 0);
    write_addrinfo_entry(w, 0, codes.af_inet6, codes.sock_stream, codes.ipproto_tcp, addr.as_slice(), None);
    write_be32(w, 0);
    assert(w@ =~= old(w)@ + fake_reply(*codes, codes.af_inet6, sockaddr_in6_bytes(fam, ip@, 0)));
}

/// Sends a domain-not-found failure response (EAI_NONAME), matching what
/// netd returns for NXDOMAIN queries.
pub fn send_nxdomain(w: &mut Vec<u8>, codes: &SysCodes)
    ensures
        final(w)@ == old(w)@ + status_line(401) + be32_bytes(codes.eai_noname),
{
    DnsProxyStatus::DnsProxyOperationFailed.write(w);
    write_be32(w, codes.eai_noname);
}

/// Sends a generic operation failure response (EAI_SYSTEM).
pub fn send_operation_failed(w: &mut Vec<u8>, codes: &SysCodes)
    ensures
        final(w)@ == old(w)@ + status_line(401) + be32_bytes(codes.eai_system),
{
    DnsProxyStatus::DnsProxyOperationFailed.write(w);
    write_be32(w, codes.eai_system);
}

} // verus!
