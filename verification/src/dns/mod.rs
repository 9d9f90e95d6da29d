//! DNS and dnsproxyd encoding.
pub mod cache;
pub mod nxdomain;
pub mod proto;
pub mod response;
pub mod status;
pub mod text_reply;
pub mod wire;

use vstd::prelude::*;

use crate::dns::proto::resnsend::block_reply;
use crate::dns::status::status_line;
use crate::dns::wire::be32_bytes;
use crate::sys::SysCodes;

verus! {

/// The block reply to a getaddrinfo-style request: operation failed with
/// EAI_NONAME, as netd answers an NXDOMAIN.
pub fn send_dns_hard_block(w: &mut Vec<u8>, codes: &SysCodes)
    ensures
        final(w)@ == old(w)@ + status_line(401) + be32_bytes(codes.eai_noname),
{
    response::addrinfo::send_nxdomain(w, codes);
}

/// The generic failure reply: operation failed with EAI_SYSTEM.
pub fn send_dns_operation_failed(w: &mut Vec<u8>, codes: &SysCodes)
    ensures
        final(w)@ == old(w)@ + status_line(401) + be32_bytes(codes.eai_system),
{
    response::addrinfo::send_operation_failed(w, codes);
}

/// The block reply to a resnsend request carrying `raw_query`.
pub fn send_resnsend_block(w: &mut Vec<u8>, raw_query: &[u8], codes: &SysCodes)
    ensures
        final(w)@ == old(w)@ + block_reply(raw_query@, *codes),
{
    proto::resnsend::send_block(w, raw_query, codes);
}

} // verus!
