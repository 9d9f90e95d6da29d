//! Platform values: libc's constants for the target and the machine's
//! byte order.  They differ between targets (Android's bionic and glibc
//! number the `EAI_*` codes differently, for instance), so the builders that
//! need them take them as plain values.
use vstd::prelude::*;

verus! {

/// The libc constants that the dnsproxyd responses carry (`AF_INET`,
/// `AF_INET6`, `SOCK_STREAM`, `IPPROTO_TCP`, `ECONNREFUSED`, `EAI_NONAME`,
/// `EAI_SYSTEM` of the target).
#[derive(Debug, Clone, Copy, PartialEq, Eq, Structural)]
pub struct SysCodes {
    pub af_inet: i32,
    pub af_inet6: i32,
    pub sock_stream: i32,
    pub ipproto_tcp: i32,
    pub econnrefused: i32,
    pub eai_noname: i32,
    pub eai_system: i32,
}

/// Little-endian bytes of a `u16`.
pub open spec fn le16(v: u16) -> Seq<u8> {
    seq![(v % 256) as u8, (v / 256) as u8]
}

/// Big-endian bytes of a `u16`.
pub open spec fn be16(v: u16) -> Seq<u8> {
    seq![(v / 256) as u8, (v % 256) as u8]
}

/// `u16::to_ne_bytes` (std): the bytes of `v` in the machine's byte order,
/// which is either little- or big-endian.
#[verifier::external_body]
pub(crate) fn u16_to_ne_bytes(v: u16) -> (b: [u8; 2])
    ensures
        b@ == le16(v) || b@ == be16(v),
{
    v.to_ne_bytes()
}

/// Whether the machine is little-endian, as `u16::to_ne_bytes` shows it.
pub(crate) fn native_little_endian() -> (le: bool) {
    let b = u16_to_ne_bytes(1);
    b[0] == 1
}

} // verus!
