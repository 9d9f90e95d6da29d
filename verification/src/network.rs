//! Network change detection: recognising default-route changes in a batch
//! of netlink route messages (RTM_NEWROUTE / RTM_DELROUTE with a
//! zero-length destination prefix), which is what a WiFi / mobile-data
//! handover produces.
use vstd::prelude::*;

use crate::sys::native_little_endian;

verus! {

pub const RTM_NEWROUTE: u16 = 24;
pub const RTM_DELROUTE: u16 = 25;
/// nlmsghdr size: 16 bytes (4+2+2+4+4).
pub const NLMSG_HDRLEN: usize = 16;
/// rtmsg size: 12 bytes.
pub const RTMSG_LEN: usize = 12;

/// A 32-bit unsigned field at `i` in the given byte order.
pub open spec fn u32_field(p: Seq<u8>, i: int, le: bool) -> int {
    if le {
        p[i] as int + p[i + 1] as int * 256 + p[i + 2] as int * 65536 + p[i + 3] as int * 16777216
    } else {
        p[i] as int * 16777216 + p[i + 1] as int * 65536 + p[i + 2] as int * 256 + p[i + 3] as int
    }
}

/// A 16-bit unsigned field at `i` in the given byte order.
pub open spec fn u16_field(p: Seq<u8>, i: int, le: bool) -> int {
    if le {
        p[i] as int + p[i + 1] as int * 256
    } else {
        p[i] as int * 256 + p[i + 1] as int
    }
}

/// `n` rounded up to a multiple of 4 (NLMSG_ALIGN).
pub open spec fn nlmsg_align(n: int) -> int {
    (n + 3) / 4 * 4
}

/// Whether a message at or after `pos` is a default-route add or delete.
/// The walk stops at the first header that does not fit or claims a
/// length below the header size or past the buffer.
pub open spec fn default_route_from(p: Seq<u8>, pos: int, le: bool) -> bool
    decreases p.len() - pos,
{
    if pos < 0 || pos + 16 > p.len() {
        false
    } else {
        let n = u32_field(p, pos, le);
        if n < 16 || pos + n > p.len() {
            false
        } else {
            let t = u16_field(p, pos + 4, le);
            if (t == 24 || t == 25) && pos + 28 <= pos + n && p[pos + 17] == 0 {
                true
            } else if pos + nlmsg_align(n) > p.len() {
                false
            } else {
                default_route_from(p, pos + nlmsg_align(n), le)
            }
        }
    }
}

proof fn lemma_align(n: int)
    requires
        n >= 0,
    ensures
        nlmsg_align(n) == n + (if n % 4 == 0 {
            0
        } else {
            4 - n % 4
        }),
{
}

fn read_u32_field(buf: &[u8], i: usize, le: bool) -> (v: u64)
    requires
        i + 4 <= buf@.len(),
    ensures
        v == u32_field(buf@, i as int, le),
{
    if le {
        (buf[i] as u64) + (buf[i + 1] as u64) * 256 + (buf[i + 2] as u64) * 65536 + (buf[i + 3] as u64)
            * 16777216
    } else {
        (buf[i] as u64) * 16777216 + (buf[i + 1] as u64) * 65536 + (buf[i + 2] as u64) * 256 + (buf[i
            + 3] as u64)
    }
}

fn read_u16_field(buf: &[u8], i: usize, le: bool) -> (v: u16)
    requires
        i + 2 <= buf@.len(),
    ensures
        v == u16_field(buf@, i as int, le),
{
    if le {
        (buf[i] as u16) + (buf[i + 1] as u16) * 256
    } else {
        (buf[i] as u16) * 256 + (buf[i + 1] as u16)
    }
}

/// Parse the netlink messages in `buf`, whose integers are in little-endian
/// order when `little_endian` holds and big-endian otherwise, and report
/// whether any of them is a default-route add/delete.
pub fn has_default_route_change_in(buf: &[u8], little_endian: bool) -> (r: bool)
    ensures
        r == default_route_from(buf@, 0, little_endian),
{
    let len = buf.len();
    let mut pos: usize = 0;
    while len >= 16 && pos <= len - 16
        invariant
            len == buf@.len(),
            pos <= len,
            default_route_from(buf@, pos as int, little_endian) == default_route_from(
                buf@,
                0,
                little_endian,
            ),
        decreases len - pos,
    {
        let nlmsg_len = read_u32_field(buf, pos, little_endian);
        if nlmsg_len < 16 || nlmsg_len > (len - pos) as u64 {
            return false;
        }
        let n = nlmsg_len as usize;
        let nlmsg_type = read_u16_field(buf, pos + 4, little_endian);
        if nlmsg_type == RTM_NEWROUTE || nlmsg_type == RTM_DELROUTE {
            let rtmsg_start = pos + NLMSG_HDRLEN;
            if RTMSG_LEN <= n - NLMSG_HDRLEN {
                // rtm_dst_len is the second byte of rtmsg.
                if buf[rtmsg_start + 1] == 0 {
                    return true;
                }
            }
        }
        let rem = n % 4;
        let pad = if rem == 0 {
            0
        } else {
            4 - rem
        };
        proof {
            lemma_align(n as int);
        }
        if pad > len - pos - n {
            return false;
        }
        pos += n + pad;
    }
    false
}

/// Parse netlink messages in `buf` (integers in the machine's byte order)
/// and return `true` if any of them is a default-route add/delete.
pub fn has_default_route_change(buf: &[u8]) -> (r: bool)
    ensures
        r == default_route_from(buf@, 0, true) || r == default_route_from(buf@, 0, false),
{
    let le = native_little_endian();
    has_default_route_change_in(buf, le)
}

} // verus!
