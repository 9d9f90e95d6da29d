//! The dnsproxyd wire format: big-endian 32-bit integers, length-prefixed
//! buffers, and the QNAME of a raw DNS query.
//!
//! Writers append to a byte buffer that the caller then sends; readers
//! decode from the bytes that a peer sent.
use vstd::prelude::*;
use vstd::string::StringSliceAdditionalSpecFns;
use vstd::utf8::{decode_utf8, valid_utf8};

verus! {

/// Maximum DNS payload size accepted by `read_len_and_data`.
pub const MAX_DNS_PAYLOAD: usize = 65535;

/// The four big-endian bytes of `v` (two's complement).
pub open spec fn be32_bytes(v: i32) -> Seq<u8> {
    let u = v as u32;
    seq![(u >> 24u32) as u8, (u >> 16u32) as u8, (u >> 8u32) as u8, u as u8]
}

/// The unsigned value of two big-endian bytes.
pub open spec fn be16_at(p: Seq<u8>, i: int) -> int {
    p[i] as int * 256 + p[i + 1] as int
}

/// The unsigned value of four big-endian bytes.
pub open spec fn be32u_at(p: Seq<u8>, i: int) -> int {
    p[i] as int * 16777216 + p[i + 1] as int * 65536 + p[i + 2] as int * 256 + p[i + 3] as int
}

/// The length field written in front of a buffer of `n` bytes: `n` when it
/// fits an `i32`, else 0.
pub open spec fn len_field(n: int) -> i32 {
    if n <= i32::MAX {
        n as i32
    } else {
        0
    }
}

/// What `write_len_and_data` appends for `data`.
pub open spec fn len_and_data(data: Seq<u8>) -> Seq<u8> {
    if 0 < data.len() <= i32::MAX {
        be32_bytes(data.len() as i32) + data
    } else {
        be32_bytes(0)
    }
}

/// What `write_len_and_cstring` appends for a string with UTF-8 bytes `b`.
pub open spec fn len_and_cstring(b: Seq<u8>) -> Seq<u8> {
    if b.len() == 0 {
        be32_bytes(0)
    } else {
        be32_bytes(len_field(b.len() + 1int)) + b + seq![0u8]
    }
}

/// Appends `data` to `w`.
pub fn append_bytes(w: &mut Vec<u8>, data: &[u8])
    ensures
        final(w)@ == old(w)@ + data@,
{
    let mut k: usize = 0;
    while k < data.len()
        invariant
            k <= data@.len(),
            w@ == old(w)@ + data@.take(k as int),
        decreases data@.len() - k,
    {
        w.push(data[k]);
        k += 1;
        assert(w@ =~= old(w)@ + data@.take(k as int));
    }
    assert(data@.take(data@.len() as int) =~= data@);
}

/// The big-endian bytes of `value`.
pub fn be32(value: i32) -> (b: [u8; 4])
    ensures
        b@ == be32_bytes(value),
{
    let u = value as u32;
    let b = [(u >> 24u32) as u8, (u >> 16u32) as u8, (u >> 8u32) as u8, u as u8];
    assert(b@ =~= be32_bytes(value));
    b
}

/// Writes a signed 32-bit integer in big-endian byte order: the fundamental
/// unit of the dnsproxyd wire protocol.
pub fn write_be32(w: &mut Vec<u8>, value: i32)
    ensures
        final(w)@ == old(w)@ + be32_bytes(value),
{
    let b = be32(value);
    append_bytes(w, &b);
}

/// Writes a length-prefixed byte buffer: be32(len) followed by the data.
/// A buffer too long for an `i32` length is written as length 0 with no
/// body; an empty buffer is only the length field.
pub fn write_len_and_data(w: &mut Vec<u8>, data: &[u8])
    ensures
        final(w)@ == old(w)@ + len_and_data(data@),
{
    let n = data.len();
    let len: i32 = if n <= 0x7fff_ffff {
        n as i32
    } else {
        0
    };
    write_be32(w, len);
    if len > 0 {
        append_bytes(w, data);
    }
    assert(w@ =~= old(w)@ + len_and_data(data@));
}

/// Writes a NUL-terminated C string as a length-prefixed field:
/// be32(strlen + 1) + bytes + NUL.  An empty string writes be32(0) only.
pub fn write_len_and_cstring(w: &mut Vec<u8>, s: &str)
    ensures
        final(w)@ == old(w)@ + len_and_cstring(s.spec_bytes()),
{
    let bytes = s.as_bytes();
    let n = bytes.len();
    if n == 0 {
        write_be32(w, 0);
        return;
    }
    let len: i32 = if n < 0x7fff_ffff {
        (n + 1) as i32
    } else {
        0
    };
    write_be32(w, len);
    append_bytes(w, bytes);
    w.push(0u8);
    assert(w@ =~= old(w)@ + len_and_cstring(s.spec_bytes()));
}

/// The `i32` that four big-endian bytes encode.
pub open spec fn be32_value(p: Seq<u8>) -> i32 {
    be32u_at(p, 0) as u32 as i32
}

/// Reads a signed 32-bit big-endian integer from the front of `buf`;
/// `None` when fewer than four bytes are there.
pub fn read_be32(buf: &[u8]) -> (r: Option<i32>)
    ensures
        buf@.len() < 4 ==> r is None,
        buf@.len() >= 4 ==> r == Some(be32_value(buf@)),
{
    if buf.len() < 4 {
        return None;
    }
    let u: u32 = (buf[0] as u32) * 16777216 + (buf[1] as u32) * 65536 + (buf[2] as u32) * 256
        + (buf[3] as u32);
    Some(u as i32)
}

proof fn lemma_be32_bytes_value(v: i32)
    ensures
        be32_value(be32_bytes(v)) == v,
{
    let u = v as u32;
    let b = be32_bytes(v);
    assert(((u >> 24u32) as u8) as u32 * 16777216 + ((u >> 16u32) as u8) as u32 * 65536 + ((u
        >> 8u32) as u8) as u32 * 256 + (u as u8) as u32 == u) by (bit_vector);
    assert(be32u_at(b, 0) == u as int);
    assert((u as i32) == v) by (bit_vector)
        requires
            u == v as u32,
    ;
}

/// A 32-bit integer written with `write_be32` reads back unchanged, whatever
/// follows it.
pub proof fn law_be32_roundtrip(v: i32, rest: Seq<u8>)
    ensures
        be32_value(be32_bytes(v) + rest) == v,
{
    lemma_be32_bytes_value(v);
    let b = be32_bytes(v);
    assert((b + rest)[0] == b[0] && (b + rest)[1] == b[1] && (b + rest)[2] == b[2] && (b
        + rest)[3] == b[3]);
}

/// A buffer written with `write_len_and_data` reads back unchanged with
/// `read_len_and_data`, which consumes exactly what was written, whatever
/// follows it.
pub proof fn law_len_and_data_roundtrip(data: Seq<u8>, rest: Seq<u8>)
    requires
        data.len() <= MAX_DNS_PAYLOAD,
    ensures
        spec_read_len_and_data(len_and_data(data) + rest) == Ok::<(Seq<u8>, int), WireError>(
            (data, 4 + data.len() as int),
        ),
{
    let w = len_and_data(data) + rest;
    if data.len() == 0 {
        law_be32_roundtrip(0, rest);
        assert(data =~= Seq::<u8>::empty());
    } else {
        law_be32_roundtrip(data.len() as i32, data + rest);
        assert(w =~= be32_bytes(data.len() as i32) + (data + rest));
        assert(w.subrange(4, 4 + data.len() as int) =~= data);
    }
}

/// Why reading a length-prefixed buffer failed.
#[derive(Debug, Clone, Copy, PartialEq, Eq, Structural)]
pub enum WireError {
    /// The stream ended before the announced bytes.
    UnexpectedEof,
    /// The announced length exceeds `MAX_DNS_PAYLOAD`.
    PayloadTooLarge,
}

/// How many payload bytes follow a length field: none for `len <= 0`, an
/// error above `MAX_DNS_PAYLOAD`.
pub fn payload_length(len: i32) -> (r: Result<usize, WireError>)
    ensures
        len <= 0 ==> r == Ok::<usize, WireError>(0),
        0 < len <= 65535 ==> r == Ok::<usize, WireError>(len as usize),
        len > 65535 ==> r == Err::<usize, WireError>(WireError::PayloadTooLarge),
{
    if len <= 0 {
        Ok(0)
    } else if len as usize > MAX_DNS_PAYLOAD {
        Err(WireError::PayloadTooLarge)
    } else {
        Ok(len as usize)
    }
}

/// What reading a length-prefixed buffer from `buf` gives: the payload and
/// the number of bytes consumed.  A length of zero or less announces no
/// payload; one above `MAX_DNS_PAYLOAD`, or one that `buf` does not hold,
/// is an error.
pub open spec fn spec_read_len_and_data(buf: Seq<u8>) -> Result<(Seq<u8>, int), WireError> {
    if buf.len() < 4 {
        Err(WireError::UnexpectedEof)
    } else {
        let len = be32_value(buf);
        if len <= 0 {
            Ok((Seq::empty(), 4))
        } else if len > 65535 {
            Err(WireError::PayloadTooLarge)
        } else if buf.len() < 4 + len {
            Err(WireError::UnexpectedEof)
        } else {
            Ok((buf.subrange(4, 4 + len), 4 + len))
        }
    }
}

/// Reads a length-prefixed buffer from the bytes `buf` a peer sent: the
/// payload and the number of bytes consumed.
pub fn read_len_and_data(buf: &[u8]) -> (r: Result<(Vec<u8>, usize), WireError>)
    ensures
        match spec_read_len_and_data(buf@) {
            Ok((d, used)) => r matches Ok((v, u)) && v@ == d && u == used,
            Err(e) => r == Err::<(Vec<u8>, usize), WireError>(e),
        },
{
    let len = match read_be32(buf) {
        Some(l) => l,
        None => return Err(WireError::UnexpectedEof),
    };
    let n = match payload_length(len) {
        Ok(n) => n,
        Err(e) => return Err(e),
    };
    let bl = buf.len();
    if bl - 4 < n {
        return Err(WireError::UnexpectedEof);
    }
    let mut out: Vec<u8> = Vec::new();
    let mut k: usize = 0;
    while k < n
        invariant
            k <= n,
            bl == buf@.len(),
            4 + n <= buf@.len(),
            out@ == buf@.subrange(4, 4 + k),
        decreases n - k,
    {
        out.push(buf[4 + k]);
        k += 1;
        assert(out@ =~= buf@.subrange(4, 4 + k));
    }
    proof {
        if n == 0 {
            assert(out@ =~= Seq::<u8>::empty());
        }
    }
    Ok((out, 4 + n))
}

// ---------------------------------------------------------------------------
// QNAME of a raw DNS query
// ---------------------------------------------------------------------------

/// The labels of the QNAME that starts at `pos`, as raw bytes.  Compression
/// pointers and truncation make it malformed.
pub open spec fn qname_labels(p: Seq<u8>, pos: int) -> Option<Seq<Seq<u8>>>
    decreases p.len() - pos,
{
    if pos < 0 || pos >= p.len() {
        None
    } else {
        let l = p[pos] as int;
        if l == 0 {
            Some(Seq::<Seq<u8>>::empty())
        } else if l >= 64 {
            None
        } else if pos + 1 + l > p.len() {
            None
        } else {
            match qname_labels(p, pos + 1 + l) {
                Some(rest) => Some(seq![p.subrange(pos + 1, pos + 1 + l)] + rest),
                None => None,
            }
        }
    }
}

/// Labels joined with '.'.
pub open spec fn join_dots(parts: Seq<Seq<char>>) -> Seq<char>
    decreases parts.len(),
{
    if parts.len() == 0 {
        Seq::<char>::empty()
    } else if parts.len() == 1 {
        parts[0]
    } else {
        join_dots(parts.drop_last()) + seq!['.'] + parts.last()
    }
}

/// The hostname a raw DNS query asks about: its QNAME labels, each valid
/// UTF-8, joined with '.'.
pub open spec fn spec_query_name(p: Seq<u8>) -> Option<Seq<char>> {
    if p.len() < 12 {
        None
    } else {
        match qname_labels(p, 12) {
            Some(ls) => if forall|i: int| 0 <= i < ls.len() ==> valid_utf8(#[trigger] ls[i]) {
                Some(join_dots(ls.map_values(|l: Seq<u8>| decode_utf8(l))))
            } else {
                None
            },
            None => None,
        }
    }
}

/// `std::str::from_utf8` (std): `Ok` exactly for valid UTF-8, holding the
/// decoded chars.
#[verifier::external_body]
pub(crate) fn utf8_to_string(bytes: &[u8]) -> (r: Option<String>)
    ensures
        r is Some <==> valid_utf8(bytes@),
        r matches Some(s) ==> s@ == decode_utf8(bytes@),
{
    std::str::from_utf8(bytes).ok().map(|s| s.to_string())
}

/// Labels from `pos` on, decoded; `None` when malformed or not UTF-8.
spec fn decoded_labels(p: Seq<u8>, pos: int) -> Option<Seq<Seq<char>>> {
    match qname_labels(p, pos) {
        Some(ls) => if forall|i: int| 0 <= i < ls.len() ==> valid_utf8(#[trigger] ls[i]) {
            Some(ls.map_values(|l: Seq<u8>| decode_utf8(l)))
        } else {
            None
        },
        None => None,
    }
}

proof fn lemma_decoded_labels_step(p: Seq<u8>, pos: int)
    requires
        0 <= pos < p.len(),
        p[pos] != 0,
        (p[pos] as int) < 64,
        pos + 1 + p[pos] as int <= p.len(),
    ensures
        ({
            let l = p[pos] as int;
            let lab = p.subrange(pos + 1, pos + 1 + l);
            decoded_labels(p, pos) == if !valid_utf8(lab) {
                None
            } else {
                match decoded_labels(p, pos + 1 + l) {
                    Some(rest) => Some(seq![decode_utf8(lab)] + rest),
                    None => None,
                }
            }
        }),
{
    let l = p[pos] as int;
    let lab = p.subrange(pos + 1, pos + 1 + l);
    match qname_labels(p, pos + 1 + l) {
        Some(rest) => {
            let all = seq![lab] + rest;
            assert(all[0] == lab);
            if valid_utf8(lab) && (forall|i: int| 0 <= i < rest.len() ==> valid_utf8(#[trigger] rest[i])) {
                assert forall|i: int| 0 <= i < all.len() implies valid_utf8(#[trigger] all[i]) by {
                    if i > 0 {
                        assert(all[i] == rest[i - 1]);
                    }
                }
                assert(all.map_values(|l: Seq<u8>| decode_utf8(l)) =~= seq![decode_utf8(lab)]
                    + rest.map_values(|l: Seq<u8>| decode_utf8(l)));
            } else if valid_utf8(lab) {
                let i = choose|i: int| 0 <= i < rest.len() && !valid_utf8(#[trigger] rest[i]);
                assert(all[i + 1] == rest[i]);
            }
        },
        None => {},
    }
}

/// Parses the QNAME field from the question section of a raw DNS query
/// packet.  Returns the hostname as a dot-separated string, or `None` if the
/// packet is malformed.
pub fn parse_dns_query_name(packet: &[u8]) -> (r: Option<String>)
    ensures
        r matches Some(s) ==> spec_query_name(packet@) == Some(s@),
        r is None ==> spec_query_name(packet@) is None,
{
    let n = packet.len();
    if n < 12 {
        return None;
    }
    let mut pos: usize = 12;
    let mut name = String::new();
    let mut first = true;
    let ghost mut done: Seq<Seq<char>> = Seq::empty();
    loop
        invariant
            n == packet@.len(),
            12 <= pos,
            first == (done.len() == 0),
            name@ == join_dots(done),
            decoded_labels(packet@, 12) == match decoded_labels(packet@, pos as int) {
                Some(rest) => Some(done + rest),
                None => None,
            },
        decreases n - pos,
    {
        if pos >= n {
            return None;
        }
        let l = packet[pos] as usize;
        if l == 0 {
            proof {
                assert(done + Seq::<Seq<char>>::empty() =~= done);
                assert(Seq::<Seq<u8>>::empty().map_values(|l: Seq<u8>| decode_utf8(l)) =~= Seq::<
                    Seq<char>,
                >::empty());
            }
            return Some(name);
        }
        if l >= 64 {
            return None;
        }
        if l > n - pos - 1 {
            return None;
        }
        proof {
            lemma_decoded_labels_step(packet@, pos as int);
        }
        let label = vstd::slice::slice_subrange(packet, pos + 1, pos + 1 + l);
        let text = match utf8_to_string(label) {
            Some(t) => t,
            None => return None,
        };
        if !first {
            crate::text::push_char(&mut name, '.');
        }
        crate::text::push_str(&mut name, text.as_str());
        proof {
            let next = done.push(text@);
            if done.len() == 0 {
                assert(name@ =~= join_dots(next));
            } else {
                assert(next.drop_last() =~= done);
                assert(name@ =~= join_dots(next));
            }
            match decoded_labels(packet@, pos + 1 + l) {
                Some(rest) => {
                    assert(done + (seq![text@] + rest) =~= next + rest);
                },
                None => {},
            }
            done = next;
        }
        first = false;
        pos = pos + 1 + l;
    }
}

} // verus!
