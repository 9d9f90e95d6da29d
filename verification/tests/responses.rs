use anetd::dns::response::{addrinfo, hostent};
use anetd::dns::text_reply;
use anetd::dns::{send_dns_hard_block, send_dns_operation_failed, send_resnsend_block};
use anetd::dns::nxdomain::make_nxdomain_response;
use anetd::sys::SysCodes;

fn codes() -> SysCodes {
    SysCodes {
        af_inet: 2,
        af_inet6: 10,
        sock_stream: 1,
        ipproto_tcp: 6,
        econnrefused: 111,
        eai_noname: 8,
        eai_system: 11,
    }
}

fn be(v: i32) -> [u8; 4] {
    v.to_be_bytes()
}

#[test]
fn addrinfo_fake_ipv4_layout() {
    let mut w = Vec::new();
    addrinfo::send_fake_ipv4(&mut w, [10, 0, 0, 1], &codes());
    let mut expected = b"222\0".to_vec();
    for v in [1, 0, 2, 1, 6, 16] {
        expected.extend_from_slice(&be(v));
    }
    expected.extend_from_slice(&2u16.to_ne_bytes());
    expected.extend_from_slice(&[0, 0, 10, 0, 0, 1, 0, 0, 0, 0, 0, 0, 0, 0]);
    expected.extend_from_slice(&be(0)); // no canonical name
    expected.extend_from_slice(&be(0)); // end of list
    assert_eq!(w, expected);
}

#[test]
fn addrinfo_fake_ipv6_sockaddr() {
    let s = addrinfo::sockaddr_in6([0xfe; 16], 53, &codes());
    assert_eq!(s.len(), 28);
    assert_eq!(&s[0..2], &10u16.to_ne_bytes());
    assert_eq!(&s[2..4], &[0, 53]);
    assert_eq!(&s[8..24], &[0xfe; 16]);
}

#[test]
fn addrinfo_failures() {
    let mut w = Vec::new();
    addrinfo::send_nxdomain(&mut w, &codes());
    assert_eq!(w, [b"401\0".as_slice(), &be(8)].concat());
    let mut f = Vec::new();
    send_dns_operation_failed(&mut f, &codes());
    assert_eq!(f, [b"401\0".as_slice(), &be(11)].concat());
    let mut h = Vec::new();
    send_dns_hard_block(&mut h, &codes());
    assert_eq!(h, w);
}

#[test]
fn addrinfo_entry_with_canonical_name() {
    let mut w = Vec::new();
    addrinfo::write_addrinfo_entry(&mut w, 0, 2, 1, 6, &[1, 2], Some("ab"));
    let mut expected = Vec::new();
    for v in [1, 0, 2, 1, 6, 2] {
        expected.extend_from_slice(&be(v));
    }
    expected.extend_from_slice(&[1, 2]);
    expected.extend_from_slice(&be(3));
    expected.extend_from_slice(b"ab\0");
    assert_eq!(w, expected);
}

#[test]
fn hostent_fake_ipv4_layout() {
    let mut w = Vec::new();
    hostent::send_fake_ipv4(&mut w, "a.b", [1, 2, 3, 4], &codes());
    let mut expected = b"222\0".to_vec();
    expected.extend_from_slice(&be(4));
    expected.extend_from_slice(b"a.b\0");
    expected.extend_from_slice(&be(0));
    expected.extend_from_slice(&be(2));
    expected.extend_from_slice(&be(4));
    expected.extend_from_slice(&be(16));
    expected.extend_from_slice(&[1, 2, 3, 4, 0, 0, 0, 0, 0, 0, 0, 0, 0, 0, 0, 0]);
    expected.extend_from_slice(&be(0));
    assert_eq!(w, expected);
    let mut f = Vec::new();
    hostent::send_operation_failed(&mut f);
    assert_eq!(f, b"401\0");
}

#[test]
fn resnsend_block_replies() {
    let mut q = vec![0xab, 0xcd, 0x01, 0x00, 0, 1, 0, 0, 0, 0, 0, 0];
    q.extend_from_slice(&[1, b'x', 0, 0, 1, 0, 1]);
    let mut w = Vec::new();
    send_resnsend_block(&mut w, &q, &codes());
    let nx = make_nxdomain_response(&q).unwrap();
    let mut expected = b"222\0".to_vec();
    expected.extend_from_slice(&be(3));
    expected.extend_from_slice(&be(nx.len() as i32));
    expected.extend_from_slice(&nx);
    assert_eq!(w, expected);

    // A query that cannot be answered: the negated ECONNREFUSED, no packet.
    let mut e = Vec::new();
    send_resnsend_block(&mut e, &[1, 2, 3], &codes());
    assert_eq!(e, [b"222\0".as_slice(), &be(-111)].concat());
}

#[test]
fn text_fake_responses() {
    let mut a = Vec::new();
    text_reply::send_addrinfo_fake_response(&mut a, [127, 0, 0, 1]);
    assert_eq!(&a[..24], b"222 DnsProxyQueryResult\0");
    assert_eq!(&a[24..40], &[0, 0, 0, 0, 0, 0, 0, 2, 0, 0, 0, 1, 0, 0, 0, 6]);
    assert_eq!(&a[44..46], &2u16.to_ne_bytes());
    assert_eq!(&a[48..52], &[127, 0, 0, 1]);

    let mut h = Vec::new();
    text_reply::send_hostent_fake_response(&mut h, "ab", [9, 9, 9, 9]);
    let mut expected = b"222 DnsProxyQueryResult\0".to_vec();
    expected.extend_from_slice(&be(3));
    expected.extend_from_slice(b"ab\0");
    for v in [0, 2, 4, 4] {
        expected.extend_from_slice(&be(v));
    }
    expected.extend_from_slice(&[9, 9, 9, 9]);
    expected.extend_from_slice(&be(0));
    assert_eq!(h, expected);

    let mut b = Vec::new();
    text_reply::send_dns_hard_block(&mut b);
    assert_eq!(&b[24..], &[0, 0, 0, 1, 0, 0, 0, 0]);
    let mut s = Vec::new();
    text_reply::write_len_and_string(&mut s, "hi");
    assert_eq!(s, vec![0, 0, 0, 3, b'h', b'i', 0]);
}
