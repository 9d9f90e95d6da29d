use anetd::dns::cache::{parse_min_ttl, parse_query_type, skip_name, DnsCache, FALLBACK_TTL};
use anetd::dns::nxdomain::make_nxdomain_response;
use anetd::dns::status::DnsProxyStatus;
use anetd::dns::text_reply;
use anetd::dns::wire::{
    parse_dns_query_name, payload_length, read_be32, read_len_and_data, write_be32,
    write_len_and_cstring, write_len_and_data, WireError,
};
use anetd::dns_server::{frame_tcp_response, plan_query, tcp_query_length, QueryPlan};
use anetd::rules::RuleSet;

fn build_test_query() -> Vec<u8> {
    let mut buf = Vec::new();
    buf.extend_from_slice(&[0x00, 0x01]); // ID
    buf.extend_from_slice(&[0x01, 0x00]); // Flags (standard query)
    buf.extend_from_slice(&[0x00, 0x01]); // QDCOUNT
    buf.extend_from_slice(&[0x00, 0x00]); // ANCOUNT
    buf.extend_from_slice(&[0x00, 0x00]); // NSCOUNT
    buf.extend_from_slice(&[0x00, 0x00]); // ARCOUNT
    // Question: "example" "com" \0
    buf.extend_from_slice(&[7, b'e', b'x', b'a', b'm', b'p', b'l', b'e']);
    buf.extend_from_slice(&[3, b'c', b'o', b'm', 0]);
    buf.extend_from_slice(&[0x00, 0x01]); // QTYPE = A
    buf.extend_from_slice(&[0x00, 0x01]); // QCLASS = IN
    buf
}

fn build_test_response(ttl: u32) -> Vec<u8> {
    let mut buf = build_test_query();
    buf[2] = 0x81;
    buf[3] = 0x80;
    buf[6] = 0x00;
    buf[7] = 0x01;
    buf.extend_from_slice(&[0xC0, 0x0C]); // name pointer
    buf.extend_from_slice(&[0x00, 0x01]); // TYPE = A
    buf.extend_from_slice(&[0x00, 0x01]); // CLASS = IN
    buf.extend_from_slice(&ttl.to_be_bytes()); // TTL
    buf.extend_from_slice(&[0x00, 0x04]); // RDLENGTH
    buf.extend_from_slice(&[127, 0, 0, 1]); // 127.0.0.1
    buf
}

#[test]
fn cache_hit_and_miss() {
    let mut cache = DnsCache::new(64);
    assert!(cache.get("example.com", 1, 0).is_none());

    cache.put("example.com", 1, b"fake_response", 0);
    assert_eq!(cache.get("example.com", 1, 0), Some(b"fake_response".to_vec()));
    // Different qtype misses.
    assert!(cache.get("example.com", 28, 0).is_none());
}

#[test]
fn cache_expiry_before_put() {
    let mut cache = DnsCache::new(64);
    // An unparseable response is kept for FALLBACK_TTL seconds.
    cache.put("stale.com", 1, b"old", 0);
    assert!(cache.get("stale.com", 1, FALLBACK_TTL * 1000 - 1).is_some());
    assert!(cache.get("stale.com", 1, FALLBACK_TTL * 1000).is_none());
}

#[test]
fn cache_keys_ignore_ascii_case() {
    let mut cache = DnsCache::new(4);
    cache.put("Example.COM", 1, b"r", 10);
    assert_eq!(cache.get("example.com", 1, 10), Some(b"r".to_vec()));
    assert_eq!(cache.len(), 1);
}

#[test]
fn cache_ttl_is_clamped() {
    let mut cache = DnsCache::new(4);
    // A 5 s TTL is raised to one minute.
    cache.put("short.com", 1, &build_test_response(5), 0);
    assert!(cache.get("short.com", 1, 59_999).is_some());
    assert!(cache.get("short.com", 1, 60_000).is_none());
    // A day-long TTL is cut to one hour.
    cache.put("long.com", 1, &build_test_response(86_400), 0);
    assert!(cache.get("long.com", 1, 3_599_999).is_some());
    assert!(cache.get("long.com", 1, 3_600_000).is_none());
}

#[test]
fn cache_evicts_expired_then_earliest() {
    let mut cache = DnsCache::new(2);
    cache.put("a.com", 1, &build_test_response(60), 0); // expires at 60 s
    cache.put("b.com", 1, &build_test_response(120), 0); // expires at 120 s
    // Full: a.com has expired at 70 s and is dropped first.
    cache.put("c.com", 1, &build_test_response(600), 70_000);
    assert_eq!(cache.len(), 2);
    assert!(cache.get("a.com", 1, 70_000).is_none());
    assert!(cache.get("b.com", 1, 70_000).is_some());
    // Full with nothing expired: the one expiring first (b.com) is evicted.
    cache.put("d.com", 1, &build_test_response(600), 80_000);
    assert_eq!(cache.len(), 2);
    assert!(cache.get("b.com", 1, 80_000).is_none());
    assert!(cache.get("c.com", 1, 80_000).is_some());
    assert!(cache.get("d.com", 1, 80_000).is_some());
}

#[test]
fn cache_flush_empties() {
    let mut cache = DnsCache::default();
    cache.put("a.com", 1, b"x", 0);
    cache.flush();
    assert_eq!(cache.len(), 0);
    assert!(cache.get("a.com", 1, 0).is_none());
}

#[test]
fn cache_of_capacity_zero_holds_one() {
    let mut cache = DnsCache::new(0);
    cache.put("a.com", 1, b"x", 0);
    cache.put("b.com", 1, b"y", 0);
    assert_eq!(cache.len(), 1);
    assert!(cache.get("b.com", 1, 0).is_some());
}

#[test]
fn parse_ttl_valid() {
    let response = build_test_response(300);
    assert_eq!(parse_min_ttl(&response), 300);
}

#[test]
fn parse_ttl_fallback_short() {
    assert_eq!(parse_min_ttl(&[]), FALLBACK_TTL);
    assert_eq!(parse_min_ttl(&[0; 8]), FALLBACK_TTL);
}

#[test]
fn parse_ttl_no_answers_falls_back() {
    assert_eq!(parse_min_ttl(&build_test_query()), FALLBACK_TTL);
}

#[test]
fn parse_query_type_valid() {
    let query = build_test_query();
    assert_eq!(parse_query_type(&query), Some(1)); // A record
}

#[test]
fn parse_query_type_truncated() {
    let query = build_test_query();
    assert_eq!(parse_query_type(&query[..query.len() - 4]), None);
    assert_eq!(parse_query_type(&query[..13]), None);
}

#[test]
fn skip_name_handles_pointers() {
    let resp = build_test_response(1);
    // The answer's name is a pointer: two bytes.
    assert_eq!(skip_name(&resp, 29), Some(31));
    assert_eq!(skip_name(&resp, 12), Some(25));
    assert_eq!(skip_name(&[5, 1, 2], 0), None);
}

#[test]
fn query_name_parsed() {
    assert_eq!(parse_dns_query_name(&build_test_query()), Some("example.com".to_string()));
    assert_eq!(parse_dns_query_name(&[0u8; 5]), None);
    let mut q = build_test_query();
    q[12] = 0xC0; // compression pointer in the question
    assert_eq!(parse_dns_query_name(&q), None);
}

#[test]
fn nxdomain_echoes_id_and_question() {
    let q = build_test_query();
    let r = make_nxdomain_response(&q).unwrap();
    assert_eq!(&r[0..2], &q[0..2]);
    assert_eq!(r[2], 0x81);
    assert_eq!(r[3] & 0x0f, 3);
    assert_eq!(&r[4..6], &q[4..6]);
    assert_eq!(&r[6..12], &[0u8; 6]);
    assert_eq!(&r[12..], &q[12..]);
    assert_eq!(make_nxdomain_response(&q[..20]), None);
}

#[test]
fn status_codes() {
    assert_eq!(DnsProxyStatus::DnsProxyQueryResult.code(), 222);
    assert_eq!(DnsProxyStatus::DnsProxyOperationFailed.code(), 401);
    assert_eq!(DnsProxyStatus::StrictCleartext.code(), 617);
    let mut w = Vec::new();
    DnsProxyStatus::DnsProxyOperationFailed.write(&mut w);
    assert_eq!(w, b"401\0");
}

#[test]
fn be32_roundtrip() {
    for v in [0i32, 1, -1, 256, i32::MIN, i32::MAX] {
        let mut w = Vec::new();
        write_be32(&mut w, v);
        w.push(9);
        assert_eq!(read_be32(&w), Some(v));
    }
    assert_eq!(read_be32(&[1, 2, 3]), None);
}

#[test]
fn len_and_data_roundtrip() {
    let mut w = Vec::new();
    write_len_and_data(&mut w, b"hello");
    w.extend_from_slice(b"rest");
    let (d, used) = read_len_and_data(&w).unwrap();
    assert_eq!(d, b"hello");
    assert_eq!(used, 9);

    let mut e = Vec::new();
    write_len_and_data(&mut e, b"");
    assert_eq!(e, vec![0, 0, 0, 0]);
    assert_eq!(read_len_and_data(&e).unwrap().1, 4);
}

#[test]
fn len_and_data_errors() {
    assert_eq!(read_len_and_data(&[0, 0]).unwrap_err(), WireError::UnexpectedEof);
    assert_eq!(read_len_and_data(&[0, 0, 0, 5, 1]).unwrap_err(), WireError::UnexpectedEof);
    assert_eq!(read_len_and_data(&[0, 1, 0, 0]).unwrap_err(), WireError::PayloadTooLarge);
    assert_eq!(payload_length(-3), Ok(0));
    assert_eq!(payload_length(65536), Err(WireError::PayloadTooLarge));
}

#[test]
fn len_and_cstring_adds_nul() {
    let mut w = Vec::new();
    write_len_and_cstring(&mut w, "ab");
    assert_eq!(w, vec![0, 0, 0, 3, b'a', b'b', 0]);
    let mut e = Vec::new();
    write_len_and_cstring(&mut e, "");
    assert_eq!(e, vec![0, 0, 0, 0]);
}

#[test]
fn text_replies() {
    let mut w = Vec::new();
    text_reply::send_dns_operation_failed(&mut w);
    assert_eq!(w, b"401 DnsProxyOperationFailed\0");
    let mut r = Vec::new();
    text_reply::send_resnsend_raw_packet(&mut r, b"pkt");
    assert_eq!(&r[..24], b"222 DnsProxyQueryResult\0");
    assert_eq!(&r[r.len() - 3..], b"pkt");
}

#[test]
fn blocked_query_answered_with_nxdomain() {
    let rules = RuleSet::from_rules(&["||example.com^"]);
    let q = build_test_query();
    match plan_query(&q, &rules) {
        QueryPlan::Answer(a) => assert_eq!(a, make_nxdomain_response(&q).unwrap()),
        _ => panic!("expected an answer"),
    }
    let allow = RuleSet::new();
    match plan_query(&q, &allow) {
        QueryPlan::Resolve(name, qtype) => {
            assert_eq!(name, "example.com");
            assert_eq!(qtype, 1);
        }
        _ => panic!("expected a resolve"),
    }
    assert!(matches!(plan_query(&[1, 2, 3], &rules), QueryPlan::Forward));
}

#[test]
fn tcp_framing() {
    assert_eq!(tcp_query_length([0x01, 0x00]), Some(256));
    assert_eq!(tcp_query_length([0x02, 0x01]), None);
    assert_eq!(tcp_query_length([0x02, 0x00]), Some(512));
    assert_eq!(frame_tcp_response(b"abc"), vec![0, 3, b'a', b'b', b'c']);
}

#[test]
fn cache_put_stays_within_capacity() {
    let mut cache = DnsCache::new(3);
    for (i, name) in ["a.com", "b.com", "c.com", "d.com", "e.com"].iter().enumerate() {
        cache.put(name, 1, b"r", i as u64);
        assert!(cache.len() <= 3);
        assert_eq!(cache.get(name, 1, i as u64), Some(b"r".to_vec()));
    }
}
