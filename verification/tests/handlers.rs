use anetd::dns::nxdomain::make_nxdomain_response;
use anetd::handlers::getaddrinfo::{GetAddrInfoHandler, GetAddrInfoRequest};
use anetd::handlers::gethostbyaddr::GetHostByAddrHandler;
use anetd::handlers::gethostbyname::GetHostByNameHandler;
use anetd::handlers::resnsend::ResNsendHandler;
use anetd::handlers::setoperatoraddress::SetOperatorAddressHandler;
use anetd::handlers::{format_pseudo_url, HandlerAction};
use anetd::rules::adblock::extract_hostname;
use anetd::rules::RuleSet;
use anetd::sys::SysCodes;

fn reply(a: HandlerAction) -> Vec<u8> {
    match a {
        HandlerAction::Reply(b) => b,
        HandlerAction::Proxy => panic!("expected a reply"),
    }
}

fn nxdomain_reply(codes: &SysCodes) -> Vec<u8> {
    let mut v = b"401\0".to_vec();
    v.extend_from_slice(&codes.eai_noname.to_be_bytes());
    v
}

#[test]
fn pseudo_url_format() {
    assert_eq!(format_pseudo_url("example.com"), "https://example.com/");
    assert_eq!(format_pseudo_url(""), "https:///");
    assert_eq!(extract_hostname(&format_pseudo_url("ads.example.com")), "ads.example.com");
}

#[test]
fn getaddrinfo_parse() {
    let r = GetAddrInfoRequest::parse("getaddrinfo example.com ^ 1024 2 1 6 100").unwrap();
    assert_eq!(r.hostname.as_deref(), Some("example.com"));
    assert_eq!(r.servname, None);
    assert_eq!((r.ai_flags, r.ai_family, r.ai_socktype, r.ai_protocol, r.net_id), (1024, 2, 1, 6, 100));
    assert_eq!(r.hostname_str(), "example.com");
    assert_eq!(r.raw_cmd, "getaddrinfo example.com ^ 1024 2 1 6 100");

    let caret = GetAddrInfoRequest::parse("GETADDRINFO ^ http -1 +0 0 0 4294967295").unwrap();
    assert_eq!(caret.hostname_str(), "");
    assert_eq!(caret.servname.as_deref(), Some("http"));
    assert_eq!(caret.ai_flags, -1);
    assert_eq!(caret.net_id, u32::MAX);

    assert!(GetAddrInfoRequest::parse("getaddrinfo example.com ^ 0 0 0 0").is_none());
    assert!(GetAddrInfoRequest::parse("getaddrinfo  example.com ^ 0 0 0 0 0").is_none());
    assert!(GetAddrInfoRequest::parse("getaddrinf example.com ^ 0 0 0 0 0").is_none());
    assert!(GetAddrInfoRequest::parse("getaddrinfo example.com ^ x 0 0 0 0").is_none());
    assert!(GetAddrInfoRequest::parse("getaddrinfo example.com ^ 0 0 0 0 -1").is_none());
}

#[test]
fn getaddrinfo_blocks_listed_hosts() {
    let rules = RuleSet::from_rules(&["||evil.com^"]);
    let codes = host_codes();
    let h = GetAddrInfoHandler;
    assert_eq!(
        reply(h.handle("getaddrinfo ads.evil.com ^ 0 0 0 0 0", &rules, &codes)),
        nxdomain_reply(&codes)
    );
    assert!(matches!(h.handle("getaddrinfo good.com ^ 0 0 0 0 0", &rules, &codes), HandlerAction::Proxy));
    assert!(matches!(h.handle("getaddrinfo evil.com", &rules, &codes), HandlerAction::Proxy));
}

#[test]
fn gethostbyname_blocks_listed_hosts() {
    let rules = RuleSet::from_rules(&["||evil.com^"]);
    let codes = host_codes();
    let h = GetHostByNameHandler;
    assert_eq!(reply(h.handle("gethostbyname 100 evil.com 2", &rules, &codes)), nxdomain_reply(&codes));
    assert!(matches!(h.handle("gethostbyname 100", &rules, &codes), HandlerAction::Proxy));
    assert!(matches!(h.handle("gethostbyname 100 fine.org", &rules, &codes), HandlerAction::Proxy));
}

#[test]
fn gethostbyaddr_blocks_listed_addresses() {
    let rules = RuleSet::from_rules(&["||10.0.0.1^"]);
    let codes = host_codes();
    let h = GetHostByAddrHandler;
    let mut expected = b"401\0".to_vec();
    expected.extend_from_slice(&codes.eai_system.to_be_bytes());
    assert_eq!(reply(h.handle("gethostbyaddr 10.0.0.1 4 2", &rules, &codes)), expected);
    assert!(matches!(h.handle("gethostbyaddr", &rules, &codes), HandlerAction::Proxy));
}

#[test]
fn setoperatoraddress_is_passed_through() {
    assert!(matches!(SetOperatorAddressHandler.handle("setoperatoraddress x"), HandlerAction::Proxy));
}

fn example_query() -> Vec<u8> {
    let mut q = vec![0x12, 0x34, 0x01, 0x00, 0, 1, 0, 0, 0, 0, 0, 0];
    q.extend_from_slice(&[3, b'a', b'd', b's', 4, b'e', b'v', b'i', b'l', 3, b'c', b'o', b'm', 0, 0, 1, 0, 1]);
    q
}

// The same query, base64-encoded with the standard alphabet.
const EXAMPLE_QUERY_B64: &str = "EjQBAAABAAAAAAAAA2FkcwRldmlsA2NvbQAAAQAB";

#[test]
fn resnsend_blocks_decoded_queries() {
    let rules = RuleSet::from_rules(&["||evil.com^"]);
    let codes = host_codes();
    let h = ResNsendHandler;
    let cmd = format!("resnsend 100 0 {EXAMPLE_QUERY_B64}");
    let got = reply(h.handle(&cmd, &rules, &codes));
    let nx = make_nxdomain_response(&example_query()).unwrap();
    let mut expected = b"222\0".to_vec();
    expected.extend_from_slice(&3i32.to_be_bytes());
    expected.extend_from_slice(&(nx.len() as i32).to_be_bytes());
    expected.extend_from_slice(&nx);
    assert_eq!(got, expected);

    // Not base64: passed through.
    assert!(matches!(h.handle("resnsend 100 0 !!!", &rules, &codes), HandlerAction::Proxy));
    // Too few tokens.
    assert!(matches!(h.handle("resnsend 100 0", &rules, &codes), HandlerAction::Proxy));
    // Allowed name.
    assert!(matches!(h.handle(&cmd, &RuleSet::new(), &codes), HandlerAction::Proxy));
}

#[test]
fn resnsend_decoded_decision() {
    let rules = RuleSet::from_rules(&["||evil.com^"]);
    let codes = host_codes();
    let h = ResNsendHandler;
    assert!(matches!(h.handle_decoded(None, &rules, &codes), HandlerAction::Proxy));
    assert!(matches!(h.handle_decoded(Some(vec![1, 2]), &rules, &codes), HandlerAction::Proxy));
    assert!(matches!(h.handle_decoded(Some(example_query()), &rules, &codes), HandlerAction::Reply(_)));
}

fn host_codes() -> SysCodes {
    SysCodes {
        af_inet: libc::AF_INET,
        af_inet6: libc::AF_INET6,
        sock_stream: libc::SOCK_STREAM,
        ipproto_tcp: libc::IPPROTO_TCP,
        econnrefused: libc::ECONNREFUSED,
        eai_noname: libc::EAI_NONAME,
        eai_system: libc::EAI_SYSTEM,
    }
}
