use anetd::handlers::HandlerAction;
use anetd::rules::RuleSet;
use anetd::session::{
    handle_command, handle_request, lookup_command, read_cmd_line, CmdLineError, CmdLineReader,
    Command, ProtoWrite, SessionError, MAX_CMD_LINE,
};
use anetd::sys::SysCodes;

#[test]
fn read_cmd_line_normal() {
    let raw = read_cmd_line(b"getaddrinfo example.com ^ 0 0 0 0 0\0").unwrap();
    assert_eq!(std::str::from_utf8(&raw).unwrap(), "getaddrinfo example.com ^ 0 0 0 0 0");
}

#[test]
fn read_cmd_line_eof_without_nul() {
    let raw = read_cmd_line(b"getaddrinfo").unwrap();
    assert_eq!(std::str::from_utf8(&raw).unwrap(), "getaddrinfo");
}

#[test]
fn read_cmd_line_empty() {
    let raw = read_cmd_line(b"\0").unwrap();
    assert!(raw.is_empty());
}

#[test]
fn read_cmd_line_exceeds_limit() {
    let payload = vec![b'A'; MAX_CMD_LINE];
    let result = read_cmd_line(&payload);
    assert!(result.is_err());
    let err = result.unwrap_err();
    assert_eq!(err, CmdLineError::TooLong);
    assert!(err.message().contains("too long"));
}

#[test]
fn read_cmd_line_at_limit_with_nul() {
    let mut payload = vec![b'B'; MAX_CMD_LINE - 1];
    payload.push(0);
    let raw = read_cmd_line(&payload).unwrap();
    assert_eq!(raw.len(), MAX_CMD_LINE - 1);
    assert!(raw.iter().all(|&b| b == b'B'));
}

#[test]
fn reader_stepwise_matches_whole_stream() {
    let stream = b"resnsend 0 0 AAAA\0trailing";
    let mut reader = CmdLineReader::new();
    let mut pos = 0;
    loop {
        assert!(reader.ready().is_ok());
        let byte = stream.get(pos).copied();
        if reader.feed(byte) {
            break;
        }
        pos += 1;
    }
    assert_eq!(reader.into_line(), read_cmd_line(stream).unwrap());
}

#[test]
fn registry_names() {
    assert_eq!(lookup_command("getaddrinfo"), Some(Command::GetAddrInfo));
    assert_eq!(lookup_command("resnsend"), Some(Command::ResNsend));
    assert_eq!(lookup_command("gethostbyname"), Some(Command::GetHostByName));
    assert_eq!(lookup_command("gethostbyaddr"), None);
    assert_eq!(lookup_command("GETADDRINFO"), None);
}

#[test]
fn commands_route_by_lowercased_name() {
    let rules = RuleSet::from_rules(&["||evil.com^"]);
    let codes = host_codes();
    let blocked = handle_command("GetHostByName 100 ads.evil.com 2", &rules, &codes);
    assert!(matches!(blocked, HandlerAction::Reply(_)));
    let other = handle_command("gethostbyaddr ads.evil.com", &rules, &codes);
    assert!(matches!(other, HandlerAction::Proxy));
    let empty = handle_command("", &rules, &codes);
    assert!(matches!(empty, HandlerAction::Proxy));
}

#[test]
fn requests_must_be_utf8() {
    let rules = RuleSet::new();
    let codes = host_codes();
    assert_eq!(
        handle_request(&[0xff, 0xfe], &rules, &codes).err(),
        Some(SessionError::InvalidUtf8)
    );
    let (cmd, action) = handle_request(b"ping", &rules, &codes).unwrap();
    assert_eq!(cmd, "ping");
    assert!(matches!(action, HandlerAction::Proxy));
}

#[test]
fn commands_are_framed_with_nul() {
    let mut buf: Vec<u8> = Vec::new();
    buf.write_cmd("getaddrinfo é");
    assert_eq!(buf, "getaddrinfo é\0".as_bytes());
}

fn host_codes() -> SysCodes {
    SysCodes {
        af_inet: libc::AF_INET,
        af_inet6: libc::AF_INET6,
        sock_stream: libc::SOCK_STREAM,
        ipproto_tcp: libc::IPPROTO_TCP,
        econnrefused: libc::ECONNREFUSED,
        eai_noname: libc::EAI_NONAME,
        eai_system: libc::EAI_SYSTEM,
    }
}
