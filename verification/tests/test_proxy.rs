use netsand::config::{Policy, UpstreamProxy, UpstreamProxyType};
use netsand::proxy::{
    blocked_message, forwards_header, is_header_end, parse_request_line, parse_url, plan_connect,
    plan_http, rewrite_request, RequestLine, Route,
};
use netsand::sets::{IpSet, NameSet};
use netsand::upstream::{
    http_connect_request, socks5_connect_request, start_handshake, step, HandshakeAction,
    HandshakeState, ReadAmount,
};

fn make_test_policy() -> Policy {
    Policy {
        allowed_domains: NameSet::from_names(vec![
            "allowed.example.com".into(),
            "another.allowed.com".into(),
        ]),
        allowed_ips: IpSet::new(),
        upstream: Some(UpstreamProxy {
            proxy_type: UpstreamProxyType::Http,
            host: "up".into(),
            port: 3128,
            domains: NameSet::from_names(vec!["another.allowed.com".into()]),
            ips: IpSet::new(),
        }),
    }
}

#[test]
fn request_lines() {
    match parse_request_line("CONNECT evil.com:443 HTTP/1.1\r\n").unwrap() {
        RequestLine::Connect { target } => assert_eq!(target, "evil.com:443"),
        _ => panic!("expected CONNECT"),
    }
    match parse_request_line("connect a:1").unwrap() {
        RequestLine::Connect { target } => assert_eq!(target, "a:1"),
        _ => panic!("expected CONNECT"),
    }
    match parse_request_line("  GET   http://evil.com/steal  HTTP/1.1 extra\r\n").unwrap() {
        RequestLine::Http { method, url, version } => {
            assert_eq!(method, "GET");
            assert_eq!(url, "http://evil.com/steal");
            assert_eq!(version, "HTTP/1.1");
        }
        _ => panic!("expected HTTP"),
    }
    assert_eq!(parse_request_line(" \r\n").unwrap_err(), "empty request");
    assert_eq!(parse_request_line("GARBAGE\r\n").unwrap_err(), "malformed: GARBAGE");
    assert_eq!(parse_request_line("GET /x").unwrap_err(), "malformed HTTP");
}

#[test]
fn urls() {
    assert_eq!(
        parse_url("http://evil.com/steal?x=1").unwrap(),
        ("evil.com".to_string(), 80, "/steal?x=1".to_string())
    );
    assert_eq!(parse_url("https://h:8443").unwrap(), ("h".to_string(), 8443, "/".to_string()));
    assert_eq!(parse_url("h:81/a/b").unwrap(), ("h".to_string(), 81, "/a/b".to_string()));
    assert_eq!(parse_url("http://h:x/a").unwrap_err(), "bad port: h:x");
}

#[test]
fn connect_routes() {
    let p = make_test_policy();
    let d = plan_connect(&p, "evil.com:443").unwrap();
    assert_eq!((d.host.as_str(), d.port, d.route), ("evil.com", 443, Route::Blocked));
    let d = plan_connect(&p, "localhost:1").unwrap();
    assert_eq!(d.route, Route::Direct);
    let d = plan_connect(&p, "allowed.example.com").unwrap();
    assert_eq!((d.port, d.route), (443, Route::Direct));
    let d = plan_connect(&p, "x.another.allowed.com:8443").unwrap();
    assert_eq!(d.route, Route::Upstream);
    assert_eq!(plan_connect(&p, "h:port").unwrap_err(), "bad port: h:port");
    assert_eq!(blocked_message("evil.com", 443), "blocked: evil.com:443");
}

#[test]
fn http_routes() {
    let p = make_test_policy();
    let (d, path) = plan_http(&p, "http://evil.com/steal").unwrap();
    assert_eq!((d.host.as_str(), d.port, d.route, path.as_str()), ("evil.com", 80, Route::Blocked, "/steal"));
    let (d, path) = plan_http(&p, "http://allowed.example.com:8080").unwrap();
    assert_eq!((d.port, d.route, path.as_str()), (8080, Route::Direct, "/"));
}

#[test]
fn profiles_block_each_other() {
    let a = Policy { allowed_domains: NameSet::from_names(vec!["a.example.com".into()]), allowed_ips: IpSet::new(), upstream: None };
    let b = Policy { allowed_domains: NameSet::from_names(vec!["b.example.com".into()]), allowed_ips: IpSet::new(), upstream: None };
    assert_eq!(plan_connect(&a, "b.example.com:443").unwrap().route, Route::Blocked);
    assert_eq!(plan_connect(&b, "a.example.com:443").unwrap().route, Route::Blocked);
    assert_eq!(plan_connect(&a, "a.example.com:443").unwrap().route, Route::Direct);
}

#[test]
fn headers() {
    assert!(is_header_end("\r\n"));
    assert!(is_header_end("   \n"));
    assert!(!is_header_end("Host: x\r\n"));
    assert!(forwards_header("Host: x\r\n"));
    assert!(!forwards_header("Proxy-Authorization: y\r\n"));
    assert!(!forwards_header("PROXY-connection: close\r\n"));
    assert_eq!(
        rewrite_request("GET", "/a", "HTTP/1.1", "Host: x\r\n"),
        "GET /a HTTP/1.1\r\nHost: x\r\n\r\n"
    );
}

#[test]
fn http_handshake() {
    assert_eq!(http_connect_request("t.com", 443), "CONNECT t.com:443 HTTP/1.1\r\nHost: t.com:443\r\n\r\n");
    let (s, a) = start_handshake(UpstreamProxyType::Http, "t.com", 443);
    match a {
        HandshakeAction::SendAndRead { send, read } => {
            assert_eq!(send, b"CONNECT t.com:443 HTTP/1.1\r\nHost: t.com:443\r\n\r\n".to_vec());
            assert_eq!(read, ReadAmount::UpTo(4096));
        }
        _ => panic!("expected a write"),
    }
    let (_, a) = step(s, b"HTTP/1.1 200 Connection established\r\n\r\n");
    assert!(matches!(a, HandshakeAction::Ready));
    let (s, _) = start_handshake(UpstreamProxyType::Http, "t.com", 443);
    match step(s, b"HTTP/1.1 403 Forbidden\r\n\r\n").1 {
        HandshakeAction::Fail(e) => assert_eq!(e, "upstream rejected CONNECT to t.com:443"),
        _ => panic!("expected failure"),
    }
}

#[test]
fn socks5_handshake() {
    assert_eq!(socks5_connect_request("ab", 0x1f90), vec![5, 1, 0, 3, 2, b'a', b'b', 0x1f, 0x90]);
    let (s, a) = start_handshake(UpstreamProxyType::Socks5, "ab", 443);
    match a {
        HandshakeAction::SendAndRead { send, read } => {
            assert_eq!(send, vec![5, 1, 0]);
            assert_eq!(read, ReadAmount::Exact(2));
        }
        _ => panic!("expected greeting"),
    }
    let (s, a) = step(s, &[5, 0]);
    match a {
        HandshakeAction::SendAndRead { send, read } => {
            assert_eq!(send, vec![5, 1, 0, 3, 2, b'a', b'b', 1, 187]);
            assert_eq!(read, ReadAmount::Exact(4));
        }
        _ => panic!("expected request"),
    }
    assert!(matches!(s, HandshakeState::Socks5AwaitReply));
    let (_, a) = step(HandshakeState::Socks5AwaitReply, &[5, 0, 0, 1]);
    assert!(matches!(a, HandshakeAction::DrainThenReady(6)));
    let (_, a) = step(HandshakeState::Socks5AwaitReply, &[5, 0, 0, 4]);
    assert!(matches!(a, HandshakeAction::DrainThenReady(18)));
    let (_, a) = step(HandshakeState::Socks5AwaitReply, &[5, 0, 0, 9]);
    assert!(matches!(a, HandshakeAction::Ready));
    let (s, a) = step(HandshakeState::Socks5AwaitReply, &[5, 0, 0, 3]);
    assert!(matches!(a, HandshakeAction::ReadOrZero(1)));
    let (_, a) = step(s, &[10]);
    assert!(matches!(a, HandshakeAction::DrainThenReady(12)));
    match step(HandshakeState::Socks5AwaitReply, &[5, 0x5b, 0, 1]).1 {
        HandshakeAction::Fail(e) => assert_eq!(e, "socks5 connect failed: 0x5b"),
        _ => panic!("expected failure"),
    }
    match step(HandshakeState::Socks5AwaitGreeting { request: vec![] }, &[5, 2]).1 {
        HandshakeAction::Fail(e) => assert_eq!(e, "socks5 auth failed"),
        _ => panic!("expected failure"),
    }
}

#[test]
fn whitespace_matches_std() {
    for u in 0u32..=0x10FFFF {
        if let Some(c) = char::from_u32(u) {
            assert_eq!(netsand::text::is_whitespace(c), c.is_whitespace(), "U+{:04X}", u);
        }
    }
}

#[test]
fn unicode_whitespace_separates_words() {
    match parse_request_line("\u{3000}GET\u{a0}http://a/b\u{2003}HTTP/1.1\u{85}").unwrap() {
        RequestLine::Http { method, url, version } => {
            assert_eq!((method.as_str(), url.as_str(), version.as_str()), ("GET", "http://a/b", "HTTP/1.1"));
        }
        _ => panic!("expected HTTP"),
    }
}
