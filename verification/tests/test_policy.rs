use netsand::config::{parse_host_port, parse_proxy_url, Policy, UpstreamProxy, UpstreamProxyType};
use netsand::ip::IpAddress;
use netsand::sets::{IpSet, NameSet};

fn make_policy() -> Policy {
    let mut allowed_domains = NameSet::new();
    allowed_domains.insert("gamma-api.polymarket.com".into());
    allowed_domains.insert("stream.binance.com".into());
    allowed_domains.insert("data-api.polymarket.com".into());

    let mut upstream_domains = NameSet::new();
    upstream_domains.insert("gamma-api.polymarket.com".into());
    upstream_domains.insert("data-api.polymarket.com".into());

    Policy {
        allowed_domains,
        allowed_ips: IpSet::new(),
        upstream: Some(UpstreamProxy {
            proxy_type: UpstreamProxyType::Socks5,
            host: "127.0.0.1".into(),
            port: 1080,
            domains: upstream_domains,
            ips: IpSet::new(),
        }),
    }
}

#[test]
fn test_allowed_domain() {
    let p = make_policy();
    assert!(p.is_allowed("gamma-api.polymarket.com"));
    assert!(p.is_allowed("stream.binance.com"));
    assert!(p.is_allowed("data-api.polymarket.com"));
}

#[test]
fn test_blocked_domain() {
    let p = make_policy();
    assert!(!p.is_allowed("evil.com"));
    assert!(!p.is_allowed("httpbin.org"));
    assert!(!p.is_allowed("polymarket.com")); // parent not in list
}

#[test]
fn test_case_insensitive() {
    let p = make_policy();
    assert!(p.is_allowed("Stream.Binance.COM"));
    assert!(p.is_allowed("GAMMA-API.POLYMARKET.COM"));
}

#[test]
fn test_subdomain_match() {
    let p = make_policy();
    assert!(p.is_allowed("foo.stream.binance.com"));
    assert!(p.is_allowed("sub.gamma-api.polymarket.com"));
}

#[test]
fn test_localhost_always_allowed() {
    let p = make_policy();
    assert!(p.is_allowed("localhost"));
    assert!(p.is_allowed("127.0.0.1"));
    assert!(p.is_allowed("::1"));
}

#[test]
fn test_ip_whitelist() {
    let mut p = make_policy();
    p.allowed_ips.insert(IpAddress::parse("52.84.123.45").unwrap());
    assert!(p.is_allowed("52.84.123.45"));
    assert!(!p.is_allowed("1.2.3.4"));
}

#[test]
fn test_needs_upstream() {
    let p = make_policy();
    assert!(p.needs_upstream("gamma-api.polymarket.com"));
    assert!(p.needs_upstream("data-api.polymarket.com"));
    assert!(!p.needs_upstream("stream.binance.com")); // allowed but direct
    assert!(!p.needs_upstream("evil.com")); // not in upstream list
}

#[test]
fn test_needs_upstream_subdomain() {
    let p = make_policy();
    assert!(p.needs_upstream("sub.gamma-api.polymarket.com"));
}

#[test]
fn test_no_upstream() {
    let p = Policy {
        allowed_domains: NameSet::from_names(vec!["example.com".into()]),
        allowed_ips: IpSet::new(),
        upstream: None,
    };
    assert!(!p.needs_upstream("example.com"));
}

#[test]
fn test_parse_proxy_url_socks5() {
    let (t, h, p) = parse_proxy_url("socks5://127.0.0.1:1080").unwrap();
    assert_eq!(t, UpstreamProxyType::Socks5);
    assert_eq!(h, "127.0.0.1");
    assert_eq!(p, 1080);
}

#[test]
fn test_parse_proxy_url_http() {
    let (t, h, p) = parse_proxy_url("http://proxy.example.com:8080").unwrap();
    assert_eq!(t, UpstreamProxyType::Http);
    assert_eq!(h, "proxy.example.com");
    assert_eq!(p, 8080);
}

#[test]
fn test_parse_proxy_url_default_port() {
    let (_, _, p) = parse_proxy_url("socks5://localhost").unwrap();
    assert_eq!(p, 1080);
    let (_, _, p) = parse_proxy_url("http://localhost").unwrap();
    assert_eq!(p, 8080);
}

#[test]
fn test_parse_proxy_url_invalid() {
    assert!(parse_proxy_url("ftp://localhost").is_err());
    assert!(parse_proxy_url("garbage").is_err());
}

// ---------------------------------------------------------------------

#[test]
fn parse_proxy_url_error_texts() {
    assert_eq!(
        parse_proxy_url("ftp://localhost").unwrap_err(),
        "unsupported proxy scheme: ftp://localhost (use socks5:// or http://)"
    );
    assert_eq!(
        parse_proxy_url("socks5://host:99999").unwrap_err(),
        "invalid port in: host:99999"
    );
    assert_eq!(parse_proxy_url("http://host:").unwrap_err(), "invalid port in: host:");
}

#[test]
fn parse_host_port_splits_at_last_colon() {
    assert_eq!(parse_host_port("a:b:81", 1).unwrap(), ("a:b".to_string(), 81));
    assert_eq!(parse_host_port("plain", 7).unwrap(), ("plain".to_string(), 7));
    assert_eq!(parse_host_port("h:+80", 7).unwrap(), ("h".to_string(), 80));
    assert_eq!(parse_host_port("h:065535", 7).unwrap(), ("h".to_string(), 65535));
    assert_eq!(parse_host_port("h:65536", 7).unwrap_err(), "invalid port in: h:65536");
    assert_eq!(parse_host_port("h:-1", 7).unwrap_err(), "invalid port in: h:-1");
    assert_eq!(parse_host_port("h:+", 7).unwrap_err(), "invalid port in: h:+");
    assert_eq!(parse_host_port(":0", 7).unwrap(), ("".to_string(), 0));
}

#[test]
fn host_port_round_trip_scenario() {
    for port in [0u16, 1, 9, 10, 443, 8080, 65535] {
        let text = format!("[::1]:{}", port);
        assert_eq!(parse_host_port(&text, 1).unwrap(), ("[::1]".to_string(), port));
        let url = format!("socks5://proxy.local:{}", port);
        let (t, h, p) = parse_proxy_url(&url).unwrap();
        assert_eq!((t, h.as_str(), p), (UpstreamProxyType::Socks5, "proxy.local", port));
        let url = format!("http://a:b:{}", port);
        let (t, h, p) = parse_proxy_url(&url).unwrap();
        assert_eq!((t, h.as_str(), p), (UpstreamProxyType::Http, "a:b", port));
    }
}

#[test]
fn subdomain_needs_dot_boundary() {
    let p = make_policy();
    assert!(!p.is_allowed("evilstream.binance.com"));
    assert!(!p.is_allowed("stream.binance.com.evil.org"));
    assert!(p.is_allowed("a.b.stream.binance.com"));
}

#[test]
fn listed_ip_allowed_any_spelling() {
    let mut p = make_policy();
    p.allowed_ips.insert(IpAddress::parse("2001:db8::1").unwrap());
    assert!(p.is_allowed("2001:DB8:0:0:0:0:0:1"));
    assert!(p.is_allowed("2001:0db8::0001"));
    assert!(!p.is_allowed("2001:db8::2"));
}

#[test]
fn upstream_by_ip() {
    let mut p = make_policy();
    if let Some(u) = p.upstream.as_mut() {
        u.ips.insert(IpAddress::parse("10.0.0.7").unwrap());
    }
    assert!(p.needs_upstream("10.0.0.7"));
    assert!(!p.needs_upstream("10.0.0.8"));
}

#[test]
fn name_set_counts_each_name_once() {
    let mut s = NameSet::new();
    assert!(s.insert("a.com".into()));
    assert!(!s.insert("a.com".into()));
    assert!(s.insert("b.com".into()));
    assert_eq!(s.len(), 2);
    assert!(s.contains("a.com"));
    assert!(!s.contains("c.com"));
    let t = NameSet::from_names(vec!["x".into(), "x".into(), "y".into()]);
    assert_eq!(t.len(), 2);
    let mut ips = IpSet::new();
    assert!(ips.insert(IpAddress::V4(1)));
    assert!(!ips.insert(IpAddress::V4(1)));
    assert!(ips.insert(IpAddress::V6(1)));
    assert_eq!(ips.len(), 2);
}
