use netsand::config::UpstreamProxyType;
use netsand::profile::{
    AllowSection, Profile, ProfileFile, ProfileMeta, SandboxSection, UpstreamSection,
};

fn bot_file() -> ProfileFile {
    ProfileFile {
        profile: ProfileMeta {
            name: "bot".into(),
            description: "Polymarket trading bot".into(),
            listen_port: Some(8001),
        },
        allow: Some(AllowSection {
            domains: vec!["gamma-api.polymarket.com".into(), "stream.binance.com".into()],
            ips: vec![],
        }),
        upstream: Some(UpstreamSection {
            proxy: "socks5://127.0.0.1:1080".into(),
            domains: vec!["gamma-api.polymarket.com".into()],
            ips: vec![],
        }),
        sandbox: Some(SandboxSection { user: Some("botuser".into()) }),
    }
}

fn scraper_file() -> ProfileFile {
    ProfileFile {
        profile: ProfileMeta {
            name: "scraper".into(),
            description: String::new(),
            listen_port: Some(8002),
        },
        allow: Some(AllowSection { domains: vec!["api.coingecko.com".into()], ips: vec![] }),
        upstream: None,
        sandbox: None,
    }
}

fn bare_file(name: &str) -> ProfileFile {
    ProfileFile {
        profile: ProfileMeta { name: name.into(), description: String::new(), listen_port: None },
        allow: None,
        upstream: None,
        sandbox: None,
    }
}

#[test]
fn test_load_bot_profile() {
    let p = Profile::from_file(bot_file(), 9999).unwrap();
    assert_eq!(p.name, "bot");
    assert_eq!(p.listen_port, 8001);
    assert!(p.policy.is_allowed("gamma-api.polymarket.com"));
    assert!(p.policy.is_allowed("stream.binance.com"));
    assert!(!p.policy.is_allowed("evil.com"));
    assert!(p.policy.needs_upstream("gamma-api.polymarket.com"));
    assert!(!p.policy.needs_upstream("stream.binance.com"));
    assert_eq!(p.sandbox_user.as_deref(), Some("botuser"));
}

#[test]
fn test_load_scraper_profile() {
    let p = Profile::from_file(scraper_file(), 9999).unwrap();
    assert_eq!(p.name, "scraper");
    assert_eq!(p.listen_port, 8002);
    assert!(p.policy.is_allowed("api.coingecko.com"));
    assert!(!p.policy.is_allowed("evil.com"));
    assert!(p.policy.upstream.is_none());
    assert!(p.sandbox_user.is_none());
}

#[test]
fn test_load_all_profiles() {
    let profiles = Profile::from_files(vec![Ok(bot_file()), Ok(scraper_file())]).unwrap();
    assert_eq!(profiles.len(), 2);
    assert_eq!(profiles[0].name, "bot");
    assert_eq!(profiles[1].name, "scraper");
}

#[test]
fn test_default_port_assignment() {
    let p = Profile::from_file(scraper_file(), 7777).unwrap();
    assert_eq!(p.listen_port, 8002); // explicit wins over default
}

// ---------------------------------------------------------------------

#[test]
fn default_ports_follow_the_previous_profile() {
    let files = vec![Ok(bare_file("a")), Ok(bot_file()), Ok(bare_file("c")), Ok(bare_file("d"))];
    let ps = Profile::from_files(files).unwrap();
    let ports: Vec<u16> = ps.iter().map(|p| p.listen_port).collect();
    assert_eq!(ports, vec![8001, 8001, 8002, 8003]);
    let mut last = bare_file("z");
    last.profile.listen_port = Some(65535);
    let ps = Profile::from_files(vec![Ok(last), Ok(bare_file("w"))]).unwrap();
    assert_eq!(ps[1].listen_port, 0);
}

#[test]
fn domains_are_lowercased() {
    let mut f = bare_file("m");
    f.allow = Some(AllowSection { domains: vec!["Example.COM".into()], ips: vec!["10.1.2.3".into()] });
    let p = Profile::from_file(f, 1).unwrap();
    assert!(p.policy.allowed_domains.contains("example.com"));
    assert!(!p.policy.allowed_domains.contains("Example.COM"));
    assert!(p.policy.is_allowed("10.1.2.3"));
    assert_eq!(p.listen_port, 1);
}

#[test]
fn first_error_wins() {
    let mut f = bare_file("m");
    f.allow = Some(AllowSection { domains: vec![], ips: vec!["1.2.3.4".into(), "nope".into(), "bad".into()] });
    f.upstream = Some(UpstreamSection { proxy: "ftp://x".into(), domains: vec![], ips: vec![] });
    assert_eq!(
        Profile::from_file(f, 1).unwrap_err(),
        "invalid IP 'nope': invalid IP address syntax"
    );
    let mut g = bare_file("m");
    g.upstream = Some(UpstreamSection { proxy: "ftp://x".into(), domains: vec![], ips: vec!["bad".into()] });
    assert_eq!(
        Profile::from_file(g, 1).unwrap_err(),
        "unsupported proxy scheme: ftp://x (use socks5:// or http://)"
    );
    let mut h = bare_file("m");
    h.upstream = Some(UpstreamSection {
        proxy: "http://up:3128".into(),
        domains: vec!["A.b".into()],
        ips: vec!["::1".into(), "x".into()],
    });
    assert_eq!(
        Profile::from_file(h, 1).unwrap_err(),
        "invalid upstream IP 'x': invalid IP address syntax"
    );
}

#[test]
fn upstream_is_parsed() {
    let mut h = bare_file("m");
    h.upstream = Some(UpstreamSection {
        proxy: "http://up:3128".into(),
        domains: vec!["A.b".into()],
        ips: vec!["::1".into()],
    });
    let p = Profile::from_file(h, 1).unwrap();
    let u = p.policy.upstream.as_ref().unwrap();
    assert_eq!(u.proxy_type, UpstreamProxyType::Http);
    assert_eq!(u.host, "up");
    assert_eq!(u.port, 3128);
    assert!(u.domains.contains("a.b"));
    assert_eq!(u.ips.len(), 1);
}

#[test]
fn load_error_stops_the_list() {
    let r = Profile::from_files(vec![Ok(bare_file("a")), Err("cannot read x".to_string()), Ok(bare_file("c"))]);
    assert_eq!(r.unwrap_err(), "cannot read x");
}
