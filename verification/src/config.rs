//! Access policies of a profile, and parsing of proxy URLs.
use vstd::prelude::*;
use crate::ip::{IpAddress, spec_parse_ip};
use crate::sets::{IpSet, NameSet};
use crate::text::{
    chars_of, chars_ends_with, chars_eq, chars_slice, chars_starts_with, parse_u16, push_str,
    rfind_char, seq_ends_with, seq_starts_with, spec_parse_u16, string_of, lowercase,
    lowercase_text,
};

verus! {

/// The protocol spoken to an upstream proxy.
#[derive(Clone, Copy, Debug, PartialEq, Eq, Structural)]
pub enum UpstreamProxyType {
    Http,
    Socks5,
}

/// An upstream proxy and the destinations routed through it.
#[derive(Debug)]
pub struct UpstreamProxy {
    pub proxy_type: UpstreamProxyType,
    pub host: String,
    pub port: u16,
    pub domains: NameSet,
    pub ips: IpSet,
}

/// What a profile lets its processes reach.
#[derive(Debug)]
pub struct Policy {
    pub allowed_domains: NameSet,
    pub allowed_ips: IpSet,
    pub upstream: Option<UpstreamProxy>,
}

// ---------------------------------------------------------------------
// Specification.
// ---------------------------------------------------------------------

/// `name` is one of `domains`, or a subdomain of one: it ends with a dot
/// followed by a listed domain.
pub open spec fn domain_matches(domains: Set<Seq<char>>, name: Seq<char>) -> bool {
    ||| domains.contains(name)
    ||| exists|d: Seq<char>| #[trigger] domains.contains(d) && seq_ends_with(name, seq!['.'] + d)
}

/// `host` is an IP address literal whose address is in `ips`.
pub open spec fn ip_listed(ips: Set<IpAddress>, host: Seq<char>) -> bool {
    match spec_parse_ip(host) {
        Some(ip) => ips.contains(ip),
        None => false,
    }
}

/// The names of the local host that every policy lets through.
pub open spec fn is_loopback_name(name: Seq<char>) -> bool {
    name == "localhost"@ || name == "127.0.0.1"@ || name == "::1"@
}

/// Whether a policy lets a connection to `host` through: the host, in
/// lowercase, is an allowed domain or a subdomain of one, or the host is an
/// allowed IP address, or it names the local host.
pub open spec fn spec_is_allowed(p: &Policy, host: Seq<char>) -> bool {
    let name = lowercase_text(host);
    ||| domain_matches(p.allowed_domains@, name)
    ||| ip_listed(p.allowed_ips@, host)
    ||| is_loopback_name(name)
}

/// Whether connections to `host` go through the upstream proxy: there is
/// one, and the host (in lowercase) is one of its domains or a subdomain of
/// one, or the host is one of its IP addresses.
pub open spec fn spec_needs_upstream(p: &Policy, host: Seq<char>) -> bool {
    match &p.upstream {
        None => false,
        Some(u) => {
            ||| domain_matches(u.domains@, lowercase_text(host))
            ||| ip_listed(u.ips@, host)
        },
    }
}

/// The index of the last occurrence of `c` in `s`.
pub open spec fn is_last_index(s: Seq<char>, c: char, i: int) -> bool {
    0 <= i < s.len() && s[i] == c && forall|j: int| i < j < s.len() ==> s[j] != c
}

pub open spec fn last_index_of(s: Seq<char>, c: char) -> Option<int> {
    if exists|i: int| is_last_index(s, c, i) {
        Some(choose|i: int| is_last_index(s, c, i))
    } else {
        None
    }
}

/// Splits `host:port` at the last colon; with no colon the whole text is
/// the host and the port is `default_port`. `None` when the text after the
/// colon is not a port number.
pub open spec fn split_host_port(s: Seq<char>, default_port: u16) -> Option<(Seq<char>, u16)> {
    match last_index_of(s, ':') {
        Some(i) => match spec_parse_u16(s.subrange(i + 1, s.len() as int)) {
            Some(p) => Some((s.subrange(0, i), p)),
            None => None,
        },
        None => Some((s, default_port)),
    }
}

/// What `parse_host_port` returns: the split, or the error that names the
/// input.
pub open spec fn spec_parse_host_port(s: Seq<char>, default_port: u16) -> Result<
    (Seq<char>, u16),
    Seq<char>,
> {
    match split_host_port(s, default_port) {
        Some(hp) => Ok(hp),
        None => Err("invalid port in: "@ + s),
    }
}

/// What `parse_proxy_url` returns for a URL.
pub open spec fn spec_parse_proxy_url(url: Seq<char>) -> Result<
    (UpstreamProxyType, Seq<char>, u16),
    Seq<char>,
> {
    if seq_starts_with(url, "socks5://"@) {
        match spec_parse_host_port(url.subrange("socks5://"@.len() as int, url.len() as int), 1080) {
            Ok((h, p)) => Ok((UpstreamProxyType::Socks5, h, p)),
            Err(e) => Err(e),
        }
    } else if seq_starts_with(url, "http://"@) {
        match spec_parse_host_port(url.subrange("http://"@.len() as int, url.len() as int), 8080) {
            Ok((h, p)) => Ok((UpstreamProxyType::Http, h, p)),
            Err(e) => Err(e),
        }
    } else {
        Err("unsupported proxy scheme: "@ + url + " (use socks5:// or http://)"@)
    }
}

// ---------------------------------------------------------------------
// Implementation.
// ---------------------------------------------------------------------

/// Whether `name` is in `domains` or ends with a dot and one of them.
fn matches_domain_set(domains: &NameSet, name: &str) -> (r: bool)
    ensures
        r == domain_matches(domains@, name@),
{
    if domains.contains(name) {
        return true;
    }
    let nc = chars_of(name);
    let list = domains.names();
    let ghost elems = crate::sets::string_views(list@);
    let mut i: usize = 0;
    while i < list.len()
        invariant
            elems == crate::sets::string_views(list@),
            elems.to_set() == domains@,
            nc@ == name@,
            i <= list@.len(),
            forall|k: int| 0 <= k < i ==> !seq_ends_with(name@, seq!['.'] + #[trigger] elems[k]),
        decreases list@.len() - i,
    {
        let mut pattern: Vec<char> = Vec::new();
        pattern.push('.');
        let dc = chars_of(list[i].as_str());
        let mut j: usize = 0;
        while j < dc.len()
            invariant
                j <= dc@.len(),
                pattern@ == seq!['.'] + dc@.subrange(0, j as int),
            decreases dc@.len() - j,
        {
            pattern.push(dc[j]);
            j = j + 1;
            assert(pattern@ =~= seq!['.'] + dc@.subrange(0, j as int));
        }
        assert(dc@.subrange(0, dc@.len() as int) == dc@);
        assert(elems[i as int] == list@[i as int]@);
        if chars_ends_with(nc.as_slice(), pattern.as_slice()) {
            assert(elems.to_set().contains(elems[i as int]));
            return true;
        }
        i = i + 1;
    }
    assert forall|d: Seq<char>| #[trigger] domains@.contains(d) implies !seq_ends_with(
        name@,
        seq!['.'] + d,
    ) by {
        assert(elems.contains(d));
        let k = choose|k: int| 0 <= k < elems.len() && elems[k] == d;
        assert(!seq_ends_with(name@, seq!['.'] + elems[k]));
    }
    false
}

/// Whether `host` is an IP address literal listed in `ips`.
fn matches_ip_set(ips: &IpSet, host: &str) -> (r: bool)
    ensures
        r == ip_listed(ips@, host@),
{
    match IpAddress::parse(host) {
        Some(ip) => ips.contains(&ip),
        None => false,
    }
}

/// Whether `s` is exactly the text `lit`.
fn str_is(s: &[char], lit: &str) -> (r: bool)
    ensures
        r == (s@ == lit@),
{
    let lc = chars_of(lit);
    chars_eq(s, lc.as_slice())
}

impl Policy {
    /// Whether the policy lets a connection to `host` through.
    pub fn is_allowed(&self, host: &str) -> (r: bool)
        ensures
            r == spec_is_allowed(self, host@),
    {
        let normalized = lowercase(host);
        if matches_domain_set(&self.allowed_domains, normalized.as_str()) {
            return true;
        }
        if matches_ip_set(&self.allowed_ips, host) {
            return true;
        }
        let nc = chars_of(normalized.as_str());
        str_is(nc.as_slice(), "localhost") || str_is(nc.as_slice(), "127.0.0.1") || str_is(
            nc.as_slice(),
            "::1",
        )
    }

    /// Whether connections to `host` go through the upstream proxy.
    pub fn needs_upstream(&self, host: &str) -> (r: bool)
        ensures
            r == spec_needs_upstream(self, host@),
    {
        let upstream = match &self.upstream {
            Some(u) => u,
            None => {
                return false;
            },
        };
        let normalized = lowercase(host);
        if matches_domain_set(&upstream.domains, normalized.as_str()) {
            return true;
        }
        matches_ip_set(&upstream.ips, host)
    }
}

/// Splits `host:port` at the last colon; the error text begins with
/// `err_prefix` and ends with the input.
pub(crate) fn split_host_port_or(s: &str, default_port: u16, err_prefix: &str) -> (r: Result<
    (String, u16),
    String,
>)
    ensures
        match r {
            Ok((h, p)) => split_host_port(s@, default_port) == Some((h@, p)),
            Err(e) => split_host_port(s@, default_port) is None && e@ == err_prefix@ + s@,
        },
{
    let sc = chars_of(s);
    let scs = sc.as_slice();
    match rfind_char(scs, ':') {
        Some(pos) => {
            let n = scs.len();
            assert(pos < n);
            assert(is_last_index(s@, ':', pos as int));
            assert(last_index_of(s@, ':') == Some(pos as int)) by {
                let i = choose|i: int| is_last_index(s@, ':', i);
                if i < pos {
                    assert(s@[pos as int] != ':');
                } else if i > pos {
                    assert(s@[i] != ':');
                }
            }
            let port_text = chars_slice(scs, pos + 1, n);
            match parse_u16(port_text.as_slice()) {
                Some(port) => {
                    let host = chars_slice(scs, 0, pos);
                    Ok((string_of(host.as_slice()), port))
                },
                None => {
                    let mut e = String::from_str(err_prefix);
                    push_str(&mut e, s);
                    Err(e)
                },
            }
        },
        None => {
            assert(!exists|i: int| is_last_index(s@, ':', i));
            Ok((String::from_str(s), default_port))
        },
    }
}

/// Parses `host:port`; without a colon the port is `default_port`.
pub fn parse_host_port(s: &str, default_port: u16) -> (r: Result<(String, u16), String>)
    ensures
        match r {
            Ok((h, p)) => spec_parse_host_port(s@, default_port) == Ok::<
                (Seq<char>, u16),
                Seq<char>,
            >((h@, p)),
            Err(e) => spec_parse_host_port(s@, default_port) == Err::<(Seq<char>, u16), Seq<char>>(
                e@,
            ),
        },
{
    split_host_port_or(s, default_port, "invalid port in: ")
}

/// Parses `socks5://host:port` or `http://host:port`; the port defaults to
/// 1080 and 8080.
pub fn parse_proxy_url(url: &str) -> (r: Result<(UpstreamProxyType, String, u16), String>)
    ensures
        match r {
            Ok((t, h, p)) => spec_parse_proxy_url(url@) == Ok::<
                (UpstreamProxyType, Seq<char>, u16),
                Seq<char>,
            >((t, h@, p)),
            Err(e) => spec_parse_proxy_url(url@) == Err::<
                (UpstreamProxyType, Seq<char>, u16),
                Seq<char>,
            >(e@),
        },
{
    let uc = chars_of(url);
    let socks = chars_of("socks5://");
    let http = chars_of("http://");
    if chars_starts_with(uc.as_slice(), socks.as_slice()) {
        let rest = string_of(chars_slice(uc.as_slice(), socks.len(), uc.len()).as_slice());
        match parse_host_port(rest.as_str(), 1080) {
            Ok((h, p)) => Ok((UpstreamProxyType::Socks5, h, p)),
            Err(e) => Err(e),
        }
    } else if chars_starts_with(uc.as_slice(), http.as_slice()) {
        let rest = string_of(chars_slice(uc.as_slice(), http.len(), uc.len()).as_slice());
        match parse_host_port(rest.as_str(), 8080) {
            Ok((h, p)) => Ok((UpstreamProxyType::Http, h, p)),
            Err(e) => Err(e),
        }
    } else {
        let mut e = String::from_str("unsupported proxy scheme: ");
        push_str(&mut e, url);
        push_str(&mut e, " (use socks5:// or http://)");
        Err(e)
    }
}

// ---------------------------------------------------------------------
// Laws.
// ---------------------------------------------------------------------

/// Every subdomain of a matching name matches too: if `name` is a listed
/// domain or a subdomain of one, so is `label.name`.
pub proof fn law_subdomain_matches(domains: Set<Seq<char>>, name: Seq<char>, label: Seq<char>)
    requires
        domain_matches(domains, name),
    ensures
        domain_matches(domains, label + seq!['.'] + name),
{
    let sub = label + seq!['.'] + name;
    if domains.contains(name) {
        assert(sub.subrange(sub.len() - (seq!['.'] + name).len(), sub.len() as int) =~= seq!['.']
            + name);
        assert(seq_ends_with(sub, seq!['.'] + name));
    } else {
        let d = choose|d: Seq<char>| #[trigger] domains.contains(d) && seq_ends_with(name, seq!['.'] + d);
        let p = seq!['.'] + d;
        assert(sub.subrange(sub.len() - p.len(), sub.len() as int) =~= name.subrange(
            name.len() - p.len(),
            name.len() as int,
        ));
        assert(seq_ends_with(sub, p));
    }
}

/// A host whose lowercase form is `label.` followed by the lowercase form of
/// a host the domain list lets through is let through as well.
pub proof fn law_subdomain_of_allowed_is_allowed(
    p: &Policy,
    host: Seq<char>,
    sub: Seq<char>,
    label: Seq<char>,
)
    requires
        domain_matches(p.allowed_domains@, lowercase_text(host)),
        lowercase_text(sub) == label + seq!['.'] + lowercase_text(host),
    ensures
        spec_is_allowed(p, sub),
{
    law_subdomain_matches(p.allowed_domains@, lowercase_text(host), label);
}

/// Names are compared in lowercase: two hosts with the same lowercase form
/// (and, for address literals, the same address) get the same answers.
pub proof fn law_case_insensitive(p: &Policy, h1: Seq<char>, h2: Seq<char>)
    requires
        lowercase_text(h1) == lowercase_text(h2),
        spec_parse_ip(h1) == spec_parse_ip(h2),
    ensures
        spec_is_allowed(p, h1) == spec_is_allowed(p, h2),
        spec_needs_upstream(p, h1) == spec_needs_upstream(p, h2),
{
}

/// Every policy lets the local host through: `localhost`, `127.0.0.1` and
/// `::1`, in any case.
pub proof fn law_loopback_always_allowed(p: &Policy, host: Seq<char>)
    requires
        is_loopback_name(lowercase_text(host)),
    ensures
        spec_is_allowed(p, host),
{
}

/// Every listed address is let through, whatever the domain list.
pub proof fn law_listed_ip_allowed(p: &Policy, host: Seq<char>)
    requires
        spec_parse_ip(host) matches Some(ip) && p.allowed_ips@.contains(ip),
    ensures
        spec_is_allowed(p, host),
{
}

/// Without an upstream proxy nothing is routed upstream.
pub proof fn law_no_upstream_no_routing(p: &Policy, host: Seq<char>)
    requires
        p.upstream is None,
    ensures
        !spec_needs_upstream(p, host),
{
}

/// `host:port`, with the port written in decimal, splits back into the same
/// host and port, whatever colons the host holds.
pub proof fn law_host_port_round_trip(host: Seq<char>, port: u16, default_port: u16)
    ensures
        split_host_port(host + seq![':'] + crate::text::decimal(port as nat), default_port) == Some(
            (host, port),
        ),
{
    let dec = crate::text::decimal(port as nat);
    let s = host + seq![':'] + dec;
    crate::text::lemma_decimal_digits(port as nat);
    crate::text::lemma_parse_decimal_u16(port);
    let i = host.len() as int;
    assert forall|j: int| i < j < s.len() implies s[j] != ':' by {
        assert(s[j] == dec[j - i - 1]);
        assert(crate::text::is_ascii_digit(dec[j - i - 1]));
    }
    assert(is_last_index(s, ':', i));
    assert(last_index_of(s, ':') == Some(i)) by {
        let k = choose|k: int| is_last_index(s, ':', k);
        if k < i {
            assert(s[i] == ':');
        } else if k > i {
            assert(s[k] != ':');
        }
    }
    assert(s.subrange(i + 1, s.len() as int) =~= dec);
    assert(s.subrange(0, i) =~= host);
}

/// A proxy URL written as `socks5://host:port` reads back as the same
/// kind, host and port.
pub proof fn law_socks5_url_round_trip(host: Seq<char>, port: u16)
    ensures
        spec_parse_proxy_url("socks5://"@ + host + seq![':'] + crate::text::decimal(port as nat))
            == Ok::<(UpstreamProxyType, Seq<char>, u16), Seq<char>>(
            (UpstreamProxyType::Socks5, host, port),
        ),
{
    let rest = host + seq![':'] + crate::text::decimal(port as nat);
    let url = "socks5://"@ + host + seq![':'] + crate::text::decimal(port as nat);
    assert(url.subrange(0, "socks5://"@.len() as int) =~= "socks5://"@);
    assert(url.subrange("socks5://"@.len() as int, url.len() as int) =~= rest);
    law_host_port_round_trip(host, port, 1080);
}

/// A proxy URL written as `http://host:port` reads back as the same kind,
/// host and port.
pub proof fn law_http_url_round_trip(host: Seq<char>, port: u16)
    ensures
        spec_parse_proxy_url("http://"@ + host + seq![':'] + crate::text::decimal(port as nat))
            == Ok::<(UpstreamProxyType, Seq<char>, u16), Seq<char>>(
            (UpstreamProxyType::Http, host, port),
        ),
{
    let rest = host + seq![':'] + crate::text::decimal(port as nat);
    let url = "http://"@ + host + seq![':'] + crate::text::decimal(port as nat);
    reveal_strlit("http://");
    reveal_strlit("socks5://");
    assert(url.subrange(0, "http://"@.len() as int) =~= "http://"@);
    assert(url[1] == 't');
    assert(!seq_starts_with(url, "socks5://"@)) by {
        if seq_starts_with(url, "socks5://"@) {
            assert(url.subrange(0, 9)[1] == 'o');
        }
    }
    assert(url.subrange("http://"@.len() as int, url.len() as int) =~= rest);
    law_host_port_round_trip(host, port, 8080);
}

/// Whether `name` ends with a dot followed by `d`.
pub open spec fn dot_suffix(name: Seq<char>, d: Seq<char>) -> bool {
    d.len() + 1 <= name.len() && name[name.len() - d.len() - 1] == '.' && name.subrange(
        name.len() - d.len(),
        name.len() as int,
    ) == d
}

proof fn lemma_ends_with_dot(name: Seq<char>, d: Seq<char>)
    ensures
        seq_ends_with(name, seq!['.'] + d) <==> dot_suffix(name, d),
{
    let p = seq!['.'] + d;
    if seq_ends_with(name, p) {
        let t = name.subrange(name.len() - p.len(), name.len() as int);
        assert(t[0] == '.');
        assert(name[name.len() - d.len() - 1] == t[0]);
        assert(name.subrange(name.len() - d.len(), name.len() as int) =~= t.subrange(1, t.len() as int));
        assert(p.subrange(1, p.len() as int) =~= d);
    }
    if dot_suffix(name, d) {
        assert(name.subrange(name.len() - p.len(), name.len() as int) =~= p);
    }
}

/// For a host written in ASCII: it is let through exactly when the host
/// with `A`..`Z` turned into `a`..`z` is a listed domain, ends with a dot
/// and a listed domain, or names the local host, or when the host is a
/// listed IP address. (So the parent of a listed domain is not let through
/// on that domain's account.)
pub proof fn law_ascii_host_allowed(p: &Policy, host: Seq<char>)
    requires
        crate::text::is_ascii_text(host),
    ensures
        spec_is_allowed(p, host) <==> ({
            let m = host.map_values(|c: char| crate::text::ascii_lower(c));
            ||| p.allowed_domains@.contains(m)
            ||| exists|d: Seq<char>| #[trigger] p.allowed_domains@.contains(d) && dot_suffix(m, d)
            ||| (spec_parse_ip(host) matches Some(ip) && p.allowed_ips@.contains(ip))
            ||| m == "localhost"@
            ||| m == "127.0.0.1"@
            ||| m == "::1"@
        }),
{
    let m = host.map_values(|c: char| crate::text::ascii_lower(c));
    assert(lowercase_text(host) == m);
    assert forall|d: Seq<char>| #[trigger] p.allowed_domains@.contains(d) implies (seq_ends_with(
        m,
        seq!['.'] + d,
    ) <==> dot_suffix(m, d)) by {
        lemma_ends_with_dot(m, d);
    }
}

/// For a host written in ASCII: it goes through the upstream proxy exactly
/// when there is one and the host with `A`..`Z` turned into `a`..`z` is one
/// of its domains or ends with a dot and one of them, or the host is one of
/// its IP addresses.
pub proof fn law_ascii_host_upstream(p: &Policy, host: Seq<char>)
    requires
        crate::text::is_ascii_text(host),
    ensures
        spec_needs_upstream(p, host) <==> (p.upstream matches Some(u) && {
            let m = host.map_values(|c: char| crate::text::ascii_lower(c));
            ||| u.domains@.contains(m)
            ||| exists|d: Seq<char>| #[trigger] u.domains@.contains(d) && dot_suffix(m, d)
            ||| (spec_parse_ip(host) matches Some(ip) && u.ips@.contains(ip))
        }),
{
    let m = host.map_values(|c: char| crate::text::ascii_lower(c));
    assert(lowercase_text(host) == m);
    if let Some(u) = p.upstream {
        assert forall|d: Seq<char>| #[trigger] u.domains@.contains(d) implies (seq_ends_with(
            m,
            seq!['.'] + d,
        ) <==> dot_suffix(m, d)) by {
            lemma_ends_with_dot(m, d);
        }
    }
}

} // verus!
