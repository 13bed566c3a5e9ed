//! The decisions a proxy connection makes: reading the request line,
//! locating the destination, applying the policy, and rewriting a plain
//! HTTP request for the destination.
use vstd::prelude::*;
use crate::config::{Policy, spec_is_allowed, spec_needs_upstream, split_host_port, split_host_port_or};
use crate::text::{
    chars_eq_ignore_ascii_case, chars_of, chars_slice, chars_starts_with, decimal, eq_ignore_ascii_case,
    find_char, push_decimal, push_str, seq_starts_with, split_whitespace, string_of, lowercase,
    trim, trim_chars, lowercase_text, words,
};

verus! {

/// The reply to a refused request.
pub const FORBIDDEN_RESPONSE: &'static str = "HTTP/1.1 403 Forbidden\r\nContent-Length: 0\r\n\r\n";

/// The reply once a CONNECT tunnel is open.
pub const ESTABLISHED_RESPONSE: &'static str = "HTTP/1.1 200 Connection Established\r\n\r\n";

/// The first line of a client's request.
#[derive(Debug)]
pub enum RequestLine {
    /// `CONNECT target ...`: a tunnel to `target` (`host:port`).
    Connect { target: String },
    /// Any other method: a plain HTTP request for an absolute URL.
    Http { method: String, url: String, version: String },
}

/// How a connection to an allowed or refused destination proceeds.
#[derive(Clone, Copy, Debug, PartialEq, Eq, Structural)]
pub enum Route {
    /// The policy refuses the destination.
    Blocked,
    /// Connect to the destination directly.
    Direct,
    /// Connect through the policy's upstream proxy.
    Upstream,
}

/// A destination and the route to it.
#[derive(Debug)]
pub struct Destination {
    pub host: String,
    pub port: u16,
    pub route: Route,
}

// ---------------------------------------------------------------------
// Specification.
// ---------------------------------------------------------------------

/// The route a policy gives to `host`: refused unless allowed, and through
/// the upstream proxy when the policy routes it there.
pub open spec fn spec_route(p: &Policy, host: Seq<char>) -> Route {
    if !spec_is_allowed(p, host) {
        Route::Blocked
    } else if spec_needs_upstream(p, host) {
        Route::Upstream
    } else {
        Route::Direct
    }
}

/// The outcome of reading a request line: which kind of request, with its
/// words, or the error text.
pub open spec fn request_line_ok(line: Seq<char>, r: RequestLine) -> bool {
    let t = trim(line);
    let w = words(t);
    t.len() > 0 && w.len() >= 2 && match r {
        RequestLine::Connect { target } => eq_ignore_ascii_case(w[0], "CONNECT"@) && target@ == w[1],
        RequestLine::Http { method, url, version } => {
            &&& !eq_ignore_ascii_case(w[0], "CONNECT"@)
            &&& w.len() >= 3
            &&& method@ == w[0]
            &&& url@ == w[1]
            &&& version@ == w[2]
        },
    }
}

pub open spec fn request_line_err(line: Seq<char>) -> Option<Seq<char>> {
    let t = trim(line);
    let w = words(t);
    if t.len() == 0 {
        Some("empty request"@)
    } else if w.len() < 2 {
        Some("malformed: "@ + t)
    } else if !eq_ignore_ascii_case(w[0], "CONNECT"@) && w.len() < 3 {
        Some("malformed HTTP"@)
    } else {
        None
    }
}

/// The index of the first occurrence of `c` in `s`.
pub open spec fn is_first_index(s: Seq<char>, c: char, i: int) -> bool {
    0 <= i < s.len() && s[i] == c && forall|j: int| 0 <= j < i ==> s[j] != c
}

pub open spec fn first_index_of(s: Seq<char>, c: char) -> Option<int> {
    if exists|i: int| is_first_index(s, c, i) {
        Some(choose|i: int| is_first_index(s, c, i))
    } else {
        None
    }
}

/// The URL with an `http://` or `https://` prefix removed.
pub open spec fn without_scheme(url: Seq<char>) -> Seq<char> {
    if seq_starts_with(url, "http://"@) {
        url.subrange("http://"@.len() as int, url.len() as int)
    } else if seq_starts_with(url, "https://"@) {
        url.subrange("https://"@.len() as int, url.len() as int)
    } else {
        url
    }
}

/// The `host:port` part of a URL (up to the first `/`).
pub open spec fn url_authority(url: Seq<char>) -> Seq<char> {
    let w = without_scheme(url);
    match first_index_of(w, '/') {
        Some(i) => w.subrange(0, i),
        None => w,
    }
}

/// The path of a URL: from the first `/` on, or `/` when there is none.
pub open spec fn url_path(url: Seq<char>) -> Seq<char> {
    let w = without_scheme(url);
    match first_index_of(w, '/') {
        Some(i) => w.subrange(i, w.len() as int),
        None => "/"@,
    }
}

/// A header line the client sent that is passed on: any but the
/// `Proxy-*` headers meant for this proxy.
pub open spec fn spec_forwards_header(line: Seq<char>) -> bool {
    !seq_starts_with(lowercase_text(line), "proxy-"@)
}

/// The text of `blocked: host:port`.
pub open spec fn blocked_text(host: Seq<char>, port: u16) -> Seq<char> {
    "blocked: "@ + host + seq![':'] + decimal(port as nat)
}

// ---------------------------------------------------------------------
// Implementation.
// ---------------------------------------------------------------------

impl Policy {
    /// The route the policy gives to `host`.
    pub fn route(&self, host: &str) -> (r: Route)
        ensures
            r == spec_route(self, host@),
    {
        if !self.is_allowed(host) {
            Route::Blocked
        } else if self.needs_upstream(host) {
            Route::Upstream
        } else {
            Route::Direct
        }
    }
}

/// Reads a request line: `CONNECT target` opens a tunnel; any other method
/// needs a URL and a version.
pub fn parse_request_line(line: &str) -> (r: Result<RequestLine, String>)
    ensures
        match r {
            Ok(req) => request_line_ok(line@, req),
            Err(e) => request_line_err(line@) == Some(e@),
        },
{
    let lc = chars_of(line);
    let t = trim_chars(lc.as_slice());
    if t.len() == 0 {
        return Err(String::from_str("empty request"));
    }
    let w = split_whitespace(t.as_slice());
    if w.len() < 2 {
        let mut e = String::from_str("malformed: ");
        let ts = string_of(t.as_slice());
        push_str(&mut e, ts.as_str());
        return Err(e);
    }
    let connect = chars_of("CONNECT");
    assert(w@[0]@ == words(t@)[0]);
    assert(w@[1]@ == words(t@)[1]);
    if chars_eq_ignore_ascii_case(w[0].as_slice(), connect.as_slice()) {
        return Ok(RequestLine::Connect { target: string_of(w[1].as_slice()) });
    }
    if w.len() < 3 {
        return Err(String::from_str("malformed HTTP"));
    }
    assert(w@[2]@ == words(t@)[2]);
    Ok(
        RequestLine::Http {
            method: string_of(w[0].as_slice()),
            url: string_of(w[1].as_slice()),
            version: string_of(w[2].as_slice()),
        },
    )
}

/// Splits a CONNECT target or URL authority into host and port; the error
/// names the text.
fn parse_host_port(target: &str, default_port: u16) -> (r: Result<(String, u16), String>)
    ensures
        match r {
            Ok((h, p)) => split_host_port(target@, default_port) == Some((h@, p)),
            Err(e) => split_host_port(target@, default_port) is None && e@ == "bad port: "@
                + target@,
        },
{
    split_host_port_or(target, default_port, "bad port: ")
}

/// Splits an absolute URL into host, port (default 80) and path.
pub fn parse_url(url: &str) -> (r: Result<(String, u16, String), String>)
    ensures
        match r {
            Ok((h, p, path)) => split_host_port(url_authority(url@), 80) == Some((h@, p))
                && path@ == url_path(url@),
            Err(e) => split_host_port(url_authority(url@), 80) is None && e@ == "bad port: "@
                + url_authority(url@),
        },
{
    let uc = chars_of(url);
    let http = chars_of("http://");
    let https = chars_of("https://");
    let w = if chars_starts_with(uc.as_slice(), http.as_slice()) {
        chars_slice(uc.as_slice(), http.len(), uc.len())
    } else if chars_starts_with(uc.as_slice(), https.as_slice()) {
        chars_slice(uc.as_slice(), https.len(), uc.len())
    } else {
        uc
    };
    assert(w@ == without_scheme(url@));
    let ws = w.as_slice();
    let n = ws.len();
    let (authority, path) = match find_char(ws, '/') {
        Some(i) => {
            assert(is_first_index(w@, '/', i as int));
            assert(first_index_of(w@, '/') == Some(i as int)) by {
                let k = choose|k: int| is_first_index(w@, '/', k);
                if k < i {
                    assert(w@[k] != '/');
                } else if k > i {
                    assert(w@[i as int] != '/');
                }
            }
            (chars_slice(ws, 0, i), chars_slice(ws, i, n))
        },
        None => {
            assert(!exists|k: int| is_first_index(w@, '/', k));
            let slash = chars_of("/");
            (w.clone(), slash)
        },
    };
    let authority = string_of(authority.as_slice());
    match parse_host_port(authority.as_str(), 80) {
        Ok((h, p)) => Ok((h, p, string_of(path.as_slice()))),
        Err(e) => Err(e),
    }
}

/// The text `blocked: host:port` reported for a refused destination.
pub fn blocked_message(host: &str, port: u16) -> (r: String)
    ensures
        r@ == blocked_text(host@, port),
{
    let mut e = String::from_str("blocked: ");
    push_str(&mut e, host);
    push_str(&mut e, ":");
    push_decimal(&mut e, port as u32);
    proof {
        reveal_strlit(":");
    }
    assert(e@ =~= blocked_text(host@, port));
    e
}

/// Where a CONNECT request for `target` goes (default port 443).
pub fn plan_connect(policy: &Policy, target: &str) -> (r: Result<Destination, String>)
    ensures
        match r {
            Ok(d) => split_host_port(target@, 443) == Some((d.host@, d.port)) && d.route
                == spec_route(policy, d.host@),
            Err(e) => split_host_port(target@, 443) is None && e@ == "bad port: "@ + target@,
        },
{
    let (host, port) = parse_host_port(target, 443)?;
    let route = policy.route(host.as_str());
    Ok(Destination { host, port, route })
}

/// Where a plain HTTP request for `url` goes (default port 80), and the
/// path to ask the destination for.
pub fn plan_http(policy: &Policy, url: &str) -> (r: Result<(Destination, String), String>)
    ensures
        match r {
            Ok((d, path)) => split_host_port(url_authority(url@), 80) == Some((d.host@, d.port))
                && d.route == spec_route(policy, d.host@) && path@ == url_path(url@),
            Err(e) => split_host_port(url_authority(url@), 80) is None && e@ == "bad port: "@
                + url_authority(url@),
        },
{
    let (host, port, path) = parse_url(url)?;
    let route = policy.route(host.as_str());
    Ok((Destination { host, port, route }, path))
}

/// Whether a header line ends the header block: it is blank once
/// whitespace is trimmed.
pub fn is_header_end(line: &str) -> (r: bool)
    ensures
        r == (trim(line@).len() == 0),
{
    let lc = chars_of(line);
    trim_chars(lc.as_slice()).len() == 0
}

/// Whether a header line is passed on to the destination.
pub fn forwards_header(line: &str) -> (r: bool)
    ensures
        r == spec_forwards_header(line@),
{
    let lower = lowercase(line);
    let lc = chars_of(lower.as_str());
    let prefix = chars_of("proxy-");
    !chars_starts_with(lc.as_slice(), prefix.as_slice())
}

/// The request sent on to the destination: the request line with the path
/// in place of the URL, the kept headers, and a blank line.
pub fn rewrite_request(method: &str, path: &str, version: &str, headers: &str) -> (r: String)
    ensures
        r@ == method@ + " "@ + path@ + " "@ + version@ + "\r\n"@ + headers@ + "\r\n"@,
{
    let mut r = String::from_str(method);
    push_str(&mut r, " ");
    push_str(&mut r, path);
    push_str(&mut r, " ");
    push_str(&mut r, version);
    push_str(&mut r, "\r\n");
    push_str(&mut r, headers);
    push_str(&mut r, "\r\n");
    r
}

// ---------------------------------------------------------------------
// Laws.
// ---------------------------------------------------------------------

/// Only destinations the policy allows are connected to, and only those it
/// routes upstream go through the upstream proxy.
pub proof fn law_route_respects_policy(p: &Policy, host: Seq<char>)
    ensures
        (spec_route(p, host) == Route::Blocked) <==> !spec_is_allowed(p, host),
        spec_route(p, host) == Route::Upstream ==> spec_is_allowed(p, host) && spec_needs_upstream(
            p,
            host,
        ),
        spec_route(p, host) == Route::Direct ==> spec_is_allowed(p, host) && !spec_needs_upstream(
            p,
            host,
        ),
{
}

/// For a header line written in ASCII: it is dropped exactly when its first
/// six characters are `proxy-` in any mix of case; every other line, such as
/// `Pragma: no-cache`, is passed on.
pub proof fn law_ascii_header_forwarded(line: Seq<char>)
    requires
        crate::text::is_ascii_text(line),
    ensures
        spec_forwards_header(line) <==> !(line.len() >= 6 && forall|i: int|
            0 <= i < 6 ==> crate::text::ascii_lower(#[trigger] line[i]) == seq![
                'p',
                'r',
                'o',
                'x',
                'y',
                '-',
            ][i]),
{
    reveal_strlit("proxy-");
    let m = line.map_values(|c: char| crate::text::ascii_lower(c));
    let pre = seq!['p', 'r', 'o', 'x', 'y', '-'];
    assert(lowercase_text(line) == m);
    assert("proxy-"@ =~= pre);
    if line.len() >= 6 {
        if forall|i: int| 0 <= i < 6 ==> crate::text::ascii_lower(#[trigger] line[i]) == pre[i] {
            assert(m.subrange(0, 6) =~= pre);
        }
        if seq_starts_with(m, pre) {
            assert forall|i: int| 0 <= i < 6 implies crate::text::ascii_lower(#[trigger] line[i])
                == pre[i] by {
                assert(m.subrange(0, 6)[i] == m[i]);
            }
        }
    }
}

} // verus!
