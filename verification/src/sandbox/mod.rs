//! What a sandboxed process is started with, and the commands that fence
//! it in on each platform. Running them is left to the caller.
use vstd::prelude::*;
use crate::sets::string_views;
use crate::text::{decimal, push_decimal, push_str};

pub mod linux;
pub mod macos;
pub mod windows;

verus! {

/// How a command is sandboxed: the proxy port it must use, and the user
/// it runs as (when one is set, the platform's firewall confines that user).
#[derive(Debug)]
pub struct SandboxConfig {
    pub proxy_port: u16,
    pub user: Option<String>,
}

/// One external command to run: a program and its arguments. When
/// `may_fail` is set, a failure is ignored; otherwise it ends the work.
#[derive(Debug)]
pub struct CommandStep {
    pub program: String,
    pub args: Vec<String>,
    pub may_fail: bool,
}

/// The character sequences of a list of string literals.
pub open spec fn literal_views(v: Seq<&str>) -> Seq<Seq<char>> {
    v.map_values(|s: &str| s@)
}

/// Whether a step runs `program` with `args`, failing softly or not.
pub open spec fn step_is(s: CommandStep, program: Seq<char>, args: Seq<Seq<char>>, may_fail: bool) -> bool {
    s.program@ == program && string_views(s.args@) == args && s.may_fail == may_fail
}

/// The proxy URL for a port on the local host.
pub open spec fn proxy_url_text(port: u16) -> Seq<char> {
    "http://127.0.0.1:"@ + decimal(port as nat)
}

/// `NAME=value`.
pub open spec fn assignment(name: Seq<char>, value: Seq<char>) -> Seq<char> {
    name + seq!['='] + value
}

/// Owned copies of string literals.
pub fn strings(parts: &[&str]) -> (r: Vec<String>)
    ensures
        string_views(r@) == literal_views(parts@),
{
    let mut r: Vec<String> = Vec::new();
    let mut i: usize = 0;
    while i < parts.len()
        invariant
            i <= parts@.len(),
            string_views(r@) == literal_views(parts@.subrange(0, i as int)),
        decreases parts@.len() - i,
    {
        push_string(&mut r, String::from_str(parts[i]));
        assert(literal_views(parts@.subrange(0, i + 1)) =~= literal_views(parts@.subrange(0, i as int)).push(
            parts@[i as int]@,
        ));
        i = i + 1;
    }
    assert(parts@.subrange(0, parts@.len() as int) == parts@);
    r
}

/// Appends one string to a list.
pub fn push_string(dst: &mut Vec<String>, s: String)
    ensures
        string_views(final(dst)@) == string_views(old(dst)@).push(s@),
{
    let ghost before = dst@;
    dst.push(s);
    assert(string_views(dst@) =~= string_views(before).push(s@));
}

/// Appends copies of strings to a list.
pub fn push_all(dst: &mut Vec<String>, src: &[String])
    ensures
        string_views(final(dst)@) == string_views(old(dst)@) + string_views(src@),
{
    let ghost start = string_views(dst@);
    let mut i: usize = 0;
    while i < src.len()
        invariant
            i <= src@.len(),
            string_views(dst@) == start + string_views(src@.subrange(0, i as int)),
        decreases src@.len() - i,
    {
        let ghost before = dst@;
        let c = src[i].clone();
        push_string(dst, c);
        assert(string_views(src@.subrange(0, i + 1)) =~= string_views(src@.subrange(0, i as int)).push(
            src@[i as int]@,
        ));
        i = i + 1;
        assert(string_views(dst@) =~= start + string_views(src@.subrange(0, i as int)));
    }
    assert(src@.subrange(0, src@.len() as int) == src@);
}

/// `a` followed by `b`.
pub fn concat(a: &str, b: &str) -> (r: String)
    ensures
        r@ == a@ + b@,
{
    let mut r = String::from_str(a);
    push_str(&mut r, b);
    r
}

/// The URL of the local proxy on `port`: `http://127.0.0.1:port`.
pub fn proxy_url(port: u16) -> (r: String)
    ensures
        r@ == proxy_url_text(port),
{
    let mut r = String::from_str("http://127.0.0.1:");
    push_decimal(&mut r, port as u32);
    r
}

/// `NAME=value`.
pub fn assign(name: &str, value: &str) -> (r: String)
    ensures
        r@ == assignment(name@, value@),
{
    let mut r = String::from_str(name);
    push_str(&mut r, "=");
    push_str(&mut r, value);
    proof {
        reveal_strlit("=");
    }
    r
}

/// The environment a sandboxed process gets without a dedicated user:
/// every proxy variable names the local proxy, and `NO_PROXY` is empty.
pub fn proxy_environment(port: u16) -> (r: Vec<(String, String)>)
    ensures
        r@.len() == 6,
        r@[0].0@ == "HTTP_PROXY"@ && r@[0].1@ == proxy_url_text(port),
        r@[1].0@ == "HTTPS_PROXY"@ && r@[1].1@ == proxy_url_text(port),
        r@[2].0@ == "http_proxy"@ && r@[2].1@ == proxy_url_text(port),
        r@[3].0@ == "https_proxy"@ && r@[3].1@ == proxy_url_text(port),
        r@[4].0@ == "ALL_PROXY"@ && r@[4].1@ == proxy_url_text(port),
        r@[5].0@ == "NO_PROXY"@ && r@[5].1@ == Seq::<char>::empty(),
{
    let url = proxy_url(port);
    let mut r: Vec<(String, String)> = Vec::new();
    r.push((String::from_str("HTTP_PROXY"), url.clone()));
    r.push((String::from_str("HTTPS_PROXY"), url.clone()));
    r.push((String::from_str("http_proxy"), url.clone()));
    r.push((String::from_str("https_proxy"), url.clone()));
    r.push((String::from_str("ALL_PROXY"), url));
    r.push((String::from_str("NO_PROXY"), String::new()));
    r
}

/// The arguments to `sudo` that run `command` as `user` with the proxy
/// variables set to the local proxy and `ALL_PROXY`, `NO_PROXY` cleared.
pub fn sudo_arguments(user: &str, port: u16, command: &[String]) -> (r: Vec<String>)
    ensures
        string_views(r@) == seq![
            "-u"@,
            user@,
            "env"@,
            assignment("HTTP_PROXY"@, proxy_url_text(port)),
            assignment("HTTPS_PROXY"@, proxy_url_text(port)),
            assignment("http_proxy"@, proxy_url_text(port)),
            assignment("https_proxy"@, proxy_url_text(port)),
            assignment("ALL_PROXY"@, Seq::<char>::empty()),
            assignment("NO_PROXY"@, Seq::<char>::empty()),
        ] + string_views(command@),
{
    let url = proxy_url(port);
    let mut r: Vec<String> = Vec::new();
    push_string(&mut r, String::from_str("-u"));
    push_string(&mut r, String::from_str(user));
    push_string(&mut r, String::from_str("env"));
    push_string(&mut r, assign("HTTP_PROXY", url.as_str()));
    push_string(&mut r, assign("HTTPS_PROXY", url.as_str()));
    push_string(&mut r, assign("http_proxy", url.as_str()));
    push_string(&mut r, assign("https_proxy", url.as_str()));
    push_string(&mut r, assign("ALL_PROXY", ""));
    push_string(&mut r, assign("NO_PROXY", ""));
    proof {
        reveal_strlit("");
    }
    push_all(&mut r, command);
    r
}

/// A sandbox needs a command to run.
pub fn check_command(command: &[String]) -> (r: Result<(), String>)
    ensures
        match r {
            Ok(()) => command@.len() > 0,
            Err(e) => command@.len() == 0 && e@ == "no command specified"@,
        },
{
    if command.len() == 0 {
        Err(String::from_str("no command specified"))
    } else {
        Ok(())
    }
}

} // verus!
