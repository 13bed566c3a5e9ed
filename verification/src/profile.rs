//! Profiles: the contents of a profile file, and the profile (name, port,
//! policy, sandbox user) built from them.
use vstd::prelude::*;
use crate::config::{Policy, UpstreamProxy, UpstreamProxyType, parse_proxy_url, spec_parse_proxy_url};
use crate::ip::{IpAddress, spec_parse_ip};
use crate::sets::{IpSet, NameSet};
use crate::text::{lowercase, lowercase_text, push_str};

verus! {

/// A profile file as written: the `[profile]`, `[allow]`, `[upstream]` and
/// `[sandbox]` sections.
#[derive(Debug)]
pub struct ProfileFile {
    pub profile: ProfileMeta,
    pub allow: Option<AllowSection>,
    pub upstream: Option<UpstreamSection>,
    pub sandbox: Option<SandboxSection>,
}

#[derive(Debug)]
pub struct ProfileMeta {
    pub name: String,
    pub description: String,
    pub listen_port: Option<u16>,
}

#[derive(Debug)]
pub struct AllowSection {
    pub domains: Vec<String>,
    pub ips: Vec<String>,
}

#[derive(Debug)]
pub struct UpstreamSection {
    pub proxy: String,
    pub domains: Vec<String>,
    pub ips: Vec<String>,
}

#[derive(Debug)]
pub struct SandboxSection {
    pub user: Option<String>,
}

/// A profile ready for use.
#[derive(Debug)]
pub struct Profile {
    pub name: String,
    pub description: String,
    pub listen_port: u16,
    pub policy: Policy,
    pub sandbox_user: Option<String>,
}

/// The port used after a profile's own when the next profile names none:
/// one more, wrapping at the end of the range (as the `+` on `u16` does in
/// a release build).
pub open spec fn next_port(port: u16) -> u16 {
    if port == u16::MAX {
        0
    } else {
        (port + 1) as u16
    }
}

// ---------------------------------------------------------------------
// Specification.
// ---------------------------------------------------------------------

/// The lowercase forms of the names.
pub open spec fn lowered_names(ds: Seq<String>) -> Set<Seq<char>> {
    ds.map_values(|d: String| lowercase_text(d@)).to_set()
}

/// Whether every text is an IP address literal.
pub open spec fn all_ips(ips: Seq<String>) -> bool {
    forall|i: int| 0 <= i < ips.len() ==> (#[trigger] spec_parse_ip(ips[i]@)) is Some
}

/// The position of the first text that is no IP address literal.
pub open spec fn first_bad_ip(ips: Seq<String>) -> int {
    choose|k: int|
        0 <= k < ips.len() && spec_parse_ip(ips[k]@) is None && forall|i: int|
            0 <= i < k ==> (#[trigger] spec_parse_ip(ips[i]@)) is Some
}

/// The addresses the texts denote.
pub open spec fn parsed_ips(ips: Seq<String>) -> Set<IpAddress> {
    ips.map_values(|s: String| spec_parse_ip(s@)->0).to_set()
}

/// The error about an address text that does not parse; `label` is
/// `IP` or `upstream IP`.
pub open spec fn bad_ip_text(label: Seq<char>, ip: Seq<char>) -> Seq<char> {
    "invalid "@ + label + " '"@ + ip + "': invalid IP address syntax"@
}

pub open spec fn allow_domains(f: ProfileFile) -> Seq<String> {
    match f.allow {
        Some(a) => a.domains@,
        None => Seq::empty(),
    }
}

pub open spec fn allow_ips(f: ProfileFile) -> Seq<String> {
    match f.allow {
        Some(a) => a.ips@,
        None => Seq::empty(),
    }
}

/// Why a profile file cannot be used, if it cannot: first a bad allowed
/// address, then a bad upstream URL, then a bad upstream address.
#[verifier::opaque]
pub open spec fn profile_error(f: ProfileFile) -> Option<Seq<char>> {
    if !all_ips(allow_ips(f)) {
        Some(bad_ip_text("IP"@, allow_ips(f)[first_bad_ip(allow_ips(f))]@))
    } else {
        match f.upstream {
            None => None,
            Some(up) => match spec_parse_proxy_url(up.proxy@) {
                Err(e) => Some(e),
                Ok(_) => if !all_ips(up.ips@) {
                    Some(bad_ip_text("upstream IP"@, up.ips@[first_bad_ip(up.ips@)]@))
                } else {
                    None
                },
            },
        }
    }
}

/// Whether `p` is the profile built from `f` with `default_port` as the
/// port when the file names none.
#[verifier::opaque]
pub open spec fn profile_built_from(f: ProfileFile, default_port: u16, p: Profile) -> bool {
    &&& p.name == f.profile.name
    &&& p.description == f.profile.description
    &&& p.listen_port == match f.profile.listen_port {
        Some(port) => port,
        None => default_port,
    }
    &&& p.policy.allowed_domains@ == lowered_names(allow_domains(f))
    &&& p.policy.allowed_ips@ == parsed_ips(allow_ips(f))
    &&& match f.upstream {
        None => p.policy.upstream is None,
        Some(up) => p.policy.upstream matches Some(u) && {
            &&& spec_parse_proxy_url(up.proxy@) == Ok::<(UpstreamProxyType, Seq<char>, u16), Seq<char>>(
                (u.proxy_type, u.host@, u.port),
            )
            &&& u.domains@ == lowered_names(up.domains@)
            &&& u.ips@ == parsed_ips(up.ips@)
        },
    }
    &&& p.sandbox_user == match f.sandbox {
        Some(s) => s.user,
        None => None,
    }
}

/// The default port of the `i`-th profile in a list: 8001 for the first,
/// then one past the port of the profile before it.
pub open spec fn default_port_at(built: Seq<Profile>, i: int) -> u16 {
    if i == 0 {
        8001
    } else {
        next_port(built[i - 1].listen_port)
    }
}

/// Whether a loaded file gives a profile.
pub open spec fn file_usable(f: Result<ProfileFile, String>) -> bool {
    f matches Ok(pf) && profile_error(pf) is None
}

/// Why a loaded file gives no profile.
pub open spec fn file_error(f: Result<ProfileFile, String>) -> Seq<char> {
    match f {
        Err(e) => e@,
        Ok(pf) => profile_error(pf)->0,
    }
}

// ---------------------------------------------------------------------
// Implementation.
// ---------------------------------------------------------------------

/// The set of the names in lowercase.
fn lowered_set(ds: &Vec<String>) -> (r: NameSet)
    ensures
        r@ == lowered_names(ds@),
{
    let mut r = NameSet::new();
    let mut i: usize = 0;
    while i < ds.len()
        invariant
            i <= ds@.len(),
            r@ == ds@.subrange(0, i as int).map_values(|d: String| lowercase_text(d@)).to_set(),
        decreases ds@.len() - i,
    {
        let l = lowercase(ds[i].as_str());
        let ghost before = ds@.subrange(0, i as int).map_values(|d: String| lowercase_text(d@));
        r.insert(l);
        proof {
            assert(ds@.subrange(0, i + 1).map_values(|d: String| lowercase_text(d@)) =~= before.push(
                lowercase_text(ds@[i as int]@),
            ));
            before.lemma_push_to_set_commute(lowercase_text(ds@[i as int]@));
        }
        i = i + 1;
    }
    assert(ds@.subrange(0, ds@.len() as int) == ds@);
    r
}

/// The error about an address text that does not parse.
fn bad_ip_message(label: &str, ip: &str) -> (r: String)
    ensures
        r@ == bad_ip_text(label@, ip@),
{
    let mut r = String::from_str("invalid ");
    push_str(&mut r, label);
    push_str(&mut r, " '");
    push_str(&mut r, ip);
    push_str(&mut r, "': invalid IP address syntax");
    r
}

/// The set of the addresses, or the error about the first text that is no
/// address.
fn parse_ip_set(ips: &Vec<String>, label: &str) -> (r: Result<IpSet, String>)
    ensures
        match r {
            Ok(s) => all_ips(ips@) && s@ == parsed_ips(ips@),
            Err(e) => !all_ips(ips@) && e@ == bad_ip_text(label@, ips@[first_bad_ip(ips@)]@),
        },
{
    let mut r = IpSet::new();
    let mut i: usize = 0;
    while i < ips.len()
        invariant
            i <= ips@.len(),
            forall|k: int| 0 <= k < i ==> (#[trigger] spec_parse_ip(ips@[k]@)) is Some,
            r@ == ips@.subrange(0, i as int).map_values(|s: String| spec_parse_ip(s@)->0).to_set(),
        decreases ips@.len() - i,
    {
        match IpAddress::parse(ips[i].as_str()) {
            None => {
                let ghost k = first_bad_ip(ips@);
                assert(0 <= k < ips@.len() && spec_parse_ip(ips@[k]@) is None && forall|j: int|
                    0 <= j < k ==> (#[trigger] spec_parse_ip(ips@[j]@)) is Some) by {
                    assert(0 <= i < ips@.len() && spec_parse_ip(ips@[i as int]@) is None && forall|
                        j: int,
                    | 0 <= j < i ==> (#[trigger] spec_parse_ip(ips@[j]@)) is Some);
                }
                assert(k == i) by {
                    if k < i {
                        assert(spec_parse_ip(ips@[k]@) is Some);
                    } else if k > i {
                        assert(spec_parse_ip(ips@[i as int]@) is Some);
                    }
                }
                return Err(bad_ip_message(label, ips[i].as_str()));
            },
            Some(ip) => {
                let ghost before = ips@.subrange(0, i as int).map_values(
                    |s: String| spec_parse_ip(s@)->0,
                );
                r.insert(ip);
                proof {
                    assert(ips@.subrange(0, i + 1).map_values(|s: String| spec_parse_ip(s@)->0)
                        =~= before.push(ip));
                    before.lemma_push_to_set_commute(ip);
                }
            },
        }
        i = i + 1;
    }
    assert(ips@.subrange(0, ips@.len() as int) == ips@);
    Ok(r)
}

impl Profile {
    /// Builds a profile from the contents of its file: domains are kept in
    /// lowercase, addresses must parse, the upstream URL must parse, and the
    /// port is `default_port` when the file names none.
    pub fn from_file(file: ProfileFile, default_port: u16) -> (r: Result<Profile, String>)
        ensures
            match r {
                Ok(p) => {
                    &&& profile_error(file) is None
                    &&& profile_built_from(file, default_port, p)
                    &&& p.name@ == file.profile.name@
                    &&& p.description@ == file.profile.description@
                    &&& p.listen_port == match file.profile.listen_port {
                        Some(port) => port,
                        None => default_port,
                    }
                },
                Err(e) => profile_error(file) == Some(e@),
            },
    {
        let ghost f = file;
        proof {
            reveal(profile_error);
        }
        let ProfileFile { profile, allow, upstream, sandbox } = file;
        let allow = match allow {
            Some(a) => a,
            None => AllowSection { domains: Vec::new(), ips: Vec::new() },
        };
        assert(allow.domains@ == allow_domains(f));
        assert(allow.ips@ == allow_ips(f));
        let allowed_domains = lowered_set(&allow.domains);
        let allowed_ips = match parse_ip_set(&allow.ips, "IP") {
            Ok(s) => s,
            Err(e) => {
                return Err(e);
            },
        };
        let upstream = match upstream {
            Some(up) => {
                let (proxy_type, host, port) = match parse_proxy_url(up.proxy.as_str()) {
                    Ok(t) => t,
                    Err(e) => {
                        return Err(e);
                    },
                };
                let domains = lowered_set(&up.domains);
                let ips = match parse_ip_set(&up.ips, "upstream IP") {
                    Ok(s) => s,
                    Err(e) => {
                        return Err(e);
                    },
                };
                Some(UpstreamProxy { proxy_type, host, port, domains, ips })
            },
            None => None,
        };
        let listen_port = match profile.listen_port {
            Some(p) => p,
            None => default_port,
        };
        let sandbox_user = match sandbox {
            Some(s) => s.user,
            None => None,
        };
        proof {
            reveal(profile_built_from);
        }
        Ok(
            Profile {
                name: profile.name,
                description: profile.description,
                listen_port,
                policy: Policy { allowed_domains, allowed_ips, upstream },
                sandbox_user,
            },
        )
    }

    /// Builds the profiles of a directory's files, in order. The first
    /// profile's default port is 8001, each later one's is one past the
    /// port of the profile before it. The first file that failed to load,
    /// or that gives no profile, ends the work with its error.
    pub fn from_files(files: Vec<Result<ProfileFile, String>>) -> (r: Result<Vec<Profile>, String>)
        ensures
            match r {
                Ok(ps) => {
                    &&& ps@.len() == files@.len()
                    &&& forall|i: int|
                        0 <= i < files@.len() ==> #[trigger] file_usable(files@[i])
                            && profile_built_from(files@[i]->Ok_0, default_port_at(ps@, i), ps@[i])
                },
                Err(e) => exists|k: int|
                    0 <= k < files@.len() && !#[trigger] file_usable(files@[k]) && file_error(
                        files@[k],
                    ) == e@ && forall|i: int| 0 <= i < k ==> file_usable(files@[i]),
            },
    {
        let ghost all = files@;
        let mut rest = files;
        let mut out: Vec<Profile> = Vec::new();
        let mut port: u16 = 8001;
        let n = rest.len();
        let mut i: usize = 0;
        while i < n
            invariant
                n == all.len(),
                i <= n,
                all == files@,
                rest@ == all.subrange(i as int, n as int),
                out@.len() == i,
                port == default_port_at(out@, i as int),
                forall|j: int|
                    0 <= j < i ==> #[trigger] file_usable(all[j]) && profile_built_from(
                        all[j]->Ok_0,
                        default_port_at(out@, j),
                        out@[j],
                    ),
            decreases n - i,
        {
            let item = rest.remove(0);
            assert(item == all[i as int]);
            assert(rest@ =~= all.subrange(i + 1, n as int));
            match item {
                Err(e) => {
                    assert(!file_usable(all[i as int]) && file_error(all[i as int]) == e@);
                    assert(forall|j: int| 0 <= j < i ==> file_usable(all[j]));
                    assert(0 <= i < all.len() && !file_usable(all[i as int]) && file_error(all[i as int])
                        == e@ && forall|j: int| 0 <= j < i ==> file_usable(all[j]));
                    return Err(e);
                },
                Ok(pf) => {
                    match Profile::from_file(pf, port) {
                        Err(e) => {
                            assert(!file_usable(all[i as int]) && file_error(all[i as int]) == e@);
                            assert(forall|j: int| 0 <= j < i ==> file_usable(all[j]));
                            assert(0 <= i < all.len() && !file_usable(all[i as int]) && file_error(
                                all[i as int],
                            ) == e@ && forall|j: int| 0 <= j < i ==> file_usable(all[j]));
                            return Err(e);
                        },
                        Ok(p) => {
                            assert(profile_built_from(pf, port, p));
                            assert(file_usable(all[i as int]));
                            let next: u16 = if p.listen_port == u16::MAX {
                                0
                            } else {
                                p.listen_port + 1
                            };
                            let ghost before = out@;
                            out.push(p);
                            assert forall|j: int| 0 <= j < i + 1 implies #[trigger] file_usable(
                                all[j],
                            ) && profile_built_from(
                                all[j]->Ok_0,
                                default_port_at(out@, j),
                                out@[j],
                            ) by {
                                if j < i {
                                    assert(out@[j] == before[j]);
                                    assert(default_port_at(out@, j) == default_port_at(before, j));
                                } else {
                                    assert(out@[j] == p);
                                    assert(default_port_at(out@, j) == port);
                                }
                            }
                            port = next;
                        },
                    }
                },
            }
            i = i + 1;
        }
        Ok(out)
    }
}

// ---------------------------------------------------------------------
// Laws.
// ---------------------------------------------------------------------

/// A profile built from a file keeps the file's name, description and
/// sandbox user, and its port is the file's own or else the default.
pub proof fn law_built_profile_keeps_file_fields(f: ProfileFile, default_port: u16, p: Profile)
    requires
        profile_built_from(f, default_port, p),
    ensures
        p.name@ == f.profile.name@,
        p.description@ == f.profile.description@,
        f.profile.listen_port is Some ==> p.listen_port == f.profile.listen_port->0,
        f.profile.listen_port is None ==> p.listen_port == default_port,
        p.sandbox_user == (match f.sandbox {
            Some(s) => s.user,
            None => None,
        }),
{
    reveal(profile_built_from);
}

} // verus!
