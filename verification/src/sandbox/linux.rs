//! Linux: the sandbox user may open outbound connections only to its proxy,
//! 127.0.0.1 on the proxy's port; iptables owner rules drop the rest.
use vstd::prelude::*;
use crate::sandbox::{CommandStep, push_all, push_string, step_is, strings};
use crate::sets::string_views;
use crate::text::{decimal, u16_to_string};

verus! {

/// The arguments of an iptables owner rule for `user`: `op OUTPUT -m owner
/// --uid-owner user` and then `rest`.
pub open spec fn owner_rule(op: Seq<char>, user: Seq<char>, rest: Seq<Seq<char>>) -> Seq<Seq<char>> {
    seq![op, "OUTPUT"@, "-m"@, "owner"@, "--uid-owner"@, user] + rest
}

/// The match and target that accept TCP to 127.0.0.1 on `port` over the
/// loopback interface, and nothing else.
pub open spec fn proxy_accept(port: u16) -> Seq<Seq<char>> {
    seq![
        "-o"@,
        "lo"@,
        "-p"@,
        "tcp"@,
        "-d"@,
        "127.0.0.1"@,
        "--dport"@,
        decimal(port as nat),
        "-j"@,
        "ACCEPT"@,
    ]
}

pub open spec fn drop_rest() -> Seq<Seq<char>> {
    seq!["-j"@, "DROP"@]
}

fn owner_rule_step(op: &str, user: &str, rest: &Vec<String>, may_fail: bool) -> (r: CommandStep)
    ensures
        r.program@ == "iptables"@,
        string_views(r.args@) == owner_rule(op@, user@, string_views(rest@)),
        r.may_fail == may_fail,
{
    let mut args = strings(&[op, "OUTPUT", "-m", "owner", "--uid-owner"]);
    push_string(&mut args, String::from_str(user));
    push_all(&mut args, rest.as_slice());
    CommandStep { program: String::from_str("iptables"), args, may_fail }
}

/// The iptables commands that confine `user` to the proxy on `port`: for
/// each of the rule accepting TCP to 127.0.0.1:`port` (inserted first) and
/// the rule dropping the user's other outbound traffic (appended), a check
/// that may fail, then the change itself, which must succeed.
pub fn setup_iptables(user: &str, port: u16) -> (r: Vec<CommandStep>)
    ensures
        r@.len() == 4,
        step_is(r@[0], "iptables"@, owner_rule("-C"@, user@, proxy_accept(port)), true),
        step_is(r@[1], "iptables"@, owner_rule("-I"@, user@, proxy_accept(port)), false),
        step_is(r@[2], "iptables"@, owner_rule("-C"@, user@, drop_rest()), true),
        step_is(r@[3], "iptables"@, owner_rule("-A"@, user@, drop_rest()), false),
{
    let head: [&str; 7] = ["-o", "lo", "-p", "tcp", "-d", "127.0.0.1", "--dport"];
    let tail: [&str; 2] = ["-j", "ACCEPT"];
    let drop_parts: [&str; 2] = ["-j", "DROP"];
    let mut accept = strings(&head);
    push_string(&mut accept, u16_to_string(port));
    let accept_tail = strings(&tail);
    push_all(&mut accept, accept_tail.as_slice());
    let drop = strings(&drop_parts);
    assert(string_views(accept@) =~= proxy_accept(port));
    assert(string_views(drop@) =~= drop_rest());
    let mut r: Vec<CommandStep> = Vec::new();
    r.push(owner_rule_step("-C", user, &accept, true));
    r.push(owner_rule_step("-I", user, &accept, false));
    r.push(owner_rule_step("-C", user, &drop, true));
    r.push(owner_rule_step("-A", user, &drop, false));
    r
}

} // verus!
