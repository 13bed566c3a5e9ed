//! macOS: a pf anchor per proxy port lets the sandbox user reach only its
//! proxy, 127.0.0.1 on the proxy's port, and blocks the rest of its traffic.
use vstd::prelude::*;
use crate::sandbox::{CommandStep, literal_views, push_all, push_string, step_is, strings};
use crate::sets::string_views;
use crate::text::{decimal, push_decimal, push_str};

verus! {

/// `netsand_PORT`.
pub open spec fn anchor_text(port: u16) -> Seq<char> {
    "netsand_"@ + decimal(port as nat)
}

/// The pf rules for the anchor: TCP from `user` to 127.0.0.1 on `port`
/// passes; every other TCP or UDP packet `user` sends is blocked.
pub open spec fn pf_rules_text(user: Seq<char>, port: u16) -> Seq<char> {
    "pass out quick on lo0 proto tcp from any to 127.0.0.1 port "@ + decimal(port as nat)
        + " user "@ + user + "\nblock out quick proto tcp from any to any user "@ + user
        + "\nblock out quick proto udp from any to any user "@ + user + "\n"@
}

/// Where the rules are written before pfctl loads them.
pub open spec fn pf_rules_path_text(anchor: Seq<char>) -> Seq<char> {
    "/tmp/netsand-pf-"@ + anchor + ".conf"@
}

/// The anchor name for a proxy port.
pub fn anchor_name(port: u16) -> (r: String)
    ensures
        r@ == anchor_text(port),
{
    let mut r = String::from_str("netsand_");
    push_decimal(&mut r, port as u32);
    r
}

/// The pf rules that confine `user` to the proxy on `port`.
pub fn pf_rules(user: &str, port: u16) -> (r: String)
    ensures
        r@ == pf_rules_text(user@, port),
{
    let mut r = String::from_str("pass out quick on lo0 proto tcp from any to 127.0.0.1 port ");
    push_decimal(&mut r, port as u32);
    push_str(&mut r, " user ");
    push_str(&mut r, user);
    push_str(&mut r, "\nblock out quick proto tcp from any to any user ");
    push_str(&mut r, user);
    push_str(&mut r, "\nblock out quick proto udp from any to any user ");
    push_str(&mut r, user);
    push_str(&mut r, "\n");
    r
}

/// The file the rules of `anchor` are written to.
pub fn pf_rules_path(anchor: &str) -> (r: String)
    ensures
        r@ == pf_rules_path_text(anchor@),
{
    let mut r = String::from_str("/tmp/netsand-pf-");
    push_str(&mut r, anchor);
    push_str(&mut r, ".conf");
    r
}

fn sudo_pfctl(head: &[&str], anchor: &str, tail: &[&str], may_fail: bool) -> (r: CommandStep)
    ensures
        r.program@ == "sudo"@,
        string_views(r.args@) == literal_views(head@) + seq![anchor@] + literal_views(tail@),
        r.may_fail == may_fail,
{
    let mut args = strings(head);
    push_string(&mut args, String::from_str(anchor));
    let rest = strings(tail);
    push_all(&mut args, rest.as_slice());
    CommandStep { program: String::from_str("sudo"), args, may_fail }
}

/// `sudo pfctl -a ANCHOR -f PATH`: loads the rules; must succeed.
pub fn pf_load(anchor: &str, rules_path: &str) -> (r: CommandStep)
    ensures
        step_is(r, "sudo"@, seq!["pfctl"@, "-a"@, anchor@, "-f"@, rules_path@], false),
{
    let head: [&str; 2] = ["pfctl", "-a"];
    let tail: [&str; 1] = ["-f"];
    let mut s = sudo_pfctl(&head, anchor, &tail, false);
    push_string(&mut s.args, String::from_str(rules_path));
    assert(string_views(s.args@) =~= seq!["pfctl"@, "-a"@, anchor@, "-f"@, rules_path@]);
    s
}

/// `sudo pfctl -e`: turns pf on if it is off; a failure is ignored.
pub fn pf_enable() -> (r: CommandStep)
    ensures
        step_is(r, "sudo"@, seq!["pfctl"@, "-e"@], true),
{
    let parts: [&str; 2] = ["pfctl", "-e"];
    let args = strings(&parts);
    assert(literal_views(parts@) =~= seq!["pfctl"@, "-e"@]);
    CommandStep { program: String::from_str("sudo"), args, may_fail: true }
}

/// `sudo pfctl -a ANCHOR -F all`: flushes the anchor's rules; a failure is
/// ignored.
pub fn teardown_pf(anchor: &str) -> (r: CommandStep)
    ensures
        step_is(r, "sudo"@, seq!["pfctl"@, "-a"@, anchor@, "-F"@, "all"@], true),
{
    let head: [&str; 2] = ["pfctl", "-a"];
    let tail: [&str; 2] = ["-F", "all"];
    let s = sudo_pfctl(&head, anchor, &tail, true);
    assert(literal_views(head@) + seq![anchor@] + literal_views(tail@) =~= seq![
        "pfctl"@,
        "-a"@,
        anchor@,
        "-F"@,
        "all"@,
    ]);
    s
}

/// The commands that flush every anchor that was set up, in order.
pub fn cleanup_all(anchors: &[String]) -> (r: Vec<CommandStep>)
    ensures
        r@.len() == anchors@.len(),
        forall|i: int|
            0 <= i < anchors@.len() ==> step_is(
                #[trigger] r@[i],
                "sudo"@,
                seq!["pfctl"@, "-a"@, anchors@[i]@, "-F"@, "all"@],
                true,
            ),
{
    let mut r: Vec<CommandStep> = Vec::new();
    let mut i: usize = 0;
    while i < anchors.len()
        invariant
            i <= anchors@.len(),
            r@.len() == i,
            forall|k: int|
                0 <= k < i ==> step_is(
                    #[trigger] r@[k],
                    "sudo"@,
                    seq!["pfctl"@, "-a"@, anchors@[k]@, "-F"@, "all"@],
                    true,
                ),
        decreases anchors@.len() - i,
    {
        r.push(teardown_pf(anchors[i].as_str()));
        i = i + 1;
    }
    r
}

} // verus!
