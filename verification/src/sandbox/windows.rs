//! Windows: firewall rules block the program's outbound traffic except TCP
//! to its proxy, 127.0.0.1 on the proxy's port.
use vstd::prelude::*;
use crate::sandbox::{CommandStep, concat, push_all, push_string, step_is, strings};
use crate::sets::string_views;
use crate::text::{chars_of, decimal, is_alphanumeric, push_char, u16_to_string, unicode_alphanumeric};

verus! {

/// A character kept in a rule name; any other becomes `-`.
pub open spec fn rule_char(c: char) -> char {
    if unicode_alphanumeric(c) || c == '-' || c == '_' {
        c
    } else {
        '-'
    }
}

/// The path with every character but letters, digits, `-` and `_`
/// replaced by `-`.
pub open spec fn sanitized(path: Seq<char>) -> Seq<char> {
    path.map_values(|c: char| rule_char(c))
}

/// `netsand-` and the sanitized path.
pub open spec fn rule_name_text(exe_path: Seq<char>) -> Seq<char> {
    "netsand-"@ + sanitized(exe_path)
}

/// The netsh arguments that delete the rule `name`.
pub open spec fn delete_rule_args(name: Seq<char>) -> Seq<Seq<char>> {
    seq!["advfirewall"@, "firewall"@, "delete"@, "rule"@, "name="@ + name]
}

/// The netsh arguments that block all outbound traffic of `exe`.
pub open spec fn block_rule_args(rule: Seq<char>, exe: Seq<char>) -> Seq<Seq<char>> {
    seq![
        "advfirewall"@,
        "firewall"@,
        "add"@,
        "rule"@,
        "name="@ + rule + "-block"@,
        "dir=out"@,
        "action=block"@,
        "program="@ + exe,
        "enable=yes"@,
    ]
}

/// The netsh arguments that let `exe` reach its proxy: TCP to 127.0.0.1
/// on `port`.
pub open spec fn allow_local_rule_args(rule: Seq<char>, exe: Seq<char>, port: u16) -> Seq<
    Seq<char>,
> {
    seq![
        "advfirewall"@,
        "firewall"@,
        "add"@,
        "rule"@,
        "name="@ + rule + "-allow-local"@,
        "dir=out"@,
        "action=allow"@,
        "program="@ + exe,
        "protocol=TCP"@,
        "remoteip=127.0.0.1"@,
        "remoteport="@ + decimal(port as nat),
        "enable=yes"@,
    ]
}

/// Whether `steps` are the two deletions of the rules named after `rule`.
pub open spec fn removes_rule(steps: Seq<CommandStep>, rule: Seq<char>) -> bool {
    &&& steps.len() == 2
    &&& step_is(steps[0], "netsh"@, delete_rule_args(rule + "-block"@), true)
    &&& step_is(steps[1], "netsh"@, delete_rule_args(rule + "-allow-local"@), true)
}

/// Replaces every character but letters, digits, `-` and `_` with `-`.
pub fn sanitize_rule_name(path: &str) -> (r: String)
    ensures
        r@ == sanitized(path@),
{
    let pc = chars_of(path);
    let mut r = String::new();
    let mut i: usize = 0;
    while i < pc.len()
        invariant
            i <= pc@.len(),
            pc@ == path@,
            r@ == sanitized(pc@.subrange(0, i as int)),
        decreases pc@.len() - i,
    {
        let c = pc[i];
        let k = if is_alphanumeric(c) || c == '-' || c == '_' {
            c
        } else {
            '-'
        };
        push_char(&mut r, k);
        i = i + 1;
        assert(r@ =~= sanitized(pc@.subrange(0, i as int)));
    }
    assert(pc@.subrange(0, pc@.len() as int) == pc@);
    r
}

/// The name of the firewall rules for a program.
pub fn rule_name(exe_path: &str) -> (r: String)
    ensures
        r@ == rule_name_text(exe_path@),
{
    let s = sanitize_rule_name(exe_path);
    concat("netsand-", s.as_str())
}

fn netsh(head: &[&str], last: String, rest: &[&str], may_fail: bool) -> (r: CommandStep)
    ensures
        r.program@ == "netsh"@,
        string_views(r.args@) == crate::sandbox::literal_views(head@) + seq![last@]
            + crate::sandbox::literal_views(rest@),
        r.may_fail == may_fail,
{
    let mut args = strings(head);
    push_string(&mut args, last);
    let tail = strings(rest);
    push_all(&mut args, tail.as_slice());
    CommandStep { program: String::from_str("netsh"), args, may_fail }
}

/// The commands that delete the two rules of `rule_name`; failures (rules
/// that do not exist) are ignored.
pub fn remove_firewall(rule_name: &str) -> (r: Vec<CommandStep>)
    ensures
        removes_rule(r@, rule_name@),
{
    let head: [&str; 4] = ["advfirewall", "firewall", "delete", "rule"];
    let none: [&str; 0] = [];
    let block = concat(rule_name, "-block");
    let allow = concat(rule_name, "-allow-local");
    let s0 = netsh(&head, concat("name=", block.as_str()), &none, true);
    let s1 = netsh(&head, concat("name=", allow.as_str()), &none, true);
    assert(string_views(s0.args@) =~= delete_rule_args(rule_name@ + "-block"@));
    assert(string_views(s1.args@) =~= delete_rule_args(rule_name@ + "-allow-local"@));
    let mut r = Vec::new();
    r.push(s0);
    r.push(s1);
    r
}

/// The commands that set up the rules for a program whose proxy listens on
/// `proxy_port`: old rules are removed first (failures ignored), then the
/// block rule and the rule allowing the proxy are added (failures end the
/// work).
pub fn setup_firewall(rule_name: &str, exe_path: &str, proxy_port: u16) -> (r: Vec<CommandStep>)
    ensures
        r@.len() == 4,
        removes_rule(r@.subrange(0, 2), rule_name@),
        step_is(r@[2], "netsh"@, block_rule_args(rule_name@, exe_path@), false),
        step_is(r@[3], "netsh"@, allow_local_rule_args(rule_name@, exe_path@, proxy_port), false),
        string_views(r@[2].args@)[4] == string_views(r@[0].args@)[4],
        string_views(r@[3].args@)[4] == string_views(r@[1].args@)[4],
{
    let mut r = remove_firewall(rule_name);
    let head: [&str; 4] = ["advfirewall", "firewall", "add", "rule"];
    let name = concat("name=", rule_name);
    let block_name = concat(name.as_str(), "-block");
    let allow_name = concat(name.as_str(), "-allow-local");
    let block_mid: [&str; 2] = ["dir=out", "action=block"];
    let allow_mid: [&str; 2] = ["dir=out", "action=allow"];
    let mut s2 = netsh(&head, block_name, &block_mid, false);
    push_string(&mut s2.args, concat("program=", exe_path));
    push_string(&mut s2.args, String::from_str("enable=yes"));
    let mut s3 = netsh(&head, allow_name, &allow_mid, false);
    push_string(&mut s3.args, concat("program=", exe_path));
    push_string(&mut s3.args, String::from_str("protocol=TCP"));
    push_string(&mut s3.args, String::from_str("remoteip=127.0.0.1"));
    let port_text = u16_to_string(proxy_port);
    push_string(&mut s3.args, concat("remoteport=", port_text.as_str()));
    push_string(&mut s3.args, String::from_str("enable=yes"));
    assert(string_views(s2.args@) =~= block_rule_args(rule_name@, exe_path@));
    assert(string_views(s3.args@) =~= allow_local_rule_args(rule_name@, exe_path@, proxy_port));
    let ghost removes = r@;
    r.push(s2);
    r.push(s3);
    assert(r@.subrange(0, 2) =~= removes);
    proof {
        law_added_rules_are_removed(rule_name@, exe_path@, proxy_port);
        assert(removes[0] == r@[0]);
        assert(removes[1] == r@[1]);
    }
    r
}

/// The commands that delete the rules made for a program.
pub fn cleanup_firewall(exe_path: &str) -> (r: Vec<CommandStep>)
    ensures
        removes_rule(r@, rule_name_text(exe_path@)),
{
    let name = rule_name(exe_path);
    remove_firewall(name.as_str())
}

/// The commands that delete every rule that was set up, two per rule name,
/// in order.
pub fn cleanup_all(rule_names: &[String]) -> (r: Vec<CommandStep>)
    ensures
        r@.len() == 2 * rule_names@.len(),
        forall|i: int|
            0 <= i < rule_names@.len() ==> #[trigger] removes_rule(
                r@.subrange(2 * i, 2 * i + 2),
                rule_names@[i]@,
            ),
{
    let mut r: Vec<CommandStep> = Vec::new();
    let mut i: usize = 0;
    while i < rule_names.len()
        invariant
            i <= rule_names@.len(),
            r@.len() == 2 * i,
            forall|k: int|
                0 <= k < i ==> #[trigger] removes_rule(r@.subrange(2 * k, 2 * k + 2), rule_names@[k]@),
        decreases rule_names@.len() - i,
    {
        let steps = remove_firewall(rule_names[i].as_str());
        let ghost before = r@;
        let mut steps = steps;
        let s1 = steps.pop().unwrap();
        let s0 = steps.pop().unwrap();
        r.push(s0);
        r.push(s1);
        assert forall|k: int| 0 <= k < i + 1 implies #[trigger] removes_rule(
            r@.subrange(2 * k, 2 * k + 2),
            rule_names@[k]@,
        ) by {
            if k < i {
                assert(r@.subrange(2 * k, 2 * k + 2) =~= before.subrange(2 * k, 2 * k + 2));
            } else {
                assert(r@.subrange(2 * k, 2 * k + 2) =~= seq![r@[2 * k], r@[2 * k + 1]]);
            }
        }
        i = i + 1;
    }
    r
}

// ---------------------------------------------------------------------
// Laws.
// ---------------------------------------------------------------------

/// The two rules added for a rule name carry the very names that the
/// deletions for that rule name remove: `name=RULE-block` and
/// `name=RULE-allow-local`.
pub proof fn law_added_rules_are_removed(rule: Seq<char>, exe: Seq<char>, port: u16)
    ensures
        block_rule_args(rule, exe)[4] == "name="@ + rule + "-block"@,
        allow_local_rule_args(rule, exe, port)[4] == "name="@ + rule + "-allow-local"@,
        delete_rule_args(rule + "-block"@)[4] == "name="@ + rule + "-block"@,
        delete_rule_args(rule + "-allow-local"@)[4] == "name="@ + rule + "-allow-local"@,
{
    assert("name="@ + (rule + "-block"@) =~= "name="@ + rule + "-block"@);
    assert("name="@ + (rule + "-allow-local"@) =~= "name="@ + rule + "-allow-local"@);
}

} // verus!
