use netsand::sandbox::{check_command, linux, macos, proxy_environment, proxy_url, sudo_arguments, windows};

#[test]
fn proxy_settings() {
    assert_eq!(proxy_url(8001), "http://127.0.0.1:8001");
    let env = proxy_environment(8002);
    assert_eq!(env.len(), 6);
    assert_eq!(env[0], ("HTTP_PROXY".to_string(), "http://127.0.0.1:8002".to_string()));
    assert_eq!(env[4], ("ALL_PROXY".to_string(), "http://127.0.0.1:8002".to_string()));
    assert_eq!(env[5], ("NO_PROXY".to_string(), String::new()));
    assert_eq!(check_command(&[]).unwrap_err(), "no command specified");
    assert!(check_command(&["ls".to_string()]).is_ok());
}

#[test]
fn sudo_command_line() {
    let args = sudo_arguments("botuser", 8001, &["./bot".to_string(), "-v".to_string()]);
    assert_eq!(
        args,
        vec![
            "-u", "botuser", "env",
            "HTTP_PROXY=http://127.0.0.1:8001", "HTTPS_PROXY=http://127.0.0.1:8001",
            "http_proxy=http://127.0.0.1:8001", "https_proxy=http://127.0.0.1:8001",
            "ALL_PROXY=", "NO_PROXY=", "./bot", "-v",
        ]
    );
}

#[test]
fn iptables_rules() {
    let steps = linux::setup_iptables("botuser", 8001);
    assert_eq!(steps.len(), 4);
    assert_eq!(steps[1].program, "iptables");
    assert_eq!(
        steps[1].args,
        vec![
            "-I", "OUTPUT", "-m", "owner", "--uid-owner", "botuser", "-o", "lo", "-p", "tcp", "-d",
            "127.0.0.1", "--dport", "8001", "-j", "ACCEPT",
        ]
    );
    assert_eq!(steps[0].args[1..], steps[1].args[1..]);
    assert_eq!(steps[0].args[0], "-C");
    assert!(steps[0].may_fail && !steps[1].may_fail && steps[2].may_fail && !steps[3].may_fail);
    assert_eq!(steps[3].args, vec!["-A", "OUTPUT", "-m", "owner", "--uid-owner", "botuser", "-j", "DROP"]);
}

#[test]
fn pf_rules() {
    assert_eq!(macos::anchor_name(8001), "netsand_8001");
    assert_eq!(
        macos::pf_rules("bob", 8002),
        "pass out quick on lo0 proto tcp from any to 127.0.0.1 port 8002 user bob\nblock out quick proto tcp from any to any user bob\nblock out quick proto udp from any to any user bob\n"
    );
    assert_eq!(macos::pf_rules_path("netsand_8001"), "/tmp/netsand-pf-netsand_8001.conf");
    let load = macos::pf_load("a", "/tmp/x");
    assert_eq!((load.program.as_str(), load.may_fail), ("sudo", false));
    assert_eq!(load.args, vec!["pfctl", "-a", "a", "-f", "/tmp/x"]);
    let steps = macos::cleanup_all(&["a".to_string(), "b".to_string()]);
    assert_eq!(steps.len(), 2);
    assert_eq!(steps[1].args, vec!["pfctl", "-a", "b", "-F", "all"]);
}

#[test]
fn firewall_rules() {
    assert_eq!(windows::sanitize_rule_name("C:\\bots\\my bot.exe"), "C--bots-my-bot-exe");
    assert_eq!(windows::sanitize_rule_name("ok_name-1"), "ok_name-1");
    assert_eq!(windows::rule_name("C:\\a.exe"), "netsand-C--a-exe");
    let steps = windows::setup_firewall("netsand-x", "C:\\x.exe", 8003);
    assert_eq!(steps.len(), 4);
    assert_eq!(steps[0].args, vec!["advfirewall", "firewall", "delete", "rule", "name=netsand-x-block"]);
    assert_eq!(
        steps[3].args,
        vec![
            "advfirewall", "firewall", "add", "rule", "name=netsand-x-allow-local", "dir=out",
            "action=allow", "program=C:\\x.exe", "protocol=TCP", "remoteip=127.0.0.1",
            "remoteport=8003", "enable=yes",
        ]
    );
    let clean = windows::cleanup_firewall("C:\\a.exe");
    assert_eq!(clean[1].args, vec!["advfirewall", "firewall", "delete", "rule", "name=netsand-C--a-exe-allow-local"]);
    let all = windows::cleanup_all(&["r1".to_string(), "r2".to_string()]);
    assert_eq!(all.len(), 4);
    assert_eq!(all[2].args, vec!["advfirewall", "firewall", "delete", "rule", "name=r2-block"]);
}
