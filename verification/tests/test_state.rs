use netsand::state::{join_command, proxy_port_for, DaemonState, ProcessInfo, ProfilePort};

#[test]
fn test_state_get_port() {
    let state = DaemonState {
        pid: 1234,
        profiles: vec![
            ProfilePort { name: "bot".into(), port: 8001 },
            ProfilePort { name: "scraper".into(), port: 8002 },
        ],
        processes: vec![],
    };
    assert_eq!(state.get_port("bot"), Some(8001));
    assert_eq!(state.get_port("scraper"), Some(8002));
    assert_eq!(state.get_port("unknown"), None);
}

fn proc_info(pid: u32, profile: &str) -> ProcessInfo {
    ProcessInfo {
        pid,
        profile: profile.into(),
        command: "echo hello".into(),
        started_at: "2026-01-01T00:00:00Z".into(),
        proxy_port: 8888,
    }
}

#[test]
fn register_then_deregister_restores() {
    let mut state = DaemonState { pid: 1, profiles: vec![], processes: vec![proc_info(5, "bot")] };
    state.register_process(proc_info(7, "bot"));
    state.register_process(proc_info(8, "scraper"));
    assert_eq!(state.process_count("bot"), 2);
    assert_eq!(state.process_count("scraper"), 1);
    assert_eq!(state.process_count("other"), 0);
    state.deregister_process(7);
    let pids: Vec<u32> = state.processes.iter().map(|p| p.pid).collect();
    assert_eq!(pids, vec![5, 8]);
    state.deregister_process(8);
    let pids: Vec<u32> = state.processes.iter().map(|p| p.pid).collect();
    assert_eq!(pids, vec![5]);
    state.deregister_process(99);
    assert_eq!(state.processes.len(), 1);
}

#[test]
fn first_entry_wins() {
    let state = DaemonState {
        pid: 1,
        profiles: vec![
            ProfilePort { name: "bot".into(), port: 9001 },
            ProfilePort { name: "bot".into(), port: 9002 },
        ],
        processes: vec![],
    };
    assert_eq!(state.get_port("bot"), Some(9001));
}

#[test]
fn port_lookup_errors() {
    assert_eq!(
        proxy_port_for(&None, "bot").unwrap_err(),
        "daemon is not running — start it with: netsand daemon start"
    );
    let state = Some(DaemonState {
        pid: 1,
        profiles: vec![ProfilePort { name: "bot".into(), port: 8001 }],
        processes: vec![],
    });
    assert_eq!(proxy_port_for(&state, "bot").unwrap(), 8001);
    assert_eq!(
        proxy_port_for(&state, "x").unwrap_err(),
        "profile 'x' not found in daemon state"
    );
}

#[test]
fn command_joined_with_spaces() {
    let cmd: Vec<String> = vec!["curl".into(), "-s".into(), "https://a".into()];
    assert_eq!(join_command(&cmd), "curl -s https://a");
    assert_eq!(join_command(&[]), "");
    assert_eq!(join_command(&["one".to_string()]), "one");
}
