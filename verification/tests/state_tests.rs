use dsh_launcher::state::{get_running, pids_to_stop, AppState, ChildHandle, LOG_BUFFER_CAP};

fn child(pid: u32, port: u16) -> ChildHandle {
    ChildHandle { pid, port, started_at: 100 + pid as i64, boot_url: None }
}

#[test]
fn log_buffer_keeps_latest_lines() {
    let mut state = AppState::new();
    assert!(state.log_buffer("a").is_empty());
    for i in 0..(LOG_BUFFER_CAP + 5) {
        state.push_log("a", &format!("line {i}"));
    }
    state.push_log("b", "other");
    let a = state.log_buffer("a");
    assert_eq!(a.len(), LOG_BUFFER_CAP);
    assert_eq!(a[0], "line 5");
    assert_eq!(a[LOG_BUFFER_CAP - 1], format!("line {}", LOG_BUFFER_CAP + 4));
    assert_eq!(state.log_buffer("b"), vec!["other".to_string()]);
    state.forget_logs("a");
    assert!(state.log_buffer("a").is_empty());
    assert_eq!(state.log_buffer("b").len(), 1);
}

#[test]
fn children_registry() {
    let mut state = AppState::new();
    state.insert_child("a".into(), child(1, 3080));
    state.insert_child("b".into(), child(2, 3081));
    assert!(state.is_running("a"));
    assert_eq!(state.child_pid("b"), Some(2));
    // a newer process of `a` replaces the old record in place
    state.insert_child("a".into(), child(3, 3082));
    let running = get_running(&state);
    assert_eq!(running.len(), 2);
    assert_eq!(running[0].instance_id, "a");
    assert_eq!(running[0].pid, 3);
    assert_eq!(running[0].port, 3082);
    assert_eq!(running[1].instance_id, "b");
    // the exit of the old process does not drop the new one
    state.remove_child_if_pid("a", 1);
    assert!(state.is_running("a"));
    state.remove_child_if_pid("a", 3);
    assert!(!state.is_running("a"));
    assert_eq!(get_running(&state).len(), 1);
}

#[test]
fn pids_to_stop_lists_each_running_pid_once() {
    let mut state = AppState::new();
    assert!(pids_to_stop(&state).is_empty());
    state.insert_child("a".into(), child(10, 1));
    state.insert_child("b".into(), child(20, 2));
    state.insert_child("a".into(), child(30, 3));
    assert_eq!(pids_to_stop(&state), vec![30, 20]);
}
