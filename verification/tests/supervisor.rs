use maestro::errors::PtyError;
use maestro::process_manager::{helper_environment, CwdProbe, ProcessManager};
use maestro::process_tree::{
    get_all_process_trees, get_process_tree, get_session_process_tree, kill_process, ProcessNode,
};

fn node(pid: u32, parent_pid: u32, name: &str) -> ProcessNode {
    ProcessNode { pid, parent_pid, name: name.to_string() }
}

#[test]
fn test_pid_visible_until_kill_completes() {
    let mut pm = ProcessManager::new();
    let id = pm.register_session(100, "/tmp/proj".to_string());
    assert_eq!(pm.get_session_pid(id), Some(100));

    // Unrelated activity does not hide the pid
    let other = pm.register_session(200, "/tmp/other".to_string());
    assert_eq!(pm.get_session_pid(id), Some(100));
    pm.finish_kill(other);
    assert_eq!(pm.get_session_pid(id), Some(100));

    // The kill order names the session's root with the 3s grace period
    let plan = pm.kill_session(id).unwrap();
    assert_eq!(plan.target_pid, 100);
    assert_eq!(plan.grace_ms, 3000);

    // Immediately after the kill completes, the pid query is empty
    pm.finish_kill(id);
    assert_eq!(pm.get_session_pid(id), None);

    // Killing an already-gone session is an accepted no-op
    assert!(pm.kill_session(id).is_none());
    pm.finish_kill(id);
}

#[test]
fn test_resize_pty_dimension_bounds() {
    let mut pm = ProcessManager::new();
    let id = pm.register_session(42, "/p".to_string());

    // Rejected before any OS interaction
    for (rows, cols) in [(0u16, 10u16), (10, 0), (501, 10), (10, 501)] {
        match pm.resize_pty(id, rows, cols) {
            Err(PtyError::ResizeFailed(m)) => assert_eq!(m, "Invalid dimensions"),
            other => panic!("expected a resize failure, got {:?}", other.is_ok()),
        }
    }

    // Accepted at the boundary
    for (rows, cols) in [(1u16, 1u16), (1, 500), (500, 1), (500, 500)] {
        let resize = pm.resize_pty(id, rows, cols).unwrap();
        assert_eq!(resize.rows, rows);
        assert_eq!(resize.cols, cols);
    }

    // Valid dimensions for an unknown session still fail
    match pm.resize_pty(id + 1, 10, 10) {
        Err(PtyError::SessionNotFound(sid)) => assert_eq!(sid, id + 1),
        _ => panic!("expected an unknown-session failure"),
    }
}

#[test]
fn test_write_stdin_unknown_session() {
    let mut pm = ProcessManager::new();
    let id = pm.register_session(7, "/p".to_string());
    assert!(pm.write_stdin(id, "ls\r").is_ok());
    assert!(matches!(pm.write_stdin(id + 1, "x"), Err(PtyError::SessionNotFound(_))));
}

#[test]
fn test_kill_process_refuses_session_roots() {
    let roots = vec![100, 200];

    // A session root pid is refused with a descriptive message
    match kill_process(100, &roots) {
        Err(m) => assert_eq!(m, "Cannot kill session root process 100 directly"),
        Ok(_) => panic!("expected a refusal"),
    }

    // Any other pid gets a graceful-then-forceful plan with a 2s wait
    let plan = kill_process(101, &roots).unwrap();
    assert_eq!(plan.target_pid, 101);
    assert_eq!(plan.grace_ms, 2000);
}

#[test]
fn test_tree_with_no_children_is_root_alone() {
    let snap = vec![
        node(1, 0, "init"),
        node(100, 1, "shell"),
        node(300, 1, "editor"),
    ];
    let tree = get_process_tree(&snap, 5, 100).unwrap();
    assert_eq!(tree.session_id, 5);
    assert_eq!(tree.root_pid, 100);
    assert_eq!(tree.nodes.len(), 1);
    assert_eq!(tree.nodes[0].pid, 100);
    assert_eq!(tree.nodes[0].name, "shell");
}

#[test]
fn test_tree_collects_descendants() {
    let snap = vec![
        node(1, 0, "init"),
        node(100, 1, "shell"),
        node(101, 100, "agent"),
        node(102, 101, "tool"),
        node(103, 101, "helper"),
        node(300, 1, "editor"),
    ];
    let tree = get_process_tree(&snap, 5, 100).unwrap();
    assert_eq!(tree.nodes[0].pid, 100);
    let mut pids: Vec<u32> = tree.nodes.iter().map(|n| n.pid).collect();
    pids.sort();
    assert_eq!(pids, vec![100, 101, 102, 103]);
}

#[test]
fn test_tree_absent_for_vanished_root() {
    let snap = vec![node(1, 0, "init")];
    assert!(get_process_tree(&snap, 5, 100).is_none());
}

#[test]
fn test_spawn_invalid_dir_allocates_nothing() {
    let mut pm = ProcessManager::new();

    // The probe of a nonexistent path fails: a descriptive spawn error,
    // and nothing is registered anywhere
    let probe = CwdProbe::Failed {
        dir: "/does/not/exist".to_string(),
        error: "No such file or directory".to_string(),
    };
    match ProcessManager::resolve_spawn_dir(probe) {
        Err(PtyError::SpawnFailed(m)) => {
            assert_eq!(m, "Invalid cwd '/does/not/exist': No such file or directory");
        }
        _ => panic!("expected a spawn failure"),
    }
    assert!(pm.get_all_session_pids().is_empty());

    // A path that exists but is not a directory also fails
    let probe = CwdProbe::Resolved {
        dir: "/tmp/file".to_string(),
        canonical: "/tmp/file".to_string(),
        is_dir: false,
    };
    match ProcessManager::resolve_spawn_dir(probe) {
        Err(PtyError::SpawnFailed(m)) => {
            assert_eq!(m, "cwd '/tmp/file' is not a directory");
        }
        _ => panic!("expected a spawn failure"),
    }

    // A valid directory resolves to its canonical form
    let probe = CwdProbe::Resolved {
        dir: "/tmp/./proj".to_string(),
        canonical: "/tmp/proj".to_string(),
        is_dir: true,
    };
    assert_eq!(ProcessManager::resolve_spawn_dir(probe).unwrap(), Some("/tmp/proj".to_string()));
    assert_eq!(ProcessManager::resolve_spawn_dir(CwdProbe::NotProvided).unwrap(), None);
}

#[test]
fn test_kill_then_tree_is_absent() {
    let mut pm = ProcessManager::new();
    let id = pm.register_session(100, "/p".to_string());
    let snap = vec![node(1, 0, "init"), node(100, 1, "shell")];
    assert!(get_session_process_tree(&pm, &snap, id).is_some());

    let plan = pm.kill_session(id).unwrap();
    assert_eq!(plan.target_pid, 100);
    pm.finish_kill(id);

    // Immediately after the kill: no tree, even from a stale snapshot
    assert!(get_session_process_tree(&pm, &snap, id).is_none());
}

#[test]
fn test_kill_all_sessions_empties_everything() {
    let mut pm = ProcessManager::new();
    pm.register_session(100, "/a".to_string());
    pm.register_session(200, "/b".to_string());
    pm.register_session(300, "/c".to_string());

    let (count, plans) = pm.kill_all_sessions();
    assert_eq!(count, 3);
    assert_eq!(plans.len(), 3);
    let mut pids: Vec<u32> = plans.iter().map(|p| p.target_pid).collect();
    pids.sort();
    assert_eq!(pids, vec![100, 200, 300]);
    assert!(plans.iter().all(|p| p.grace_ms == 3000));

    // Afterwards there are no sessions, so there are no trees
    let snap = vec![node(1, 0, "init"), node(100, 1, "shell")];
    let sessions = pm.get_all_session_pids();
    assert!(sessions.is_empty());
    assert!(get_all_process_trees(&snap, &sessions).is_empty());
}

#[test]
fn test_all_trees_share_one_snapshot() {
    let snap = vec![
        node(1, 0, "init"),
        node(100, 1, "shell"),
        node(101, 100, "agent"),
        node(200, 1, "shell"),
    ];
    // Session 9's root 999 has exited; the others are live
    let sessions = vec![(5u32, 100u32), (9, 999), (6, 200)];
    let trees = get_all_process_trees(&snap, &sessions);
    assert_eq!(trees.len(), 2);
    assert_eq!(trees[0].session_id, 5);
    assert_eq!(trees[0].nodes.len(), 2);
    assert_eq!(trees[1].session_id, 6);
    assert_eq!(trees[1].nodes.len(), 1);
}

#[test]
fn test_error_messages() {
    assert_eq!(PtyError::SessionNotFound(3).message(), "unknown session");
    assert_eq!(PtyError::SpawnFailed("boom".to_string()).message(), "boom");
}

#[test]
fn test_helper_environment_variables() {
    let env = helper_environment(7, "http://127.0.0.1:9900/status", "inst");
    assert_eq!(env.len(), 3);
    assert_eq!(env[0], ("MAESTRO_SESSION_ID".to_string(), "7".to_string()));
    assert_eq!(
        env[1],
        ("MAESTRO_STATUS_URL".to_string(), "http://127.0.0.1:9900/status".to_string())
    );
    assert_eq!(env[2], ("MAESTRO_INSTANCE_ID".to_string(), "inst".to_string()));
}
