use maestro::backend::{get_backend_info, BackendType};
use maestro::session_registry::SessionRegistry;

#[test]
fn test_session_registry_lifecycle() {
    let mut reg = SessionRegistry::new();
    reg.create_session(1, "/tmp/proj");
    reg.create_session(2, "/tmp/proj");
    reg.create_session(3, "/tmp/other");

    // Status values overwrite freely, in any order
    assert!(reg.update_session_status(1, "Working"));
    assert!(reg.update_session_status(1, "Error"));
    assert!(reg.update_session_status(1, "Idle"));
    assert!(!reg.update_session_status(99, "Working"));

    assert!(reg.assign_session_branch(2, Some("feature/x")));
    assert!(!reg.assign_session_branch(99, None));

    let mut ids = reg.get_sessions_for_project("/tmp/proj");
    ids.sort();
    assert_eq!(ids, vec![1, 2]);
    assert_eq!(reg.get_sessions_for_project("/tmp/other"), vec![3]);
    assert!(reg.get_sessions_for_project("/nowhere").is_empty());

    reg.remove_session(2);
    assert_eq!(reg.get_sessions_for_project("/tmp/proj"), vec![1]);

    // Closing a project removes exactly its sessions
    let removed = reg.remove_sessions_for_project("/tmp/proj");
    assert_eq!(removed, 1);
    assert!(reg.get_sessions_for_project("/tmp/proj").is_empty());
    assert_eq!(reg.get_sessions_for_project("/tmp/other"), vec![3]);
}

#[test]
fn test_backend_capabilities() {
    let info = get_backend_info(BackendType::XtermPassthrough);
    assert!(matches!(info.backend_type, BackendType::XtermPassthrough));
    assert!(!info.capabilities.enhanced_state);
    assert!(!info.capabilities.text_reflow);
    assert!(!info.capabilities.kitty_graphics);
    assert!(!info.capabilities.shell_integration);
    assert_eq!(info.capabilities.backend_name, "xterm-passthrough");

    let info = get_backend_info(BackendType::VteParser);
    assert!(info.capabilities.enhanced_state);
    assert!(!info.capabilities.text_reflow);
    assert_eq!(info.capabilities.backend_name, "vte-parser");
}

#[test]
fn test_all_sessions_snapshot() {
    let mut reg = SessionRegistry::new();
    assert!(reg.all_sessions().is_empty());
    reg.create_session(4, "/p");
    reg.update_session_status(4, "Working");
    let all = reg.all_sessions();
    assert_eq!(all.len(), 1);
    assert_eq!(all[0].id, 4);
    assert_eq!(all[0].project_path, "/p");
    assert_eq!(all[0].status, "Working");
    assert!(all[0].branch.is_none());
}
