use maestro::reporter::{StatusReporter, UpdateCheck, UpdateInfo};
use maestro::status_server::{
    map_state, scan_ports, SessionStatusPayload, StatusRequest, StatusServer,
};

fn request(session_id: u32, instance_id: &str, state: &str, message: &str) -> StatusRequest {
    StatusRequest {
        session_id,
        instance_id: instance_id.to_string(),
        state: state.to_string(),
        message: message.to_string(),
        needs_input_prompt: None,
        timestamp: "2024-01-01T00:00:00Z".to_string(),
    }
}

#[test]
fn test_generate_project_hash() {
    let hash = StatusServer::generate_project_hash("/Users/test/project");
    assert_eq!(hash.len(), 12);
    assert!(hash.chars().all(|c| c.is_ascii_hexdigit()));
}

#[test]
fn test_hash_consistency() {
    let hash1 = StatusServer::generate_project_hash("/Users/test/project");
    let hash2 = StatusServer::generate_project_hash("/Users/test/project");
    assert_eq!(hash1, hash2);
}

#[test]
fn test_project_hash_exact_value() {
    // SHA-256 of the empty string begins e3b0c44298fc
    assert_eq!(StatusServer::generate_project_hash(""), "e3b0c44298fc");
    assert_ne!(StatusServer::generate_project_hash("/a"), StatusServer::generate_project_hash("/b"));
}

#[test]
fn test_map_state_vocabulary() {
    assert_eq!(map_state("idle"), "Idle");
    assert_eq!(map_state("working"), "Working");
    assert_eq!(map_state("needs_input"), "NeedsInput");
    assert_eq!(map_state("finished"), "Done");
    assert_eq!(map_state("error"), "Error");
    assert_eq!(map_state("rebooting"), "Unknown");
    assert_eq!(map_state(""), "Unknown");
}

#[test]
fn test_scan_ports_two_instances_get_distinct_ports() {
    // The first instance sees no port taken and claims the first of the range
    let taken: Vec<u16> = Vec::new();
    let p1 = scan_ports(&taken).unwrap();
    assert_eq!(p1, 9900);

    // The second instance's bind attempt on p1 fails, so it records it
    // as taken and ends up on a different port, still in range
    let taken2 = vec![p1];
    let p2 = scan_ports(&taken2).unwrap();
    assert_ne!(p1, p2);
    assert!((9900..=9999).contains(&p1));
    assert!((9900..=9999).contains(&p2));
}

#[test]
fn test_scan_ports_exhausted_range() {
    let taken: Vec<u16> = (9900u16..=9999).collect();
    assert!(scan_ports(&taken).is_none());
    // One gap in the middle is found
    let taken: Vec<u16> = (9900u16..=9999).filter(|p| *p != 9942).collect();
    assert_eq!(scan_ports(&taken), Some(9942));
}

#[test]
fn test_status_url_format() {
    let server = StatusServer::new(9900, "iid".to_string());
    assert_eq!(server.status_url(), "http://127.0.0.1:9900/status");
    assert_eq!(server.port(), 9900);
    assert_eq!(server.instance_id(), "iid");
    let server = StatusServer::new(9999, "iid".to_string());
    assert_eq!(server.status_url(), "http://127.0.0.1:9999/status");
}

#[test]
fn test_wrong_instance_never_emits() {
    let mut server = StatusServer::new(9900, "server-instance".to_string());
    server.register_session(7, "/tmp/proj");

    // Valid, registered session id — but an identity from another instance
    let req = request(7, "other-instance", "working", "compiling");
    assert!(server.handle_status(&req).is_none());
}

#[test]
fn test_unregistered_session_never_emits() {
    let mut server = StatusServer::new(9900, "server-instance".to_string());

    // Never registered
    let req = request(7, "server-instance", "working", "compiling");
    assert!(server.handle_status(&req).is_none());

    // Registered, then unregistered
    server.register_session(7, "/tmp/proj");
    server.unregister_session(7);
    assert!(server.handle_status(&req).is_none());
}

#[test]
fn test_accepted_report_emits_one_event() {
    let mut server = StatusServer::new(9900, "server-instance".to_string());
    server.register_session(7, "/tmp/proj");

    let req = request(7, "server-instance", "working", "compiling");
    let event: SessionStatusPayload = server.handle_status(&req).unwrap();
    assert_eq!(event.session_id, 7);
    assert_eq!(event.project_path, "/tmp/proj");
    assert_eq!(event.status, "Working");
    assert_eq!(event.message, "compiling");
    assert!(event.needs_input_prompt.is_none());
}

#[test]
fn test_needs_input_prompt_passes_through() {
    let mut server = StatusServer::new(9900, "i".to_string());
    server.register_session(1, "/p");
    let mut req = request(1, "i", "needs_input", "blocked");
    req.needs_input_prompt = Some("Which file?".to_string());
    let event = server.handle_status(&req).unwrap();
    assert_eq!(event.status, "NeedsInput");
    assert_eq!(event.needs_input_prompt.as_deref(), Some("Which file?"));
}

#[test]
fn test_register_repoints_project() {
    let mut server = StatusServer::new(9901, "i".to_string());
    server.register_session(1, "/old");
    server.register_session(1, "/new");
    let ids = server.registered_sessions();
    assert_eq!(ids, vec![1]);
    let event = server.handle_status(&request(1, "i", "idle", "")).unwrap();
    assert_eq!(event.project_path, "/new");
}

#[test]
fn test_reporter_without_url_is_noop() {
    let reporter = StatusReporter::new(None, Some(7), Some("i".to_string()));
    assert!(reporter
        .build_payload("working", "x", None, "t".to_string())
        .is_none());
}

#[test]
fn test_reporter_defaults_for_missing_config() {
    let reporter = StatusReporter::new(Some("http://127.0.0.1:9900/status".to_string()), None, None);
    let payload = reporter
        .build_payload("idle", "Ready", None, "2024-01-01T00:00:00Z".to_string())
        .unwrap();
    assert_eq!(payload.session_id, 0);
    assert_eq!(payload.instance_id, "unknown");
    assert_eq!(payload.state, "idle");
    assert_eq!(payload.message, "Ready");
    assert_eq!(payload.timestamp, "2024-01-01T00:00:00Z");
}

#[test]
fn test_update_info_from_check() {
    let info = UpdateInfo::from_check(
        "1.0.0".to_string(),
        Some(UpdateCheck {
            version: "1.1.0".to_string(),
            release_notes: Some("fixes".to_string()),
            date: Some("2024-05-01".to_string()),
        }),
    );
    assert!(info.available);
    assert_eq!(info.current_version, "1.0.0");
    assert_eq!(info.latest_version, "1.1.0");
    assert_eq!(info.release_notes.as_deref(), Some("fixes"));

    let info = UpdateInfo::from_check("1.0.0".to_string(), None);
    assert!(!info.available);
    assert_eq!(info.latest_version, "1.0.0");
    assert!(info.release_notes.is_none());
    assert!(info.date.is_none());
}
