use maestro::config_writer::{keys_to_remove, should_remove_server};
use maestro::worktree::{
    effective_base_dir, repo_hash, sanitize_branch, WorktreeInfo, WorktreeManager,
};

#[test]
fn test_sanitize_branch_normal() {
    assert_eq!(sanitize_branch("main"), "main");
}

#[test]
fn test_sanitize_branch_with_slashes() {
    assert_eq!(sanitize_branch("feature/x"), "feature-x");
}

#[test]
fn test_sanitize_branch_empty() {
    assert_eq!(sanitize_branch(""), "unnamed-branch");
}

#[test]
fn test_sanitize_branch_dot() {
    assert_eq!(sanitize_branch("."), "unnamed-branch");
    assert_eq!(sanitize_branch(".."), "unnamed-branch");
}

#[test]
fn test_sanitize_branch_special_chars() {
    assert_eq!(sanitize_branch("a:b*c"), "a-b-c");
    assert_eq!(sanitize_branch("a?b\"c"), "a-b-c");
    assert_eq!(sanitize_branch("a<b>c|d"), "a-b-c-d");
}

#[test]
fn test_should_remove_server() {
    assert!(should_remove_server("maestro-status"));
    assert!(should_remove_server("maestro-status-1"));
    assert!(should_remove_server("maestro-2"));
    assert!(should_remove_server("maestro"));
    assert!(!should_remove_server("user-server"));
    assert!(!should_remove_server("some-other-server"));
}

#[test]
fn test_keys_to_remove_keeps_user_entries() {
    let keys = vec![
        "maestro-status".to_string(),
        "user-server".to_string(),
        "maestro-7".to_string(),
        "other".to_string(),
    ];
    let removed = keys_to_remove(&keys);
    assert_eq!(removed, vec!["maestro-status".to_string(), "maestro-7".to_string()]);
}

#[test]
fn test_effective_base_dir_override() {
    assert_eq!(
        effective_base_dir(Some("/custom".to_string()), "/default".to_string()),
        "/custom"
    );
    assert_eq!(effective_base_dir(None, "/default".to_string()), "/default");
}

#[test]
fn test_repo_hash_shape() {
    let h = repo_hash("/tmp/repo");
    assert_eq!(h.len(), 16);
    assert!(h.chars().all(|c| c.is_ascii_hexdigit()));
    // Deterministic, and sensitive to the path
    assert_eq!(h, repo_hash("/tmp/repo"));
    assert_ne!(h, repo_hash("/tmp/other"));
    // SHA-256 of the empty string starts e3b0c44298fc1c14
    assert_eq!(repo_hash(""), "e3b0c44298fc1c14");
}

#[test]
fn test_worktree_path_layout() {
    let wm = WorktreeManager::new();
    let p1 = wm.worktree_path_with_base("/tmp/repo", "feature/x", "/base");
    assert!(p1.starts_with("/base/"));
    assert!(p1.ends_with("/feature-x"));
    // base + '/' + 16 hash chars + '/' + sanitized branch
    assert_eq!(p1.len(), "/base/".len() + 16 + "/feature-x".len());
    let p2 = wm.worktree_path_with_base("/tmp/repo", "feature/x", "/base");
    assert_eq!(p1, p2);
    let p3 = wm.worktree_path_with_base("/tmp/repo", "branch-b", "/base");
    assert_ne!(p1, p3);
}

#[test]
fn test_find_branch_conflict_skips_main() {
    let wm = WorktreeManager::new();
    let worktrees = vec![
        WorktreeInfo {
            path: "/repo".to_string(),
            branch: Some("main".to_string()),
            is_main_worktree: true,
        },
        WorktreeInfo {
            path: "/wt/a".to_string(),
            branch: Some("dup-test".to_string()),
            is_main_worktree: false,
        },
        WorktreeInfo { path: "/wt/b".to_string(), branch: None, is_main_worktree: false },
    ];
    // The main worktree's branch does not conflict
    assert!(wm.find_branch_conflict(&worktrees, "main").is_none());
    // A non-main worktree with the branch does
    assert_eq!(wm.find_branch_conflict(&worktrees, "dup-test"), Some(1));
    assert!(wm.find_branch_conflict(&worktrees, "fresh").is_none());
}

#[test]
fn test_list_managed_filters_by_base() {
    let wm = WorktreeManager::new();
    let worktrees = vec![
        WorktreeInfo {
            path: "/repo".to_string(),
            branch: Some("main".to_string()),
            is_main_worktree: true,
        },
        WorktreeInfo {
            path: "/data/worktrees/h/a".to_string(),
            branch: Some("a".to_string()),
            is_main_worktree: false,
        },
        WorktreeInfo {
            path: "/data/worktreesX/b".to_string(),
            branch: Some("b".to_string()),
            is_main_worktree: false,
        },
    ];
    let managed = wm.list_managed_with_base(&worktrees, "/data/worktrees");
    assert_eq!(managed.len(), 1);
    assert_eq!(managed[0].path, "/data/worktrees/h/a");
    assert!(!managed[0].is_main_worktree);
}

#[test]
fn test_orphaned_entries() {
    let wm = WorktreeManager::new();
    let entries = vec!["/w/a".to_string(), "/w/b".to_string(), "/w/c".to_string()];
    let active = vec!["/w/b".to_string()];
    let orphans = wm.orphaned_entries(&entries, &active);
    assert_eq!(orphans, vec!["/w/a".to_string(), "/w/c".to_string()]);
    let none_active: Vec<String> = Vec::new();
    assert_eq!(wm.orphaned_entries(&entries, &none_active), entries);
}
