use maestro::bookmarks::{BookmarkEntry, BookmarkManager};

#[test]
fn test_is_external_or_network() {
    // External drives
    assert!(BookmarkManager::is_external_or_network("/Volumes/USB Drive"));
    assert!(BookmarkManager::is_external_or_network(
        "/Volumes/External SSD/project"
    ));

    // Boot volume - not external
    assert!(!BookmarkManager::is_external_or_network("/Volumes/Macintosh HD"));
    assert!(!BookmarkManager::is_external_or_network(
        "/Volumes/Macintosh HD - Data"
    ));

    // Network mounts
    assert!(BookmarkManager::is_external_or_network("/net/server/share"));
    assert!(BookmarkManager::is_external_or_network("/Network/Servers/nas"));

    // Regular paths
    assert!(!BookmarkManager::is_external_or_network("/Users/me/projects"));
    assert!(!BookmarkManager::is_external_or_network("/tmp"));
}

#[test]
fn test_bookmark_manager_basic() {
    let mut manager = BookmarkManager::new();

    // Initially empty
    assert!(manager.get_all_bookmarks().is_empty());
    assert!(!manager.has_bookmark("/some/path"));

    // Load bookmarks
    let entries = vec![BookmarkEntry {
        path: "/test/path".to_string(),
        bookmark_data: "dGVzdA==".to_string(),
        is_external: false,
        last_accessed: 12345,
    }];

    manager.load_from_store(entries);

    assert!(manager.has_bookmark("/test/path"));
    assert_eq!(manager.get_all_bookmarks().len(), 1);

    // Get bookmark
    let entry = manager.get_bookmark("/test/path").unwrap();
    assert_eq!(entry.path, "/test/path");

    // Remove bookmark
    manager.remove_bookmark("/test/path");
    assert!(!manager.has_bookmark("/test/path"));
}

#[test]
fn test_is_external_more_cases() {
    // Boot volume "System" and subpaths of boot names
    assert!(!BookmarkManager::is_external_or_network("/Volumes/System"));
    assert!(!BookmarkManager::is_external_or_network(
        "/Volumes/Macintosh HD/Users/me"
    ));
    // Bare /Volumes falls through to the network checks
    assert!(!BookmarkManager::is_external_or_network("/Volumes"));
    assert!(!BookmarkManager::is_external_or_network("/Volumes/"));
    // A path that merely begins with the letters, not the component
    assert!(!BookmarkManager::is_external_or_network("/VolumesX/disk"));
    // Remote URL schemes anywhere in the path
    assert!(BookmarkManager::is_external_or_network("/mnt/smb://server/share"));
    assert!(BookmarkManager::is_external_or_network("x nfs://h/p"));
    assert!(BookmarkManager::is_external_or_network("afp://host/vol"));
}

#[test]
fn test_load_from_store_replaces_same_path() {
    let mut manager = BookmarkManager::new();
    manager.load_from_store(vec![
        BookmarkEntry {
            path: "/a".to_string(),
            bookmark_data: "one".to_string(),
            is_external: false,
            last_accessed: 1,
        },
        BookmarkEntry {
            path: "/a".to_string(),
            bookmark_data: "two".to_string(),
            is_external: true,
            last_accessed: 2,
        },
    ]);
    assert_eq!(manager.get_all_bookmarks().len(), 1);
    let entry = manager.get_bookmark("/a").unwrap();
    assert_eq!(entry.bookmark_data, "two");
    assert_eq!(entry.last_accessed, 2);
}

#[test]
fn test_create_bookmark_classifies_path() {
    let mut manager = BookmarkManager::new();
    let entry = manager.create_bookmark("/Volumes/USB Drive/proj", "blob".to_string(), 777);
    assert_eq!(entry.path, "/Volumes/USB Drive/proj");
    assert!(entry.is_external);
    assert_eq!(entry.bookmark_data, "blob");
    assert_eq!(entry.last_accessed, 777);
    assert!(manager.has_bookmark("/Volumes/USB Drive/proj"));

    let entry2 = manager.create_bookmark("/Users/me/proj", String::new(), 778);
    assert!(!entry2.is_external);
}

#[test]
fn test_access_tracking() {
    let mut manager = BookmarkManager::new();
    let entry = manager.create_bookmark("/p", String::new(), 1);
    let resolved = manager.start_access(&entry);
    assert_eq!(resolved, "/p");
    // Closing access for the path, then for everything, never loses bookmarks
    manager.stop_access("/p");
    assert!(manager.has_bookmark("/p"));
    let e2 = manager.get_bookmark("/p").unwrap();
    manager.start_access(&e2);
    manager.start_access(&e2);
    manager.stop_all_access();
    assert!(manager.has_bookmark("/p"));
}
