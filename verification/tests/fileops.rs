use mediamount_agent::config::{MountConfig, MountsConfig};
use mediamount_agent::fileops::{
    app_group_container, cache_limit_for, check_inside, conflict_event, failure_message,
    get_changes, note_stat, passthrough_changes, record_renamed, record_written, resolve_base,
    resolve_full, resolve_path_for_write, share_missing, socket_path, temp_dir, temp_name,
    write_conflict, FailedOp, FileOpsServer, WriteTarget,
};
use mediamount_agent::macos_cache::{FolderListing, MacosCache};
use mediamount_agent::messages::{AgentToUfb, DirEntry};
use mediamount_agent::paths::{Environment, Platform};

fn mount(id: &str, share: &str, enabled: bool, sync: bool, limit: u64) -> MountConfig {
    MountConfig {
        id: id.into(),
        enabled,
        display_name: id.into(),
        nas_share_path: share.into(),
        credential_key: id.into(),
        mount_drive_letter: String::new(),
        smb_mount_path: None,
        mount_path_linux: None,
        mount_path_macos: None,
        is_jobs_folder: true,
        sync_enabled: sync,
        sync_root_path: None,
        sync_cache_limit_bytes: limit,
        rclone_drive_letter: String::new(),
        smb_drive_letter: String::new(),
        junction_path: String::new(),
        rclone_mount_path: None,
        rclone_remote: None,
        cache_dir_path: String::new(),
        cache_max_size: String::new(),
        cache_max_age: String::new(),
        vfs_write_back: String::new(),
        vfs_read_chunk_size: String::new(),
        vfs_read_chunk_streams: 0,
        vfs_read_ahead: String::new(),
        buffer_size: String::new(),
        probe_interval_secs: 0,
        probe_timeout_ms: 0,
        fallback_threshold: 0,
        recovery_threshold: 0,
        max_rclone_start_attempts: 0,
        healthcheck_file_name: String::new(),
        extra_rclone_flags: vec![],
    }
}

fn config() -> MountsConfig {
    MountsConfig {
        version: 1,
        sync_cache_root: None,
        mounts: vec![
            mount("a", r"\\nas\media", true, true, 100),
            mount("b", r"\\nas\other", false, true, 200),
            mount("c", r"\\nas\plain", true, false, 300),
        ],
    }
}

fn mac(home: Option<&str>) -> Environment {
    Environment {
        platform: Platform::Macos,
        home: home.map(|s| s.to_string()),
        local_app_data: None,
        runtime_dir: None,
        config_home: None,
        user: None,
    }
}

fn entry(name: &str, is_dir: bool, size: u64, modified: i64) -> DirEntry {
    DirEntry { name: name.to_string(), is_dir, size, modified, created: 1 }
}

#[test]
fn the_container_is_shared() {
    let c = "/Users/u/Library/Group Containers/5Z4S9VHV56.group.com.unionfiles.mediamount-tray";
    assert_eq!(app_group_container(&mac(Some("/Users/u"))), c);
    assert_eq!(app_group_container(&mac(None)), "/tmp/ufb-fileprovider");
    assert_eq!(socket_path(&mac(Some("/Users/u"))), format!("{}/fp.sock", c));
    assert_eq!(temp_dir(&mac(Some("/Users/u"))), format!("{}/temp", c));
    assert_eq!(temp_name(1_700_000_000_000_001, 48_879), "1700000000000001-beef.tmp");
    assert_eq!(temp_name(5, 0), "5-0.tmp");
}

#[test]
fn caches_belong_to_synced_shares() {
    assert_eq!(cache_limit_for(&config(), "media"), Some(100));
    assert_eq!(cache_limit_for(&config(), "other"), None);
    assert_eq!(FileOpsServer::caches(&config()), vec![("media".to_string(), 100)]);
}

#[test]
fn requests_stay_in_their_share() {
    assert_eq!(resolve_base(&config(), "media"), Ok("/Volumes/media".to_string()));
    assert_eq!(
        resolve_base(&config(), "nope"),
        Err("No enabled mount found for domain 'nope'".to_string())
    );
    assert_eq!(resolve_full("/Volumes/media", ""), "/Volumes/media");
    assert_eq!(resolve_full("/Volumes/media", "a/b"), "/Volumes/media/a/b");
    assert_eq!(
        check_inside("/Volumes/media", "/Volumes/media/a", "a"),
        Ok("/Volumes/media/a".to_string())
    );
    assert_eq!(
        check_inside("/Volumes/media", "/etc/passwd", "../../etc/passwd"),
        Err("Path traversal detected: ../../etc/passwd".to_string())
    );
    assert_eq!(
        check_inside("/Volumes/media", "/Volumes/media2/a", "../media2/a"),
        Err("Path traversal detected: ../media2/a".to_string())
    );
}

#[test]
fn new_files_have_a_path_too() {
    let found = |path: &str| WriteTarget::Found("/Volumes/media".to_string(), path.to_string());
    assert_eq!(
        resolve_path_for_write(&config(), "media", "x", found("/Volumes/media/x")),
        Ok("/Volumes/media/x".to_string())
    );
    assert_eq!(
        resolve_path_for_write(&config(), "media", "../../etc/x", found("/etc/x")),
        Ok("/Volumes/media/../../etc/x".to_string())
    );
    assert_eq!(
        resolve_path_for_write(&config(), "media", "new/x", WriteTarget::Missing),
        Ok("/Volumes/media/new/x".to_string())
    );
    assert_eq!(
        resolve_path_for_write(&config(), "nope", "x", found("/etc/x")),
        Err("No mount for domain 'nope'".to_string())
    );
    assert_eq!(
        resolve_path_for_write(&config(), "nope", "x", WriteTarget::Missing),
        Err("No mount for domain 'nope'".to_string())
    );
    assert_eq!(share_missing("/Volumes/media"), "SMB mount not found at /Volumes/media");
}

#[test]
fn failures_say_what_was_tried() {
    assert_eq!(failure_message(FailedOp::ReadDirectory, "x"), "Failed to read directory: x");
    assert_eq!(failure_message(FailedOp::Stat, "x"), "Stat failed: x");
    assert_eq!(failure_message(FailedOp::FindFile, "x"), "File not found: x");
    assert_eq!(failure_message(FailedOp::Copy, "x"), "Failed to copy file: x");
    assert_eq!(failure_message(FailedOp::CreateDirectory, "x"), "Failed to create directory: x");
    assert_eq!(failure_message(FailedOp::Write, "x"), "Failed to write file: x");
    assert_eq!(failure_message(FailedOp::FindItem, "x"), "Item not found: x");
    assert_eq!(failure_message(FailedOp::Delete, "x"), "Failed to delete: x");
    assert_eq!(failure_message(FailedOp::Rename, "x"), "Rename failed: x");
}

#[test]
fn drift_is_noted() {
    let mut c = MacosCache::new(0);
    assert_eq!(note_stat(&mut c, "f", 5, 10, 99, false), None);
    c.record_enumeration("", &vec![entry("f", false, 5, 10)], 0);
    assert_eq!(note_stat(&mut c, "f", 5, 10, 99, false), Some(false));
    assert_eq!(note_stat(&mut c, "f", 6, 10, 99, false), Some(true));
    assert_eq!(c.compare_nas_metadata("f", 6, 10), Some(false));
}

#[test]
fn writes_that_meet_others_are_conflicts() {
    let s = 1_000_000_000;
    assert!(write_conflict(Some((5, 0)), Some((6, Some(3 * s))), Some(7)));
    assert!(write_conflict(Some((5, 0)), Some((5, Some(3 * s))), Some(7)));
    assert!(!write_conflict(Some((5, 0)), Some((6, Some(3 * s - 1))), Some(7)));
    assert!(!write_conflict(Some((10, 0)), Some((20, Some(9 * s))), Some(20)));
    assert!(!write_conflict(Some((5, 0)), Some((5, Some(9 * s))), Some(5)));
    assert!(!write_conflict(Some((5, 0)), Some((6, Some(3 * s))), None));
    assert!(!write_conflict(None, Some((6, Some(9 * s))), Some(7)));
    assert!(!write_conflict(Some((5, 0)), Some((6, None)), Some(7)));
    assert!(!write_conflict(Some((5, 0)), None, Some(6)));
}

#[test]
fn conflicts_are_told() {
    match conflict_event("media", "a/f", "/Volumes/media/a/f.conflict", "pc", 7) {
        AgentToUfb::ConflictDetected(m) => {
            assert_eq!(m.domain, "media");
            assert_eq!(m.original_path, "a/f");
            assert_eq!(m.conflict_path, "f.conflict");
            assert_eq!((m.host.as_str(), m.detected_at), ("pc", 7));
        }
        _ => panic!("no conflict was told"),
    }
}

#[test]
fn written_and_renamed_files_are_known() {
    let mut c = MacosCache::new(0);
    record_written(&mut c, "a/f", false, 5, 10);
    assert!(c.is_known("a/f"));
    assert_eq!(c.compare_nas_metadata("a/f", 5, 10), Some(false));
    record_renamed(&mut c, "a/f", "a/g", false, 5, 10);
    assert!(!c.is_known("a/f"));
    assert!(c.is_known("a/g"));
    assert!(c.knows_name("a", "g"));
}

#[test]
fn changes_are_reported_once() {
    let mut c = MacosCache::new(0);
    let listing = |v| vec![FolderListing { folder: String::new(), entries: v }];
    c.record_enumeration("", &vec![entry("old", false, 1, 0), entry("kept", false, 2, 0)], 0);
    let snapshot =
        listing(vec![entry("kept", false, 2, 0), entry("new", false, 3, 0), entry(".x", false, 1, 0)]);
    let (changes, evicted) = get_changes(&mut c, &snapshot);
    assert!(evicted.is_empty());
    assert_eq!(changes.updated.len(), 1);
    assert_eq!(changes.updated[0].relative_path, "new");
    assert_eq!(changes.deleted, vec!["old".to_string()]);
    let (again, _) = get_changes(&mut c, &snapshot);
    assert!(again.updated.is_empty() && again.deleted.is_empty());
    let plain = passthrough_changes(&vec![entry("a", false, 1, 0), entry(".b", false, 1, 0)]);
    assert_eq!(plain.len(), 1);
    assert_eq!((plain[0].name.as_str(), plain[0].relative_path.as_str()), ("a", "a"));
}
