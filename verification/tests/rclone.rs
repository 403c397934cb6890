use mediamount_agent::paths::Platform;
use mediamount_agent::rclone::{
    orphan_pid, parse_log_line, rc_url, sidecar_path, RcloneManager,
    DiskCacheStats, RcloneSignal, VfsStats,
};

#[test]
fn test_serving_signal() {
    let signal =
        parse_log_line("2024/01/15 10:00:00 Serving remote control on http://127.0.0.1:5572/");
    assert!(matches!(signal, Some(RcloneSignal::Started)));
}

#[test]
fn test_local_filesystem_signal() {
    let signal = parse_log_line("2024/01/15 10:00:00 Local file system at R:");
    assert!(matches!(signal, Some(RcloneSignal::Started)));
}

#[test]
fn test_fatal_signal() {
    let signal = parse_log_line("2024/01/15 10:00:00 Fatal error: failed to mount FUSE fs");
    assert!(matches!(signal, Some(RcloneSignal::Fatal(_))));
}

#[test]
fn test_mount_helper_error() {
    let signal = parse_log_line("mount helper error: mount failed");
    assert!(matches!(signal, Some(RcloneSignal::Fatal(_))));
}

#[test]
fn test_winfsp_not_found() {
    let signal = parse_log_line("ERROR: winfsp not found, please install WinFSP");
    assert!(matches!(signal, Some(RcloneSignal::Fatal(_))));
}

#[test]
fn test_already_mounted() {
    let signal = parse_log_line("mount point R: already mounted");
    assert!(matches!(signal, Some(RcloneSignal::Fatal(_))));
}

#[test]
fn test_noise_lines() {
    assert!(parse_log_line("2024/01/15 10:00:00 INFO  : Starting background cache cleaner").is_none());
    assert!(parse_log_line("2024/01/15 10:00:00 INFO  : vfs cache: used 100M, free 900M").is_none());
    assert!(parse_log_line("").is_none());
    assert!(parse_log_line("just some random text").is_none());
}

#[test]
fn test_mixed_case() {
    assert!(parse_log_line("fatal error").is_none());
    assert!(parse_log_line("Fatal error").is_some());
}

#[test]
fn signals_say_what_went_wrong() {
    assert_eq!(
        parse_log_line("Fatal: no"),
        Some(RcloneSignal::Fatal("Fatal: no".to_string()))
    );
    assert_eq!(
        parse_log_line("winfsp was not found"),
        Some(RcloneSignal::Fatal("WinFSP not found".to_string()))
    );
    assert_eq!(
        parse_log_line("mount point is already mounted"),
        Some(RcloneSignal::Fatal("mount point already mounted".to_string()))
    );
    assert_eq!(parse_log_line("Serving, Fatal"), Some(RcloneSignal::Started));
}

#[test]
fn dirty_files_are_counted() {
    let stats = VfsStats {
        disk_cache: Some(DiskCacheStats { bytes_used: 7, uploads_in_progress: 2, uploads_queued: 3 }),
    };
    assert_eq!(stats.disk_cache.unwrap().dirty_count(), 5);
}

#[test]
fn ports_and_programs() {
    let mut free = vec![false; 100];
    assert_eq!(RcloneManager::find_available_port(5572, &free), 5572);
    free[3] = true;
    free[9] = true;
    assert_eq!(RcloneManager::find_available_port(5572, &free), 5575);
    assert_eq!(sidecar_path(Platform::Linux, "/opt/ufb"), "/opt/ufb/rclone");
    assert_eq!(
        RcloneManager::resolve_rclone_path(Platform::Windows, &Some(r"C:\ufb".to_string()), true),
        r"C:\ufb\rclone.exe"
    );
    assert_eq!(
        RcloneManager::resolve_rclone_path(Platform::Windows, &Some(r"C:\ufb".to_string()), false),
        "rclone.exe"
    );
    assert_eq!(RcloneManager::resolve_rclone_path(Platform::Linux, &None, false), "rclone");
}

#[test]
fn orphans_are_found_by_drive() {
    assert_eq!(orphan_pid("  4711 |rclone mount //nas R: --rc  ", "R"), Some(4711));
    assert_eq!(orphan_pid("4711|rclone mount //nas S:", "R"), None);
    assert_eq!(orphan_pid("x|rclone R:", "R"), None);
    assert_eq!(orphan_pid("", "R"), None);
    assert_eq!(orphan_pid("99999999999|R:", "R"), None);
}

#[test]
fn rclone_has_to_be_there() {
    let verify = RcloneManager::verify_rclone;
    assert_eq!(verify("/x/rclone", true, true, Ok(false)), Ok("/x/rclone".to_string()));
    assert_eq!(
        verify("/x/rclone", true, false, Ok(true)),
        Err("rclone not found at /x/rclone".to_string())
    );
    assert_eq!(verify("rclone", false, false, Ok(true)), Ok("rclone".to_string()));
    assert_eq!(
        verify("rclone", false, false, Ok(false)),
        Err("rclone found but returned error".to_string())
    );
    assert_eq!(
        verify("rclone", false, false, Err("no".to_string())),
        Err("rclone not found in PATH: no".to_string())
    );
    assert_eq!(
        RcloneManager::winfsp_library(r"C:\Programs"),
        r"C:\Programs\WinFsp/bin/winfsp-x64.dll"
    );
    assert!(!RcloneManager::check_winfsp(Platform::Windows, false, false));
    assert!(RcloneManager::check_winfsp(Platform::Windows, false, true));
    assert!(RcloneManager::check_winfsp(Platform::Linux, false, false));
}

#[test]
fn processes_are_asked_before_they_are_killed() {
    assert_eq!(rc_url(5572, "vfs/stats"), "http://127.0.0.1:5572/vfs/stats");
    let mut m = RcloneManager::started(5573);
    assert!(m.is_running());
    assert_eq!(m.rc_port(), 5573);
    assert_eq!(m.quit_url(), Some("http://127.0.0.1:5573/core/quit".to_string()));
    assert!(m.kill(false));
    assert!(!m.is_running());
    assert!(!m.kill(false));
    assert_eq!(m.quit_url(), None);
    assert!(!RcloneManager::started(1).kill(true));
}
