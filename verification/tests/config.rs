use mediamount_agent::config::{config_file_path, default_true, MountConfig, MountsConfig};
use mediamount_agent::paths::{join, Environment, Platform};

fn environment(platform: Platform) -> Environment {
    Environment {
        platform,
        home: Some("/home/user".to_string()),
        local_app_data: Some(r"C:\Users\user\AppData\Local".to_string()),
        runtime_dir: None,
        config_home: None,
        user: Some("user".to_string()),
    }
}

fn test_mount(id: &str, nas_share_path: &str) -> MountConfig {
    MountConfig {
        id: id.into(),
        enabled: true,
        display_name: id.into(),
        nas_share_path: nas_share_path.into(),
        credential_key: id.into(),
        mount_drive_letter: String::new(),
        smb_mount_path: None,
        mount_path_linux: None,
        mount_path_macos: None,
        is_jobs_folder: true,
        sync_enabled: false,
        sync_root_path: None,
        sync_cache_limit_bytes: 0,
        rclone_drive_letter: String::new(),
        smb_drive_letter: String::new(),
        junction_path: String::new(),
        rclone_mount_path: None,
        rclone_remote: None,
        cache_dir_path: String::new(),
        cache_max_size: String::new(),
        cache_max_age: String::new(),
        vfs_write_back: String::new(),
        vfs_read_chunk_size: String::new(),
        vfs_read_chunk_streams: 0,
        vfs_read_ahead: String::new(),
        buffer_size: String::new(),
        probe_interval_secs: 0,
        probe_timeout_ms: 0,
        fallback_threshold: 0,
        recovery_threshold: 0,
        max_rclone_start_attempts: 0,
        healthcheck_file_name: String::new(),
        extra_rclone_flags: vec![],
    }
}

#[test]
fn test_mount_path() {
    let m = test_mount("test", r"\\nas\test");
    assert_eq!(m.mount_path(&environment(Platform::Windows)), r"C:\Volumes\ufb\test");
}

#[test]
fn config_test_mount_path() {
    let m = test_mount("test", r"\\nas\test");
    let path = m.mount_path(&environment(Platform::Macos));
    assert!(
        path.ends_with("ufb/mounts/test"),
        "expected path ending with ufb/mounts/test, got: {}",
        path
    );
}

#[test]
fn test_share_name() {
    let m = test_mount("primary-nas", r"\\192.168.40.100\Jobs_Live");
    assert_eq!(m.share_name(), "Jobs_Live");

    let m = test_mount("deep", r"\\nas\FlameServer\Flame\FLAME_JOBS");
    assert_eq!(m.share_name(), "FLAME_JOBS");

    let m = test_mount("trailing", r"\\nas\test\");
    assert_eq!(m.share_name(), "test");

    let m = test_mount("fallback-id", "");
    assert_eq!(m.share_name(), "fallback-id");
}

#[test]
fn test_volume_path_uses_share_name() {
    let m = test_mount("primary-nas", r"\\192.168.40.100\Jobs_Live");
    for platform in [Platform::Windows, Platform::Macos, Platform::Linux] {
        let vp = m.volume_path(&environment(platform));
        assert!(vp.ends_with("Jobs_Live"), "volume_path should end with share_name, got: {}", vp);
        assert!(!vp.contains("primary-nas"), "volume_path should not contain id");
    }
}

#[test]
fn test_mount_path_macos() {
    let m = test_mount("primary-nas", r"\\192.168.40.100\Jobs_Live");
    let path = m.mount_path(&environment(Platform::Macos));
    assert!(
        path.ends_with("ufb/mounts/Jobs_Live"),
        "expected path ending with ufb/mounts/Jobs_Live, got: {}",
        path
    );
}

#[test]
fn test_mount_path_macos_override() {
    let mut m = test_mount("primary-nas", r"\\nas\Jobs_Live");
    m.mount_path_macos = Some("/custom/path".into());
    assert_eq!(m.mount_path(&environment(Platform::Macos)), "/custom/path");
}

#[test]
fn test_fileprovider_domain_path() {
    let m = test_mount("primary-nas", r"\\nas\Jobs_Live");
    let fp_str = m.fileprovider_domain_path(&environment(Platform::Macos));
    assert!(
        fp_str.contains("Library/CloudStorage/com.unionfiles.mediamount-tray.FileProvider-Jobs_Live"),
        "unexpected fileprovider path: {}",
        fp_str
    );
    assert_eq!(m.sync_root_dir(&environment(Platform::Macos), "/ignored"), fp_str);
}

#[test]
fn test_share_name_collisions() {
    let config = MountsConfig {
        version: 1,
        sync_cache_root: None,
        mounts: vec![
            test_mount("nas-a", r"\\server-a\Jobs_Live"),
            test_mount("nas-b", r"\\server-b\Jobs_Live"),
            test_mount("nas-c", r"\\server-c\Archive"),
        ],
    };
    let collisions = config.share_name_collisions();
    assert_eq!(collisions.len(), 1);
    let (name, ids) = &collisions[0];
    assert_eq!(name, "Jobs_Live");
    assert_eq!(ids.len(), 2);
}

#[test]
fn test_no_collisions_when_disabled() {
    let mut m = test_mount("nas-b", r"\\server-b\Jobs_Live");
    m.enabled = false;
    let config = MountsConfig {
        version: 1,
        sync_cache_root: None,
        mounts: vec![test_mount("nas-a", r"\\server-a\Jobs_Live"), m],
    };
    assert!(config.share_name_collisions().is_empty());
}

#[test]
fn derived_directories_per_platform() {
    let m = test_mount("nas", r"\\srv\Jobs");
    let linux = environment(Platform::Linux);
    assert_eq!(m.mount_path(&linux), "/home/user/.local/share/ufb/mnt/nas");
    assert_eq!(m.smb_target_path(&linux), "/media/user/ufb/nas-smb");
    let mut blank = test_mount("nas", r"\\srv\Jobs");
    blank.smb_mount_path = Some(String::new());
    assert_eq!(blank.smb_target_path(&linux), "/media/user/ufb/nas-smb");
    assert_eq!(MountConfig::default_cache_root(&linux), "/home/user/.local/share/ufb/sync");
    assert_eq!(MountConfig::smb_mount_base(&linux), "/home/user/.local/share/ufb/smb-mounts");
    let windows = environment(Platform::Windows);
    assert_eq!(
        MountConfig::default_cache_root(&windows),
        r"C:\Users\user\AppData\Local\ufb\sync"
    );
    assert_eq!(m.sync_root_dir(&windows, r"D:\cache"), r"D:\cache\Jobs");
    let mut homeless = environment(Platform::Linux);
    homeless.home = None;
    assert_eq!(MountConfig::volumes_base(&homeless), "/tmp/ufb-mnt");
    assert_eq!(MountConfig::default_cache_root(&homeless), "/tmp/ufb-sync");
    assert_eq!(config_file_path(&homeless), None);
    assert_eq!(
        config_file_path(&linux).as_deref(),
        Some("/home/user/.local/share/ufb/mounts.json")
    );
}

#[test]
fn overrides_count_only_when_not_empty() {
    let mut m = test_mount("nas", r"\\srv\Jobs");
    let linux = environment(Platform::Linux);
    m.mount_path_linux = Some(String::new());
    assert_eq!(m.mount_path(&linux), "/home/user/.local/share/ufb/mnt/nas");
    m.mount_path_linux = Some("/mnt/x".into());
    assert_eq!(m.mount_path(&linux), "/mnt/x");
    m.sync_root_path = Some("/data/sync".into());
    assert_eq!(m.sync_root_dir(&linux, "/cache"), "/data/sync");
    m.smb_mount_path = Some("/mnt/smb".into());
    assert_eq!(m.smb_target_path(&linux), "/mnt/smb");
    let mut config = MountsConfig::empty();
    assert_eq!(config.version, 1);
    assert!(config.mounts.is_empty());
    config.sync_cache_root = Some("/big/disk".into());
    assert_eq!(config.cache_root(&linux), "/big/disk");
    config.sync_cache_root = Some(String::new());
    assert_eq!(config.cache_root(&linux), "/home/user/.local/share/ufb/sync");
    assert!(default_true());
}

#[test]
fn configurations_are_compared_field_by_field() {
    let a = test_mount("nas", r"\\srv\Jobs");
    let mut b = test_mount("nas", r"\\srv\Jobs");
    assert!(a.same_as(&b));
    b.extra_rclone_flags = vec!["--x".to_string()];
    assert!(!a.same_as(&b));
    let mut c = test_mount("nas", r"\\srv\Jobs");
    c.sync_enabled = true;
    assert!(!a.same_as(&c));
    assert!(c.is_sync_mode());
}

#[test]
fn joining_paths() {
    assert_eq!(join(Platform::Linux, "/a", "b"), "/a/b");
    assert_eq!(join(Platform::Linux, "/a/", "b"), "/a/b");
    assert_eq!(join(Platform::Linux, "/a", "/b"), "/b");
    assert_eq!(join(Platform::Linux, "", "b"), "b");
    assert_eq!(join(Platform::Windows, r"C:\a", "b"), r"C:\a\b");
    assert_eq!(join(Platform::Windows, r"C:\a", r"D:\b"), r"D:\b");
    assert_eq!(join(Platform::Windows, r"C:\a", r"\b"), r"C:\b");
    assert_eq!(join(Platform::Windows, r"\\srv\share\x", r"\b"), r"\\srv\share\b");
    assert_eq!(join(Platform::Windows, "C:", "b"), "C:b");
}
