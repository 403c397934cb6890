use mediamount_agent::paths::{Environment, Platform};
use mediamount_agent::platform::autostart::{
    auto_start_path, is_auto_start_enabled, set_auto_start, AutoStart,
};
use mediamount_agent::platform::linux::{
    cifs_path, find_gvfs_mount, find_source_mount_point, gio_outcome, is_mounted_at, smb_uri,
    LinkPlan, LinuxSmbSession, SessionStep,
};
use mediamount_agent::platform::macos::{
    expected_volume_name, find_existing_volume, is_mountpoint, mount_step, percent_encode_userinfo,
    pick_new_volume, poll_for_new_volume, strip_macos_dedup_suffix, unc_to_smb_url, volume_matches,
    MacosMountMapping, MountStep, VolumeStep,
};
use mediamount_agent::platform::windows::{
    drive_disconnected, is_unc_path, session_established, LinkKind, SwitchPlan, SymlinkError,
    WindowsMountMapping,
};

#[test]
fn test_unc_to_smb_url_with_user() {
    assert_eq!(unc_to_smb_url(r"\\nas\media", "chris"), "smb://chris@nas/media");
}

#[test]
fn test_unc_to_smb_url_no_user() {
    assert_eq!(unc_to_smb_url(r"\\nas\media", ""), "smb://nas/media");
}

#[test]
fn test_unc_to_smb_url_deep_path() {
    assert_eq!(
        unc_to_smb_url(r"\\server.local\share\subfolder", "admin"),
        "smb://admin@server.local/share/subfolder"
    );
}

#[test]
fn test_unc_to_smb_url_username_with_space() {
    assert_eq!(unc_to_smb_url(r"\\nas\share", "first last"), "smb://first%20last@nas/share");
}

#[test]
fn test_percent_encode_userinfo_common_chars() {
    assert_eq!(percent_encode_userinfo("alice"), "alice");
    assert_eq!(percent_encode_userinfo("first last"), "first%20last");
    assert_eq!(percent_encode_userinfo("user:pass"), "user%3Apass");
    assert_eq!(percent_encode_userinfo("a@b"), "a%40b");
    assert_eq!(percent_encode_userinfo("a.b-c_d"), "a.b-c_d");
}

#[test]
fn test_strip_macos_dedup_suffix_simple() {
    assert_eq!(strip_macos_dedup_suffix("media-1"), Some("media"));
    assert_eq!(strip_macos_dedup_suffix("media-2"), Some("media"));
    assert_eq!(strip_macos_dedup_suffix("media-12"), Some("media"));
}

#[test]
fn test_strip_macos_dedup_suffix_hyphenated_name() {
    assert_eq!(strip_macos_dedup_suffix("my-share-1"), Some("my-share"));
    assert_eq!(strip_macos_dedup_suffix("my-share-2"), Some("my-share"));
}

#[test]
fn test_strip_macos_dedup_suffix_no_suffix() {
    assert_eq!(strip_macos_dedup_suffix("media"), None);
    assert_eq!(strip_macos_dedup_suffix("my-share"), None);
    assert_eq!(strip_macos_dedup_suffix("archive-2023data"), None);
}

#[test]
fn test_strip_macos_dedup_suffix_edge_cases() {
    assert_eq!(strip_macos_dedup_suffix("archive-2023"), Some("archive"));
    assert_eq!(strip_macos_dedup_suffix("media-"), None);
}

#[test]
fn user_names_are_encoded_by_bytes() {
    assert_eq!(percent_encode_userinfo("é%"), "%C3%A9%25");
    assert_eq!(percent_encode_userinfo("A!$&'()*+,;=~"), "A!$&'()*+,;=~");
}

#[test]
fn volumes_are_matched_by_name() {
    assert_eq!(expected_volume_name(r"\\nas\media\jobs\"), "jobs");
    assert!(volume_matches("JOBS", "jobs"));
    assert!(volume_matches("Jobs-2", "jobs"));
    assert!(!volume_matches("jobs2", "jobs"));
    let new = vec!["other".to_string(), "jobs-1".to_string(), "Jobs".to_string()];
    assert_eq!(pick_new_volume(&new, "jobs").as_deref(), Some("/Volumes/Jobs"));
    let new = vec!["other".to_string(), "jobs-1".to_string()];
    assert_eq!(pick_new_volume(&new, "jobs").as_deref(), Some("/Volumes/jobs-1"));
    assert_eq!(pick_new_volume(&vec!["other".to_string()], "jobs"), None);
    let found = VolumeStep::Found("/Volumes/jobs-1".to_string());
    assert_eq!(poll_for_new_volume(&new, "jobs", 0), found);
    assert_eq!(poll_for_new_volume(&new, "jobs", 119), found);
    assert_eq!(poll_for_new_volume(&vec![], "jobs", 118), VolumeStep::Wait);
    assert_eq!(
        poll_for_new_volume(&vec![], "jobs", 119),
        VolumeStep::GiveUp(
            "Timed out after 60s waiting for SMB mount to appear in /Volumes/ (expected 'jobs')"
                .to_string()
        )
    );
}

#[test]
fn existing_volumes_are_checked_against_the_mount_table() {
    let candidates = vec!["/Volumes/Jobs".to_string(), "/Volumes/jobs-1".to_string()];
    let lines = vec![
        "//u@OTHER/jobs on /Volumes/Jobs (smbfs)".to_string(),
        "//u@NAS/Media/jobs on /Volumes/jobs-1 (smbfs)".to_string(),
    ];
    assert_eq!(
        find_existing_volume(&candidates, r"\\nas\media\jobs", &lines).as_deref(),
        Some("/Volumes/jobs-1")
    );
    assert_eq!(find_existing_volume(&candidates, r"\\nas\gone", &lines), None);
}

#[test]
fn macos_mounts() {
    assert!(is_mountpoint(Some(1), Some(2)));
    assert!(!is_mountpoint(Some(1), Some(1)));
    assert!(!is_mountpoint(None, Some(1)));
    assert!(matches!(mount_step(Some("/a".into()), Some("/b".into())), MountStep::Reuse(p) if p == "/a"));
    assert!(matches!(mount_step(None, Some("/b".into())), MountStep::Reuse(p) if p == "/b"));
    assert!(matches!(mount_step(None, None), MountStep::Mount));
    let m = MacosMountMapping::new();
    assert_eq!(m.switch_plan("/m", true, true), Ok(true));
    assert_eq!(m.switch_plan("/m", false, false), Ok(false));
    assert_eq!(
        m.switch_plan("/m", true, false),
        Err("Path /m exists and is not a symlink — refusing to overwrite".to_string())
    );
}

#[test]
fn linux_sources() {
    assert_eq!(cifs_path(r"\\nas\media"), "//nas/media");
    assert_eq!(smb_uri(r"\\nas\media"), "smb://nas/media");
    let table = "proc /proc proc rw 0 0\n//NAS/media/ /mnt/media cifs rw 0 0\r\n";
    assert!(is_mounted_at(table, "/mnt/media/"));
    assert!(!is_mounted_at(table, "/mnt"));
    assert_eq!(find_source_mount_point(table, "//nas/media").as_deref(), Some("/mnt/media"));
    assert_eq!(find_source_mount_point(table, "//nas/other"), None);
    let names = vec![
        "dav:host=x".to_string(),
        "smb-share:server=NAS,share=Media,user=u".to_string(),
    ];
    assert_eq!(find_gvfs_mount(&names, "//nas/media"), Some(1));
    assert_eq!(find_gvfs_mount(&names, "//nas/tv"), None);
    assert_eq!(find_gvfs_mount(&names, "//nas"), None);
    assert_eq!(gio_outcome(true, "", "x"), Ok(()));
    assert_eq!(gio_outcome(false, "", "gio: Already mounted"), Ok(()));
    assert_eq!(gio_outcome(false, " a \n", " b "), Err("ba".to_string()));
}

#[test]
fn linux_sessions() {
    let s = LinuxSmbSession::new();
    assert!(matches!(s.first_step(true, None, None), SessionStep::Ready));
    assert!(matches!(s.first_step(false, Some("/k".into()), Some("/d".into())), SessionStep::Link(p) if p == "/k"));
    assert!(matches!(s.first_step(false, None, Some("/d".into())), SessionStep::Link(p) if p == "/d"));
    assert!(matches!(s.first_step(false, None, None), SessionStep::Mount));
    assert_eq!(s.after_mount(Ok(()), Some("/d".into()), Some("/k".into())), Ok("/d".to_string()));
    assert_eq!(s.after_mount(Err("no".into()), Some("/d".into()), Some("/k".into())), Ok("/k".to_string()));
    assert_eq!(
        s.after_mount(Ok(()), None, None),
        Err("gio mount succeeded but share not found".to_string())
    );
    assert_eq!(
        s.after_mount(Err("no".into()), None, None),
        Err("gio mount failed: no".to_string())
    );
    assert_eq!(s.link_plan(true, &Some("/t".into()), true, "/t"), LinkPlan::Keep);
    assert_eq!(s.link_plan(true, &Some("/x".into()), true, "/t"), LinkPlan::Replace);
    assert_eq!(s.link_plan(false, &None, true, "/t"), LinkPlan::Refuse);
    assert_eq!(s.link_plan(false, &None, false, "/t"), LinkPlan::Create);
}

#[test]
fn windows_links() {
    assert!(is_unc_path(r"\\nas\media"));
    assert!(!is_unc_path(r"\\?\C:\x"));
    assert!(!is_unc_path(r"C:\x"));
    let m = WindowsMountMapping::new();
    assert_eq!(
        m.switch_plan(r"C:\V\x", r"\\nas\x", true, true, &Some(r"\\nas\x".into())),
        Ok(SwitchPlan::Keep)
    );
    assert_eq!(
        m.switch_plan(r"C:\V\x", r"\\nas\x", true, true, &Some(r"\\nas\y".into())),
        Ok(SwitchPlan::Make { remove_old: true, kind: LinkKind::Symlink })
    );
    assert_eq!(
        m.switch_plan(r"C:\V\x", r"D:\cache\x", false, false, &None),
        Ok(SwitchPlan::Make { remove_old: false, kind: LinkKind::Junction })
    );
    assert_eq!(
        m.switch_plan(r"C:\V\x", r"D:\c", true, false, &None),
        Err(r"Path C:\V\x exists and is not a symlink/junction — refusing to overwrite".to_string())
    );
    assert_eq!(SymlinkError::from_os(Some(1314), "m".into()), SymlinkError::NeedsElevation);
    assert_eq!(SymlinkError::from_os(Some(5), "m".into()), SymlinkError::Other("m".into()));
    assert_eq!(SymlinkError::NeedsElevation.to_text(), "Symlink creation requires elevation");
    assert_eq!(SymlinkError::NeedsElevation.mapping_error(), "NEEDS_ELEVATION");
    assert!(session_established(0) && session_established(1219) && session_established(85));
    assert!(!session_established(5));
    assert!(drive_disconnected(2250) && drive_disconnected(0) && !drive_disconnected(1));
}

#[test]
fn start_at_login() {
    let mut env = Environment {
        platform: Platform::Linux,
        home: Some("/home/u".into()),
        local_app_data: None,
        runtime_dir: None,
        config_home: None,
        user: None,
    };
    assert_eq!(
        auto_start_path(&env).as_deref(),
        Some("/home/u/.config/autostart/mediamount-agent.desktop")
    );
    match set_auto_start(&env, true, "/opt/agent") {
        Ok(AutoStart::Write { dir, path, contents }) => {
            assert_eq!(dir, "/home/u/.config/autostart");
            assert_eq!(path, "/home/u/.config/autostart/mediamount-agent.desktop");
            assert!(contents.contains("\nExec=/opt/agent\n"));
            assert!(contents.starts_with("[Desktop Entry]\nType=Application\n"));
        }
        _ => panic!("expected a file to write"),
    }
    assert!(matches!(set_auto_start(&env, false, "/opt/agent"), Ok(AutoStart::Remove { .. })));
    assert!(is_auto_start_enabled(&env, true));
    assert!(!is_auto_start_enabled(&env, false));
    env.home = None;
    assert!(!is_auto_start_enabled(&env, true));
    match set_auto_start(&env, true, "/opt/agent") {
        Err(e) => assert_eq!(e, "Cannot determine autostart directory"),
        _ => panic!("expected an error"),
    }
    env.platform = Platform::Macos;
    match set_auto_start(&env, true, "/opt/agent") {
        Err(e) => assert_eq!(e, "Cannot determine HOME directory"),
        _ => panic!("expected an error"),
    }
    env.home = Some("/Users/u".into());
    match set_auto_start(&env, true, "/opt/agent") {
        Ok(AutoStart::Write { path, contents, .. }) => {
            assert_eq!(path, "/Users/u/Library/LaunchAgents/com.unionfiles.mediamount-agent.plist");
            assert!(contents.contains("<string>/opt/agent</string>"));
        }
        _ => panic!("expected a file to write"),
    }
    env.platform = Platform::Windows;
    match set_auto_start(&env, true, r"C:\a.exe") {
        Ok(AutoStart::AddValue { value }) => assert_eq!(value, "\"C:\\a.exe\""),
        _ => panic!("expected a value"),
    }
    assert!(matches!(set_auto_start(&env, false, "x"), Ok(AutoStart::RemoveValue)));
}
