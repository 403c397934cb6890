use mediamount_agent::credentials::{credentials_of, saved, LinuxCredentialStore};
use mediamount_agent::ipc::{
    drop_unreached, get_socket_path, healthcheck_path, probe_passed, socket_path,
};
use mediamount_agent::messages::MountStateUpdateMsg;
use mediamount_agent::path_map::{keep_later, PathMap};
use mediamount_agent::paths::{Environment, Platform};
use mediamount_agent::state::MountEvent;
use mediamount_agent::sync_root::{
    elevation_outcome, find_icon, uploads_summary, StartPlan, StopStep, SyncRoot,
};
use mediamount_agent::tray::{
    fill_field, set_tooltip, wide_string, MenuAction, MenuItem, TrayCommand, TrayState,
};

fn env(platform: Platform, runtime_dir: Option<&str>) -> Environment {
    Environment {
        platform,
        home: Some("/home/u".to_string()),
        local_app_data: None,
        runtime_dir: runtime_dir.map(|s| s.to_string()),
        config_home: None,
        user: None,
    }
}

fn update(id: &str, state: &str) -> MountStateUpdateMsg {
    MountStateUpdateMsg {
        mount_id: id.to_string(),
        state: state.to_string(),
        state_detail: state.to_uppercase(),
        sync_state: None,
        sync_state_detail: None,
        needs_elevation: None,
    }
}

#[test]
fn stored_credentials_come_back() {
    let s = LinuxCredentialStore::new();
    let one = s.store("", "mediamount_a", "bob", "p\"w").unwrap();
    let two = s.store(&one, "mediamount_b", "eve", "q").unwrap();
    let creds = |t: &str, k: &str| s.retrieve(t, k);
    assert_eq!(creds(&two, "mediamount_a"), Ok(("bob".to_string(), "p\"w".to_string())));
    assert_eq!(creds(&two, "mediamount_b"), Ok(("eve".to_string(), "q".to_string())));
    let three = s.store(&two, "mediamount_a", "bob", "new").unwrap();
    assert_eq!(creds(&three, "mediamount_a"), Ok(("bob".to_string(), "new".to_string())));
    let less = s.delete(&three, "mediamount_a").unwrap();
    assert_eq!(
        creds(&less, "mediamount_a"),
        Err("No credentials found for mediamount_a".to_string())
    );
    assert_eq!(creds(&less, "mediamount_b"), Ok(("eve".to_string(), "q".to_string())));
}

#[test]
fn damaged_credential_files_count_as_empty() {
    let s = LinuxCredentialStore::new();
    assert!(s.retrieve("not json", "k").is_err());
    let t = s.store("not json", "k", "u", "p").unwrap();
    assert_eq!(s.retrieve(&t, "k"), Ok(("u".to_string(), "p".to_string())));
    assert!(s.retrieve(&s.delete("", "k").unwrap(), "k").is_err());
    assert_eq!(s.delete("[1]", "k"), Ok("{}".to_string()));
}

#[test]
fn other_credentials_stay_as_they_are() {
    let s = LinuxCredentialStore::new();
    let text = r#"{"a": {"u": "x", "n": 1}, "b": 7, "c": {"u": "y", "p": "z"}}"#;
    assert_eq!(s.retrieve(text, "a"), Ok(("x".to_string(), String::new())));
    assert_eq!(s.retrieve(text, "b"), Ok((String::new(), String::new())));
    let less = s.delete(text, "a").unwrap();
    assert!(s.retrieve(&less, "a").is_err());
    assert_eq!(s.retrieve(&less, "b"), Ok((String::new(), String::new())));
    assert_eq!(s.retrieve(&less, "c"), Ok(("y".to_string(), "z".to_string())));
}

#[test]
fn missing_parts_of_credentials_are_empty() {
    let text = Some(Some("u".to_string()));
    assert_eq!(
        credentials_of("k", text, Some(None)),
        Ok(("u".to_string(), String::new()))
    );
    assert_eq!(
        credentials_of("k", None, None),
        Err("No credentials found for k".to_string())
    );
    assert_eq!(saved(Ok("t".to_string())), Ok("t".to_string()));
    assert_eq!(
        saved(Err("x".to_string())),
        Err("Failed to serialize credentials: x".to_string())
    );
    let (dir, file) = LinuxCredentialStore::cred_file_path(&env(Platform::Linux, None));
    assert_eq!(dir, "/home/u/.local/share/ufb");
    assert_eq!(file, "/home/u/.local/share/ufb/credentials.json");
}

#[test]
fn sockets_have_a_place() {
    assert_eq!(
        socket_path(&env(Platform::Linux, Some("/run/user/1"))),
        (Some("/run/user/1/ufb".to_string()), "/run/user/1/ufb/mediamount-agent.sock".to_string())
    );
    assert_eq!(
        socket_path(&env(Platform::Linux, None)),
        (None, "/tmp/ufb-mediamount-agent.sock".to_string())
    );
    let mac = get_socket_path(&env(Platform::Macos, None));
    assert!(mac.starts_with("/home/u/"));
    assert!(mac.ends_with("/mediamount-agent.sock"));
}

#[test]
fn unreached_clients_are_dropped() {
    let mut clients = vec![1, 2, 3, 4];
    drop_unreached(&mut clients, &vec![true, false, true, false]);
    assert_eq!(clients, vec![1, 3]);
}

#[test]
fn probes_need_all_three() {
    assert!(probe_passed(true, true, true));
    assert!(!probe_passed(false, true, true));
    assert!(!probe_passed(true, false, true));
    assert!(!probe_passed(true, true, false));
    assert_eq!(healthcheck_path(Platform::Linux, "/m", ".ok"), "/m/.ok");
}

#[test]
fn the_tray_shows_each_mount_once() {
    let mut t = TrayState::new();
    assert_eq!(t.tooltip(), "MediaMount");
    t.update(update("b", "mounting"));
    t.update(update("a", "mounted"));
    assert_eq!(t.tooltip(), "MediaMount — 1/2 mounted");
    t.update(update("b", "mounted"));
    assert_eq!(t.tooltip(), "MediaMount — all mounted (2/2)");
    let menu = t.menu(Platform::Windows, true);
    assert_eq!(menu[0], MenuItem::Label("MediaMount".to_string()));
    assert_eq!(menu[1], MenuItem::Separator);
    assert!(menu.contains(&MenuItem::Label("a ● MOUNTED".to_string())));
    assert!(menu.contains(&MenuItem::Action { id: 1_101, text: "  Disconnect b".to_string() }));
    let empty = TrayState::new().menu(Platform::Windows, false);
    assert_eq!(empty[2], MenuItem::Label("No mounts configured".to_string()));
    let bare = TrayState::new().menu(Platform::Linux, false);
    assert_eq!(bare[2], MenuItem::Separator);
    assert_eq!(bare.len(), 8);
}

#[test]
fn new_mounts_are_listed_last_on_linux() {
    let mut t = TrayState::new();
    t.update(update("m", "mounted"));
    t.update(update("b", "mounted"));
    t.refresh();
    t.update(update("a", "stopped"));
    let two = t.menu(Platform::Linux, false);
    assert_eq!(two[2], MenuItem::Label("b ● MOUNTED".to_string()));
    assert_eq!(two[5], MenuItem::Label("m ● MOUNTED".to_string()));
    assert_eq!(two.len(), 14);
    t.refresh();
    let three = t.menu(Platform::Linux, false);
    assert_eq!(three[8], MenuItem::Label("a ✕ STOPPED".to_string()));
    assert_eq!(three[9], MenuItem::Action { id: 10_004, text: "  Connect a".to_string() });
    assert_eq!(three[10], MenuItem::Action { id: 10_005, text: "  Restart a".to_string() });
    assert!(t.fits());
    assert_eq!(
        t.handle_menu_command(Platform::Linux, 10_004),
        MenuAction::Send(TrayCommand::MountEvent("a".to_string(), MountEvent::Start))
    );
    assert_eq!(
        t.handle_menu_command(Platform::Linux, 10_001),
        MenuAction::Send(TrayCommand::MountEvent("b".to_string(), MountEvent::Restart))
    );
    assert_eq!(t.handle_menu_command(Platform::Linux, 10_006), MenuAction::Nothing);
    assert_eq!(t.handle_menu_command(Platform::Linux, 1_100), MenuAction::Nothing);
}

#[test]
fn many_mounts_have_working_items_on_linux() {
    let mut t = TrayState::new();
    for i in 0..150 {
        t.update(update(&format!("m{:03}", i), "mounted"));
    }
    t.refresh();
    let event = |id: &str, e| MenuAction::Send(TrayCommand::MountEvent(id.to_string(), e));
    assert_eq!(t.handle_menu_command(Platform::Linux, 10_200), event("m100", MountEvent::Stop));
    assert_eq!(t.handle_menu_command(Platform::Linux, 10_299), event("m149", MountEvent::Restart));
    assert_eq!(t.handle_menu_command(Platform::Windows, 1_199), event("m099", MountEvent::Stop));
    assert_eq!(t.handle_menu_command(Platform::Windows, 1_200), MenuAction::Nothing);
}

#[test]
fn menu_items_act_on_their_mount() {
    let mut t = TrayState::new();
    t.update(update("b", "stopped"));
    t.update(update("a", "mounted"));
    let event = |id: &str, e| MenuAction::Send(TrayCommand::MountEvent(id.to_string(), e));
    assert_eq!(t.handle_menu_command(Platform::Windows, 1_100), event("a", MountEvent::Stop));
    assert_eq!(t.handle_menu_command(Platform::Windows, 1_101), event("b", MountEvent::Start));
    assert_eq!(t.handle_menu_command(Platform::Windows, 1_102), MenuAction::Nothing);
    assert_eq!(t.handle_menu_command(Platform::Windows, 1_000), event("a", MountEvent::Restart));
    assert_eq!(t.handle_menu_command(Platform::Windows, 1_002), MenuAction::Nothing);
    assert_eq!(t.handle_menu_command(Platform::Windows, 2_001), MenuAction::Send(TrayCommand::OpenUfb));
    assert_eq!(t.handle_menu_command(Platform::Windows, 2_002), MenuAction::Send(TrayCommand::OpenLog));
    assert_eq!(t.handle_menu_command(Platform::Windows, 2_003), MenuAction::ToggleAutoStart);
    assert_eq!(t.handle_menu_command(Platform::Windows, 9_001), MenuAction::Send(TrayCommand::Quit));
    assert_eq!(t.handle_menu_command(Platform::Windows, 5), MenuAction::Nothing);
}

#[test]
fn wide_texts_end_with_zero() {
    assert_eq!(wide_string("aé\u{1F600}"), vec![0x61, 0xE9, 0xD83D, 0xDE00, 0]);
    assert_eq!(wide_string(""), vec![0]);
    let mut field = vec![9u16; 4];
    fill_field(&mut field, &vec![1, 2, 3, 4, 5]);
    assert_eq!(field, vec![1, 2, 3, 0]);
    let mut field = vec![9u16; 4];
    set_tooltip(&mut field, "x");
    assert_eq!(field, vec![0x78, 0, 9, 9]);
}

#[test]
fn sync_roots_recover() {
    assert_eq!(
        SyncRoot::start(true, true, 0),
        StartPlan { rebuild: true, index_found: false, seed_folders: true }
    );
    assert_eq!(
        SyncRoot::start(false, true, 0),
        StartPlan { rebuild: false, index_found: true, seed_folders: true }
    );
    assert_eq!(
        SyncRoot::start(false, false, 0),
        StartPlan { rebuild: false, index_found: false, seed_folders: false }
    );
}

#[test]
fn sync_roots_stop_in_order() {
    let mut r = SyncRoot {
        mount_id: "m".to_string(),
        nas_root: "n".to_string(),
        client_root: "c".to_string(),
        connected: true,
        uploads: true,
        watcher: false,
    };
    assert!(r.is_running());
    assert_eq!(r.activity_summary("2 uploads"), "2 uploads");
    assert_eq!(r.stop(), vec![StopStep::NoteConnected, StopStep::StopUploads, StopStep::Disconnect]);
    assert!(!r.is_running());
    assert_eq!(r.activity_summary("2 uploads"), "Disabled");
    assert_eq!(uploads_summary(0), "Idle");
    assert_eq!(uploads_summary(12), "Uploading 12 files");
}

#[test]
fn icons_and_elevation() {
    assert_eq!(find_icon(Some(r"C:\p\a.exe"), Some(r"C:\p"), true), r"C:\p\cloud-sync.ico");
    assert_eq!(find_icon(Some(r"C:\p\a.exe"), Some(r"C:\p"), false), r"C:\p\a.exe,0");
    assert_eq!(find_icon(None, None, false), r"%SystemRoot%\system32\shell32.dll,12");
    assert_eq!(elevation_outcome(33), Ok(()));
    assert_eq!(
        elevation_outcome(5),
        Err("ShellExecuteW failed with code 5 (user may have cancelled UAC)".to_string())
    );
}

#[test]
fn path_maps_hold_one_value_per_path() {
    let mut m: PathMap<u64> = PathMap::new();
    m.put("a", 1);
    m.put("b", 2);
    m.put("a", 3);
    assert_eq!((m.len(), m.get("a"), m.get("b"), m.get("c")), (2, Some(3), Some(2), None));
    m.set_at(1, 9);
    assert_eq!((m.key_at(1).as_str(), m.value_at(1)), ("b", 9));
    keep_later(&mut m, 3);
    assert_eq!((m.len(), m.get("b")), (1, Some(9)));
    assert_eq!(m.remove("b"), Some(9));
    assert_eq!(m.remove("b"), None);
    m.put("z", 1);
    m.remove_at(0);
    assert_eq!(m.len(), 0);
}
