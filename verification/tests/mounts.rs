use mediamount_agent::agent::{
    config_changed, lock_path, log_file_path, log_is_full, log_level, nfs_candidates, nfs_mounts,
    nfs_port, nfs_root, symlink_jobs, ufb_path, ufb_places, LevelFilter,
};
use mediamount_agent::config::{MountConfig, MountsConfig};
use mediamount_agent::messages::{
    AckMsg, AgentToUfb, ErrorMsg, FreshnessSweepMsg, MountIdMsg, UfbToAgent,
};
use mediamount_agent::mount_service::{
    ack, cache_stats_reply, drained_replies, is_active_entry, send_to_mount_reply, CommandPlan,
    MountService, RouteAction, ServiceAction,
};
use mediamount_agent::orchestrator::{
    credential_lookup, mark_connected, prefixed_key, server_host, server_part, DisconnectStep,
    DriveStep, FollowUp, HeartbeatAction, Orchestrator, StepOutcome, SyncState, SyncStep, Work,
};
use mediamount_agent::paths::{Environment, Platform};
use mediamount_agent::state::{MountEvent, MountState};

fn mount(id: &str, share: &str, enabled: bool, sync: bool, limit: u64) -> MountConfig {
    MountConfig {
        id: id.into(),
        enabled,
        display_name: id.into(),
        nas_share_path: share.into(),
        credential_key: id.into(),
        mount_drive_letter: String::new(),
        smb_mount_path: None,
        mount_path_linux: None,
        mount_path_macos: None,
        is_jobs_folder: true,
        sync_enabled: sync,
        sync_root_path: None,
        sync_cache_limit_bytes: limit,
        rclone_drive_letter: String::new(),
        smb_drive_letter: String::new(),
        junction_path: String::new(),
        rclone_mount_path: None,
        rclone_remote: None,
        cache_dir_path: String::new(),
        cache_max_size: String::new(),
        cache_max_age: String::new(),
        vfs_write_back: String::new(),
        vfs_read_chunk_size: String::new(),
        vfs_read_chunk_streams: 0,
        vfs_read_ahead: String::new(),
        buffer_size: String::new(),
        probe_interval_secs: 0,
        probe_timeout_ms: 0,
        fallback_threshold: 0,
        recovery_threshold: 0,
        max_rclone_start_attempts: 0,
        healthcheck_file_name: String::new(),
        extra_rclone_flags: vec![],
    }
}

fn env(platform: Platform) -> Environment {
    Environment {
        platform,
        home: Some("/home/u".to_string()),
        local_app_data: Some(r"C:\Local".to_string()),
        runtime_dir: None,
        config_home: None,
        user: Some("u".to_string()),
    }
}

fn config(mounts: Vec<MountConfig>) -> MountsConfig {
    MountsConfig { version: 1, mounts, sync_cache_root: None }
}

fn shown(todo: &[ServiceAction]) -> Vec<String> {
    todo.iter()
        .map(|a| match a {
            ServiceAction::Stop(id) => format!("stop {}", id),
            ServiceAction::TearDownServers => "down".to_string(),
            ServiceAction::Reconfigure(id) => format!("reconfigure {}", id),
            ServiceAction::Start(id) => format!("start {}", id),
        })
        .collect()
}

fn command(mount_id: &str) -> MountIdMsg {
    MountIdMsg { mount_id: mount_id.to_string(), command_id: "7".to_string() }
}

fn orchestrator(platform: Platform, sync: bool) -> Orchestrator {
    Orchestrator::new(
        mount("m", r"\\NAS\media", true, sync, 0),
        env(platform),
        r"C:\cache".to_string(),
    )
}

#[test]
fn new_configurations_change_only_what_differs() {
    let e = env(Platform::Linux);
    let mut s = MountService::new(&e);
    let a = || mount("a", r"\\nas\a", true, false, 0);
    let b = || mount("b", r"\\nas\b", true, false, 0);
    let off = mount("c", r"\\nas\c", false, false, 0);
    let todo = s.apply_config(config(vec![a(), b(), off.clone()]), &e);
    assert_eq!(shown(&todo), vec!["start a", "start b"]);
    assert!(s.apply_config(config(vec![a(), b(), off]), &e).is_empty());
    assert_eq!(s.mount_ids(), vec!["a".to_string(), "b".to_string()]);
    let mut changed = a();
    changed.nas_share_path = r"\\nas\other".to_string();
    let todo = s.apply_config(config(vec![changed.clone()]), &e);
    assert_eq!(shown(&todo), vec!["stop b", "reconfigure a"]);
    assert_eq!(s.running_config("a"), Some(&changed));
    assert_eq!(s.running_config("b"), None);
    assert_eq!(s.shutdown(), vec!["a".to_string()]);
    assert!(s.mount_ids().is_empty());
}

#[test]
fn a_moved_cache_restarts_synced_mounts() {
    let e = env(Platform::Windows);
    let mut s = MountService::new(&e);
    let ms = || vec![mount("a", r"\\nas\a", true, true, 0), mount("b", r"\\nas\b", true, false, 0)];
    s.apply_config(config(ms()), &e);
    let moved = MountsConfig { version: 1, mounts: ms(), sync_cache_root: Some(r"D:\c".to_string()) };
    let todo = shown(&s.apply_config(moved, &e));
    assert!(todo.contains(&"stop a".to_string()));
    assert!(todo.contains(&"start a".to_string()));
    assert!(!todo.contains(&"stop b".to_string()));
}

#[test]
fn commands_have_plans() {
    let e = env(Platform::Macos);
    let mut s = MountService::new(&e);
    s.apply_config(config(vec![mount("a", r"\\nas\media", true, true, 0)]), &e);
    assert!(matches!(s.handle_command(UfbToAgent::Ping), CommandPlan::Reply(AgentToUfb::Pong)));
    assert!(matches!(s.handle_command(UfbToAgent::ReloadConfig), CommandPlan::Reload));
    assert!(matches!(s.handle_command(UfbToAgent::Quit), CommandPlan::Quit));
    assert!(matches!(s.handle_command(UfbToAgent::CreateSymlinks), CommandPlan::CreateLinks));
    match s.handle_command(UfbToAgent::GetStates) {
        CommandPlan::AskStates(ids) => assert_eq!(ids, vec!["a".to_string()]),
        _ => panic!("states were asked for"),
    }
    match s.handle_command(UfbToAgent::StopMount(command("a"))) {
        CommandPlan::Send { mount_id, event, command_id } => {
            assert_eq!((mount_id.as_str(), command_id.as_str()), ("a", "7"));
            assert_eq!(event, MountEvent::Stop);
        }
        _ => panic!("the mount has to be told"),
    }
    match s.handle_command(UfbToAgent::ClearSyncCache(command("a"))) {
        CommandPlan::ClearCache { domain, .. } => assert_eq!(domain, "media"),
        _ => panic!("the cache has to be cleared"),
    }
    match s.handle_command(UfbToAgent::GetCacheStats(command("x"))) {
        CommandPlan::ReportCache { domain, .. } => assert_eq!(domain, None),
        _ => panic!("the cache was asked for"),
    }
    let sweep = FreshnessSweepMsg { domain: None, command_id: String::new() };
    match s.handle_command(UfbToAgent::FreshnessSweep(sweep)) {
        CommandPlan::Sweep { domains, reply } => {
            assert_eq!(domains, vec!["media".to_string()]);
            assert_eq!(reply, None);
        }
        _ => panic!("a sweep was asked for"),
    }
}

#[test]
fn events_take_servers_along() {
    let e = env(Platform::Macos);
    let mut s = MountService::new(&e);
    s.apply_config(
        config(vec![
            mount("a", r"\\nas\media", true, true, 0),
            mount("b", r"\\nas\b", true, false, 0),
        ]),
        &e,
    );
    let way = |p, id: &str, ev| {
        let steps: Vec<&str> = s
            .route_event(p, id, ev)
            .iter()
            .map(|a| match a {
                RouteAction::ShutdownServer(_) => "down",
                RouteAction::Forward(_) => "forward",
                RouteAction::SpawnServer(_) => "up",
            })
            .collect();
        steps
    };
    assert_eq!(way(Platform::Macos, "a", MountEvent::Stop), vec!["down", "forward"]);
    assert_eq!(way(Platform::Macos, "a", MountEvent::Start), vec!["forward", "up"]);
    assert_eq!(way(Platform::Macos, "a", MountEvent::Restart), vec!["down", "forward", "up"]);
    assert_eq!(way(Platform::Linux, "a", MountEvent::Restart), vec!["forward"]);
    assert_eq!(way(Platform::Macos, "b", MountEvent::Restart), vec!["forward"]);
    assert!(way(Platform::Macos, "x", MountEvent::Start).is_empty());
}

#[test]
fn replies_to_commands() {
    assert_eq!(ack("7"), Some(AgentToUfb::Ack(AckMsg { command_id: "7".to_string() })));
    assert_eq!(ack(""), None);
    assert_eq!(send_to_mount_reply(true, true, "a", "7"), ack("7"));
    assert_eq!(send_to_mount_reply(true, false, "a", "7"), None);
    assert_eq!(
        send_to_mount_reply(false, false, "a", "7"),
        Some(AgentToUfb::Error(ErrorMsg {
            command_id: "7".to_string(),
            message: "unknown mount: a".to_string(),
        }))
    );
    match cache_stats_reply(command("a"), None) {
        AgentToUfb::CacheStats(c) => assert_eq!((c.hydrated_bytes, c.hydrated_count), (0, 0)),
        _ => panic!("no numbers"),
    }
    let (first, second) = drained_replies("a", "7", 10, 2);
    assert_eq!(first, ack("7"));
    match second {
        AgentToUfb::CacheStats(c) => assert_eq!((c.hydrated_bytes, c.hydrated_count), (10, 2)),
        _ => panic!("no numbers"),
    }
}

#[test]
fn stale_entries_are_recognised() {
    let c = config(vec![
        mount("a", r"\\nas\media", true, false, 0),
        mount("b", r"\\nas\b", false, false, 0),
    ]);
    assert!(is_active_entry(&c, "media"));
    assert!(!is_active_entry(&c, "b"));
    assert!(!is_active_entry(&c, "zzz"));
}

#[test]
fn credentials_are_asked_for_once_per_server() {
    assert_eq!(server_part(r"\\NAS\media"), "NAS");
    assert_eq!(server_host(r"\\NAS\media"), "nas");
    assert_eq!(server_host(r"\\ÄÖ\media"), "äö");
    assert_eq!(prefixed_key("k"), "mediamount_k");
    assert_eq!(prefixed_key("mediamount_k"), "mediamount_k");
    let mut connected = Vec::new();
    assert_eq!(credential_lookup("nas", "k", &connected), Some("mediamount_k".to_string()));
    mark_connected(&mut connected, "nas");
    mark_connected(&mut connected, "nas");
    mark_connected(&mut connected, "");
    assert_eq!(connected, vec!["nas".to_string()]);
    assert_eq!(credential_lookup("nas", "k", &connected), None);
    assert_eq!(credential_lookup("other", "", &connected), None);
    let o = orchestrator(Platform::Linux, false);
    assert_eq!(o.credential_key(&connected), None);
    assert_eq!(o.credential_key(&vec![]), Some("mediamount_m".to_string()));
    let pair = ("u".to_string(), "p".to_string());
    assert_eq!(Orchestrator::retrieve_credentials(Some(Ok(pair.clone()))), pair);
    let none = (String::new(), String::new());
    assert_eq!(Orchestrator::retrieve_credentials(None), none);
    assert_eq!(Orchestrator::retrieve_credentials(Some(Err("x".to_string()))), none);
}

#[test]
fn windows_drives_are_links() {
    let o = orchestrator(Platform::Windows, false);
    let first = o.mount_drive();
    assert!(matches!(&first, DriveStep::InspectLink { path } if path == r"C:\Volumes\ufb\media"));
    let (made, _) = o.mount_drive_next(first, StepOutcome::Found(false));
    assert!(matches!(&made, DriveStep::MakeLink { target, .. } if target == r"\\NAS\media"));
    let (open, elevated) =
        o.mount_drive_next(made, StepOutcome::Failed("NEEDS_ELEVATION".to_string()));
    assert!(matches!(open, DriveStep::OpenSession) && elevated);
    let (done, _) = o.mount_drive_next(open, StepOutcome::Done);
    assert!(matches!(done, DriveStep::Done));
    let link = DriveStep::MakeLink { path: "p".to_string(), target: "t".to_string() };
    let (failed, elevated) = o.mount_drive_next(link, StepOutcome::Failed("no".to_string()));
    assert!(!elevated);
    assert!(matches!(failed, DriveStep::Failed(MountEvent::DriveMapFailed { reason }) if reason == "no"));
}

#[test]
fn unix_shares_are_mounted_and_linked() {
    let o = orchestrator(Platform::Linux, false);
    let first = o.mount_drive();
    assert!(matches!(first, DriveStep::EnsureSession { .. }));
    let (link, _) = o.mount_drive_next(first, StepOutcome::Done);
    assert!(matches!(link, DriveStep::SwitchLink { .. }));
    let (done, _) = o.mount_drive_next(link, StepOutcome::Done);
    assert!(matches!(done, DriveStep::Done));
    let (failed, _) = o.mount_drive_next(o.mount_drive(), StepOutcome::Failed("no".to_string()));
    assert!(matches!(failed, DriveStep::Failed(MountEvent::SmbMapFailed { reason }) if reason == "no"));
    let mac = orchestrator(Platform::Macos, true);
    let (watch, _) =
        mac.mount_drive_next(mac.mount_drive(), StepOutcome::Path("/Volumes/media".to_string()));
    assert!(matches!(&watch, DriveStep::StartWatcher { volume } if volume == "/Volumes/media"));
    let (link, _) = mac.mount_drive_next(watch, StepOutcome::Done);
    assert!(matches!(link, DriveStep::SwitchLink { .. }));
}

#[test]
fn sync_starts_in_steps() {
    let o = orchestrator(Platform::Windows, true);
    let (root, state, _) = o.start_sync_next(SyncStep::OpenSession, None);
    assert_eq!(state, SyncState::Registering);
    assert!(matches!(&root, SyncStep::StartRoot { client_root } if client_root == r"C:\cache\media"));
    let (link, state, _) = o.start_sync_next(root, None);
    assert_eq!(state, SyncState::Active);
    assert!(matches!(link, SyncStep::Link { .. }));
    let (failed, state, _) = o.start_sync_next(SyncStep::OpenSession, Some("no".to_string()));
    assert_eq!(state, SyncState::Error("no".to_string()));
    assert!(matches!(failed, SyncStep::Failed(MountEvent::SmbMapFailed { .. })));
    assert_eq!(SyncState::Error("no".to_string()).state_name(), "error");
}

#[test]
fn heartbeats_change_the_state_once() {
    let (s, todo) = Orchestrator::handle_heartbeat_result(false, SyncState::Active);
    assert_eq!(s, SyncState::Reconnecting);
    assert_eq!(todo[0], HeartbeatAction::SetOffline);
    assert_eq!(todo.len(), 5);
    let (s, todo) = Orchestrator::handle_heartbeat_result(false, s);
    assert!(s == SyncState::Reconnecting && todo.is_empty());
    let (s, todo) = Orchestrator::handle_heartbeat_result(true, s);
    assert_eq!(s, SyncState::Active);
    assert_eq!(todo.last(), Some(&HeartbeatAction::Emit));
    let (s, todo) = Orchestrator::handle_heartbeat_result(true, s);
    assert!(s == SyncState::Active && todo.is_empty());
}

#[test]
fn disconnecting_and_following_up() {
    let w = orchestrator(Platform::Windows, false).disconnect_drive(None);
    assert!(matches!(&w[0], DisconnectStep::RemoveLink(p) if p == r"C:\Volumes\ufb\media"));
    assert!(matches!(&w[1], DisconnectStep::CloseSession));
    let m = orchestrator(Platform::Macos, true).disconnect_drive(None);
    assert!(matches!(&m[2], DisconnectStep::Unmount(p) if p == "/Volumes/media"));
    let l = orchestrator(Platform::Linux, false).disconnect_drive(Some("x".to_string()));
    assert_eq!(l.len(), 1);
    assert_eq!(Orchestrator::follow_up(&MountState::Stopped), FollowUp::Exit);
    assert_eq!(Orchestrator::follow_up(&MountState::Mounting), FollowUp::Confirm);
    assert_eq!(Orchestrator::follow_up(&MountState::Mounted), FollowUp::Wait);
}

#[test]
fn updates_tell_the_state() {
    let o = orchestrator(Platform::Windows, true);
    let summary = Some("2 uploads".to_string());
    match o.emit_state_update(&MountState::Mounted, &SyncState::Active, summary, true) {
        AgentToUfb::MountStateUpdate(u) => {
            assert_eq!((u.mount_id.as_str(), u.state.as_str()), ("m", "mounted"));
            assert_eq!(u.sync_state.as_deref(), Some("active"));
            assert_eq!(u.sync_state_detail.as_deref(), Some("2 uploads"));
            assert_eq!(u.needs_elevation, Some(true));
        }
        _ => panic!("no update"),
    }
    let o = orchestrator(Platform::Linux, true);
    match o.emit_state_update(&MountState::Mounted, &SyncState::Active, None, true) {
        AgentToUfb::MountStateUpdate(u) => {
            assert_eq!((u.sync_state, u.sync_state_detail, u.needs_elevation), (None, None, None));
        }
        _ => panic!("no update"),
    }
}

#[test]
fn log_levels_follow_the_settings() {
    assert_eq!(log_level(Some("my_crate=DEBUG"), None), LevelFilter::Debug);
    assert_eq!(log_level(Some("Trace"), None), LevelFilter::Trace);
    assert_eq!(log_level(Some("WARN"), Some("1")), LevelFilter::Warn);
    assert_eq!(log_level(None, Some("1")), LevelFilter::Debug);
    assert_eq!(log_level(Some("x"), Some("0")), LevelFilter::Info);
    assert!(log_is_full(2_097_153));
    assert!(!log_is_full(2_097_152));
}

#[test]
fn files_of_the_agent_have_places() {
    let l = env(Platform::Linux);
    assert_eq!(
        log_file_path(&l),
        Some((
            "/home/u/.local/share/ufb".to_string(),
            "/home/u/.local/share/ufb/mediamount-agent.log".to_string()
        ))
    );
    let no_home = Environment { home: None, ..env(Platform::Linux) };
    assert_eq!(log_file_path(&no_home), None);
    assert_eq!(lock_path(&l).1, "/tmp/mediamount-agent.lock");
    let run = Environment { runtime_dir: Some("/run/u".to_string()), ..env(Platform::Linux) };
    assert_eq!(lock_path(&run).1, "/run/u/ufb/mediamount-agent.lock");
    assert!(config_changed(None, Some(1)));
    assert!(config_changed(Some(1), Some(2)));
    assert!(!config_changed(Some(1), Some(1)));
    assert!(!config_changed(Some(1), None));
}

#[test]
fn links_lead_to_enabled_mounts() {
    let mut d = mount("d", r"\\nas\d", true, false, 0);
    d.mount_drive_letter = "Z".to_string();
    let c = config(vec![
        mount("a", r"\\nas\a", true, true, 0),
        mount("b", r"\\nas\b", false, false, 0),
        d,
    ]);
    let jobs = symlink_jobs(&env(Platform::Windows), &c);
    assert_eq!(jobs.len(), 2);
    assert_eq!(jobs[0].link, r"C:\Volumes\ufb\a");
    assert_eq!(jobs[0].target, r"C:\Local\ufb\sync\a");
    assert_eq!(jobs[0].drive, None);
    assert_eq!(jobs[1].target, r"\\nas\d");
    assert_eq!(jobs[1].drive, Some("Z".to_string()));
}

#[test]
fn servers_start_by_identifier() {
    let c = config(vec![
        mount("z", r"\\nas\z", true, true, 0),
        mount("m", r"\\nas\m", true, false, 0),
        mount("a", r"\\nas\a", true, true, 0),
        mount("b", r"\\nas\b", false, true, 0),
    ]);
    assert_eq!(nfs_mounts(&c), vec![2, 0]);
    assert_eq!(nfs_port(1), 12_346);
    let e = env(Platform::Macos);
    let (first, second) = nfs_candidates(&e, &c.mounts[0]);
    assert_eq!(first, "/home/u/.local/share/ufb/smb-mounts/z");
    assert_eq!(second, "/Volumes/z");
    let root = |a, b, f| nfs_root(&e, &c.mounts[0], a, b, f);
    assert_eq!(root(Some((1, 2)), None, None), Some(first));
    assert_eq!(root(Some((1, 1)), Some((1, 2)), None), Some(second));
    assert_eq!(root(None, None, Some("/x".to_string())), Some("/x".to_string()));
    assert_eq!(root(None, None, None), None);
}

#[test]
fn the_browser_is_found() {
    let (beside, development) = ufb_places(Platform::Linux, "/opt");
    assert_eq!(beside, "/opt/ufb-tauri");
    assert_eq!(development, "/opt/../../src-tauri/target/debug/ufb-tauri");
    assert_eq!(ufb_path(Platform::Linux, Some("/opt"), true, None), "/opt/ufb-tauri");
    assert_eq!(ufb_path(Platform::Linux, Some("/opt"), false, Some("/d".to_string())), "/d");
    assert_eq!(ufb_path(Platform::Windows, None, false, None), "ufb-tauri.exe");
}

#[test]
fn events_ask_for_work() {
    let kinds = |o: &Orchestrator, s, e| {
        let (next, todo) = o.handle_event(s, e);
        let kinds: Vec<&str> = todo
            .iter()
            .map(|w| match w {
                Work::Nothing => "nothing",
                Work::StartSync => "sync",
                Work::MountDrive => "mount",
                Work::Log { .. } => "log",
                Work::Emit => "emit",
            })
            .collect();
        (next, kinds)
    };
    let windows = orchestrator(Platform::Windows, true);
    assert_eq!(
        kinds(&windows, MountState::Initializing, MountEvent::Start),
        (MountState::Mounting, vec!["nothing", "sync", "log", "emit"])
    );
    let macos = orchestrator(Platform::Macos, true);
    assert_eq!(
        kinds(&macos, MountState::Mounted, MountEvent::Restart),
        (MountState::Mounting, vec!["nothing", "mount", "log", "emit"])
    );
    assert_eq!(
        kinds(&macos, MountState::Mounting, MountEvent::RequestStateUpdate),
        (MountState::Mounted, vec!["log", "nothing", "emit"])
    );
    assert_eq!(kinds(&macos, MountState::Mounted, MountEvent::Start), (MountState::Mounted, vec![]));
}
