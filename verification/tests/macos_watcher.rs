use mediamount_agent::macos_watcher::{
    changed_notification, clear_cache_notification, snapshot_folder, ChangedPath, EchoSuppressor,
    FolderPoll, FolderSnapshot, MacosNasWatcher,
};

fn changed(path: &str, is_dir: bool) -> ChangedPath {
    ChangedPath { path: path.to_string(), is_dir }
}

#[test]
fn own_writes_are_ignored_for_a_while() {
    let mut e = EchoSuppressor::new();
    e.suppress("/Volumes/m/a", 1_000);
    assert!(e.is_suppressed("/Volumes/m/a", 5_999));
    assert!(!e.is_suppressed("/Volumes/m/a", 6_000));
    assert!(!e.is_suppressed("/Volumes/m/b", 2_000));
}

#[test]
fn changed_files_make_their_folder_dirty() {
    let mut w = MacosNasWatcher::new("/Volumes/m".to_string(), "m".to_string());
    assert!(w.on_event(&vec![changed("/Volumes/m/a/b.mov", false)], 0));
    assert!(!w.on_event(&vec![changed("/Volumes/m/c", true)], 300));
    assert!(!w.on_event(&vec![changed("/Volumes/m/a/x", false)], 400));
    let dirty = w.take_dirty_folders();
    assert_eq!(dirty, vec!["a".to_string(), "c".to_string()]);
    assert!(w.take_dirty_folders().is_empty());
    assert!(w.on_event(&vec![changed("/Volumes/m/top.mov", false)], 60_000));
    assert_eq!(w.take_dirty_folders(), vec![String::new()]);
}

#[test]
fn hidden_and_own_changes_make_no_folder_dirty() {
    let mut w = MacosNasWatcher::new("/Volumes/m".to_string(), "m".to_string());
    w.suppress("a/own.mov", 0);
    assert!(!w.on_event(&vec![changed("/Volumes/m/a/own.mov", false)], 100));
    assert!(w.take_dirty_folders().is_empty());
    assert!(w.on_event(&vec![changed("/Volumes/m/a/own.mov", false)], 10_000));
}

#[test]
fn polls_notice_new_entries_and_times() {
    let mut p = FolderPoll::new();
    let one = FolderSnapshot { entry_count: 1, mtime: 5 };
    let two = FolderSnapshot { entry_count: 2, mtime: 5 };
    assert!(!p.on_snapshot("a", Some(one)));
    assert!(!p.on_snapshot("a", Some(one)));
    assert!(p.on_snapshot("a", Some(two)));
    assert!(!p.on_snapshot("a", None));
    assert!(!p.on_snapshot("a", Some(two)));
    assert!(p.on_snapshot("a", Some(FolderSnapshot { entry_count: 2, mtime: 6 })));
}

#[test]
fn snapshots_leave_hidden_entries_out() {
    let names = vec!["a".to_string(), ".DS_Store".to_string(), "b".to_string()];
    assert_eq!(snapshot_folder(&names, 7), FolderSnapshot { entry_count: 2, mtime: 7 });
}

#[test]
fn notifications_name_the_share() {
    assert_eq!(changed_notification("media"), "com.unionfiles.ufb.nas-changed.media");
    assert_eq!(clear_cache_notification("media"), "com.unionfiles.ufb.clear-cache.media");
}
