use mediamount_agent::cache_index::CacheIndex;
use mediamount_agent::reconcile::{
    reconcile_folder, seed_folder, LocalEntry, ReconcileStep, ShareEntry, Tally,
};

fn nas(name: &str, is_dir: bool, size: u64, mtime: i64) -> ShareEntry {
    ShareEntry { name: name.to_string(), is_dir, size, mtime }
}

fn local(name: &str, is_dir: bool) -> LocalEntry {
    LocalEntry { name: name.to_string(), is_dir, dehydrated: !is_dir }
}

fn add(name: &str, size: u64, mtime: i64) -> ReconcileStep {
    ReconcileStep::Add { name: name.to_string(), size, mtime }
}

fn remove(name: &str) -> ReconcileStep {
    ReconcileStep::Remove { name: name.to_string() }
}

fn update(name: &str, size: u64, mtime: i64) -> ReconcileStep {
    ReconcileStep::Update { name: name.to_string(), size, mtime }
}

#[test]
fn the_server_is_right() {
    let share = vec![
        nas("new.mov", false, 1, 10),
        nas("same.mov", false, 2, 20),
        nas("grown.mov", false, 3, 30),
        nas("sub", true, 0, 40),
        nas("#recycle", false, 5, 50),
        nas("unknown.mov", false, 6, 60),
    ];
    let client = vec![
        local("same.mov", false),
        local("grown.mov", false),
        local("old.mov", false),
        local("sub", true),
        local("unknown.mov", false),
    ];
    let known = vec![
        (r"C:\sync\a\same.mov".to_string(), 2, 20),
        (r"C:\sync\a\grown.mov".to_string(), 2, 30),
    ];
    assert_eq!(
        reconcile_folder(&share, &client, &known),
        vec![
            add("new.mov", 1, 10),
            remove("old.mov"),
            update("grown.mov", 3, 30),
            update("unknown.mov", 6, 60),
        ]
    );
}

#[test]
fn directories_of_the_root_are_left_alone() {
    let share = vec![nas("x", false, 1, 1)];
    let client = vec![local("x", true), local("y", true)];
    assert!(reconcile_folder(&share, &client, &vec![]).is_empty());
}

#[test]
fn files_with_content_are_not_removed() {
    let kept = LocalEntry { name: "own.mov".to_string(), is_dir: false, dehydrated: false };
    let client = vec![kept, local("old.mov", false)];
    assert_eq!(reconcile_folder(&vec![], &client, &vec![]), vec![remove("old.mov")]);
}

#[test]
fn equal_folders_need_nothing() {
    let share = vec![nas("x", false, 1, 1)];
    let client = vec![local("x", false)];
    let known = vec![(r"C:\x".to_string(), 9, 9), (r"D:\x".to_string(), 1, 1)];
    assert!(reconcile_folder(&share, &client, &known).is_empty());
    assert!(reconcile_folder(&vec![], &vec![], &vec![]).is_empty());
}

#[test]
fn folders_with_a_new_time_are_compared() {
    let mut t = Tally::new();
    assert_eq!(t.on_folder(true, Some(7), 7), None);
    assert_eq!(t.on_folder(true, Some(8), 7), Some(8));
    assert_eq!(t.on_folder(true, Some(0), 0), Some(0));
    assert_eq!(t.on_folder(false, Some(8), 7), None);
    assert_eq!(t.on_folder(true, None, 7), None);
    assert_eq!((t.checked, t.changed), (5, 2));
}

#[test]
fn finished_steps_are_counted_and_recorded() {
    let mut t = Tally::new();
    let mut cache = CacheIndex::new(0);
    t.on_step(&mut cache, r"C:\sync", &add("a", 1, 10), true);
    t.on_step(&mut cache, r"C:\sync", &add("b", 2, 20), false);
    t.on_step(&mut cache, r"C:\sync", &update("a", 3, 30), true);
    assert_eq!((t.added, t.removed, t.updated), (1, 0, 1));
    assert_eq!(
        cache.known_files_in_folder(r"C:\sync"),
        vec![(r"C:\sync\a".to_string(), 3, 30)]
    );
    t.on_step(&mut cache, r"C:\sync", &remove("a"), true);
    assert_eq!(t.removed, 1);
    assert!(cache.known_files_in_folder(r"C:\sync").is_empty());
}

#[test]
fn visible_directories_are_seeded() {
    let seed = |name: &str, is_dir, path: &str| {
        seed_folder(name, is_dir, path, r"C:\sync", r"\\nas\m")
    };
    assert_eq!(seed("a", true, r"C:\sync\a"), Some(r"\\nas\m\a".to_string()));
    assert_eq!(seed("a", false, r"C:\sync\a"), None);
    assert_eq!(seed(".a", true, r"C:\sync\.a"), None);
    assert_eq!(seed("a", true, r"D:\a"), None);
}
