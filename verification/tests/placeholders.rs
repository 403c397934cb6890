use mediamount_agent::placeholders::{
    deferred_delay, deferred_size_update, diff_folder, missing_parents, names_to_push, parent_chain,
    push_placeholder, refresh_placeholder, remove_placeholder, DeferredStep, NasStat, NasWatcher,
    PushPlan, RemovePlan,
};
use mediamount_agent::write_through::EchoSuppressor;

fn names(v: &[&str]) -> Vec<String> {
    v.iter().map(|s| s.to_string()).collect()
}

fn file(size: u64) -> Option<NasStat> {
    Some(NasStat { is_dir: false, size, mtime: 9 })
}

#[test]
fn new_entries_get_placeholders() {
    assert_eq!(push_placeholder(true, file(1)), PushPlan::Keep);
    assert_eq!(push_placeholder(false, None), PushPlan::Keep);
    let dir = Some(NasStat { is_dir: true, size: 0, mtime: 9 });
    assert_eq!(push_placeholder(false, dir), PushPlan::CreateDir);
    assert_eq!(
        push_placeholder(false, file(5)),
        PushPlan::CreateFile { size: 5, mtime: 9, look_again: false }
    );
    assert_eq!(
        push_placeholder(false, file(0)),
        PushPlan::CreateFile { size: 0, mtime: 9, look_again: true }
    );
}

#[test]
fn only_placeholders_are_removed() {
    assert_eq!(remove_placeholder(false, false, 0x400), RemovePlan::Keep);
    assert_eq!(remove_placeholder(true, false, 0x420), RemovePlan::RemoveFile);
    assert_eq!(remove_placeholder(true, false, 0x20), RemovePlan::Keep);
    assert_eq!(remove_placeholder(true, false, u32::MAX), RemovePlan::Keep);
    assert_eq!(remove_placeholder(true, true, 0x10), RemovePlan::RemoveDir);
}

#[test]
fn placeholders_are_refreshed_from_the_server() {
    assert_eq!(refresh_placeholder(true, false, file(5)), Some((5, 9)));
    assert_eq!(refresh_placeholder(true, false, file(0)), None);
    assert_eq!(refresh_placeholder(true, true, file(5)), None);
    assert_eq!(refresh_placeholder(false, false, file(5)), None);
    assert_eq!(refresh_placeholder(true, false, None), None);
}

#[test]
fn empty_files_are_looked_at_for_about_a_minute() {
    let mut total = 0;
    let mut n = 0;
    while let Some(d) = deferred_delay(n) {
        total += d;
        n += 1;
    }
    assert_eq!((n, total), (6, 65_000));
    assert_eq!(deferred_delay(0), Some(2_000));
    assert_eq!(deferred_delay(5), Some(30_000));
    assert_eq!(deferred_size_update(false, Some(4)), DeferredStep::Stop);
    assert_eq!(deferred_size_update(true, Some(0)), DeferredStep::Wait);
    assert_eq!(deferred_size_update(true, None), DeferredStep::Wait);
    assert_eq!(deferred_size_update(true, Some(4)), DeferredStep::Recreate(4));
}

#[test]
fn missing_directories_are_made_from_the_top() {
    let chain = parent_chain(r"a\b\c");
    assert_eq!(chain, names(&[r"a\b\c", r"a\b", "a"]));
    assert!(parent_chain("").is_empty());
    assert_eq!(parent_chain(r"a/b\\c"), names(&[r"a/b\\c", "a/b", "a"]));
    let occupied = vec![false, false, true];
    assert_eq!(missing_parents(&chain, &occupied), names(&[r"a\b", r"a\b\c"]));
    assert_eq!(
        missing_parents(&chain, &vec![false, false, false]),
        names(&["a", r"a\b", r"a\b\c"])
    );
    assert!(missing_parents(&chain, &vec![true, false, false]).is_empty());
}

#[test]
fn own_uploads_get_no_placeholders() {
    let mut echo = EchoSuppressor::new();
    echo.suppress(r"\\nas\m\a\x", 1_000);
    let added = names(&["x", "y"]);
    assert_eq!(names_to_push(&mut echo, r"\\nas\m\a", &added, 2_000), names(&["y"]));
    assert_eq!(names_to_push(&mut echo, r"\\nas\m\b", &added, 2_000), added);
    assert_eq!(names_to_push(&mut echo, r"\\nas\m\a", &added, 60_000), added);
    assert!(names_to_push(&mut echo, r"\\nas\m\a", &vec![], 60_000).is_empty());
}

#[test]
fn folders_are_compared_by_name() {
    let nas = names(&["a", "b", ".hidden", "#recycle", "@eaDir"]);
    let client = names(&["b", "c", ".hidden"]);
    let (fresh, gone) = diff_folder(&nas, &client);
    assert_eq!(fresh, names(&["a"]));
    assert_eq!(gone, names(&["c", ".hidden"]));
    let (fresh, gone) = diff_folder(&names(&["x"]), &names(&["x"]));
    assert!(fresh.is_empty() && gone.is_empty());
}

#[test]
fn followed_folders_are_kept_once() {
    let mut w = NasWatcher::new();
    w.register(r"\\nas\m", r"C:\sync");
    w.register(r"\\nas\m\a", r"C:\sync\a");
    w.register(r"\\nas\m", r"D:\sync");
    assert_eq!(w.watched().len(), 2);
    assert_eq!(w.watched().row_at(0).client_path, r"D:\sync");
    assert_eq!(w.watched().row_at(1).path, r"\\nas\m\a");
}
