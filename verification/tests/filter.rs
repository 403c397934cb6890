use mediamount_agent::cache_index::CacheIndex;
use mediamount_agent::filter::{
    open_failed, DeleteStep, Hydration, ListStep, ListedEntry, NasSyncFilter, OpenCheck,
    OpenHandles, OpenStep,
};
use mediamount_agent::placeholders::{NasStat, NasWatcher};
use mediamount_agent::write_through::EchoSuppressor;

fn filter() -> NasSyncFilter {
    NasSyncFilter::new(r"\\nas\media".to_string(), r"C:\sync".to_string())
}

#[test]
fn requests_lead_to_the_server() {
    let f = filter();
    assert_eq!(f.relative_path(r"C:\sync\a\b"), r"a\b");
    assert_eq!(f.nas_path(r"a\b"), r"\\nas\media\a\b");
    assert_eq!(f.target_path(r"C:\sync\a\b"), r"\\nas\media\a\b");
    assert_eq!(
        f.rename(r"C:\sync\a", r"C:\sync\b"),
        (r"\\nas\media\a".to_string(), r"\\nas\media\b".to_string())
    );
}

#[test]
fn blobs_name_the_source() {
    let f = filter();
    let blob = NasSyncFilter::blob_of("\\\\nas\\media\\é");
    assert_eq!(blob, "\\\\nas\\media\\é".as_bytes().to_vec());
    assert_eq!(f.source_path(&blob, r"C:\sync\a"), "\\\\nas\\media\\é");
    assert_eq!(f.source_path(&vec![0x61, 0xFF, 0x62], r"C:\sync\a"), "a\u{FFFD}b");
    assert_eq!(f.source_path(&vec![], r"C:\sync\a"), r"\\nas\media\a");
}

#[test]
fn listings_push_what_is_missing() {
    let file = Some(NasStat { is_dir: false, size: 5, mtime: 9 });
    let dir = Some(NasStat { is_dir: true, size: 0, mtime: 9 });
    assert!(NasSyncFilter::is_filtered("#recycle"));
    assert!(NasSyncFilter::is_filtered("@eaDir"));
    assert!(!NasSyncFilter::is_filtered("a"));
    assert_eq!(NasSyncFilter::list_step("@eaDir", dir, false, None), ListStep::Filtered);
    assert_eq!(NasSyncFilter::list_step("a", None, false, None), ListStep::Unreadable);
    assert_eq!(NasSyncFilter::list_step("a", dir, true, Some(true)), ListStep::PushDir);
    assert_eq!(NasSyncFilter::list_step("a", file, true, Some(true)), ListStep::Refresh);
    assert_eq!(NasSyncFilter::list_step("a", file, true, Some(false)), ListStep::Verified);
    let push = ListStep::PushFile { size: 5, mtime: 9 };
    assert_eq!(NasSyncFilter::list_step("a", file, true, None), push);
    assert_eq!(NasSyncFilter::list_step("a", file, false, Some(true)), push);
}

#[test]
fn deletions_are_recognised_as_own() {
    let f = filter();
    let mut echo = EchoSuppressor::new();
    let step = f.delete(&mut echo, r"C:\sync\a", false, true, 10);
    assert_eq!(step, DeleteStep::RemoveFile);
    assert!(echo.is_suppressed(r"\\nas\media\a", 20));
    assert_eq!(f.delete(&mut echo, r"C:\sync\d", true, false, 10), DeleteStep::RemoveTree);
    assert_eq!(f.delete(&mut echo, r"C:\sync\e", false, false, 10), DeleteStep::AlreadyGone);
}

#[test]
fn only_network_errors_are_tried_again() {
    assert_eq!(open_failed(true, 0), OpenStep::Retry);
    assert_eq!(open_failed(true, 49), OpenStep::Retry);
    assert_eq!(open_failed(true, 50), OpenStep::GiveUp { report: true });
    assert_eq!(open_failed(false, 0), OpenStep::GiveUp { report: false });
}

#[test]
fn files_come_in_chunks() {
    let mut h = Hydration::new(10, 10 + 5_000_000);
    assert_eq!(h.next_read(), Some((10, 4_194_304)));
    assert_eq!(h.on_written(4_194_304), Some((5_000_000, 4_194_304)));
    assert_eq!(h.next_read(), Some((4_194_314, 805_696)));
    assert_eq!(h.on_written(805_696), Some((5_000_000, 5_000_000)));
    assert_eq!(h.next_read(), None);
    assert_eq!(h.total_written(), 5_000_000);
    let mut small = Hydration::new(0, 100);
    assert_eq!(small.on_written(40), None);
    assert_eq!(small.next_read(), Some((40, 60)));
}

#[test]
fn handles_are_counted() {
    let mut h = OpenHandles::new();
    assert!(h.opened("a"));
    assert!(!h.opened("a"));
    assert_eq!((h.count("a"), h.count("b")), (2, 0));
    h.closed("a");
    assert!(!h.opened("a"));
    h.closed("a");
    h.closed("a");
    assert!(h.paths().is_empty());
    assert!(h.opened("a"));
    assert!(h.opened("b"));
    assert_eq!(h.paths(), vec!["a".to_string(), "b".to_string()]);
    h.closed("b");
    assert_eq!(h.paths(), vec!["a".to_string()]);
    h.closed("c");
}

#[test]
fn listed_folders_are_shown_and_followed() {
    let f = filter();
    let mut cache = CacheIndex::new(0);
    let mut watcher = NasWatcher::new();
    let entry = |name: &str, is_dir, size, occupied| ListedEntry {
        name: name.to_string(),
        stat: Some(NasStat { is_dir, size, mtime: 9 }),
        occupied,
    };
    cache.record_known_file(r"C:\sync\a\old.mov", 5, 9);
    cache.record_known_file(r"C:\sync\a\same.mov", 6, 9);
    let entries = vec![
        entry("new.mov", false, 4, false),
        entry("old.mov", false, 50, true),
        entry("same.mov", false, 6, true),
        entry("sub", true, 0, true),
        entry("@eaDir", true, 0, false),
        ListedEntry { name: "gone.mov".to_string(), stat: None, occupied: false },
    ];
    let plan = f.fetch_placeholders(&mut cache, &mut watcher, r"C:\sync\a", 7, &entries, 100);
    let names: Vec<&str> = plan.placeholders.iter().map(|p| p.name.as_str()).collect();
    assert_eq!(names, vec!["new.mov", "sub"]);
    assert_eq!(plan.placeholders[0].source, r"\\nas\media\a\new.mov");
    assert_eq!((plan.placeholders[0].size, plan.placeholders[1].is_dir), (4, true));
    assert_eq!(plan.refresh, vec!["old.mov".to_string()]);
    assert_eq!(cache.compare_nas_metadata(r"C:\sync\a\new.mov", 4, 9), Some(false));
    assert_eq!(cache.compare_nas_metadata(r"C:\sync\a\old.mov", 50, 9), Some(true));
    assert_eq!(cache.compare_nas_metadata(r"C:\sync\a\gone.mov", 1, 1), None);
    assert_eq!(cache.visited_folders().row_at(0).path, r"\\nas\media\a");
    assert_eq!(cache.visited_folders().row_at(0).mtime, 7);
    assert_eq!(watcher.watched().row_at(0).client_path, r"C:\sync\a");
}

#[test]
fn first_openers_compare_with_the_server() {
    let mut cache = CacheIndex::new(0);
    let mut handles = OpenHandles::new();
    let path = r"C:\sync\f";
    cache.record_known_file(path, 5, 9);
    assert!(NasSyncFilter::opened(&mut handles, &mut cache, path, 100));
    assert!(!NasSyncFilter::opened(&mut handles, &mut cache, path, 100));
    let mut check = |stat, now| NasSyncFilter::checked_on_open(&mut cache, path, stat, now);
    assert_eq!(check(Err(true), 100), OpenCheck::ReportNetwork);
    assert_eq!(check(Err(false), 100), OpenCheck::Nothing);
    assert_eq!(check(Ok((5, 9)), 100), OpenCheck::Nothing);
    assert_eq!(check(Ok((6, 9)), 129), OpenCheck::Nothing);
    assert_eq!(check(Err(true), 129), OpenCheck::Nothing);
    assert_eq!(check(Ok((6, 9)), 130), OpenCheck::Refresh);
    assert_eq!(cache.compare_nas_metadata(path, 6, 9), Some(false));
    let unknown = NasSyncFilter::checked_on_open(&mut cache, r"C:\sync\x", Ok((1, 1)), 500);
    assert_eq!(unknown, OpenCheck::Nothing);
}
