use mediamount_agent::cache_core::{
    bit_is_set, bit_unset, bitmap_is_complete, is_all_zeros, join_rel, num_chunks, parent_of,
    place_fetched, set_bit, times_apart, BlockRead, ReadOutcome, Run, CHUNK_SIZE,
};
use mediamount_agent::cache_index::{
    index_file, is_cf_placeholder, is_hydrated, needs_repair, CacheIndex, Eviction,
};
use mediamount_agent::macos_cache::{
    cache_file, is_hidden_name, stat_and_refresh, target_of, FolderListing, MacosCache, StatResult,
};
use mediamount_agent::messages::DirEntry;
use mediamount_agent::paths::{Environment, Platform};

const MIB: u64 = CHUNK_SIZE;

fn entry(name: &str, is_dir: bool, size: u64, modified: i64) -> DirEntry {
    DirEntry { name: name.to_string(), is_dir, size, modified, created: 1 }
}

#[test]
fn chunks_cover_the_file() {
    assert_eq!(num_chunks(0), 0);
    assert_eq!(num_chunks(1), 1);
    assert_eq!(num_chunks(MIB), 1);
    assert_eq!(num_chunks(MIB + 1), 2);
}

#[test]
fn bitmaps_mark_chunks() {
    let mut b = Vec::new();
    assert!(!bit_is_set(&b, 9));
    set_bit(&mut b, 9);
    assert_eq!(b, vec![0, 2]);
    assert!(bit_is_set(&b, 9));
    assert!(!bit_is_set(&b, 8));
    bit_unset(&mut b, 9);
    bit_unset(&mut b, 100);
    assert_eq!(b, vec![0, 0]);
    assert!(bitmap_is_complete(&[0xFF, 1], 9));
    assert!(!bitmap_is_complete(&[0xFF, 1], 10));
    assert!(bitmap_is_complete(&[], 0));
}

#[test]
fn paths_within_a_share() {
    assert_eq!(parent_of("a/b/c"), "a/b");
    assert_eq!(parent_of("a"), "");
    assert_eq!(join_rel("", "a"), "a");
    assert_eq!(join_rel("a/b", "c"), "a/b/c");
    assert!(times_apart(10, 20, 9));
    assert!(!times_apart(10, 20, 10));
    assert!(times_apart(i64::MIN, i64::MAX, 10));
    assert!(is_all_zeros(&[0, 0]));
    assert!(is_all_zeros(&[]));
    assert!(!is_all_zeros(&[0, 1]));
}

#[test]
fn reads_fetch_missing_runs() {
    let size = 3 * MIB + 10;
    assert!(BlockRead::start(0, 0, size, vec![]).is_none());
    assert!(BlockRead::start(5, size, size, vec![]).is_none());
    let mut r = BlockRead::start(2 * MIB as usize, MIB / 2, size, vec![0b010]).unwrap();
    assert_eq!(r.effective_len(), 2 * MIB);
    let first = r.next_run().unwrap();
    assert_eq!(
        first,
        Run {
            first: 0,
            last: 0,
            cached: false,
            start_byte: MIB / 2,
            len: MIB / 2,
            buf_offset: 0,
            fetch_start: 0,
            fetch_len: MIB,
        }
    );
    r.on_fetched(first);
    let second = r.next_run().unwrap();
    assert_eq!((second.first, second.last, second.cached), (1, 1, true));
    assert_eq!((second.start_byte, second.len, second.buf_offset), (MIB, MIB, MIB / 2));
    r.on_cached(second, MIB as usize);
    let third = r.next_run().unwrap();
    assert_eq!((third.first, third.cached, third.len), (2, false, MIB / 2));
    r.on_fetched(third);
    assert!(r.next_run().is_none());
    match r.finish() {
        ReadOutcome::SaveBitmap(b) => assert_eq!(b, vec![0b111]),
        _ => panic!("the last chunk is missing"),
    }
}

#[test]
fn short_cache_reads_are_fetched_again() {
    let mut r = BlockRead::start(10, 0, 10, vec![1]).unwrap();
    let run = r.next_run().unwrap();
    assert!(run.cached);
    r.on_cached(run, 4);
    let again = r.next_run().unwrap();
    assert!(!again.cached);
    assert_eq!((again.fetch_start, again.fetch_len), (0, 10));
    r.on_fetched(again);
    assert!(matches!(r.finish(), ReadOutcome::FullyHydrated));
    let r = BlockRead::start(10, 0, 10, vec![1]).unwrap();
    assert!(matches!(r.finish(), ReadOutcome::Unchanged));
}

#[test]
fn fetched_bytes_land_where_they_belong() {
    let run = Run {
        first: 0,
        last: 0,
        cached: false,
        start_byte: 2,
        len: 3,
        buf_offset: 1,
        fetch_start: 0,
        fetch_len: 5,
    };
    let mut buffer = vec![9; 5];
    place_fetched(&mut buffer, run, &vec![10, 11, 12, 13, 14]);
    assert_eq!(buffer, vec![9, 12, 13, 14, 9]);
    let mut buffer = vec![9; 5];
    place_fetched(&mut buffer, run, &vec![10, 11, 12]);
    assert_eq!(buffer, vec![9, 12, 9, 9, 9]);
}

#[test]
fn listings_replace_what_was_known() {
    let mut c = MacosCache::new(0);
    c.record_enumeration("a", &vec![entry("x", false, 1, 5), entry("y", false, 2, 5)], 7);
    assert!(c.is_known("a/x") && c.is_known("a/y"));
    c.record_enumeration("a", &vec![entry("y", false, 3, 5)], 8);
    assert!(!c.is_known("a/x"));
    assert_eq!(c.compare_nas_metadata("a/y", 3, 5), Some(false));
    assert_eq!(c.folders_to_scan(), vec!["a".to_string(), String::new()]);
    assert!(is_hidden_name(".DS_Store"));
    assert!(is_hidden_name("@eaDir"));
    assert!(!is_hidden_name("a"));
}

#[test]
fn changes_since_a_listing() {
    let mut c = MacosCache::new(0);
    c.record_enumeration("", &vec![entry("x", false, 1, 0), entry("y", false, 2, 0)], 7);
    let listing =
        FolderListing { folder: String::new(), entries: vec![entry("x", false, 9, 0)] };
    assert_eq!(c.missing_names(&listing), vec!["y".to_string()]);
    let r = c.get_changes_since(&vec![listing]);
    assert_eq!(r.updated.len(), 1);
    assert_eq!((r.updated[0].relative_path.as_str(), r.updated[0].size), ("x", 9));
    assert_eq!(r.deleted, vec!["y".to_string()]);
}

#[test]
fn the_oldest_contents_leave_first() {
    let mut c = MacosCache::new(100);
    c.record_enumeration(
        "",
        &vec![entry("a", false, 40, 0), entry("b", false, 40, 0), entry("c", false, 40, 0)],
        0,
    );
    c.record_hydration("a", 40, 10);
    c.record_hydration("b", 40, 20);
    c.touch("a", 30);
    assert_eq!(c.total_cached_bytes(), 80);
    c.record_hydration("c", 40, 40);
    assert_eq!(c.drain_pending_evictions(), vec!["b".to_string()]);
    assert_eq!(c.total_cached_bytes(), 80);
    assert_eq!(target_of(100), 80);
    c.queue_eviction_if_hydrated("a");
    c.queue_eviction_if_hydrated("b");
    assert_eq!(c.drain_pending_evictions(), vec!["a".to_string()]);
    assert_eq!(c.clear_all_hydrated(), (2, 80));
    assert_eq!(c.total_cached_bytes(), 0);
    assert!(c.hydrated_paths().is_empty());
}

#[test]
fn the_share_is_asked_when_due() {
    let mut c = MacosCache::new(0);
    assert!(matches!(
        stat_and_refresh(&mut c, "f", Ok((5, 10)), 100, 0),
        StatResult::Unknown { size: 5, mtime: 10 }
    ));
    c.record_enumeration("", &vec![entry("f", false, 5, 10)], 0);
    assert!(matches!(
        stat_and_refresh(&mut c, "f", Err("gone".to_string()), 100, 1_000),
        StatResult::Error(e) if e == "gone"
    ));
    assert!(matches!(
        stat_and_refresh(&mut c, "f", Ok((5, 10)), 100, 1_000),
        StatResult::Fresh { size: 5, mtime: 10 }
    ));
    assert!(matches!(stat_and_refresh(&mut c, "f", Ok((6, 10)), 100, 1_050), StatResult::Skipped));
    assert!(matches!(
        stat_and_refresh(&mut c, "f", Ok((6, 10)), 100, 1_100),
        StatResult::Drifted { size: 6, mtime: 10 }
    ));
    assert_eq!(c.needs_verification("f", 100, 1_100), None);
    c.record_verification("f", 0);
    assert_eq!(c.needs_verification("f", 100, 1_100), Some((6, 10)));
}

#[test]
fn attributes_tell_placeholders() {
    assert!(is_cf_placeholder(0x420));
    assert!(!is_cf_placeholder(0x20));
    assert!(!is_cf_placeholder(u32::MAX));
    assert!(is_hydrated(0x420));
    assert!(!is_hydrated(0x0040_0420));
    assert!(!is_hydrated(0x20));
}

#[test]
fn the_index_follows_contents() {
    let mut c = CacheIndex::new(100);
    c.record_known_file(r"C:\s\a", 5, 10);
    c.record_hydration(r"C:\s\a", 5, 1);
    c.record_hydration(r"C:\s\b", 0, 1);
    assert_eq!(c.total_cached_bytes(), 5);
    assert_eq!(c.held_files(), vec![(r"C:\s\a".to_string(), 5)]);
    c.rename_entry(r"C:\s\a", r"C:\s\z");
    assert_eq!(c.known_files_in_folder(r"C:\s"), vec![(r"C:\s\z".to_string(), 5, 10)]);
    c.record_dehydration(r"C:\s\z");
    assert_eq!(c.total_cached_bytes(), 0);
    c.remove_known_file(r"C:\s\z");
    assert_eq!(c.known_files().len(), 0);
    assert_eq!(c.last_connected_at(), None);
    c.update_last_connected(9);
    assert_eq!(c.last_connected_at(), Some(9));
    c.reset();
    assert_eq!(c.last_connected_at(), None);
}

#[test]
fn visited_folders_are_remembered() {
    let mut c = CacheIndex::new(0);
    c.ensure_visited_folder("n", "c");
    c.update_folder_mtime("n", 5);
    c.ensure_visited_folder("n", "other");
    c.update_folder_mtime("unknown", 5);
    assert_eq!(c.visited_folders().len(), 1);
    let row = c.visited_folders().row_at(0);
    assert_eq!((row.client_path.as_str(), row.mtime), ("c", 5));
    c.record_visited_folder("n", "d", 6);
    assert_eq!(c.visited_folders().row_at(0).client_path, "d");
}

#[test]
fn the_budget_is_kept_when_asked() {
    let mut c = MacosCache::new(100);
    c.record_enumeration("", &vec![entry("a", false, 40, 0), entry("b", false, 40, 0)], 0);
    c.record_hydration("a", 60, 10);
    c.record_hydration("b", 30, 20);
    c.queue_eviction_if_hydrated("b");
    assert_eq!(c.evict_over_budget_now(), vec!["b".to_string()]);
    assert_eq!(c.total_cached_bytes(), 90);
    assert!(c.evict_over_budget_now().is_empty());
}

#[test]
fn older_indexes_are_taken_over() {
    let mut c = CacheIndex::new(0);
    c.record_known_file("a", 5, 50);
    let older = vec![("a".to_string(), 7, 1), ("b".to_string(), 9, 2), ("b".to_string(), 8, 3)];
    c.take_over_older(&older);
    assert_eq!(c.total_cached_bytes(), 9);
    let rows = c.known_files();
    assert_eq!(rows.len(), 2);
    assert_eq!((rows.row_at(0).nas_size, rows.row_at(0).is_hydrated), (5, false));
    let b = rows.row_at(1);
    assert_eq!((b.path.as_str(), b.nas_size, b.nas_mtime), ("b", 9, 0));
    assert_eq!((b.is_hydrated, b.hydrated_size, b.last_accessed), (true, 9, 2));
}

#[test]
fn eviction_goes_down_to_the_target() {
    let mut c = CacheIndex::new(100);
    c.index_content("a", 50, 1);
    c.index_content("b", 50, 2);
    assert!(Eviction::start(&c).is_none());
    c.index_content("c", 30, 3);
    let mut e = Eviction::start(&c).unwrap();
    let open = vec!["a".to_string()];
    let first = e.next(&c, &open).unwrap();
    assert_eq!(first, "b");
    e.on_tried(&mut c, &first, false);
    let second = e.next(&c, &open).unwrap();
    assert_eq!(second, "c");
    e.on_tried(&mut c, &second, true);
    assert_eq!(c.total_cached_bytes(), 100);
    assert!(e.next(&c, &open).is_none());
    let third = e.next(&c, &vec![]).unwrap();
    assert_eq!(third, "a");
    e.on_tried(&mut c, &third, true);
    assert_eq!(c.total_cached_bytes(), 50);
    assert!(e.next(&c, &vec![]).is_none());
    assert_eq!(c.clear_all(&vec![true]), (1, 50));
}

#[test]
fn databases_have_places() {
    let env = |platform, home: Option<&str>, local: Option<&str>| Environment {
        platform,
        home: home.map(|s| s.to_string()),
        local_app_data: local.map(|s| s.to_string()),
        runtime_dir: None,
        config_home: None,
        user: None,
    };
    let w = env(Platform::Windows, None, Some(r"C:\Local"));
    assert_eq!(index_file(&w, "m").1, r"C:\Local\ufb\cache\m.db");
    assert_eq!(index_file(&env(Platform::Windows, None, None), "m").0, r"C:\ufb\cache");
    let m = env(Platform::Macos, Some("/Users/u"), None);
    assert_eq!(cache_file(&m, "media").1, "/Users/u/.local/share/ufb/cache/media.db");
    assert_eq!(cache_file(&env(Platform::Macos, None, None), "media").1, "/tmp/ufb-cache/media.db");
    assert!(!needs_repair(true, true, Some("ok")));
    assert!(needs_repair(true, true, Some("row 3 missing")));
    assert!(needs_repair(true, true, None));
    assert!(needs_repair(true, false, Some("ok")));
    assert!(needs_repair(false, true, Some("ok")));
}
