use mediamount_agent::cache_core::CachedAttr;
use mediamount_agent::macos_cache::MacosCache;
use mediamount_agent::messages::DirEntry;
use mediamount_agent::nfs::{
    at_end, attr_from_cache, bind_address, cached_attr, io_to_nfsstat, read_page,
    sort_entries, visible_entries, AttrLookup, FsErrorKind, IdTable, Lookup, NfsEntry, NfsError,
    NfsTime, PassthroughFs,
};

fn attr(size: u64) -> CachedAttr {
    CachedAttr {
        is_dir: false,
        size,
        mtime: 1_700_000_000_250_000,
        created: 1_600_000_000_000_000,
        is_hydrated: false,
        hydrated_size: 0,
    }
}

fn entry(name: &str, is_dir: bool, size: u64) -> DirEntry {
    DirEntry { name: name.to_string(), is_dir, size, modified: 2_000_000, created: 1_000_000 }
}

fn listed(id: u64, name: &str) -> NfsEntry {
    NfsEntry { fileid: id, name: name.to_string(), attr: attr_from_cache(id, &attr(1)) }
}

fn names(v: &[NfsEntry]) -> Vec<String> {
    v.iter().map(|e| e.name.clone()).collect()
}

#[test]
fn servers_listen_on_the_local_host() {
    assert_eq!(bind_address(12_348), "127.0.0.1:12348");
}

#[test]
fn handles_are_stable() {
    let mut t = IdTable::new(String::new());
    assert_eq!(t.find(""), Some(1));
    let a = t.get_or_insert("a");
    assert_eq!(a, 2);
    assert_eq!(t.get_or_insert("b"), 3);
    assert_eq!(t.get_or_insert("a"), a);
    assert_eq!(t.find("c"), None);
    assert_eq!(t.path(a).map(|p| p.as_str()), Some("a"));
    assert_eq!(t.path(0), None);
    assert_eq!(t.path(4), None);
}

#[test]
fn errors_are_told_apart() {
    assert_eq!(io_to_nfsstat(FsErrorKind::NotFound), NfsError::NoEntry);
    assert_eq!(io_to_nfsstat(FsErrorKind::PermissionDenied), NfsError::Access);
    assert_eq!(io_to_nfsstat(FsErrorKind::AlreadyExists), NfsError::Exists);
    assert_eq!(io_to_nfsstat(FsErrorKind::Other), NfsError::Io);
}

#[test]
fn attributes_come_from_the_cache() {
    let a = attr_from_cache(7, &attr(99));
    assert_eq!((a.fileid, a.size, a.used, a.mode, a.nlink), (7, 99, 99, 0o644, 1));
    assert_eq!((a.uid, a.gid), (501, 20));
    assert_eq!(a.mtime, NfsTime { seconds: 1_700_000_000, nseconds: 250_000_000 });
    assert_eq!(a.atime, a.mtime);
    assert_eq!(a.ctime, NfsTime { seconds: 1_600_000_000, nseconds: 0 });
    let dir = attr_from_cache(8, &CachedAttr { is_dir: true, ..attr(0) });
    assert_eq!((dir.is_dir, dir.size, dir.mode, dir.nlink), (true, 4_096, 0o755, 2));
    let held = attr_from_cache(9, &CachedAttr { is_hydrated: true, hydrated_size: 40, ..attr(99) });
    assert_eq!((held.size, held.used), (99, 40));
}

#[test]
fn ends_of_files() {
    assert!(!at_end(0, 9, 10));
    assert!(at_end(0, 10, 10));
    assert!(at_end(20, 0, 10));
    assert!(at_end(u64::MAX, usize::MAX, 10));
}

#[test]
fn hidden_entries_are_not_listed() {
    let all = vec![entry(".DS_Store", false, 1), entry("a", false, 1), entry("@eaDir", true, 0)];
    let shown = visible_entries(&all);
    assert_eq!(shown.len(), 1);
    assert_eq!(shown[0].name, "a");
}

#[test]
fn pages_join_up() {
    let all = sort_entries(vec![listed(4, "c"), listed(2, "a"), listed(3, "b"), listed(5, "B")]);
    assert_eq!(names(&all), vec!["B", "a", "b", "c"]);
    let (first, end) = read_page(&all, 0, 2);
    assert_eq!((names(&first), end), (vec!["B".to_string(), "a".to_string()], false));
    let (second, end) = read_page(&all, first[1].fileid, 2);
    assert_eq!((names(&second), end), (vec!["b".to_string(), "c".to_string()], true));
    let (nothing, end) = read_page(&all, 4, 2);
    assert!(nothing.is_empty() && end);
}

#[test]
fn lookups_ask_for_a_listing_first() {
    let mut cache = MacosCache::new(0);
    let mut fs = PassthroughFs::new("/Volumes/m".to_string());
    assert_eq!(fs.root_dir(), 1);
    assert!(matches!(fs.lookup(&cache, 9, "a"), Lookup::Stale));
    match fs.lookup(&cache, 1, "a") {
        Lookup::List { folder, child } => assert_eq!((folder.as_str(), child.as_str()), ("", "a")),
        _ => panic!("nothing is known yet"),
    }
    assert_eq!(fs.lookup_listed(&cache, "a"), Err(NfsError::NoEntry));
    cache.record_enumeration("", &vec![entry("a", true, 0), entry("f", false, 8)], 5);
    let id = match fs.lookup(&cache, 1, "a") {
        Lookup::Found(id) => id,
        _ => panic!("the entry is known"),
    };
    assert_eq!(fs.rel_path(id), Ok("a".to_string()));
    assert_eq!(fs.lookup_listed(&cache, "a"), Ok(id));
    assert_eq!(fs.rel_path(77), Err(NfsError::Stale));
    assert_eq!(fs.absolute("a"), "/Volumes/m/a");
    assert_eq!(fs.absolute(""), "/Volumes/m");
}

#[test]
fn attributes_and_children_of_known_entries() {
    let mut cache = MacosCache::new(0);
    cache.record_enumeration("", &vec![entry("f", false, 8), entry("a", true, 0)], 5);
    let mut fs = PassthroughFs::new("/Volumes/m".to_string());
    let children = fs.list_children(&cache, "");
    assert_eq!(names(&children), vec!["a", "f"]);
    assert!(matches!(fs.getattr(&cache, 1), AttrLookup::Root));
    assert!(matches!(fs.getattr(&cache, 50), AttrLookup::Stale));
    match fs.getattr(&cache, children[1].fileid) {
        AttrLookup::Found(a) => assert_eq!((a.size, a.mtime.seconds), (8, 2)),
        _ => panic!("the entry is known"),
    }
    cache.remove_known_file("f");
    match fs.getattr(&cache, children[1].fileid) {
        AttrLookup::List { folder } => assert_eq!(folder, ""),
        _ => panic!("the entry is gone"),
    }
    assert_eq!(cached_attr(&cache, "f"), None);
    assert_eq!(cached_attr(&cache, "a").map(|a| a.is_dir), Some(true));
}

#[test]
fn kept_handles_are_given_again() {
    let mut cache = MacosCache::new(0);
    cache.record_enumeration("", &vec![entry("f", false, 8), entry("a", true, 0)], 5);
    let mut fs = PassthroughFs::new("/Volumes/m".to_string());
    let children = fs.list_children(&cache, "");
    assert_eq!(fs.handle_count(), 3);
    let kept: Vec<String> = (1..=3).map(|id| fs.rel_path(id).unwrap()).collect();
    let mut again = PassthroughFs::new("/Volumes/m".to_string());
    for path in &kept {
        again.handle_of(path);
    }
    assert_eq!(again.handle_count(), 3);
    for child in children {
        assert_eq!(again.rel_path(child.fileid), Ok(child.name));
    }
}
