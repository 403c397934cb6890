use mediamount_agent::cache_core::CachedAttr;
use mediamount_agent::paths::{Environment, Platform};
use mediamount_agent::winfsp::{
    check_writable, create_error, creates_dir, get_file_info, get_security, get_security_by_name,
    list_directory, micros_to_filetime, mount_point_for, next_source, path_to_index_number,
    populate_file_info, populate_file_info_from_cached, prepare_mount_point, read_source,
    secs_to_filetime, write_position, CleanupStep, ClearStep, FileMeta, FsStatus, OpenCtx,
    PassthroughFs, ReadSource,
};

fn meta(is_dir: bool) -> FileMeta {
    FileMeta { is_dir, len: 10, created: 1, modified: 2, accessed: 3 }
}

fn cached(is_dir: bool) -> CachedAttr {
    CachedAttr {
        is_dir,
        size: 10,
        mtime: 2_000_000,
        created: 1_000_000,
        is_hydrated: false,
        hydrated_size: 0,
    }
}

fn fs() -> PassthroughFs {
    PassthroughFs::new("media".to_string(), r"\\nas\media".to_string())
}

#[test]
fn statuses_have_codes() {
    assert_eq!(FsStatus::NameNotFound.ntstatus(), 0xC000_0034u32 as i32);
    assert_eq!(FsStatus::AccessDenied.ntstatus(), 0xC000_0022u32 as i32);
    assert_eq!(FsStatus::BufferOverflow.ntstatus(), 0x8000_0005u32 as i32);
    assert_eq!(FsStatus::NameCollision.ntstatus(), 0xC000_0035u32 as i32);
    assert_eq!(FsStatus::DiskFull.ntstatus(), 0xC000_007Fu32 as i32);
}

#[test]
fn drives_are_mounted_among_the_volumes() {
    let env = Environment {
        platform: Platform::Windows,
        home: None,
        local_app_data: None,
        runtime_dir: None,
        config_home: None,
        user: None,
    };
    assert_eq!(mount_point_for(&env, "media"), r"C:\Volumes\ufb\media");
    assert_eq!(prepare_mount_point(true, true), ClearStep::RemoveLink);
    assert_eq!(prepare_mount_point(false, true), ClearStep::RemoveDir);
    assert_eq!(prepare_mount_point(false, false), ClearStep::Nothing);
}

#[test]
fn index_numbers_are_hashes() {
    assert_eq!(path_to_index_number(""), 0xcbf2_9ce4_8422_2325 & 0x7FFF_FFFF_FFFF_FFFF);
    assert_eq!(path_to_index_number("a"), 0xaf63_dc4c_8601_ec8c & 0x7FFF_FFFF_FFFF_FFFF);
    assert_eq!(path_to_index_number("foobar"), 0x8594_4171_f739_67e8 & 0x7FFF_FFFF_FFFF_FFFF);
    assert_ne!(path_to_index_number("é"), path_to_index_number("e"));
}

#[test]
fn times_count_from_1601() {
    assert_eq!(secs_to_filetime(0), 116_444_736_000_000_000);
    assert_eq!(secs_to_filetime(1), 116_444_736_010_000_000);
    assert_eq!(secs_to_filetime(u64::MAX), u64::MAX);
    assert_eq!(micros_to_filetime(1_999_999), 116_444_736_010_000_000);
    assert_eq!(micros_to_filetime(-5_000_000), 116_444_736_000_000_000);
}

#[test]
fn answers_about_entries() {
    let live = populate_file_info(&meta(false), "a");
    assert_eq!((live.file_attributes, live.file_size, live.allocation_size), (0x20, 10, 10));
    assert_eq!(live.creation_time, secs_to_filetime(1));
    assert_eq!(live.change_time, secs_to_filetime(2));
    assert_eq!(live.last_access_time, secs_to_filetime(3));
    let known = populate_file_info_from_cached(&cached(true), "a");
    assert_eq!(known.file_attributes, 0x10);
    assert_eq!(known.last_write_time, secs_to_filetime(2));
    assert_eq!(known.index_number, live.index_number);
    assert_eq!(get_file_info(Some(cached(true)), Some(meta(false)), "a"), Ok(known));
    assert_eq!(get_file_info(None, Some(meta(false)), "a"), Ok(live));
    assert_eq!(get_file_info(None, None, "a"), Err(FsStatus::NameNotFound));
}

#[test]
fn descriptors_need_room() {
    assert_eq!(get_security(40, None), Ok(40));
    assert_eq!(get_security(40, Some(40)), Ok(40));
    assert_eq!(get_security(40, Some(39)), Err(FsStatus::BufferOverflow));
    assert_eq!(get_security_by_name(Some(true), None, 40, None), Ok((0x10, 40)));
    assert_eq!(get_security_by_name(None, Some(false), 40, Some(64)), Ok((0x20, 40)));
    assert_eq!(get_security_by_name(None, None, 40, None), Err(FsStatus::NameNotFound));
    assert_eq!(
        get_security_by_name(Some(true), None, 40, Some(1)),
        Err(FsStatus::BufferOverflow)
    );
}

#[test]
fn creation_tells_kinds_apart() {
    assert_eq!(create_error(true), FsStatus::NameCollision);
    assert_eq!(create_error(false), FsStatus::DiskFull);
    assert!(creates_dir(1, 0));
    assert!(creates_dir(0, 0x10));
    assert!(!creates_dir(0x40, 0x80));
}

#[test]
fn reads_fall_back_to_the_server() {
    let held = CachedAttr { is_hydrated: true, ..cached(false) };
    assert_eq!(read_source(true, None, false), Err(FsStatus::AccessDenied));
    assert_eq!(read_source(false, Some(held), true), Ok(ReadSource::CacheFile));
    assert_eq!(read_source(false, Some(cached(false)), true), Ok(ReadSource::Chunks));
    assert_eq!(read_source(false, Some(held), false), Ok(ReadSource::Server));
    assert_eq!(read_source(false, None, true), Ok(ReadSource::Server));
    assert_eq!(next_source(ReadSource::CacheFile), Ok(ReadSource::Chunks));
    assert_eq!(next_source(ReadSource::Chunks), Ok(ReadSource::Server));
    assert_eq!(next_source(ReadSource::Server), Err(FsStatus::AccessDenied));
}

#[test]
fn writes_go_to_their_place() {
    assert_eq!(write_position(true, Some(100), 5), 100);
    assert_eq!(write_position(false, Some(100), 5), 5);
    assert_eq!(write_position(true, None, 5), 5);
    assert_eq!(check_writable(false), Ok(()));
    assert_eq!(check_writable(true), Err(FsStatus::AccessDenied));
}

#[test]
fn deletion_waits_for_cleanup() {
    let mut c = OpenCtx::new("x".to_string(), false);
    assert_eq!(c.cleanup(), CleanupStep::Nothing);
    c.set_delete(true);
    assert_eq!(c.cleanup(), CleanupStep::RemoveFile);
    c.set_delete(false);
    assert_eq!(c.cleanup(), CleanupStep::Nothing);
    let mut d = OpenCtx::new("x".to_string(), true);
    d.set_delete(true);
    assert_eq!(d.cleanup(), CleanupStep::RemoveDir);
}

#[test]
fn listings_hold_the_dots() {
    let children = vec![("f".to_string(), cached(false))];
    let root = list_directory("", Some(cached(true)), None, &children);
    let names: Vec<&str> = root.iter().map(|i| i.name.as_str()).collect();
    assert_eq!(names, vec![".", "f"]);
    let below = list_directory("a/b", Some(cached(true)), None, &children);
    let names: Vec<&str> = below.iter().map(|i| i.name.as_str()).collect();
    assert_eq!(names, vec![".", "..", "f"]);
    assert_eq!(below[0].info.index_number, path_to_index_number("a/b"));
    assert_eq!(below[1].info.index_number, path_to_index_number("a"));
    assert_eq!(below[2].info.index_number, path_to_index_number("a/b/f"));
    assert!(list_directory("a", None, None, &vec![]).is_empty());
}

#[test]
fn names_lead_to_paths_and_back() {
    let f = fs();
    assert_eq!(f.resolve(r"\a\b"), r"\\nas\media\a\b");
    assert_eq!(f.resolve(r"\"), r"\\nas\media");
    assert_eq!(PassthroughFs::rel_path(r"\a\b"), "a/b");
    assert_eq!(f.rel_from_abs(r"\\nas\media\a\b"), "a/b");
    assert_eq!(f.rel_from_abs(r"\\nas\media"), "");
    assert_eq!(f.rel_from_abs(r"D:\x"), "");
    assert_eq!(f.rel_from_abs(&f.resolve(r"\a\b")), PassthroughFs::rel_path(r"\a\b"));
}

#[test]
fn opening_needs_an_entry() {
    let f = fs();
    assert!(matches!(f.open(r"\a", None, true), Err(FsStatus::NameNotFound)));
    assert!(matches!(f.open(r"\a", Some(meta(false)), false), Err(FsStatus::AccessDenied)));
    let (ctx, info) = match f.open(r"\a", Some(meta(true)), false) {
        Ok(r) => r,
        Err(_) => panic!("a directory opens"),
    };
    assert_eq!((ctx.abs.as_str(), ctx.is_dir), (r"\\nas\media\a", true));
    assert_eq!(info.index_number, path_to_index_number("a"));
}

#[test]
fn renames_do_not_overwrite_by_accident() {
    let f = fs();
    assert_eq!(f.rename(r"\a", r"\b", false, true), Err(FsStatus::NameCollision));
    assert_eq!(
        f.rename(r"\a", r"\b\c", true, true),
        Ok((
            r"\\nas\media\a".to_string(),
            r"\\nas\media\b\c".to_string(),
            Some(("a".to_string(), "b/c".to_string()))
        ))
    );
    assert!(matches!(f.rename(r"\", r"\b", false, false), Ok((_, _, None))));
}

#[test]
fn changed_files_get_a_sidecar() {
    let f = fs();
    let abs = r"\\nas\media\a\f.mov";
    let sidecar = |live, known| f.conflict_sidecar("a/f.mov", abs, live, known, "pc.local", 0);
    assert!(sidecar(Some((10, 2)), Some(cached(false))).is_none());
    assert!(sidecar(Some((10, 4)), Some(cached(false))).is_none());
    assert!(sidecar(None, Some(cached(false))).is_none());
    assert!(sidecar(Some((11, 2)), None).is_none());
    let (path, msg) = match sidecar(Some((10, 5)), Some(cached(false))) {
        Some(r) => r,
        None => panic!("the file changed"),
    };
    assert_eq!(path, r"\\nas\media\a\f.conflict-pc-19700101-000000.mov");
    assert_eq!(msg.domain, "media");
    assert_eq!(msg.original_path, "a/f.mov");
    assert_eq!(msg.detected_at, 0);
    assert!(sidecar(Some((11, 2)), Some(cached(false))).is_some());
}
