use mediamount_agent::conflict::{
    epoch_to_ymdhms, format_timestamp_compact, hostname_short, make_conflict_path,
};
use mediamount_agent::paths::{file_name, join, strip_prefix, with_file_name, Platform};

#[test]
fn the_epoch_is_the_first_of_january() {
    assert_eq!(epoch_to_ymdhms(0), (1970, 1, 1, 0, 0, 0));
    assert_eq!(format_timestamp_compact(0), "19700101-000000");
}

#[test]
fn leap_days_are_counted() {
    assert_eq!(epoch_to_ymdhms(951_782_400), (2000, 2, 29, 0, 0, 0));
    assert_eq!(epoch_to_ymdhms(951_868_800), (2000, 3, 1, 0, 0, 0));
    assert_eq!(epoch_to_ymdhms(4_107_542_399), (2100, 2, 28, 23, 59, 59));
    assert_eq!(epoch_to_ymdhms(4_107_542_400), (2100, 3, 1, 0, 0, 0));
    assert_eq!(epoch_to_ymdhms(1_709_251_199), (2024, 2, 29, 23, 59, 59));
}

#[test]
fn times_of_day_are_padded() {
    assert_eq!(format_timestamp_compact(1_700_000_000), "20231114-221320");
    assert_eq!(format_timestamp_compact(1_735_693_509), "20250101-010509");
}

#[test]
fn host_names_lose_their_domain() {
    assert_eq!(hostname_short("studio.example.com"), "studio");
    assert_eq!(hostname_short("studio"), "studio");
    assert_eq!(hostname_short(""), "");
}

#[test]
fn sidecars_keep_directory_and_extension() {
    assert_eq!(
        make_conflict_path(Platform::Macos, "/Volumes/a/shot.mov", "studio", 0),
        "/Volumes/a/shot.conflict-studio-19700101-000000.mov"
    );
    assert_eq!(
        make_conflict_path(Platform::Windows, r"\\nas\a\shot.v1.mov", "studio", 0),
        r"\\nas\a\shot.v1.conflict-studio-19700101-000000.mov"
    );
}

#[test]
fn sidecars_of_odd_names() {
    assert_eq!(
        make_conflict_path(Platform::Linux, "/a/README", "h", 0),
        "/a/README.conflict-h-19700101-000000"
    );
    assert_eq!(
        make_conflict_path(Platform::Linux, "/a/.profile", "h", 0),
        "/a/.profile.conflict-h-19700101-000000"
    );
    assert_eq!(
        make_conflict_path(Platform::Linux, "/a/b/", "h", 0),
        "/a/b.conflict-h-19700101-000000"
    );
    assert_eq!(
        make_conflict_path(Platform::Linux, "/", "h", 0),
        "/file.conflict-h-19700101-000000"
    );
    assert_eq!(
        make_conflict_path(Platform::Linux, "notes.", "h", 0),
        "notes.conflict-h-19700101-000000."
    );
}

#[test]
fn last_parts_of_paths() {
    assert_eq!(file_name(Platform::Windows, r"C:\a\b.txt"), "b.txt");
    assert_eq!(file_name(Platform::Windows, "C:/a/b.txt"), "b.txt");
    assert_eq!(file_name(Platform::Linux, r"/a/b\c"), r"b\c");
    assert_eq!(file_name(Platform::Linux, "/a/b//"), "b");
    assert_eq!(with_file_name(Platform::Linux, "/a/b", "c"), "/a/c");
    assert_eq!(with_file_name(Platform::Linux, "b", "c"), "c");
}

#[test]
fn paths_below_a_root() {
    assert_eq!(strip_prefix(Platform::Linux, "/a", "/a/b/c"), Some("b/c".to_string()));
    assert_eq!(strip_prefix(Platform::Linux, "/a/", "/a/b"), Some("b".to_string()));
    assert_eq!(strip_prefix(Platform::Linux, "/a", "/a"), Some(String::new()));
    assert_eq!(strip_prefix(Platform::Linux, "/a", "/ab"), None);
    assert_eq!(strip_prefix(Platform::Linux, "/a/b", "/a"), None);
    assert_eq!(strip_prefix(Platform::Linux, "", "x"), Some("x".to_string()));
    assert_eq!(
        strip_prefix(Platform::Windows, r"C:\root", r"C:\root\x\y"),
        Some(r"x\y".to_string())
    );
    let joined = join(Platform::Linux, "/a", "b/c");
    assert_eq!(strip_prefix(Platform::Linux, "/a", &joined), Some("b/c".to_string()));
}
