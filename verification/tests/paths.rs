use mediamount_agent::paths::{
    file_name, join, parent_of_path, parts_of, strip_prefix, with_file_name, Part, Platform,
};
use std::path::{Path, PathBuf};

const SAMPLES: [&str; 22] = [
    "", "/", "a", "/a", "a/", "//a//b//", "/a/./b", "./a", ".", "..", "../a", "/a/..", "/a/../b",
    "/a/.", "a/./.", ".hidden", "/.hidden", "a..b", "/a/b.c/", "/./a", "././a", "/a/b/c/d",
];

fn text(p: &Path) -> String {
    p.to_str().unwrap().to_string()
}

#[test]
fn unix_paths_are_taken_as_std_takes_them() {
    for s in SAMPLES {
        let p = Path::new(s);
        let name = p.file_name().map(|n| n.to_str().unwrap()).unwrap_or("");
        assert_eq!(file_name(Platform::Linux, s), name, "name of {:?}", s);
        let parent = p.parent().map(text);
        assert_eq!(parent_of_path(Platform::Linux, s), parent, "parent of {:?}", s);
        assert_eq!(
            PathBuf::from(with_file_name(Platform::Linux, s, "x.y")),
            p.with_file_name("x.y"),
            "sibling of {:?}",
            s
        );
        assert_eq!(parts_of(Platform::Linux, s).len(), p.components().count(), "parts of {:?}", s);
        for base in SAMPLES {
            let below = p.strip_prefix(base).ok().map(text);
            assert_eq!(strip_prefix(Platform::Linux, base, s), below, "{:?} below {:?}", s, base);
            assert_eq!(join(Platform::Linux, base, s), text(&Path::new(base).join(s)));
        }
    }
}

#[test]
fn windows_paths_are_compared_by_parts() {
    let below = |root: &str, path: &str| strip_prefix(Platform::Windows, root, path);
    let f = Some("f".to_string());
    assert_eq!(below(r"C:\s", r"c:\s\f"), f);
    assert_eq!(below(r"C:\s", "C:/s/f"), f);
    assert_eq!(below(r"C:\s\", r"C:\\s\.\f\"), f);
    assert_eq!(below(r"C:\s", r"C:\S\f"), None);
    assert_eq!(below(r"C:\s", r"C:s\f"), None);
    assert_eq!(below(r"C:\s", r"D:\s\f"), None);
    assert_eq!(below(r"C:\s", r"C:\sf"), None);
    assert_eq!(below(r"\\nas\media", r"\\nas\media\f"), f);
    assert_eq!(below(r"\\nas\media\", r"\\nas\media/f"), f);
    assert_eq!(below(r"\\nas\media", r"\\nas\other\f"), None);
    assert_eq!(below(r"C:\s", r"C:\s\a\b"), Some(r"a\b".to_string()));
}

#[test]
fn windows_names_and_parents() {
    let name = |p: &str| file_name(Platform::Windows, p);
    let parent = |p: &str| parent_of_path(Platform::Windows, p);
    assert_eq!(name("C:"), "");
    assert_eq!(name(r"C:\"), "");
    assert_eq!(name("C:f"), "f");
    assert_eq!(name(r"C:\a\.."), "");
    assert_eq!(name(r"C:\a\.\"), "a");
    assert_eq!(name(r"\\nas\media"), "");
    assert_eq!(name(r"\\nas\media\f"), "f");
    assert_eq!(parent(r"C:\a\b"), Some(r"C:\a".to_string()));
    assert_eq!(parent(r"C:\a"), Some(r"C:\".to_string()));
    assert_eq!(parent(r"C:\"), None);
    assert_eq!(parent(r"\\nas\media\f"), Some(r"\\nas\media\".to_string()));
    assert_eq!(with_file_name(Platform::Windows, r"C:\a\b", "c"), r"C:\a\c");
    assert_eq!(with_file_name(Platform::Windows, r"C:\b", "c"), r"C:\c");
}

#[test]
fn the_parts_of_a_windows_path() {
    let parts = parts_of(Platform::Windows, r"c:\a\..\.\b/");
    assert_eq!(parts.len(), 5);
    assert!(matches!(parts[0], Part::Drive(2)));
    assert!(matches!(parts[1], Part::Root));
    assert!(matches!(&parts[2], Part::Name(n) if n == "a"));
    assert!(matches!(parts[3], Part::Above));
    assert!(matches!(&parts[4], Part::Name(n) if n == "b"));
    let share = parts_of(Platform::Windows, r"\\nas\media");
    assert!(matches!(&share[0], Part::Server(s, m) if s == "nas" && m == "media"));
    assert!(matches!(share[1], Part::Root));
    assert_eq!(share.len(), 2);
    assert!(matches!(parts_of(Platform::Linux, "./a")[0], Part::Here));
}
