use mediamount_agent::notifications::{
    client_event, is_internal_path, nas_change, parse_notifications, should_process, NasChange,
    NasChangeKind, Notification,
};
use mediamount_agent::write_through::{ClientFsEvent, EchoSuppressor};

fn record(next: u32, action: u32, name: &str) -> Vec<u8> {
    let units: Vec<u16> = name.encode_utf16().collect();
    let mut out = Vec::new();
    out.extend_from_slice(&next.to_le_bytes());
    out.extend_from_slice(&action.to_le_bytes());
    out.extend_from_slice(&((units.len() * 2) as u32).to_le_bytes());
    for u in units {
        out.extend_from_slice(&u.to_le_bytes());
    }
    while out.len() % 4 != 0 || out.len() < 16 {
        out.push(0);
    }
    out
}

fn note(action: u32, name: &str) -> Notification {
    Notification { action, name: name.to_string() }
}

#[test]
fn records_are_read_in_order() {
    let first = record(0, 1, r"a\b.mov");
    let mut buffer = record(first.len() as u32, 1, r"a\b.mov");
    buffer.extend(record(0, 2, "é€\u{1F600}"));
    let n = buffer.len();
    buffer.resize(n + 64, 7);
    assert_eq!(parse_notifications(&buffer, n), vec![note(1, r"a\b.mov"), note(2, "é€\u{1F600}")]);
}

#[test]
fn a_zero_link_ends_the_list() {
    let mut buffer = record(0, 3, "only");
    buffer.extend(record(0, 3, "never"));
    let n = buffer.len();
    assert_eq!(parse_notifications(&buffer, n), vec![note(3, "only")]);
}

#[test]
fn broken_records_end_the_list() {
    let buffer = record(0, 1, "abc");
    assert!(parse_notifications(&buffer, 8).is_empty());
    assert!(parse_notifications(&Vec::new(), 100).is_empty());
    let mut long = record(0, 1, "abc");
    long[8] = 255;
    let n = long.len();
    assert!(parse_notifications(&long, n).is_empty());
    let far = record(4_000_000_000, 1, "abcd");
    let n = far.len();
    assert_eq!(parse_notifications(&far, n), vec![note(1, "abcd")]);
}

#[test]
fn some_changes_are_never_uploaded() {
    assert!(should_process(r"a\b.mov"));
    assert!(!should_process(r"a\.b.mov.~sync.H"));
    assert!(!should_process(r"a\~$b.doc"));
    assert!(!should_process(r"a\b.tmp"));
    assert!(!should_process(r"a\#b"));
    assert!(!should_process(r"a\@b"));
    assert!(should_process(r"@a\b"));
}

#[test]
fn changes_of_the_sync_root_become_events() {
    let path = r"C:\sync\a\b.mov".to_string();
    for action in [1, 3, 5] {
        let e = client_event(&note(action, r"a\b.mov"), r"C:\sync", 0x20);
        assert_eq!(e, Some(ClientFsEvent::Modified(path.clone())));
        assert_eq!(client_event(&note(action, r"a\b.mov"), r"C:\sync", 0x10), None);
        assert_eq!(client_event(&note(action, r"a\b.mov"), r"C:\sync", u32::MAX), None);
    }
    for action in [2, 4] {
        let e = client_event(&note(action, r"a\b.mov"), r"C:\sync", u32::MAX);
        assert_eq!(e, Some(ClientFsEvent::Removed(path.clone())));
    }
    assert_eq!(client_event(&note(9, r"a\b.mov"), r"C:\sync", 0x20), None);
    assert_eq!(client_event(&note(1, r"a\b.tmp"), r"C:\sync", 0x20), None);
}

#[test]
fn internal_paths_are_recognised_anywhere() {
    assert!(is_internal_path(r"a\@eaDir\b"));
    assert!(is_internal_path(r"#recycle\b"));
    assert!(is_internal_path(r"a\.b.~sync.H"));
    assert!(!is_internal_path(r"a\b"));
}

#[test]
fn changes_of_the_server_become_changes_of_the_root() {
    let mut echo = EchoSuppressor::new();
    let change = |kind, echo: &mut EchoSuppressor, action| {
        let c = nas_change(&note(action, r"a\b\c.mov"), r"\\nas\m", r"C:\sync", echo, 0);
        assert_eq!(
            c,
            Some(NasChange {
                kind,
                nas_path: r"\\nas\m\a\b\c.mov".to_string(),
                client_dir: r"C:\sync\a\b".to_string(),
                file_name: "c.mov".to_string(),
            })
        );
    };
    change(NasChangeKind::Appeared, &mut echo, 1);
    change(NasChangeKind::Appeared, &mut echo, 5);
    change(NasChangeKind::Gone, &mut echo, 2);
    change(NasChangeKind::Gone, &mut echo, 4);
    change(NasChangeKind::Written, &mut echo, 3);
    let top = nas_change(&note(1, "c.mov"), r"\\nas\m", r"C:\sync", &mut echo, 0);
    assert_eq!(top.map(|c| c.client_dir), Some(r"C:\sync".to_string()));
}

#[test]
fn own_uploads_are_no_changes() {
    let mut echo = EchoSuppressor::new();
    echo.suppress(r"\\nas\m\c.mov", 1_000);
    assert_eq!(nas_change(&note(1, "c.mov"), r"\\nas\m", r"C:\sync", &mut echo, 2_000), None);
    assert!(nas_change(&note(1, "d.mov"), r"\\nas\m", r"C:\sync", &mut echo, 2_000).is_some());
    assert!(nas_change(&note(1, "c.mov"), r"\\nas\m", r"C:\sync", &mut echo, 6_000).is_some());
    assert_eq!(nas_change(&note(1, r"@x\c"), r"\\nas\m", r"C:\sync", &mut echo, 6_000), None);
    assert_eq!(nas_change(&note(8, "c"), r"\\nas\m", r"C:\sync", &mut echo, 6_000), None);
}

#[test]
fn names_at_the_edge_are_taken_by_parts() {
    let mut echo = EchoSuppressor::new();
    let mut place = |name: &str| {
        let c = nas_change(&note(1, name), r"\\nas\m\root", r"C:\sync", &mut echo, 0).unwrap();
        (c.client_dir, c.file_name)
    };
    let pair = |dir: &str, name: &str| (dir.to_string(), name.to_string());
    assert_eq!(place(r"a\b\"), pair(r"C:\sync\a", "b"));
    assert_eq!(place(r"a/b"), pair(r"C:\sync\a", "b"));
    assert_eq!(place(r"a\\b"), pair(r"C:\sync\a", "b"));
    assert_eq!(place(""), pair(r"C:\", "root"));
}

#[test]
fn halves_of_pairs_are_replaced() {
    let decoded = |units: &[u16]| {
        let mut buffer = vec![0, 0, 0, 0, 1, 0, 0, 0];
        buffer.extend_from_slice(&((units.len() * 2) as u32).to_le_bytes());
        for u in units {
            buffer.extend_from_slice(&u.to_le_bytes());
        }
        buffer.resize(buffer.len() + 4, 0);
        let n = buffer.len();
        let text = parse_notifications(&buffer, n)[0].name.clone();
        assert_eq!(text, String::from_utf16_lossy(units));
        text
    };
    assert_eq!(decoded(&[0x61, 0xD83D, 0xDE00]), "a\u{1F600}");
    assert_eq!(decoded(&[0xD83D, 0x61]), "\u{FFFD}a");
    assert_eq!(decoded(&[0xDE00, 0xD83D]), "\u{FFFD}\u{FFFD}");
    assert_eq!(decoded(&[0xD83D, 0xD83D, 0xDE00]), "\u{FFFD}\u{1F600}");
}
