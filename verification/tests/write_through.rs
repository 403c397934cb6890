use mediamount_agent::write_through::{
    cleaning_step, is_file, recovery_step, stamp_differs, to_nas_path, ClientFsEvent, Coordinator,
    EchoSuppressor, FileStamp, RecoveryStep, Upload, UploadEvent, UploadJob, UploadResult,
    UploadStep,
};

fn modified(p: &str) -> ClientFsEvent {
    ClientFsEvent::Modified(p.to_string())
}

fn removed(p: &str) -> ClientFsEvent {
    ClientFsEvent::Removed(p.to_string())
}

fn coordinator() -> Coordinator {
    Coordinator::new(r"C:\sync".to_string(), r"\\nas\media".to_string())
}

fn job() -> UploadJob {
    UploadJob {
        local_path: r"C:\sync\a\shot.mov".to_string(),
        nas_path: r"\\nas\media\a\shot.mov".to_string(),
    }
}

fn upload() -> Upload {
    Upload::new(job(), "STUDIO".to_string())
}

fn stamp(size: u64, secs: i64) -> FileStamp {
    FileStamp { size, modified: Some(secs * 1_000_000_000) }
}

#[test]
fn echoes_last_five_seconds() {
    let mut e = EchoSuppressor::new();
    e.suppress("x", 1_000);
    assert!(e.is_suppressed("x", 1_000));
    assert!(e.is_suppressed("x", 5_999));
    assert!(!e.is_suppressed("y", 5_999));
    assert!(!e.is_suppressed("x", 6_000));
    e.suppress("x", 7_000);
    assert!(e.is_suppressed("x", 8_000));
}

#[test]
fn uploads_wait_for_quiet() {
    let mut c = coordinator();
    assert!(!c.on_event(&modified(r"C:\sync\a\b.txt"), 0));
    assert!(c.check_deadlines(2_999).is_empty());
    assert!(!c.on_event(&modified(r"C:\sync\a\b.txt"), 2_000));
    assert!(c.check_deadlines(4_999).is_empty());
    let jobs = c.check_deadlines(5_000);
    assert_eq!(
        jobs,
        vec![UploadJob {
            local_path: r"C:\sync\a\b.txt".to_string(),
            nas_path: r"\\nas\media\a\b.txt".to_string(),
        }]
    );
    assert!(c.check_deadlines(9_000).is_empty());
}

#[test]
fn changes_cancel_running_uploads() {
    let mut c = coordinator();
    c.on_event(&modified(r"C:\sync\f"), 0);
    assert_eq!(c.check_deadlines(3_000).len(), 1);
    assert!(c.on_event(&modified(r"C:\sync\f"), 3_500));
    assert_eq!(c.check_deadlines(6_500).len(), 1);
    assert!(c.on_event(&removed(r"C:\sync\f"), 6_600));
    assert!(!c.on_event(&removed(r"C:\sync\f"), 6_700));
    assert!(c.check_deadlines(60_000).is_empty());
}

#[test]
fn conversions_are_not_uploaded_again() {
    let mut c = coordinator();
    let path = r"C:\sync\f".to_string();
    c.on_event(&modified(&path), 0);
    c.check_deadlines(3_000);
    let done = UploadResult::Success { local_path: path.clone(), nas_path: r"\\nas\media\f".into() };
    assert!(c.on_upload_result(&done, 4_000));
    assert!(!c.on_event(&modified(&path), 5_000));
    assert!(c.check_deadlines(60_000).is_empty());
    c.on_event(&modified(&path), 61_000);
    assert_eq!(c.check_deadlines(64_000).len(), 1);
    assert!(c.on_upload_result(&done, 65_000));
    c.on_event(&modified(&path), 67_000);
    assert_eq!(c.check_deadlines(70_000).len(), 1);
}

#[test]
fn failed_and_cancelled_uploads_convert_nothing() {
    let mut c = coordinator();
    let path = r"C:\sync\f".to_string();
    c.on_event(&modified(&path), 0);
    c.check_deadlines(3_000);
    assert!(!c.on_upload_result(&UploadResult::Cancelled { local_path: path.clone() }, 3_100));
    assert!(c.on_event(&modified(&path), 3_200));
    c.check_deadlines(6_200);
    let failed = UploadResult::Failed { local_path: path.clone(), error: "x".to_string() };
    assert!(!c.on_upload_result(&failed, 6_300));
    assert!(!c.on_event(&modified(&path), 6_400));
    c.check_deadlines(9_400);
    c.on_refused(&path);
    assert!(!c.on_event(&modified(&path), 9_500));
}

#[test]
fn local_paths_map_to_the_server() {
    assert_eq!(to_nas_path(r"C:\sync\a\b", r"C:\sync", r"\\nas\media"), r"\\nas\media\a\b");
    assert_eq!(to_nas_path(r"D:\else", r"C:\sync", r"\\nas\media"), "\\\\nas\\media\\");
}

#[test]
fn stamps_differ_by_size_or_three_seconds() {
    assert!(!stamp_differs(stamp(5, 10), stamp(5, 10)));
    assert!(!stamp_differs(stamp(5, 10), stamp(5, 12)));
    assert!(stamp_differs(stamp(5, 10), stamp(5, 13)));
    assert!(stamp_differs(stamp(5, 13), stamp(5, 10)));
    assert!(stamp_differs(stamp(5, 10), stamp(6, 10)));
    let unknown = FileStamp { size: 5, modified: None };
    assert!(!stamp_differs(unknown, stamp(5, 100)));
}

#[test]
fn uploads_go_through_a_temporary_file() {
    let u = upload();
    assert_eq!(u.temp_path(), r"\\nas\media\a\.shot.mov.~sync.STUDIO");
    assert_eq!(u.conflict_path(17), r"\\nas\media\a\shot.mov.conflict.STUDIO.17");
}

#[test]
fn an_undisturbed_upload_replaces_its_target() {
    let mut u = upload();
    let s = u.next(UploadStep::CreateParent, UploadEvent::Done, 0);
    assert!(matches!(s, UploadStep::OpenSource));
    let s = u.next(s, UploadEvent::Done, 0);
    assert!(matches!(s, UploadStep::StatTarget));
    let s = u.next(s, UploadEvent::Stamp(Some(stamp(3, 1))), 0);
    assert!(matches!(s, UploadStep::CreateTemp));
    let s = u.next(s, UploadEvent::Done, 0);
    assert!(matches!(s, UploadStep::CopyChunk));
    let s = u.next(s, UploadEvent::Copied(100), 0);
    assert!(matches!(s, UploadStep::CopyChunk));
    assert_eq!(u.total, 100);
    let s = u.next(s, UploadEvent::EndOfSource, 0);
    assert!(matches!(s, UploadStep::StatAgain));
    let s = u.next(s, UploadEvent::Stamp(Some(stamp(3, 2))), 0);
    assert!(matches!(s, UploadStep::Publish));
    match u.next(s, UploadEvent::Done, 0) {
        UploadStep::Finish { result, remove_temp } => {
            assert!(!remove_temp);
            assert_eq!(
                result,
                UploadResult::Success { local_path: job().local_path, nas_path: job().nas_path }
            );
        }
        _ => panic!("the upload is not over"),
    }
}

#[test]
fn a_disturbed_upload_is_kept_beside_its_target() {
    let mut u = upload();
    u.next(UploadStep::StatTarget, UploadEvent::Stamp(Some(stamp(3, 1))), 0);
    let s = u.next(UploadStep::StatAgain, UploadEvent::Stamp(Some(stamp(4, 1))), 99);
    let kept = match &s {
        UploadStep::KeepAsConflict(p) => p.clone(),
        _ => panic!("no conflict was seen"),
    };
    assert_eq!(kept, r"\\nas\media\a\shot.mov.conflict.STUDIO.99");
    match u.next(s, UploadEvent::Failed("denied".to_string()), 99) {
        UploadStep::Finish { result, .. } => {
            assert_eq!(
                result,
                UploadResult::Success { local_path: job().local_path, nas_path: kept }
            );
        }
        _ => panic!("the upload is not over"),
    }
}

#[test]
fn a_new_target_is_no_conflict() {
    let mut u = upload();
    u.next(UploadStep::StatTarget, UploadEvent::Stamp(None), 0);
    let s = u.next(UploadStep::StatAgain, UploadEvent::Stamp(Some(stamp(4, 1))), 99);
    assert!(matches!(s, UploadStep::Publish));
}

fn error_of(step: UploadStep, event: UploadEvent, copied: u64) -> (String, bool) {
    let mut u = upload();
    u.total = copied;
    match u.next(step, event, 0) {
        UploadStep::Finish { result: UploadResult::Failed { error, local_path }, remove_temp } => {
            assert_eq!(local_path, job().local_path);
            (error, remove_temp)
        }
        _ => panic!("the upload did not fail"),
    }
}

#[test]
fn upload_errors_say_what_failed() {
    let no = || UploadEvent::Failed("no".to_string());
    assert_eq!(
        error_of(UploadStep::CreateParent, no(), 0),
        ("Failed to create NAS directory: no".to_string(), false)
    );
    assert_eq!(
        error_of(UploadStep::OpenSource, no(), 0),
        ("Failed to open local file: no".to_string(), false)
    );
    assert_eq!(
        error_of(UploadStep::CreateTemp, no(), 0),
        ("Failed to create NAS temp file: no".to_string(), false)
    );
    assert_eq!(
        error_of(UploadStep::CopyChunk, UploadEvent::ReadFailed("no".to_string()), 7),
        ("Read error at 7 bytes: no".to_string(), true)
    );
    assert_eq!(
        error_of(UploadStep::CopyChunk, UploadEvent::WriteFailed("no".to_string()), 4_194_304),
        ("Write error at 4194304 bytes: no".to_string(), true)
    );
    assert_eq!(
        error_of(UploadStep::Publish, no(), 0),
        ("Rename to final failed: no".to_string(), true)
    );
}

#[test]
fn a_cancelled_upload_removes_its_file() {
    let mut u = upload();
    match u.next(UploadStep::CopyChunk, UploadEvent::CancelRequested, 0) {
        UploadStep::Finish { result, remove_temp } => {
            assert!(remove_temp);
            assert_eq!(result, UploadResult::Cancelled { local_path: job().local_path });
        }
        _ => panic!("the upload goes on"),
    }
    let s = u.next(UploadStep::Publish, UploadEvent::CancelRequested, 0);
    assert!(matches!(s, UploadStep::Publish));
}

#[test]
fn recovery_skips_unfinished_files() {
    assert_eq!(recovery_step("a.mov", false, 0x20), RecoveryStep::Upload);
    assert_eq!(recovery_step("a", true, 0x10), RecoveryStep::Descend);
    assert_eq!(recovery_step("a", false, 0x10), RecoveryStep::Skip);
    assert_eq!(recovery_step("a.mov", false, u32::MAX), RecoveryStep::Skip);
    assert_eq!(recovery_step(".a.~sync.H", false, 0x20), RecoveryStep::Skip);
    assert_eq!(recovery_step("~$a.doc", false, 0x20), RecoveryStep::Skip);
    assert_eq!(recovery_step("a.tmp", false, 0x20), RecoveryStep::Skip);
    assert!(is_file(0x420));
}

#[test]
fn cleaning_finds_files_of_this_machine() {
    assert_eq!(cleaning_step(".a.~sync.STUDIO", "STUDIO", false), (true, false));
    assert_eq!(cleaning_step(".a.~sync.OTHER", "STUDIO", false), (false, false));
    assert_eq!(cleaning_step("a", "STUDIO", true), (false, true));
    assert_eq!(cleaning_step("#recycle", "STUDIO", true), (false, false));
    assert_eq!(cleaning_step("@eaDir", "STUDIO", true), (false, false));
}
