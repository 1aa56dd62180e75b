use ironfoil::progress::{
    games_plural_suffix, install_outcome, InstallEndGuard, InstallOutcome, InstallProgressEvent,
    InstallThreadEnd, InstallTracker, InstallationProgress, ProgressAction, UsbProgress,
};
use std::sync::mpsc;

#[test]
fn tracker_counts_file_names() {
    let mut t = InstallTracker::new();
    let events = vec![
        InstallProgressEvent::AllFilesLengthBytes(300),
        InstallProgressEvent::CurrentFileName("a.nsp".to_string()),
        InstallProgressEvent::CurrentFileLengthBytes(100),
        InstallProgressEvent::CurrentFileOffsetBytes(50),
        InstallProgressEvent::AllFilesOffsetBytes(50),
        InstallProgressEvent::CurrentFileName("b.nsp".to_string()),
    ];
    for e in events {
        t.handle(e);
    }
    assert_eq!(t.games_installed(), 2);
    assert!(!t.has_ended());
    assert!(matches!(t.handle(InstallProgressEvent::Ended), ProgressAction::Finish));
    assert!(t.has_ended());
    assert_eq!(t.games_installed(), 2);
}

#[test]
fn tracker_actions() {
    let mut t = InstallTracker::new();
    assert!(matches!(t.handle(InstallProgressEvent::AllFilesLengthBytes(7)), ProgressAction::SetTotalLength(7)));
    assert!(matches!(t.handle(InstallProgressEvent::AllFilesOffsetBytes(3)), ProgressAction::SetTotalPosition(3)));
    assert!(matches!(t.handle(InstallProgressEvent::CurrentFileLengthBytes(5)), ProgressAction::SetFileLength(5)));
    assert!(matches!(t.handle(InstallProgressEvent::CurrentFileOffsetBytes(2)), ProgressAction::SetFilePosition(2)));
    match t.handle(InstallProgressEvent::CurrentFileName("x.nsp".to_string())) {
        ProgressAction::ShowFileName(n) => assert_eq!(n, "x.nsp"),
        other => panic!("unexpected {:?}", other),
    }
}

#[test]
fn plural_suffix() {
    assert_eq!(games_plural_suffix(0), "s");
    assert_eq!(games_plural_suffix(1), "");
    assert_eq!(games_plural_suffix(2), "s");
}

#[test]
fn end_guard_sends_ended_on_drop() {
    let (tx, rx) = mpsc::channel::<InstallProgressEvent>();
    {
        let _guard = InstallEndGuard { tx: &tx };
        tx.send(InstallProgressEvent::AllFilesLengthBytes(1)).unwrap();
    }
    assert!(matches!(rx.recv().unwrap(), InstallProgressEvent::AllFilesLengthBytes(1)));
    assert!(matches!(rx.recv().unwrap(), InstallProgressEvent::Ended));
}

#[test]
fn end_guard_ignores_a_closed_receiver() {
    let (tx, rx) = mpsc::channel::<InstallProgressEvent>();
    drop(rx);
    let guard = InstallEndGuard { tx: &tx };
    drop(guard);
}

#[test]
fn installation_progress_updates() {
    let mut p = InstallationProgress::new();
    assert_eq!((p.last_progress_len, p.last_progress), (1, 0));
    p.update(Some(100), None);
    assert_eq!((p.last_progress_len, p.last_progress), (100, 0));
    p.update(None, Some(40));
    assert_eq!((p.last_progress_len, p.last_progress), (100, 40));
    p.update(None, None);
    assert_eq!((p.last_progress_len, p.last_progress), (100, 40));
}

#[test]
fn outcomes() {
    assert_eq!(install_outcome(true, InstallThreadEnd::Succeeded), InstallOutcome::Cancelled);
    assert_eq!(install_outcome(true, InstallThreadEnd::Panicked), InstallOutcome::Cancelled);
    assert_eq!(install_outcome(false, InstallThreadEnd::Succeeded), InstallOutcome::Completed);
    assert_eq!(install_outcome(false, InstallThreadEnd::Failed), InstallOutcome::Failed);
    assert_eq!(install_outcome(false, InstallThreadEnd::Panicked), InstallOutcome::Crashed);
}

#[test]
fn usb_progress_events() {
    let (mut p, start) = UsbProgress::start(300);
    assert!(matches!(start, InstallProgressEvent::AllFilesLengthBytes(300)));
    let e = p.file_range("a.nsp".to_string(), 100);
    assert_eq!(e.len(), 2);
    assert!(matches!(&e[0], InstallProgressEvent::CurrentFileName(n) if n == "a.nsp"));
    assert!(matches!(e[1], InstallProgressEvent::CurrentFileLengthBytes(100)));
    assert!(p.file_range("a.nsp".to_string(), 100).is_empty());
    let e = p.chunk_sent(40, 10, 10);
    assert!(matches!(e[0], InstallProgressEvent::CurrentFileOffsetBytes(50)));
    assert!(matches!(e[1], InstallProgressEvent::AllFilesOffsetBytes(10)));
    let e = p.file_range("b.nsp".to_string(), 200);
    assert!(matches!(&e[0], InstallProgressEvent::CurrentFileName(n) if n == "b.nsp"));
    let e = p.chunk_sent(u64::MAX, 5, u64::MAX);
    assert!(matches!(e[0], InstallProgressEvent::CurrentFileOffsetBytes(u64::MAX)));
    assert!(matches!(e[1], InstallProgressEvent::AllFilesOffsetBytes(u64::MAX)));
}
