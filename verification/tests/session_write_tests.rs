use typstation::document::{Document, Documents};
use typstation::session_writes::{SessionAction, SessionTracker, SESSION_DEBOUNCE_MS};
use typstation::tabs::{CloseRequest, CloseStep, Tabs, UnsavedDecision};

fn session_file() -> (tempfile::TempDir, String) {
    let directory = tempfile::tempdir().expect("a temporary directory can be created");
    let path = directory.path().join("session.json").to_str().unwrap().to_owned();
    (directory, path)
}

#[test]
fn editing_schedules_a_debounced_session_write() {
    let (_directory, path) = session_file();
    let mut session = SessionTracker::new(Some(path));

    session.mark_changed(1_000);

    assert_eq!(session.revision(), 1);
    assert!(session.deadline().is_some());
    assert!(!session.write_busy());
    assert_eq!(session.deadline(), Some(1_000 + SESSION_DEBOUNCE_MS));
    assert_eq!(session.dispatch(1_000), SessionAction::Nothing);
}

#[test]
fn stale_session_write_is_repeated_before_window_close() {
    let (_directory, path) = session_file();
    let mut session = SessionTracker::new(Some(path.clone()));
    let mut tabs = Tabs::new(Documents::new(Document::new()));

    let first = session.close_window(&mut tabs, 0);
    assert_eq!(first, SessionAction::Write { path: path.clone(), revision: 1, closing: true });
    session.mark_changed(5);
    assert_eq!(session.revision(), 2);
    assert!(tabs.file_busy());

    let (next, status) = session.write_finished(&mut tabs, 1, Ok(()), 10);

    assert_eq!(next, SessionAction::Write { path, revision: 2, closing: true });
    assert_eq!(status, None);
    assert!(session.write_busy());
    assert!(session.closing());
    assert!(tabs.file_busy());
}

#[test]
fn current_session_write_completes_window_close_cleanup() {
    let (_directory, path) = session_file();
    let mut session = SessionTracker::new(Some(path));
    let mut tabs = Tabs::new(Documents::new(Document::draft("rascunho")));
    let document = tabs.documents().active_id();
    tabs.set_file_busy(true);
    assert!(matches!(tabs.decide(CloseRequest::Window, UnsavedDecision::Discard), CloseStep::CloseWindow));
    assert!(tabs.discarded_on_close(document));

    let write = session.close_window(&mut tabs, 0);
    assert!(matches!(write, SessionAction::Write { revision: 1, closing: true, .. }));
    let (next, _) = session.write_finished(&mut tabs, 1, Ok(()), 1);

    assert_eq!(next, SessionAction::Exit);
    assert!(!session.write_busy());
    assert!(!session.closing());
    assert!(!tabs.discarded_on_close(document));
    assert!(!tabs.file_busy());
}

#[test]
fn a_failed_write_is_reported_and_does_not_keep_the_window_open() {
    let (_directory, path) = session_file();
    let mut session = SessionTracker::new(Some(path));
    let mut tabs = Tabs::new(Documents::new(Document::new()));
    session.mark_changed(0);
    assert!(matches!(session.dispatch(SESSION_DEBOUNCE_MS), SessionAction::Write { revision: 1, closing: false, .. }));
    assert_eq!(session.dispatch(SESSION_DEBOUNCE_MS), SessionAction::Nothing);

    let (next, status) = session.write_finished(&mut tabs, 1, Err("disco cheio".to_owned()), 800);
    assert_eq!(next, SessionAction::Nothing);
    assert_eq!(status.as_deref(), Some("Erro ao salvar sessão: disco cheio"));

    let _ = session.close_window(&mut tabs, 900);
    let (next, _) = session.write_finished(&mut tabs, 2, Err("disco cheio".to_owned()), 901);
    assert_eq!(next, SessionAction::Exit);
    assert!(!tabs.file_busy());
}

#[test]
fn without_a_session_file_the_window_closes_at_once() {
    let mut session = SessionTracker::new(None);
    let mut tabs = Tabs::new(Documents::new(Document::new()));
    session.mark_changed(0);
    assert_eq!(session.revision(), 0);
    assert_eq!(session.close_window(&mut tabs, 0), SessionAction::Exit);
}
