use typstation::interface::PreviewStatus;
use typstation::previewing::{PendingCompile, PreviewRequest, PreviewScheduler};

#[test]
fn only_the_latest_result_for_the_current_revision_is_shown() {
    let mut preview = PreviewScheduler::new(0);
    assert_eq!(preview.dispatch(0, false), None);
    let first = preview.dispatch(0, true).unwrap();
    assert_eq!(first, PreviewRequest { id: 1, revision: 0, reset_files: true });
    preview.request_sent(first.id, true);
    assert_eq!(preview.status(), &PreviewStatus::Compiling);
    assert_eq!(preview.pending(), None);

    preview.schedule(10, 300, false);
    assert_eq!(preview.status(), &PreviewStatus::Waiting);
    assert_eq!(preview.pending(), Some(PendingCompile { deadline: 310, reset_files: false }));
    assert!(!preview.preview_output(first.id, first.revision, 0, None, true, 2, 0));
    assert_eq!(preview.status(), &PreviewStatus::Waiting);

    assert_eq!(preview.dispatch(100, true), None);
    let second = preview.dispatch(310, true).unwrap();
    assert_eq!(second, PreviewRequest { id: 2, revision: 1, reset_files: false });
    preview.request_sent(second.id, true);
    assert!(preview.preview_output(second.id, second.revision, 0, None, true, 3, 1));
    assert_eq!(preview.status(), &PreviewStatus::Ready { pages: 3, warnings: 1 });
}

#[test]
fn failures_and_a_stopped_compiler_are_reported() {
    let mut preview = PreviewScheduler::new(5);
    let request = preview.dispatch(5, true).unwrap();
    preview.request_sent(request.id, false);
    assert_eq!(
        preview.status(),
        &PreviewStatus::Failed { errors: 1, summary: "O worker de compilação foi encerrado".to_owned() }
    );
    assert!(preview.pending().is_some());

    let request = preview.dispatch(6, true).unwrap();
    preview.request_sent(request.id, true);
    assert!(preview.preview_output(request.id, request.revision, 2, None, false, 0, 0));
    assert_eq!(
        preview.status(),
        &PreviewStatus::Failed { errors: 2, summary: "Falha ao compilar o documento".to_owned() }
    );
    preview.restart(7);
    assert_eq!(preview.revision(), 1);
    assert_eq!(preview.pending(), Some(PendingCompile { deadline: 7, reset_files: true }));

    let request = preview.dispatch(7, true).unwrap();
    preview.request_sent(request.id, true);
    assert!(preview.preview_output(request.id, request.revision, 0, None, false, 0, 0));
    assert_eq!(
        preview.status(),
        &PreviewStatus::Failed { errors: 1, summary: "A compilação não produziu um preview".to_owned() }
    );
    preview.mark_stale();
    assert!(!preview.preview_output(request.id, request.revision, 0, None, true, 1, 0));
    assert_eq!(preview.status(), &PreviewStatus::Waiting);
}
