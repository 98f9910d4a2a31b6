use typstation::document::{Document, Documents};
use typstation::tabs::{CloseRequest, CloseStep, SaveOutcome, Tabs, UnsavedDecision, CLOSED_TABS_KEPT};
use typstation::workspace::ProjectState;

fn tutorial() -> Tabs {
    Tabs::new(Documents::new(Document::draft("= Bem-vindo")))
}

#[test]
fn saving_before_close_keeps_the_close_action_pending() {
    let mut tabs = tutorial();
    tabs.set_file_busy(true);

    let step = tabs.decide(CloseRequest::Window, UnsavedDecision::Save);

    assert!(matches!(step, CloseStep::SaveActive));
    assert_eq!(tabs.pending_after_save(), Some(CloseRequest::Window));
    assert!(tabs.file_busy());
}

#[test]
fn discarding_a_dirty_tab_closes_only_that_tab() {
    let mut tabs = tutorial();
    let first = tabs.documents().active_id();
    assert!(tabs.new_document());
    let second = tabs.documents().active_id();
    tabs.edit_active("rascunho".to_owned());
    tabs.set_file_busy(true);

    let _ = tabs.decide(CloseRequest::Tab(second), UnsavedDecision::Discard);

    assert_eq!(tabs.documents().len(), 1);
    assert_eq!(tabs.documents().active_id(), first);
    assert!(tabs.documents().get(second).is_none());
}

#[test]
fn window_close_walks_through_every_dirty_tab() {
    let mut tabs = tutorial();
    let first = tabs.documents().active_id();
    assert!(tabs.new_document());
    let second = tabs.documents().active_id();
    tabs.edit_active("segundo".to_owned());
    tabs.set_file_busy(true);

    let step = tabs.decide(CloseRequest::Window, UnsavedDecision::Discard);

    assert!(matches!(step, CloseStep::Ask { request: CloseRequest::Window, .. }));
    assert!(tabs.discarded_on_close(second));
    assert_eq!(tabs.documents().active_id(), first);
    assert!(tabs.file_busy());

    let step = tabs.decide(CloseRequest::Window, UnsavedDecision::Discard);
    assert!(matches!(step, CloseStep::CloseWindow));
    // Without a session file the window closes at once and forgets the discarded tabs.
    tabs.forget_discarded_on_close();

    assert!(!tabs.discarded_on_close(first) && !tabs.discarded_on_close(second));
    assert!(!tabs.file_busy());
}

#[test]
fn file_operation_blocks_tab_changes_and_preserves_a_pending_close() {
    let mut tabs = tutorial();
    let first = tabs.documents().active_id();
    assert!(tabs.new_document());
    let second = tabs.documents().active_id();
    assert!(tabs.activate(first));
    let _ = tabs.decide(CloseRequest::Window, UnsavedDecision::Save);
    assert!(tabs.file_busy());

    assert!(!tabs.activate(second));
    assert!(!tabs.new_document());
    assert!(!tabs.request_save());

    assert_eq!(tabs.documents().active_id(), first);
    assert_eq!(tabs.documents().len(), 2);
    assert_eq!(tabs.pending_after_save(), Some(CloseRequest::Window));
}

#[test]
fn closed_tabs_can_be_reopened_and_discarded_text_is_not_restored() {
    let path = "/project/main.typ";
    let mut tabs = Tabs::new(Documents::new(Document::opened(path.to_owned(), "salvo".to_owned())));
    let id = tabs.documents().active_id();
    tabs.edit_active("salvo local".to_owned());
    tabs.mark_discarded(id);

    tabs.close_tab(id);
    tabs.reopen_closed();

    assert_eq!(tabs.documents().active().path(), Some(path));
    assert_eq!(tabs.documents().active().snapshot().1, "salvo");
    assert!(!tabs.documents().active().is_dirty());
}

#[test]
fn closing_a_clean_tab_needs_no_question_and_can_be_undone() {
    let mut tabs = Tabs::new(Documents::new(Document::opened("/p/a.typ".to_owned(), "a".to_owned())));
    assert!(tabs.new_document());
    let blank = tabs.documents().active_id();
    tabs.edit_active("b".to_owned());
    let first = tabs.documents().id_at(0);

    match tabs.request(CloseRequest::Tab(first)) {
        CloseStep::TabClosed(message) => assert_eq!(message, "Aba fechada: a.typ"),
        other => panic!("unexpected {other:?}"),
    }
    assert_eq!(tabs.documents().active_id(), blank);

    match tabs.request(CloseRequest::Tab(blank)) {
        CloseStep::Ask { request, name } => {
            assert_eq!(request, CloseRequest::Tab(blank));
            assert_eq!(name, "Sem título.typ");
        }
        other => panic!("unexpected {other:?}"),
    }
    assert!(tabs.file_busy());
    assert!(matches!(tabs.decide(CloseRequest::Tab(blank), UnsavedDecision::Cancel), CloseStep::Nothing));
    assert!(!tabs.file_busy());

    assert_eq!(tabs.reopen_closed().as_deref(), Some("Aba reaberta: a.typ"));
    assert_eq!(tabs.documents().len(), 2);
    assert_eq!(tabs.documents().active().text(), "a");
    assert_eq!(tabs.closed_count(), 0);
    assert_eq!(tabs.reopen_closed().as_deref(), Some("Não há abas fechadas para reabrir"));
}

#[test]
fn only_the_latest_closed_tabs_are_kept() {
    let mut tabs = tutorial();
    for _ in 0..25 {
        assert!(tabs.new_document());
        let id = tabs.documents().active_id();
        assert!(tabs.close_tab(id).is_some());
    }
    assert_eq!(tabs.closed_count(), CLOSED_TABS_KEPT);
}

#[test]
fn a_save_resumes_the_waiting_close() {
    let mut tabs = Tabs::new(Documents::new(Document::draft("texto")));
    let id = tabs.documents().active_id();
    let mut project = ProjectState::new("/p".to_owned());
    assert!(matches!(tabs.request(CloseRequest::Tab(id)), CloseStep::Ask { .. }));
    assert!(matches!(tabs.decide(CloseRequest::Tab(id), UnsavedDecision::Save), CloseStep::SaveActive));

    let reaction = tabs.after_save(
        &mut project,
        SaveOutcome::Saved { document_id: id, path: "/p/texto.typ".to_owned(), source: "texto".to_owned() },
    );

    assert_eq!(reaction.status.as_deref(), Some("Salvo em /p/texto.typ"));
    assert!(reaction.path_changed);
    assert!(matches!(reaction.next, CloseStep::TabClosed(ref m) if m == "Aba fechada: texto.typ"));
    assert!(tabs.documents().get(id).is_none());
    assert_eq!(tabs.pending_after_save(), None);
}

#[test]
fn saving_the_main_document_outside_the_project_releases_it() {
    let mut tabs = Tabs::new(Documents::new(Document::opened("/p/main.typ".to_owned(), "x".to_owned())));
    let id = tabs.documents().active_id();
    tabs.edit_active("y".to_owned());
    let mut project = ProjectState::new("/p".to_owned());
    assert!(project.update_project_main(Some("/p/main.typ".to_owned())));

    let reaction = tabs.after_save(
        &mut project,
        SaveOutcome::Saved { document_id: id, path: "/outro/main.typ".to_owned(), source: "x".to_owned() },
    );
    assert_eq!(
        reaction.status.as_deref(),
        Some("Salvo em /outro/main.typ; fora do projeto, o preview agora acompanha a aba ativa")
    );
    assert!(project.project_main().is_none());
    assert!(tabs.documents().active().is_dirty());

    let failed = tabs.after_save(&mut project, SaveOutcome::Failed { document_id: id, error: "disco cheio".to_owned() });
    assert_eq!(failed.status.as_deref(), Some("Erro ao salvar main.typ: disco cheio"));
    let cancelled = tabs.after_save(&mut project, SaveOutcome::Cancelled { document_id: id });
    assert_eq!(cancelled.status.as_deref(), Some("O salvamento de main.typ foi cancelado"));
}

#[test]
fn a_closing_session_keeps_only_the_saved_text_of_discarded_tabs() {
    let mut tabs = Tabs::new(Documents::new(Document::opened("/p/a.typ".to_owned(), "salvo".to_owned())));
    tabs.edit_active("salvo local".to_owned());
    assert!(tabs.new_document());
    tabs.edit_active("rascunho".to_owned());
    tabs.set_file_busy(true);
    let _ = tabs.decide(CloseRequest::Window, UnsavedDecision::Discard);
    let _ = tabs.decide(CloseRequest::Window, UnsavedDecision::Discard);

    let (stored, active) = tabs.stored_documents(true);
    assert_eq!(stored.len(), 1);
    assert_eq!(stored[0].text, "salvo");
    assert_eq!(active, 0);

    let (stored, active) = tabs.stored_documents(false);
    assert_eq!(stored.len(), 2);
    assert_eq!(stored[0].text, "salvo local");
    assert_eq!(stored[1].text, "rascunho");
    assert_eq!(active, 0);
}

#[test]
fn save_all_collects_every_unsaved_document_and_reports_the_outcome() {
    let mut tabs = Tabs::new(Documents::new(Document::opened("/p/a.typ".to_owned(), "a".to_owned())));
    tabs.edit_active("a2".to_owned());
    assert!(tabs.new_document());
    tabs.edit_active("rascunho".to_owned());
    assert!(tabs.new_document());

    let named = tabs.save_requests("/p", false);
    assert_eq!(named.len(), 1);
    assert_eq!(named[0].path.as_deref(), Some("/p/a.typ"));
    assert_eq!(named[0].source, "a2");

    let all = tabs.save_requests("/p", true);
    assert_eq!(all.len(), 2);
    assert_eq!(all[1].path, None);
    assert_eq!(all[1].directory, "/p");
    assert_eq!(all[1].file_name, "Sem título.typ");

    let first = all[0].document_id;
    let second = all[1].document_id;
    tabs.set_file_busy(true);
    let (status, saved) = tabs.after_save_all(
        vec![
            SaveOutcome::Saved { document_id: first, path: "/p/a.typ".to_owned(), source: "a2".to_owned() },
            SaveOutcome::Failed { document_id: second, error: "negado".to_owned() },
            SaveOutcome::Failed { document_id: second, error: "de novo".to_owned() },
        ],
        false,
    );
    assert_eq!(saved, 1);
    assert_eq!(status.as_deref(), Some("Salvamento parcial: 1 salvo(s); negado; de novo"));
    assert!(!tabs.file_busy());
    assert!(!tabs.documents().get(first).unwrap().is_dirty());

    let (status, saved) = tabs.after_save_all(vec![SaveOutcome::Cancelled { document_id: second }], false);
    assert_eq!(saved, 0);
    assert_eq!(status.as_deref(), Some("0 documento(s) salvo(s); operação cancelada"));

    let (status, _) = tabs.after_save_all(Vec::new(), true);
    assert_eq!(status, None);
    let (status, _) = tabs.after_save_all(vec![SaveOutcome::Failed { document_id: second, error: "x".repeat(150) }], true);
    assert_eq!(status.unwrap(), format!("Falha no salvamento automático: {}...", "x".repeat(140)));
}
