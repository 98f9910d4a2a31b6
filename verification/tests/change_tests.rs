use typstation::document::{Document, Documents, ExternalChangeKind};
use typstation::external_changes::{
    apply_external_results, ExternalFileResult, Watcher, WatcherEvent, WatcherReaction,
};
use typstation::project::{EntryKind, ProjectEntry, ProjectSnapshot, ScanOutcome};
use typstation::workspace::{ProjectState, ScanReaction, StillOnDisk};

fn nothing_on_disk() -> StillOnDisk {
    StillOnDisk { selected_entry: false, selected_file: false, project_main: false, context_entry: false }
}

#[test]
fn stale_external_read_cannot_undo_a_completed_save() {
    let mut documents = Documents::new(Document::new());
    let document_id = documents.active_id();
    *documents.active_mut() = Document::opened("document.typ".to_owned(), "novo".to_owned());
    let stale_revision = documents.active().storage_revision();
    documents.active_mut().mark_saved("document.typ".to_owned(), "novo".to_owned());

    let _ = apply_external_results(
        &mut documents,
        vec![ExternalFileResult::Source {
            document_id,
            storage_revision: stale_revision,
            source: "antigo".to_owned(),
        }],
        false,
    );

    assert_eq!(documents.active().snapshot().1, "novo");
    assert!(!documents.active().is_dirty());
}

#[test]
fn external_reports_reload_clean_documents_and_flag_conflicts() {
    let mut documents = Documents::new(Document::opened("/p/a.typ".to_owned(), "um".to_owned()));
    let first = documents.active_id();
    let second = documents.add(Document::opened("/p/b.typ".to_owned(), "dois".to_owned()));
    documents.active_mut().edit("dois, editado".to_owned());
    let revision_first = documents.get(first).unwrap().storage_revision();
    let revision_second = documents.active().storage_revision();

    let summary = apply_external_results(
        &mut documents,
        vec![
            ExternalFileResult::Source { document_id: first, storage_revision: revision_first, source: "um, do disco".to_owned() },
            ExternalFileResult::Source { document_id: second, storage_revision: revision_second, source: "dois, do disco".to_owned() },
        ],
        false,
    );

    assert_eq!(documents.get(first).unwrap().text(), "um, do disco");
    assert!(!documents.get(first).unwrap().is_dirty());
    assert_eq!(documents.active().text(), "dois, editado");
    assert_eq!(documents.active().external_change(), Some(ExternalChangeKind::Modified));
    assert_eq!(summary.status.as_deref(), Some("Conflito com alteração externa: b.typ"));
    assert!(summary.other_reloaded);
    assert!(!summary.active_reloaded);
}

#[test]
fn external_reports_wait_while_a_file_operation_runs() {
    let mut documents = Documents::new(Document::opened("/p/a.typ".to_owned(), "um".to_owned()));
    let id = documents.active_id();
    let revision = documents.active().storage_revision();
    let summary = apply_external_results(
        &mut documents,
        vec![ExternalFileResult::Deleted { document_id: id, storage_revision: revision }],
        true,
    );
    assert!(summary.status.is_none());
    assert_eq!(documents.active().external_change(), None);

    let summary = apply_external_results(
        &mut documents,
        vec![
            ExternalFileResult::Deleted { document_id: id, storage_revision: revision },
            ExternalFileResult::Failed { document_id: id, storage_revision: revision, error: "sem acesso".to_owned() },
        ],
        false,
    );
    assert_eq!(documents.active().external_change(), Some(ExternalChangeKind::Deleted));
    assert_eq!(summary.status.as_deref(), Some("Erro ao verificar arquivo: sem acesso"));
}

#[test]
fn stale_project_scan_does_not_replace_the_current_tree() {
    let mut state = ProjectState::new("/projeto/novo".to_owned());
    let reaction = state.apply_scan(
        &ScanOutcome {
            root: "/projeto/antigo".to_owned(),
            snapshot: Ok(ProjectSnapshot {
                entries: Vec::new(),
                typst_files: vec!["/projeto/antigo/main.typ".to_owned()],
            }),
        },
        nothing_on_disk(),
        None,
    );

    assert!(matches!(reaction, ScanReaction::Stale));
    assert!(state.project_main().is_none());
}

#[test]
fn a_scan_forgets_vanished_paths_and_detects_main() {
    let mut state = ProjectState::new("/outro".to_owned());
    assert_eq!(state.open_folder("/p".to_owned()), "Projeto aberto: /p");
    assert!(state.detect_main());
    state.expand("/p/old");
    state.expand("/p/docs");
    state.select_entry("/p/old/x.typ", EntryKind::TypstFile);
    let snapshot = ProjectSnapshot {
        entries: vec![
            ProjectEntry { path: "/p/docs".to_owned(), kind: EntryKind::Directory, children: Vec::new() },
            ProjectEntry { path: "/p/main.typ".to_owned(), kind: EntryKind::TypstFile, children: Vec::new() },
        ],
        typst_files: vec!["/p/main.typ".to_owned()],
    };
    let reaction = state.apply_scan(
        &ScanOutcome { root: "/p".to_owned(), snapshot: Ok(snapshot) },
        nothing_on_disk(),
        Some("/p/old"),
    );

    match reaction {
        ScanReaction::Applied { status, close_context_menu } => {
            assert_eq!(status.as_deref(), Some("main.typ detectado como documento principal"));
            assert!(close_context_menu);
        }
        other => panic!("unexpected {other:?}"),
    }
    assert!(state.selected_entry().is_none());
    assert!(state.selected_file().is_none());
    assert_eq!(state.project_main().map(|m| m.as_str()), Some("/p/main.typ"));
    assert!(state.is_expanded("/p"));
    assert!(state.is_expanded("/p/docs"));
    assert!(!state.is_expanded("/p/old"));

    let reaction = state.apply_scan(
        &ScanOutcome { root: "/p".to_owned(), snapshot: Ok(ProjectSnapshot { entries: Vec::new(), typst_files: Vec::new() }) },
        nothing_on_disk(),
        None,
    );
    assert!(!state.detect_main());
    assert!(matches!(
        reaction,
        ScanReaction::Applied { status: Some(ref s), close_context_menu: false } if s == "O arquivo principal não existe mais; usando a aba ativa"
    ));
    assert!(state.project_main().is_none());

    let failed = state.apply_scan(&ScanOutcome { root: "/p".to_owned(), snapshot: Err("negado".to_owned()) }, nothing_on_disk(), None);
    assert!(matches!(failed, ScanReaction::Failed(ref m) if m == "Erro no projeto: negado"));
}

#[test]
fn only_typst_files_of_the_project_become_main() {
    let mut state = ProjectState::new("/p".to_owned());
    assert!(!state.update_project_main(Some("/outro/main.typ".to_owned())));
    assert!(state.project_main().is_none());
    assert!(!state.update_project_main(Some("/p/notas.txt".to_owned())));
    assert!(state.update_project_main(Some("/p/cap/um.typ".to_owned())));
    assert_eq!(state.project_main().map(|m| m.as_str()), Some("/p/cap/um.typ"));
    assert!(!state.update_project_main(Some("/p/cap/um.typ".to_owned())));
    assert!(state.update_project_main(None));
}

#[test]
fn watcher_refresh_waits_for_in_flight_filesystem_reads() {
    let documents = Documents::new(Document::opened("/p/main.typ".to_owned(), "x".to_owned()));
    let mut watcher = Watcher::new();
    let reaction = watcher.on_event("/p", WatcherEvent::Changed { root: "/p".to_owned(), paths: vec!["/p/main.typ".to_owned()] }, 0);
    assert_eq!(reaction, WatcherReaction::PreviewStale);
    let now = watcher.deadline().unwrap();
    assert!(watcher.start_check(&documents, false).is_some());
    assert!(watcher.external_check_busy());

    assert!(!watcher.refresh_due(now, false, false));

    assert!(watcher.deadline().is_some_and(|deadline| deadline > now));
}

#[test]
fn the_watcher_ignores_other_folders_and_reads_files_with_a_path() {
    let mut documents = Documents::new(Document::opened("/p/a.typ".to_owned(), "a".to_owned()));
    documents.add(Document::new());
    let mut watcher = Watcher::new();
    assert_eq!(
        watcher.on_event("/p", WatcherEvent::Changed { root: "/q".to_owned(), paths: vec!["/q/x".to_owned()] }, 0),
        WatcherReaction::Nothing
    );
    assert_eq!(watcher.on_event("/p", WatcherEvent::Changed { root: "/p".to_owned(), paths: Vec::new() }, 0), WatcherReaction::Nothing);
    assert_eq!(watcher.deadline(), None);
    assert_eq!(
        watcher.on_event("/p", WatcherEvent::Failed { root: "/p".to_owned(), error: "limite".to_owned() }, 0),
        WatcherReaction::Failed("limite".to_owned())
    );
    let _ = watcher.on_event("/p", WatcherEvent::Changed { root: "/p".to_owned(), paths: vec!["/p/a.typ".to_owned()] }, 100);
    assert!(!watcher.refresh_due(200, false, false));
    assert!(watcher.refresh_due(250, false, false));
    assert_eq!(watcher.deadline(), None);

    assert!(watcher.start_check(&documents, true).is_none());
    let files = watcher.start_check(&documents, false).unwrap();
    assert_eq!(files.len(), 1);
    assert_eq!(files[0].2, "/p/a.typ");
    assert!(watcher.start_check(&documents, false).is_none());
    watcher.finish_check();
    assert!(!watcher.external_check_busy());
    let _ = watcher.on_event("/p", WatcherEvent::Ready { root: "/p".to_owned() }, 0);
    assert_eq!(watcher.deadline(), None);
}

#[test]
fn explicit_active_tab_mode_is_not_undone_by_later_scans() {
    let directory = tempfile::tempdir().expect("a temporary project can be created");
    let root = directory.path().to_str().unwrap().to_owned();
    let main = format!("{root}/main.typ");
    let mut state = ProjectState::new(root.clone());
    assert!(state.update_project_main(Some(main.clone())));

    assert!(state.update_project_main(None));
    let _ = state.apply_scan(
        &ScanOutcome {
            root: root.clone(),
            snapshot: Ok(ProjectSnapshot { entries: Vec::new(), typst_files: vec![main] }),
        },
        nothing_on_disk(),
        None,
    );

    assert_eq!(state.project_main(), None);
    assert!(!state.detect_main());
}

#[test]
fn opening_another_folder_forgets_the_fixed_main_document() {
    let mut state = ProjectState::new("/p".to_owned());
    assert!(state.update_project_main(Some("/p/main.typ".to_owned())));
    state.expand("/p/docs");
    state.select_entry("/p/docs", EntryKind::Directory);

    let _ = state.open_folder("/p".to_owned());
    assert_eq!(state.project_main().map(|m| m.as_str()), Some("/p/main.typ"));
    assert!(!state.is_expanded("/p/docs"));
    assert!(state.is_expanded("/p"));
    assert!(state.selected_entry().is_none());

    let _ = state.open_folder("/q".to_owned());
    assert!(state.project_main().is_none());
    assert_eq!(state.root(), "/q");
}
