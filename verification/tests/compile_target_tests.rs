use typstation::compile_target::{
    active_source_target, compilation_directory, compilation_display_name, compilation_main_document,
    compilation_source, reveal_source_target, source_overlays, RevealStep,
};
use typstation::opening::OpenStep;
use typstation::source_map::SourceTarget;
use typstation::document::{Document, Documents};
use typstation::tabs::{CloseRequest, CloseStep, Tabs};
use typstation::workspace::ProjectState;

#[test]
fn dirty_open_imports_are_sent_as_compiler_overlays() {
    let directory = tempfile::tempdir().expect("a temporary project can be created");
    let root = directory.path().to_str().unwrap().to_owned();
    let main_path = format!("{root}/main.typ");
    let part_path = format!("{root}/part.typ");
    let mut documents = Documents::new(Document::opened(main_path, String::new()));
    let main = documents.active_id();
    let part = documents.add(Document::opened(part_path.clone(), "saved".to_owned()));
    documents.get(part).expect("the import is open");
    documents.active_mut().edit(" unsavedsaved".to_owned());
    documents.activate(main);

    let compiled = compilation_main_document(&documents, None);
    let overlays = source_overlays(&documents, compiled, &root);

    assert_eq!(overlays.len(), 1);
    assert_eq!(overlays[0].path, part_path);
    assert_eq!(overlays[0].text, " unsavedsaved");
}

#[test]
fn a_closed_fixed_main_falls_back_to_its_disk_source() {
    let directory = tempfile::tempdir().expect("a temporary project can be created");
    let root = directory.path().to_str().unwrap().to_owned();
    let main_path = format!("{root}/main.typ");
    let part_path = format!("{root}/part.typ");
    let mut tabs = Tabs::new(Documents::new(Document::opened(main_path.clone(), "Main".to_owned())));
    let main = tabs.documents().active_id();
    tabs.add_document(Document::opened(part_path, "Part".to_owned()));
    let mut project = ProjectState::new(root.clone());
    assert!(project.update_project_main(Some(main_path.clone())));

    tabs.close_tab(main);

    assert_eq!(project.project_main().map(|m| m.as_str()), Some(main_path.as_str()));
    let fixed = project.project_main().map(|m| m.as_str());
    assert_eq!(compilation_source(tabs.documents(), fixed), None);
    assert_eq!(compilation_display_name(tabs.documents(), fixed), "main.typ");
    assert_eq!(compilation_directory(tabs.documents(), fixed, "/outro"), root);
}

#[test]
fn fixed_main_keeps_the_preview_target_while_an_import_is_edited() {
    let mut documents = Documents::new(Document::opened("/p/main.typ".to_owned(), "#include \"part.typ\"".to_owned()));
    let part = documents.add(Document::opened("/p/part.typ".to_owned(), "Saved".to_owned()));
    documents.activate(part);
    documents.active_mut().edit("Unsaved Saved".to_owned());

    assert_eq!(compilation_source(&documents, Some("/p/main.typ")).as_deref(), Some("#include \"part.typ\""));
    assert_eq!(compilation_source(&documents, None).as_deref(), Some("Unsaved Saved"));
    let main = compilation_main_document(&documents, Some("/p/main.typ"));
    let overlays = source_overlays(&documents, main, "/p");
    assert_eq!(overlays.len(), 1);
    assert_eq!(overlays[0].path, "/p/part.typ");
    assert!(source_overlays(&documents, Some(part), "/p").is_empty());
    assert_eq!(
        active_source_target(&documents, Some("/p/main.typ"), "/p"),
        Some(SourceTarget::ProjectFile("/p/part.typ".to_owned()))
    );
    assert_eq!(compilation_display_name(&Documents::new(Document::new()), None), "Sem título.typ");
}

#[test]
fn closing_a_dirty_document_starts_confirmation() {
    let mut tabs = Tabs::new(Documents::new(Document::draft("= Tutorial")));

    let step = tabs.request(CloseRequest::Window);

    assert!(tabs.documents().active().is_dirty());
    assert!(tabs.file_busy());
    assert!(tabs.pending_after_save().is_none());
    assert!(matches!(step, CloseStep::Ask { request: CloseRequest::Window, .. }));
}

#[test]
fn sources_are_revealed_in_their_documents_or_opened_first() {
    let mut tabs = Tabs::new(Documents::new(Document::opened("/p/main.typ".to_owned(), "#include \"cap.typ\"".to_owned())));
    tabs.add_document(Document::opened("/p/cap.typ".to_owned(), "= Capítulo".to_owned()));
    tabs.add_document(Document::opened("/fora/x.typ".to_owned(), "x".to_owned()));
    let mut project = ProjectState::new("/p".to_owned());
    assert_eq!(active_source_target(tabs.documents(), None, "/p"), Some(SourceTarget::Main));
    assert_eq!(active_source_target(tabs.documents(), Some("/p/main.typ"), "/p"), None);
    assert!(project.update_project_main(Some("/p/main.typ".to_owned())));

    let step = reveal_source_target(&mut tabs, &mut project, &SourceTarget::ProjectFile("/p/cap.typ".to_owned()));
    assert_eq!(step, RevealStep::InActive);
    assert_eq!(tabs.documents().active().path(), Some("/p/cap.typ"));
    assert_eq!(
        active_source_target(tabs.documents(), Some("/p/main.typ"), "/p"),
        Some(SourceTarget::ProjectFile("/p/cap.typ".to_owned()))
    );

    let step = reveal_source_target(&mut tabs, &mut project, &SourceTarget::Main);
    assert_eq!(step, RevealStep::InActive);
    assert_eq!(tabs.documents().active().path(), Some("/p/main.typ"));
    assert_eq!(active_source_target(tabs.documents(), Some("/p/main.typ"), "/p"), Some(SourceTarget::Main));

    let step = reveal_source_target(&mut tabs, &mut project, &SourceTarget::ProjectFile("/p/outro.typ".to_owned()));
    assert_eq!(
        step,
        RevealStep::AfterOpening(OpenStep::Read {
            path: "/p/outro.typ".to_owned(),
            status: "Abrindo /p/outro.typ...".to_owned()
        })
    );
    assert_eq!(
        reveal_source_target(&mut tabs, &mut project, &SourceTarget::ProjectFile("/p/mais.typ".to_owned())),
        RevealStep::Nothing
    );
}
