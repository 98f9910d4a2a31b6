use typstation::document::{Document, Documents};
use typstation::opening::{file_dropped, open_finished, open_project_file, project_entry_pressed, OpenOutcome, OpenStep};
use typstation::project::EntryKind;
use typstation::tabs::Tabs;
use typstation::workspace::ProjectState;

fn setup() -> (Tabs, ProjectState) {
    let tabs = Tabs::new(Documents::new(Document::opened("/p/main.typ".to_owned(), "= Main".to_owned())));
    (tabs, ProjectState::new("/p".to_owned()))
}

#[test]
fn pressing_a_folder_toggles_it_and_reports_its_name() {
    let (mut tabs, mut project) = setup();
    let step = project_entry_pressed(&mut tabs, &mut project, "/p/cap", EntryKind::Directory);
    assert_eq!(step, OpenStep::Status("Pasta cap: expandida".to_owned()));
    assert!(project.is_expanded("/p/cap"));
    let step = project_entry_pressed(&mut tabs, &mut project, "/p/cap", EntryKind::Directory);
    assert_eq!(step, OpenStep::Status("Pasta cap: recolhida".to_owned()));
    assert!(!project.is_expanded("/p/cap"));
    let step = project_entry_pressed(&mut tabs, &mut project, "/p", EntryKind::Directory);
    assert_eq!(step, OpenStep::Status("Projeto p: expandido".to_owned()));
    let step = project_entry_pressed(&mut tabs, &mut project, "/p/logo.png", EntryKind::File);
    assert_eq!(step, OpenStep::Status("/p/logo.png não é um documento Typst editável".to_owned()));
    assert_eq!(project.selected_entry().map(|s| s.as_str()), Some("/p/logo.png"));
    assert!(project.selected_file().is_none());
}

#[test]
fn an_open_file_is_activated_and_another_one_is_read() {
    let (mut tabs, mut project) = setup();
    assert!(tabs.new_document());
    let step = project_entry_pressed(&mut tabs, &mut project, "/p/main.typ", EntryKind::TypstFile);
    assert_eq!(step, OpenStep::Status("Aba ativada: /p/main.typ".to_owned()));
    assert_eq!(tabs.documents().active().path(), Some("/p/main.typ"));
    assert_eq!(project.selected_file().map(|s| s.as_str()), Some("/p/main.typ"));

    let step = open_project_file(&mut tabs, &mut project, "/p/cap/um.typ");
    assert_eq!(
        step,
        OpenStep::Read { path: "/p/cap/um.typ".to_owned(), status: "Abrindo /p/cap/um.typ...".to_owned() }
    );
    assert!(tabs.file_busy());
    assert!(project.is_expanded("/p/cap"));
    assert_eq!(open_project_file(&mut tabs, &mut project, "/p/outro.typ"), OpenStep::Nothing);

    let status = open_finished(
        &mut tabs,
        &mut project,
        OpenOutcome::Loaded { path: "/p/cap/um.typ".to_owned(), source: "= Um".to_owned() },
    );
    assert_eq!(status, "Aberto: /p/cap/um.typ");
    assert!(!tabs.file_busy());
    assert_eq!(tabs.documents().len(), 3);
    assert_eq!(tabs.documents().active().text(), "= Um");
    assert!(!tabs.documents().active().is_dirty());

    let status = open_finished(
        &mut tabs,
        &mut project,
        OpenOutcome::Loaded { path: "/p/main.typ".to_owned(), source: "ignorado".to_owned() },
    );
    assert_eq!(status, "Aba ativada: /p/main.typ");
    assert_eq!(tabs.documents().len(), 3);
    assert_eq!(open_finished(&mut tabs, &mut project, OpenOutcome::Cancelled), "A abertura foi cancelada");
    assert_eq!(open_finished(&mut tabs, &mut project, OpenOutcome::Failed("negado".to_owned())), "Erro ao abrir: negado");
}

#[test]
fn dropped_files_and_folders_are_told_apart() {
    let (mut tabs, mut project) = setup();
    assert_eq!(file_dropped(&mut tabs, &mut project, "/q", true), OpenStep::OpenProject("/q".to_owned()));
    assert_eq!(
        file_dropped(&mut tabs, &mut project, "/q/nota.txt", false),
        OpenStep::Status("Solte uma pasta ou um arquivo .typ para abri-lo".to_owned())
    );
    assert_eq!(
        file_dropped(&mut tabs, &mut project, "/p/main.typ", false),
        OpenStep::Status("Aba ativada: /p/main.typ".to_owned())
    );
    assert_eq!(
        file_dropped(&mut tabs, &mut project, "/q/fora.typ", false),
        OpenStep::Read { path: "/q/fora.typ".to_owned(), status: "Abrindo arquivo solto: /q/fora.typ".to_owned() }
    );
    assert!(tabs.file_busy());
    assert_eq!(file_dropped(&mut tabs, &mut project, "/q", true), OpenStep::Nothing);
}
