use typstation::formatting::{toggle_line_prefix, toggle_surround, Content};
use typstation::project::{
    created_directory_path, created_file_path, delete_refusal, entry_kind_of, rename_decision,
    rename_destination, rename_dialog, rename_refusal, scan_snapshot, sort_entries, EntryKind,
    OperationOutcome, ProjectEntry,
};
use typstation::project_search::{
    files_to_read, replace_matches, search_sync, tally_replacements,
};
use typstation::search::Options;

#[test]
fn surround_wraps_and_unwraps_the_same_selection() {
    let mut content = Content::with_text("texto".to_owned());
    content.select_all();

    assert!(toggle_surround(&mut content, "*", "*"));
    assert_eq!(content.text(), "*texto*");
    assert_eq!(content.selection_text().as_deref(), Some("texto"));

    assert!(toggle_surround(&mut content, "*", "*"));
    assert_eq!(content.text(), "texto");
    assert_eq!(content.selection_text().as_deref(), Some("texto"));
}

#[test]
fn surround_inserts_an_empty_pair_at_the_caret() {
    let mut content = Content::with_text("abc".to_owned());
    assert!(content.select(1, 1));

    assert!(toggle_surround(&mut content, "#underline[", "]"));
    assert_eq!(content.text(), "a#underline[]bc");
    assert_eq!(content.selection(), 12..12);
}

#[test]
fn surround_removes_markers_held_by_the_selection() {
    let mut content = Content::with_text("um *negrito* aqui".to_owned());
    assert!(content.select(3, 12));

    assert!(toggle_surround(&mut content, "*", "*"));
    assert_eq!(content.text(), "um negrito aqui");
    assert_eq!(content.selection(), 3..10);
}

#[test]
fn surround_keeps_multibyte_text_whole() {
    let mut content = Content::with_text("ação".to_owned());
    content.select_all();

    assert!(toggle_surround(&mut content, "_", "_"));
    assert_eq!(content.text(), "_ação_");
    assert_eq!(content.selection_text().as_deref(), Some("ação"));
}

#[test]
fn selection_must_fall_on_character_boundaries() {
    let mut content = Content::with_text("ação".to_owned());
    assert!(!content.select(0, 2));
    assert_eq!(content.selection(), 0..0);
    assert!(content.select(0, 3));
    assert_eq!(content.selection_text().as_deref(), Some("aç"));
}

#[test]
fn line_prefix_uses_every_partially_selected_line_and_toggles() {
    let mut content = Content::with_text("alpha\n  beta\ngamma".to_owned());
    assert!(content.select(2, 15));

    assert!(toggle_line_prefix(&mut content, "- "));
    assert_eq!(content.text(), "- alpha\n  - beta\n- gamma");

    assert!(toggle_line_prefix(&mut content, "- "));
    assert_eq!(content.text(), "alpha\n  beta\ngamma");
}

#[test]
fn line_prefix_skips_blank_lines() {
    let mut content = Content::with_text("one\n\nthree".to_owned());
    content.select_all();

    assert!(toggle_line_prefix(&mut content, "+ "));
    assert_eq!(content.text(), "+ one\n\n+ three");
}

#[test]
fn line_prefix_moves_the_caret_with_the_text() {
    let mut content = Content::with_text("item".to_owned());
    assert!(content.select(0, 0));

    assert!(toggle_line_prefix(&mut content, "- "));
    assert_eq!(content.text(), "- item");
    assert_eq!(content.selection(), 2..2);

    assert!(toggle_line_prefix(&mut content, "- "));
    assert_eq!(content.text(), "item");
    assert_eq!(content.selection(), 0..0);
}

#[test]
fn line_prefix_without_change_reports_nothing() {
    let mut content = Content::with_text("   \n".to_owned());
    content.select_all();
    assert!(!toggle_line_prefix(&mut content, "- "));
    assert_eq!(content.text(), "   \n");

    let mut content = Content::with_text("texto".to_owned());
    assert!(!toggle_line_prefix(&mut content, ""));
    assert_eq!(content.text(), "texto");
}

#[test]
fn project_search_uses_overlays_and_reports_positions() {
    let path = "/projeto/main.typ".to_owned();
    let files = vec![path.clone()];
    let overlays = vec![(path.clone(), "linha\nTexto local".to_owned())];

    assert_eq!(files_to_read("/projeto", &files, &overlays, "texto"), vec![false]);
    let report = search_sync(
        "/projeto",
        files,
        overlays,
        vec![Some("disco".to_owned())],
        "texto",
        Options::default(),
    )
    .expect("the project search should finish");

    assert_eq!(report.matches.len(), 1);
    assert_eq!(report.matches[0].path, path);
    assert_eq!((report.matches[0].line, report.matches[0].column), (2, 1));
    assert_eq!(report.matches[0].excerpt, "Texto local");
}

#[test]
fn project_search_orders_matches_and_counts_unreadable_files() {
    let files = vec![
        "/p/b.typ".to_owned(),
        "/p/a/z.typ".to_owned(),
        "/outro/c.typ".to_owned(),
        "/p/grande.bin".to_owned(),
    ];
    let read = vec![
        Some("x alvo alvo".to_owned()),
        Some("alvo".to_owned()),
        Some("alvo".to_owned()),
        None,
    ];
    assert_eq!(
        files_to_read("/p", &files, &Vec::new(), "alvo"),
        vec![true, true, false, true]
    );

    let report = search_sync("/p", files, Vec::new(), read, "alvo", Options::default())
        .expect("the project search should finish");

    let found: Vec<_> = report
        .matches
        .iter()
        .map(|m| (m.path.as_str(), m.range.start))
        .collect();
    assert_eq!(found, vec![("/p/a/z.typ", 0), ("/p/b.typ", 2), ("/p/b.typ", 7)]);
    assert_eq!(report.skipped_files, 1);
}

#[test]
fn empty_project_query_searches_nothing() {
    let files = vec!["/p/a.typ".to_owned()];
    assert_eq!(files_to_read("/p", &files, &Vec::new(), ""), vec![false]);
    let report = search_sync("/p", files, Vec::new(), vec![None], "", Options::default())
        .expect("the project search should finish");
    assert!(report.matches.is_empty());
    assert_eq!(report.skipped_files, 0);
}

#[test]
fn closed_file_replacement_revalidates_matches_before_writing() {
    let (text, count) = replace_matches("um alvo e outro alvo", "alvo", "item", Options::default());

    assert_eq!(count, 2);
    assert_eq!(text, "um item e outro item");

    let (replaced, changed, errors) = tally_replacements(vec![Ok(count)]);
    assert_eq!((replaced, changed), (2, 1));
    assert!(errors.is_empty());
}

#[test]
fn replacement_tally_separates_changes_and_errors() {
    let (replaced, changed, errors) = tally_replacements(vec![
        Ok(0),
        Ok(3),
        Err("b.typ: negado".to_owned()),
        Ok(1),
    ]);
    assert_eq!((replaced, changed), (4, 2));
    assert_eq!(errors, vec!["b.typ: negado".to_owned()]);

    let (text, count) = replace_matches("Ação ação", "AÇÃO", "x", Options::default());
    assert_eq!((text.as_str(), count), ("x x", 2));
}

fn entry(path: &str, kind: EntryKind) -> ProjectEntry {
    ProjectEntry {
        path: path.to_owned(),
        kind,
        children: Vec::new(),
    }
}

#[test]
fn scanned_entries_put_directories_first_then_names() {
    let sorted = sort_entries(vec![
        entry("/p/b.typ", EntryKind::TypstFile),
        entry("/p/Zeta", EntryKind::Directory),
        entry("/p/A.txt", EntryKind::File),
        entry("/p/alpha", EntryKind::Directory),
    ]);
    let paths: Vec<_> = sorted.iter().map(|e| e.path.as_str()).collect();

    assert_eq!(paths, vec!["/p/alpha", "/p/Zeta", "/p/A.txt", "/p/b.typ"]);
    assert_eq!(entry_kind_of("/p/a.typ", false), EntryKind::TypstFile);
    assert_eq!(entry_kind_of("/p/a.typ", true), EntryKind::Directory);
    assert_eq!(entry_kind_of("/p/a.txt", false), EntryKind::File);

}

fn directory(path: &str, children: Vec<ProjectEntry>) -> ProjectEntry {
    ProjectEntry { path: path.to_owned(), kind: EntryKind::Directory, children }
}

#[test]
fn scan_builds_a_sorted_tree_and_indexes_typst_files() {
    let listing = vec![
        entry("/p/main.typ", EntryKind::TypstFile),
        directory("/p/target", vec![entry("/p/target/ignored.typ", EntryKind::TypstFile)]),
        entry("/p/README.md", EntryKind::File),
        directory("/p/out", vec![entry("/p/out/ignored.typ", EntryKind::TypstFile)]),
        directory("/p/chapters", vec![entry("/p/chapters/one.typ", EntryKind::TypstFile)]),
        directory("/p/.hidden", vec![entry("/p/.hidden/ignored.typ", EntryKind::TypstFile)]),
    ];

    let snapshot = scan_snapshot(listing);

    assert_eq!(snapshot.typst_files, vec!["/p/chapters/one.typ".to_owned(), "/p/main.typ".to_owned()]);
    assert_eq!(snapshot.entries.len(), 3);
    assert_eq!(snapshot.entries[0].path, "/p/chapters");
    assert_eq!(snapshot.entries[0].kind, EntryKind::Directory);
    assert_eq!(snapshot.entries[0].children.len(), 1);
    assert_eq!(snapshot.entries[1].path, "/p/main.typ");
    assert_eq!(snapshot.entries[1].kind, EntryKind::TypstFile);
    assert_eq!(snapshot.entries[2].path, "/p/README.md");
    assert_eq!(snapshot.entries[2].kind, EntryKind::File);
}

#[test]
fn scan_sorts_every_directory_and_keeps_empty_ones() {
    let listing = vec![
        directory("/p/b", vec![entry("/p/b/z.typ", EntryKind::TypstFile), directory("/p/b/a", Vec::new())]),
        directory("/p/empty", Vec::new()),
    ];
    let snapshot = scan_snapshot(listing);
    assert_eq!(snapshot.entries[0].path, "/p/b");
    assert_eq!(snapshot.entries[0].children[0].path, "/p/b/a");
    assert_eq!(snapshot.entries[0].children[1].path, "/p/b/z.typ");
    assert_eq!(snapshot.entries[1].path, "/p/empty");
    assert!(snapshot.entries[1].children.is_empty());
    assert_eq!(snapshot.typst_files, vec!["/p/b/z.typ".to_owned()]);
}

fn failure(outcome: Option<OperationOutcome>) -> Option<String> {
    match outcome {
        Some(OperationOutcome::Failed(message)) => Some(message),
        _ => None,
    }
}

#[test]
fn project_operations_stay_inside_the_project() {
    assert_eq!(created_file_path("/p", "/p/novo"), Ok("/p/novo.typ".to_owned()));
    assert_eq!(
        created_file_path("/p", "/q/novo.typ"),
        Err("o novo arquivo deve permanecer dentro da pasta do projeto".to_owned())
    );
    assert_eq!(created_directory_path("/p", "/p/pasta"), Ok("/p/pasta".to_owned()));
    assert!(created_directory_path("/p", "/pasta").is_err());

    assert_eq!(
        failure(rename_refusal("/p", "/p")),
        Some("a raiz do projeto não pode ser renomeada".to_owned())
    );
    assert!(rename_refusal("/p", "/p/a.typ").is_none());
    assert_eq!(
        failure(delete_refusal("/p", "/outro/a.typ")),
        Some("a raiz do projeto não pode ser excluída".to_owned())
    );
}

#[test]
fn renames_are_decided_before_moving_anything() {
    let dialog = rename_dialog("/p", "/p/cap/a.typ", EntryKind::TypstFile);
    assert_eq!(dialog.directory, "/p/cap");
    assert_eq!(dialog.file_name, "a.typ");
    assert_eq!(dialog.title, "Renomear arquivo Typst");
    assert!(dialog.typst_filter);

    assert_eq!(rename_destination(EntryKind::TypstFile, "/p/b"), "/p/b.typ");
    assert_eq!(rename_destination(EntryKind::File, "/p/b"), "/p/b");

    assert!(matches!(
        rename_decision("/p", "/p/a.typ", "/p/a.typ", EntryKind::TypstFile, true),
        Some(OperationOutcome::Cancelled)
    ));
    assert_eq!(
        failure(rename_decision("/p", "/p/a.typ", "/p/b.typ", EntryKind::TypstFile, true)),
        Some("o destino já existe: /p/b.typ".to_owned())
    );
    assert_eq!(
        failure(rename_decision("/p", "/p/cap", "/p/cap/sub", EntryKind::Directory, false)),
        Some("uma pasta não pode ser movida para dentro dela mesma".to_owned())
    );
    assert!(rename_decision("/p", "/p/a.typ", "/p/b.typ", EntryKind::TypstFile, false).is_none());
}
