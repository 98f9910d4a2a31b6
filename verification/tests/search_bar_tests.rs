use typstation::document::{Document, Documents};
use typstation::find_replace::{
    match_after_replacement, moved_match, refreshed_current, replace_all_matches, replace_current_match,
    search_count_label,
};
use typstation::project_search::{
    closed_files, replace_in_open_documents, replacement_summary, result_files, search_overlays, Match,
    ProjectSearch, ReplaceOutcome, SearchOutcome, SearchReport,
};
use typstation::search::{find_matches, Options};

fn plain() -> Options {
    Options { case_sensitive: false, whole_word: false }
}

#[test]
fn replace_current_advances_to_the_next_match() {
    let text = "cat cat";
    let matches = find_matches(text, "cat", plain());
    let current = refreshed_current(matches.len(), Some(0), None);

    let (text, resume_at) = replace_current_match(text, &matches, current, "dog").unwrap();
    let matches = find_matches(&text, "cat", plain());
    let current = match_after_replacement(&matches, resume_at);

    assert_eq!(text, "dog cat");
    assert_eq!(current, Some(0));
    assert_eq!(matches, vec![4..7]);
}

#[test]
fn replace_all_rewrites_every_match_at_once() {
    let text = "cat and cat";
    let matches = find_matches(text, "cat", plain());
    let (text, status) = replace_all_matches(text, &matches, "dog").unwrap();
    assert_eq!(text, "dog and dog");
    assert_eq!(status, "2 ocorrência(s) substituída(s)");
    assert!(replace_all_matches("nada", &Vec::new(), "x").is_none());
}

#[test]
fn the_current_match_stays_in_range_and_wraps_around() {
    assert_eq!(refreshed_current(0, Some(3), None), None);
    assert_eq!(refreshed_current(3, None, Some(7)), Some(2));
    assert_eq!(refreshed_current(3, Some(1), Some(2)), Some(1));
    assert_eq!(refreshed_current(3, None, None), Some(0));

    assert_eq!(moved_match(3, Some(2), false), Some(0));
    assert_eq!(moved_match(3, Some(0), true), Some(2));
    assert_eq!(moved_match(3, None, true), Some(2));
    assert_eq!(moved_match(3, None, false), Some(0));
    assert_eq!(moved_match(3, Some(1), true), Some(0));
    assert_eq!(moved_match(0, Some(1), false), None);
    assert_eq!(match_after_replacement(&vec![0..3, 8..11], 20), Some(0));
    assert_eq!(match_after_replacement(&Vec::new(), 0), None);
}

fn found(path: &str) -> Match {
    Match { path: path.to_owned(), range: 0..1, line: 1, column: 1, excerpt: String::new() }
}

#[test]
fn project_replacement_edits_open_documents_and_leaves_closed_files_for_the_disk() {
    let mut documents = Documents::new(Document::opened("/p/a.typ".to_owned(), "gato e gato".to_owned()));
    documents.add(Document::opened("/p/b.typ".to_owned(), "sem nada".to_owned()));
    documents.add(Document::opened("/p/x.typ".to_owned(), "gato".to_owned()));

    let files = result_files(&[found("/p/a.typ"), found("/p/c.typ"), found("/p/a.typ"), found("/p/b.typ")]);
    assert_eq!(files, vec!["/p/a.typ", "/p/c.typ", "/p/b.typ"]);
    assert_eq!(closed_files(&files, &documents), vec!["/p/c.typ"]);

    let (replaced, changed) = replace_in_open_documents(&mut documents, &files, "gato", "cão", plain());
    assert_eq!((replaced, changed), (2, 1));
    assert_eq!(documents.document_at(0).text(), "cão e cão");
    assert!(documents.document_at(0).is_dirty());
    assert_eq!(documents.document_at(1).text(), "sem nada");
    assert_eq!(documents.document_at(2).text(), "gato");

    let (status, error) = replacement_summary(5, 2, &Vec::new());
    assert_eq!(status, "5 ocorrência(s) substituída(s) em 2 arquivo(s)");
    assert_eq!(error, None);
    let (status, error) = replacement_summary(3, 1, &vec!["a: negado".to_owned(), "b: sumiu".to_owned()]);
    assert_eq!(status, "Substituição parcial: 3 ocorrência(s); a: negado; b: sumiu");
    assert_eq!(error.as_deref(), Some("a: negado; b: sumiu"));
}

#[test]
fn only_the_latest_project_search_in_the_current_project_counts() {
    let mut search = ProjectSearch::new();
    assert_eq!(search.start(), None);
    assert!(!search.busy());

    search.query = "gato".to_owned();
    let first = search.start().unwrap();
    let second = search.start().unwrap();
    assert!(second != first);
    assert!(search.busy());

    let stale = SearchOutcome {
        revision: first,
        root: "/p".to_owned(),
        result: Ok(SearchReport { matches: vec![found("/p/a.typ")], skipped_files: 0 }),
    };
    assert!(!search.finished(stale, "/p"));
    let elsewhere = SearchOutcome { revision: second, root: "/q".to_owned(), result: Err("x".to_owned()) };
    assert!(!search.finished(elsewhere, "/p"));
    assert!(search.busy());

    let current = SearchOutcome {
        revision: second,
        root: "/p".to_owned(),
        result: Ok(SearchReport { matches: vec![found("/p/a.typ"), found("/p/b.typ")], skipped_files: 1 }),
    };
    assert!(search.finished(current, "/p"));
    assert!(!search.busy());
    assert_eq!(search.results().len(), 2);
    assert_eq!(search.skipped_files(), 1);

    search.hold_open_replacements(2, 1);
    let (status, refresh) = search.replace_finished(ReplaceOutcome {
        revision: second,
        replaced: 3,
        changed_files: 2,
        errors: vec!["/p/c.typ: negado".to_owned()],
    });
    assert_eq!(status, "Substituição parcial: 5 ocorrência(s); /p/c.typ: negado");
    assert!(refresh);
    assert_eq!(search.error().map(|e| e.as_str()), Some("/p/c.typ: negado"));
}

#[test]
fn open_project_documents_replace_their_files_in_a_search() {
    let mut documents = Documents::new(Document::opened("/p/a.typ".to_owned(), "um".to_owned()));
    documents.add(Document::opened("/q/b.typ".to_owned(), "dois".to_owned()));
    documents.add(Document::new());
    let overlays = search_overlays(&documents, "/p");
    assert_eq!(overlays, vec![("/p/a.typ".to_owned(), "um".to_owned())]);
}

#[test]
fn search_count_shows_the_current_match_of_all() {
    assert_eq!(search_count_label(0, None), "0 resultados");
    assert_eq!(search_count_label(0, Some(0)), "0 resultados");
    assert_eq!(search_count_label(3, Some(1)), "2 de 3");
    assert_eq!(search_count_label(3, None), "0 de 3");
    assert_eq!(search_count_label(2, Some(5)), "0 de 2");
    assert_eq!(search_count_label(12, Some(11)), "12 de 12");
}
