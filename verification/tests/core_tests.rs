use typstation::compiler::{self, ExportFormat, ExportOptions, Purpose};
use typstation::document::{Document, Documents, ExternalChangeKind, ExternalUpdate};
use typstation::language::{self, parse_snippet};
use typstation::search::{find_matches, Options};
use typstation::settings::Settings;
use typstation::source_map::source_distance;

#[test]
fn values_loaded_from_disk_are_bounded() {
    let settings = Settings {
        tab_width: 0,
        editor_font_size: 100,
        preview_zoom: 5,
        svg_page_gap: 100,
        ..Settings::default()
    }
    .validate();

    assert_eq!(settings.tab_width, 1);
    assert_eq!(settings.editor_font_size, 30);
    assert_eq!(settings.preview_zoom, 25);
    assert_eq!(settings.svg_page_gap, 72);
}

#[test]
fn source_distance_is_zero_inside_a_range() {
    assert_eq!(source_distance(&(10..20), 15), 0);
    assert_eq!(source_distance(&(10..20), 5), 5);
    assert_eq!(source_distance(&(10..20), 25), 5);
}

#[test]
fn snippet_markers_become_plain_text_and_ranges() {
    let parsed = parse_snippet("let ${name}(${2:params}) = ${}");

    assert_eq!(parsed.text, "let name(params) = ");
    assert_eq!(parsed.placeholders, vec![4..8, 9..15, 19..19]);
}

#[test]
fn malformed_snippet_is_preserved() {
    let parsed = parse_snippet("text ${open");

    assert_eq!(parsed.text, "text ${open");
    assert!(parsed.placeholders.is_empty());
}

#[test]
fn empty_query_has_no_matches() {
    assert!(find_matches("texto", "", Options::default()).is_empty());
}

#[test]
fn case_insensitive_search_preserves_original_byte_ranges() {
    let text = "Árvore e árvore";
    let matches = find_matches(text, "árvore", Options::default());

    assert_eq!(matches.len(), 2);
    assert_eq!(&text[matches[0].clone()], "Árvore");
    assert_eq!(&text[matches[1].clone()], "árvore");
}

#[test]
fn whole_word_rejects_embedded_and_underscore_matches() {
    let text = "cat scatter cat_ cat.";
    let matches = find_matches(
        text,
        "cat",
        Options {
            whole_word: true,
            ..Options::default()
        },
    );

    assert_eq!(matches, vec![0..3, 17..20]);
}

#[test]
fn case_sensitive_search_distinguishes_case() {
    let matches = find_matches(
        "Typst typst",
        "Typst",
        Options {
            case_sensitive: true,
            ..Options::default()
        },
    );

    assert_eq!(matches, vec![0..5]);
}

#[test]
fn new_document_becomes_dirty_after_an_edit() {
    let mut document = Document::new();
    assert!(!document.is_dirty());

    document.edit("texto".to_owned());

    assert!(document.is_dirty());
}

#[test]
fn saving_an_older_snapshot_does_not_hide_newer_edits() {
    let mut document = Document::new();
    document.edit("primeira".to_owned());
    let (_, snapshot) = document.snapshot();
    document.edit("primeira segunda".to_owned());

    document.mark_saved("documento.typ".to_owned(), snapshot);

    assert!(document.is_dirty());
    assert_eq!(document.path(), Some("documento.typ"));
}

#[test]
fn undoing_to_the_saved_text_clears_the_dirty_state() {
    let mut document = Document::opened("documento.typ".to_owned(), "conteúdo".to_owned());
    let (_, text) = document.snapshot();
    document.edit(format!("{text} alterado"));
    assert!(document.is_dirty());

    document.edit(text);

    assert!(!document.is_dirty());
}

#[test]
fn clean_external_edits_are_reloaded_automatically() {
    let mut document = Document::opened("documento.typ".to_owned(), "original".to_owned());

    let update = document.observe_disk_source("externo".to_owned());

    assert_eq!(update, ExternalUpdate::Reloaded);
    assert_eq!(document.snapshot().1, "externo");
    assert!(!document.is_dirty());
    assert_eq!(document.external_change(), None);
}

#[test]
fn dirty_external_edits_require_an_explicit_decision() {
    let mut document = Document::opened("documento.typ".to_owned(), "original".to_owned());
    document.edit("original local".to_owned());

    let update = document.observe_disk_source("externo".to_owned());

    assert_eq!(update, ExternalUpdate::Conflict);
    assert_eq!(document.snapshot().1, "original local");
    assert_eq!(
        document.external_change(),
        Some(ExternalChangeKind::Modified)
    );

    assert!(document.keep_local_after_external_change());
    assert!(document.is_dirty());
    assert_eq!(document.external_change(), None);
}

#[test]
fn acknowledged_deletion_is_not_reported_repeatedly() {
    let mut document = Document::opened("documento.typ".to_owned(), "conteúdo".to_owned());

    assert_eq!(document.observe_deleted_file(), ExternalUpdate::Conflict);
    assert!(document.keep_local_after_external_change());
    assert_eq!(document.observe_deleted_file(), ExternalUpdate::Unchanged);
    assert!(document.is_dirty());
}

#[test]
fn documents_can_be_added_activated_and_removed() {
    let mut documents = Documents::new(Document::new());
    let first = documents.active_id();
    let second = documents.add(Document::draft("segundo"));

    assert_eq!(documents.len(), 2);
    assert_eq!(documents.active_id(), second);
    assert!(documents.activate(first));
    assert_eq!(documents.active().snapshot().1, "");

    documents.remove(first);

    assert_eq!(documents.len(), 1);
    assert_eq!(documents.active_id(), second);
    assert_eq!(documents.active().snapshot().1, "segundo");
}

#[test]
fn restored_document_rebuilds_its_dirty_state() {
    let clean = Document::restored(
        Some("documento.typ".to_owned()),
        "salvo".to_owned(),
        Some("salvo".to_owned()),
    );
    let dirty = Document::restored(
        Some("documento.typ".to_owned()),
        "rascunho".to_owned(),
        Some("salvo".to_owned()),
    );

    assert!(!clean.is_dirty());
    assert!(dirty.is_dirty());
    assert_eq!(dirty.saved_text(), Some("salvo"));
}

fn request(id: u64, purpose: Purpose) -> compiler::Request {
    compiler::Request {
        id,
        revision: id,
        source: Some(format!("Revisão {id}")),
        overlays: Vec::new(),
        reset_files: false,
        purpose,
        export_options: ExportOptions::default(),
    }
}

#[test]
fn coalescing_keeps_only_the_latest_preview_and_every_export() {
    let requests = vec![
        compiler::Request {
            reset_files: true,
            ..request(1, Purpose::Preview)
        },
        request(2, Purpose::Export(ExportFormat::Pdf)),
        request(3, Purpose::Preview),
        request(4, Purpose::Export(ExportFormat::Svg)),
        request(5, Purpose::Preview),
    ];

    let coalesced = compiler::coalesce_requests(requests);
    let ids = coalesced
        .iter()
        .map(|request| request.id)
        .collect::<Vec<_>>();

    assert_eq!(ids, vec![2, 4, 5]);
    assert_eq!(coalesced[0].purpose, Purpose::Export(ExportFormat::Pdf));
    assert_eq!(coalesced[1].purpose, Purpose::Export(ExportFormat::Svg));
    assert_eq!(coalesced[2].purpose, Purpose::Preview);
    assert!(coalesced[2].reset_files);
}

#[test]
fn coalescing_does_not_require_a_preview_request() {
    let requests = vec![
        request(1, Purpose::Export(ExportFormat::Pdf)),
        request(2, Purpose::Export(ExportFormat::Html)),
    ];

    let ids = compiler::coalesce_requests(requests)
        .into_iter()
        .map(|request| request.id)
        .collect::<Vec<_>>();

    assert_eq!(ids, vec![1, 2]);
}

#[test]
fn request_coalescing_keeps_latest_transient_queries_and_explicit_commands() {
    let documents = Documents::new(Document::new());
    let id = documents.active_id();
    let requests = vec![
        language::Request::Complete {
            request_id: 1,
            document: id,
            revision: 0,
            offset: 0,
            explicit: false,
        },
        language::Request::Hover {
            request_id: 2,
            document: id,
            revision: 0,
            offset: 0,
        },
        language::Request::Definition {
            document: id,
            revision: 0,
            offset: 0,
        },
        language::Request::Complete {
            request_id: 3,
            document: id,
            revision: 0,
            offset: 0,
            explicit: true,
        },
        language::Request::Hover {
            request_id: 4,
            document: id,
            revision: 0,
            offset: 0,
        },
    ];
    let coalesced = language::coalesce_requests(requests);

    assert_eq!(coalesced.len(), 3);
    assert!(matches!(coalesced[0], language::Request::Definition { .. }));
    assert!(matches!(
        coalesced[1],
        language::Request::Complete { request_id: 3, .. }
    ));
    assert!(matches!(coalesced[2], language::Request::Hover { request_id: 4, .. }));
}

#[test]
fn queries_are_matched_literally() {
    assert_eq!(find_matches("axb a.b", "a.b", Options::default()), vec![4..7]);
    assert_eq!(find_matches("f(x) fx", "(x)", Options::default()), vec![1..4]);
    assert!(find_matches("abc", "a*", Options::default()).is_empty());
}

#[test]
fn case_sensitive_matches_hold_exactly_the_query() {
    let text = "a.b axb A.B";
    let sensitive = Options { case_sensitive: true, whole_word: false };
    let found = find_matches(text, "a.b", sensitive);
    assert_eq!(found, vec![0..3]);
    for range in &found {
        assert_eq!(&text[range.clone()], "a.b");
    }
    let folded = find_matches(text, "a.b", Options::default());
    assert_eq!(folded, vec![0..3, 8..11]);
}

#[test]
fn whole_word_matches_are_among_the_plain_matches() {
    let text = "foo foobar foo";
    let plain = find_matches(text, "foo", Options { case_sensitive: true, whole_word: false });
    let whole = find_matches(text, "foo", Options { case_sensitive: true, whole_word: true });
    assert_eq!(plain, vec![0..3, 4..7, 11..14]);
    assert_eq!(whole, vec![0..3, 11..14]);
    assert!(whole.iter().all(|range| plain.contains(range)));
}
