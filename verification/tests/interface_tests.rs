use typstation::compiler::{
    DiagnosticSeverity, DiagnosticTarget, DocumentOutlineItem, ExportFormat, ReportedDiagnostic,
};
use typstation::display::{select_initial_display, DisplayGeometry};
use typstation::interface::{
    collect_outline_keys, command_alt_shortcut, diagnostic_counts, problem_items, status_text,
    PreviewStatus, command_shift_shortcut, command_shortcut,
    export_file_name, find_current_outline_key, problems_navigation_label, project_display_name,
    truncate, with_export_extension, AppMenu, OutlineKey, ProjectNavigation, SettingsPage,
};
use typstation::session::{check_session, default_path, Document, SessionProblem};
use typstation::source_map::SourceTarget;
use typstation::project::with_typst_extension;
use typstation::ui::{
    ActionButtonPosition, AlertDialog, AlertDialogAction, AlertDialogVariant, ButtonGroup,
    ButtonGroupItem, ButtonGroupOrientation, ButtonOptions, PanelTabItem, PanelTabNotification,
    PanelTabs, ProblemCounts, ProblemItem, ProblemSeverity, Problems, SideNavigation,
    SideNavigationItem, SideNavigationNotification, UiIcon, WorkflowIcon,
};
use typstation::ui::alert_dialog::variant_icon;

#[test]
fn application_menus_cycle_in_both_directions() {
    assert_eq!(AppMenu::File.previous(), AppMenu::Help);
    assert_eq!(AppMenu::File.next(), AppMenu::Edit);
    assert_eq!(AppMenu::Help.next(), AppMenu::File);
    assert_eq!(AppMenu::Help.previous(), AppMenu::View);
}

#[test]
fn menu_moves_are_undone_by_the_opposite_move() {
    for menu in [AppMenu::File, AppMenu::Edit, AppMenu::View, AppMenu::Help] {
        assert_eq!(menu.next().previous(), menu);
        assert_eq!(menu.previous().next(), menu);
        assert_eq!(menu.next().next().next().next(), menu);
        assert_ne!(menu.next(), menu);
    }
}

#[test]
fn problems_navigation_label_reports_each_active_severity() {
    assert_eq!(problems_navigation_label(0, 0), "Problemas");
    assert_eq!(problems_navigation_label(1, 0), "Problemas: 1 erro");
    assert_eq!(problems_navigation_label(0, 1), "Problemas: 1 aviso");
    assert_eq!(
        problems_navigation_label(2, 3),
        "Problemas: 2 erros, 3 avisos"
    );
}

#[test]
fn problems_label_uses_plural_for_large_counts() {
    assert_eq!(problems_navigation_label(12, 0), "Problemas: 12 erros");
    assert_eq!(problems_navigation_label(1, 1), "Problemas: 1 erro, 1 aviso");
}

#[test]
fn pages_and_destinations_have_titles() {
    assert_eq!(SettingsPage::Export.title(), "Exportação");
    assert_eq!(SettingsPage::Appearance.title(), "Aparência");
    assert_eq!(ProjectNavigation::Topics.title(), "Sumário");
    assert_eq!(ProjectNavigation::Problems.title(), "Problemas");
}

#[test]
fn shortcut_labels_name_the_platform_modifiers() {
    assert_eq!(command_shortcut("S", false), "Ctrl+S");
    assert_eq!(command_shift_shortcut("S", false), "Ctrl+Shift+S");
    assert_eq!(command_alt_shortcut("S", false), "Ctrl+Alt+S");
    assert_eq!(command_shortcut("S", true), "⌘S");
    assert_eq!(command_shift_shortcut("S", true), "⇧⌘S");
    assert_eq!(command_alt_shortcut("S", true), "⌥⌘S");
}

#[test]
fn truncation_marks_shortened_text() {
    assert_eq!(truncate("árvore", 3), "árv...");
    assert_eq!(truncate("abc", 3), "abc");
    assert_eq!(truncate("", 0), "");
}

#[test]
fn export_names_take_the_extension_of_the_format() {
    assert_eq!(with_export_extension("/p/out", ExportFormat::Pdf), "/p/out.pdf");
    assert_eq!(with_export_extension("/p/out.", ExportFormat::Svg), "/p/out.svg");
    assert_eq!(with_export_extension("/p/out.png", ExportFormat::Pdf), "/p/out.png");
    assert_eq!(export_file_name("main.typ", ExportFormat::Html), "main.html");
    assert_eq!(export_file_name("main", ExportFormat::Png), "main.png");
}

#[test]
fn project_name_is_the_root_directory_name() {
    assert_eq!(project_display_name("/home/ana/tese"), "tese");
    assert_eq!(project_display_name("/"), "/");
}

fn heading(title: &str, target: SourceTarget, start: usize, children: Vec<DocumentOutlineItem>) -> DocumentOutlineItem {
    DocumentOutlineItem {
        title: title.to_owned(),
        target,
        range: start..start + 1,
        children,
    }
}

fn outline() -> Vec<DocumentOutlineItem> {
    vec![
        heading(
            "Introdução",
            SourceTarget::Main,
            0,
            vec![heading("Contexto", SourceTarget::Main, 40, Vec::new())],
        ),
        heading(
            "Parte",
            SourceTarget::ProjectFile("/p/parte.typ".to_owned()),
            10,
            Vec::new(),
        ),
        heading("Conclusão", SourceTarget::Main, 90, Vec::new()),
    ]
}

#[test]
fn outline_keys_are_collected_once_each() {
    let mut keys = Vec::new();
    collect_outline_keys(&outline(), &mut keys);
    collect_outline_keys(&outline(), &mut keys);

    assert_eq!(keys.len(), 4);
    assert!(keys.contains(&OutlineKey::new(SourceTarget::Main, 40)));
    assert!(keys.contains(&OutlineKey::new(
        SourceTarget::ProjectFile("/p/parte.typ".to_owned()),
        10
    )));
}

#[test]
fn current_outline_heading_is_the_last_one_before_the_cursor() {
    let entries = outline();
    let mut selected = None;
    find_current_outline_key(&entries, &SourceTarget::Main, 50, &mut selected);
    assert_eq!(selected, Some(OutlineKey::new(SourceTarget::Main, 40)));

    let mut selected = None;
    find_current_outline_key(&entries, &SourceTarget::Main, 95, &mut selected);
    assert_eq!(selected, Some(OutlineKey::new(SourceTarget::Main, 90)));

    let mut selected = None;
    let part = SourceTarget::ProjectFile("/p/parte.typ".to_owned());
    find_current_outline_key(&entries, &part, 5, &mut selected);
    assert_eq!(selected, None);
}

fn display(x: i32, y: i32, primary: bool) -> DisplayGeometry {
    DisplayGeometry {
        x,
        y,
        width: 1920,
        height: 1080,
        is_primary: primary,
    }
}

#[test]
fn initial_display_prefers_primary_then_origin_then_first() {
    assert_eq!(select_initial_display(&[display(1920, 0, false), display(0, 0, true)]), Some(1));
    assert_eq!(select_initial_display(&[display(1920, 0, false), display(0, 0, false)]), Some(1));
    assert_eq!(select_initial_display(&[display(1920, 0, false), display(3840, 0, false)]), Some(0));
    assert_eq!(select_initial_display(&[]), None);
}

#[test]
fn session_file_follows_the_environment() {
    assert_eq!(
        default_path(Some("/tmp/s.json"), Some("/state"), Some("/home/a")),
        Some("/tmp/s.json".to_owned())
    );
    assert_eq!(
        default_path(Some(""), Some("/state"), Some("/home/a")),
        Some("/state/typstation/session.json".to_owned())
    );
    assert_eq!(
        default_path(None, Some("relative"), Some("/home/a")),
        Some("/home/a/.local/state/typstation/session.json".to_owned())
    );
    assert_eq!(default_path(None, None, None), None);
}

#[test]
fn stored_sessions_are_checked() {
    assert_eq!(check_session(1, 2, 5), Ok(1));
    assert_eq!(check_session(1, 2, 0), Ok(0));
    assert_eq!(check_session(2, 2, 0), Err(SessionProblem::Version(2)));
    assert_eq!(check_session(1, 0, 0), Err(SessionProblem::NoDocuments));
    assert_eq!(check_session(1, 513, 0), Err(SessionProblem::TooManyDocuments));
    assert_eq!(
        SessionProblem::Version(2).message(),
        "versão de sessão incompatível: 2 (esperada: 1)"
    );
    assert_eq!(
        SessionProblem::TooManyDocuments.message(),
        "a sessão excede o limite de 512 documentos"
    );
    let blank = Document::blank();
    assert_eq!(blank.saved_text.as_deref(), Some(""));
}

#[test]
fn compact_group_assigns_joined_edge_positions() {
    assert_eq!(
        ActionButtonPosition::in_group(0, 3),
        ActionButtonPosition::First
    );
    assert_eq!(
        ActionButtonPosition::in_group(1, 3),
        ActionButtonPosition::Middle
    );
    assert_eq!(
        ActionButtonPosition::in_group(2, 3),
        ActionButtonPosition::Last
    );
    assert_eq!(
        ActionButtonPosition::in_group(0, 1),
        ActionButtonPosition::Standalone
    );
}

#[test]
fn severity_uses_distinct_error_and_warning_icons() {
    assert_eq!(
        ProblemSeverity::Error.indicator_icon(),
        WorkflowIcon::AlertCircleFilled
    );
    assert_eq!(
        ProblemSeverity::Warning.indicator_icon(),
        WorkflowIcon::Alert
    );
}

#[test]
fn items_are_sorted_by_severity_without_reordering_equal_levels() {
    let problems = Problems::new(vec![
        ProblemItem::new(ProblemSeverity::Warning, "aviso 1".to_owned(), "a.typ".to_owned(), Some(1)),
        ProblemItem::new(ProblemSeverity::Error, "erro".to_owned(), "b.typ".to_owned(), Some(2)),
        ProblemItem::new(ProblemSeverity::Warning, "aviso 2".to_owned(), "c.typ".to_owned(), Some(3)),
    ]);

    assert_eq!(problems.item(0).severity, ProblemSeverity::Error);
    assert_eq!(problems.item(1).message, "aviso 1");
    assert_eq!(problems.item(2).message, "aviso 2");
}

#[test]
fn counts_include_every_supported_semantic_level() {
    let items = vec![
        ProblemItem::<()>::new(ProblemSeverity::Error, "e".to_owned(), "a.typ".to_owned(), None),
        ProblemItem::new(ProblemSeverity::Warning, "w".to_owned(), "a.typ".to_owned(), None),
        ProblemItem::new(ProblemSeverity::Information, "i".to_owned(), "a.typ".to_owned(), None),
        ProblemItem::new(ProblemSeverity::Hint, "h".to_owned(), "a.typ".to_owned(), None),
    ];
    let counts = ProblemCounts::from_items(&items);

    assert_eq!(counts.errors, 1);
    assert_eq!(counts.warnings, 1);
    assert_eq!(counts.information, 1);
    assert_eq!(counts.hints, 1);
}

#[test]
fn panel_reports_its_item_count() {
    let problems = Problems::new(vec![ProblemItem::<()>::new(
        ProblemSeverity::Error,
        "erro".to_owned(),
        "main.typ".to_owned(),
        None,
    )]);

    assert_eq!(problems.len(), 1);
    assert!(!problems.is_empty());
}

#[test]
fn panel_header_can_be_hidden_when_the_parent_already_has_a_title() {
    let problems = Problems::<()>::new(Vec::new()).show_header(false);

    assert!(!problems.header_shown());
}

#[test]
fn severity_labels_count_each_level() {
    assert_eq!(ProblemSeverity::Error.count_label(2), "2 erros");
    assert_eq!(ProblemSeverity::Warning.count_label(1), "1 aviso");
}

#[test]
fn item_preserves_selection_action_and_notification() {
    let item = PanelTabItem::new("Problemas".to_owned(), WorkflowIcon::AlertCircleFilled, Some(7))
        .selected(true)
        .notification(Some(PanelTabNotification::Error));

    assert_eq!(item.label, "Problemas");
    assert!(item.selected);
    assert_eq!(item.on_select, Some(7));
    assert_eq!(item.notification, Some(PanelTabNotification::Error));
}

#[test]
fn tabs_report_their_item_count() {
    let tabs = PanelTabs::new(vec![PanelTabItem::<()>::new(
        "Arquivos".to_owned(),
        WorkflowIcon::FolderOpen,
        None,
    )]);

    assert_eq!(tabs.len(), 1);
    assert!(!tabs.is_empty());
}

#[test]
fn item_builder_preserves_selection_and_action() {
    let item =
        SideNavigationItem::new("Arquivos".to_owned(), WorkflowIcon::FolderOpen, Some(7)).selected(true);

    assert_eq!(item.label, "Arquivos");
    assert_eq!(item.icon, WorkflowIcon::FolderOpen);
    assert!(item.selected);
    assert_eq!(item.notification, None);
    assert_eq!(item.on_press, Some(7));
}

#[test]
fn item_builder_preserves_a_semantic_notification() {
    let item = SideNavigationItem::<()>::new(
        "Problemas: 1 erro".to_owned(),
        WorkflowIcon::AlertCircleFilled,
        None,
    )
    .notification(Some(SideNavigationNotification::Error));

    assert_eq!(item.notification, Some(SideNavigationNotification::Error));
}

#[test]
fn navigation_reports_its_item_count() {
    let navigation = SideNavigation::new(vec![
        SideNavigationItem::<()>::new("Arquivos".to_owned(), WorkflowIcon::FolderOpen, None),
        SideNavigationItem::new("Sumário".to_owned(), WorkflowIcon::TextBulleted, None),
        SideNavigationItem::new("Problemas".to_owned(), WorkflowIcon::AlertCircleFilled, None),
    ]);

    assert_eq!(navigation.len(), 3);
    assert!(!navigation.is_empty());
}

#[test]
fn button_group_defaults_to_horizontal_and_preserves_items() {
    let group: ButtonGroup<'_, i32, ()> = ButtonGroup::new(vec![
        ButtonGroupItem::new("SVG", Some(1), ButtonOptions::secondary()),
        ButtonGroupItem::new("PDF", Some(2), ButtonOptions::primary()),
    ]);

    assert_eq!(group.orientation(), ButtonGroupOrientation::Horizontal);
    assert_eq!(group.len(), 2);
    assert!(!group.is_empty());
}

#[test]
fn button_group_can_stack_vertically() {
    let group = ButtonGroup::<(), ()>::new(Vec::new()).vertical();

    assert_eq!(group.orientation(), ButtonGroupOrientation::Vertical);
}

#[test]
fn button_group_accepts_a_trailing_custom_action() {
    let group = ButtonGroup::new(vec![ButtonGroupItem::new(
        "Exportar PDF",
        Some(1),
        ButtonOptions::primary(),
    )])
    .trailing("…");

    assert_eq!(group.len(), 2);
    assert!(!group.is_empty());
}

#[test]
fn every_workflow_icon_has_a_distinct_cached_handle() {
    let icons = [
        WorkflowIcon::TextBold,
        WorkflowIcon::TextItalic,
        WorkflowIcon::TextUnderline,
        WorkflowIcon::TextBulleted,
        WorkflowIcon::TextNumbered,
        WorkflowIcon::ChevronDown,
        WorkflowIcon::ChevronRight,
        WorkflowIcon::Document,
        WorkflowIcon::FileCode,
        WorkflowIcon::Folder,
        WorkflowIcon::FolderOpen,
        WorkflowIcon::Project,
        WorkflowIcon::FileAdd,
        WorkflowIcon::FolderAdd,
        WorkflowIcon::Refresh,
        WorkflowIcon::Visibility,
        WorkflowIcon::Alert,
        WorkflowIcon::AlertCircleFilled,
        WorkflowIcon::Search,
        WorkflowIcon::FindAndReplace,
        WorkflowIcon::ChevronUp,
        WorkflowIcon::Close,
        WorkflowIcon::Settings,
        WorkflowIcon::More,
        WorkflowIcon::Undo,
        WorkflowIcon::Redo,
        WorkflowIcon::Code,
        WorkflowIcon::ZoomIn,
        WorkflowIcon::ZoomOut,
    ];
    let ids: Vec<_> = icons.into_iter().map(|icon| icon.index()).collect();

    for (position, id) in ids.iter().enumerate() {
        assert!(!ids[..position].contains(id));
    }
}

#[test]
fn every_ui_icon_has_a_cached_handle() {
    for icon in [UiIcon::Cross100, UiIcon::Checkmark100] {
        assert_eq!(icon.index(), icon.index());
    }
    assert_ne!(UiIcon::Cross100.index(), UiIcon::Checkmark100.index());
}

#[test]
fn dialog_preserves_actions_and_semantic_variant() {
    let dialog = AlertDialog::new(
        AlertDialogVariant::Destructive,
        "Excluir arquivo".to_owned(),
        "A ação não pode ser desfeita.".to_owned(),
        vec![
            AlertDialogAction::new("Cancelar", Some(1), ButtonOptions::secondary()),
            AlertDialogAction::new("Excluir", Some(2), ButtonOptions::negative()),
        ],
        0,
    );

    assert_eq!(dialog.variant(), AlertDialogVariant::Destructive);
    assert_eq!(dialog.len(), 2);
    assert_eq!(
        variant_icon(dialog.variant()),
        Some(WorkflowIcon::AlertCircleFilled)
    );
}

#[test]
fn diagnostic_counts_separate_errors_from_warnings() {
    let diagnostics = vec![
        ReportedDiagnostic {
            target: DiagnosticTarget::Main,
            range: 0..1,
            severity: DiagnosticSeverity::Error,
            message: "erro".to_owned(),
        },
        ReportedDiagnostic {
            target: DiagnosticTarget::Main,
            range: 2..3,
            severity: DiagnosticSeverity::Warning,
            message: "aviso".to_owned(),
        },
    ];

    assert_eq!(diagnostic_counts(&diagnostics), (1, 1));
}

#[test]
fn problem_items_preserve_severity_full_message_source_and_navigation() {
    let chapter = "/projeto/chapters/one.typ".to_owned();
    let message = "uma mensagem de aviso longa que deve permanecer completa no painel de problemas";
    let diagnostics = vec![ReportedDiagnostic {
        target: DiagnosticTarget::ProjectFile(chapter.clone()),
        range: 12..34,
        severity: DiagnosticSeverity::Warning,
        message: message.to_owned(),
    }];

    let items = problem_items(&diagnostics, "/projeto", "main.typ");

    assert_eq!(items.len(), 1);
    assert_eq!(items[0].severity, ProblemSeverity::Warning);
    assert_eq!(items[0].message, message);
    assert_eq!(items[0].source, "chapters/one.typ");
    match &items[0].on_press {
        Some((target, range)) => {
            assert_eq!(target, &DiagnosticTarget::ProjectFile(chapter));
            assert_eq!(range, &(12..34));
        }
        None => panic!("o problema deve navegar para o diagnóstico"),
    }
}

#[test]
fn status_bar_joins_file_and_preview_states() {
    assert_eq!(
        status_text(&PreviewStatus::Ready { pages: 1, warnings: 2 }, None),
        "Preview atualizado: 1 página, 2 avisos"
    );
    assert_eq!(
        status_text(&PreviewStatus::Compiling, Some("Arquivo salvo")),
        "Arquivo salvo | Compilando preview..."
    );
    assert_eq!(
        status_text(
            &PreviewStatus::Failed { errors: 3, summary: "falhou".to_owned() },
            None
        ),
        "Preview desatualizado: 3 erros - falhou"
    );
}

#[test]
fn save_as_adds_the_typst_extension_when_missing() {
    assert_eq!(with_typst_extension("documento"), "documento.typ");
    assert_eq!(with_typst_extension("documento.typ"), "documento.typ");
    for (format, expected) in [
        (ExportFormat::Pdf, "documento.pdf"),
        (ExportFormat::Svg, "documento.svg"),
        (ExportFormat::Html, "documento.html"),
    ] {
        assert_eq!(with_export_extension("documento", format), expected);
        assert_eq!(export_file_name("documento.typ", format), expected);
    }
}
