use typstation::compiler::{ExportFormat, Purpose};
use typstation::document::{Document, Documents};
use typstation::exporting::{
    export_destination, export_output, export_written, start_export, ExportOutput, ExportReaction, ExportWriteOutcome,
};
use typstation::tabs::Tabs;

fn tabs() -> Tabs {
    Tabs::new(Documents::new(Document::new()))
}

fn output(id: u64, revision: u64, purpose: Purpose) -> ExportOutput {
    ExportOutput { id, revision, purpose, error_count: 0, summary: None, has_artifact: true }
}

#[test]
fn an_export_waits_for_its_own_compilation_and_writes_the_file() {
    let mut tabs = tabs();
    assert_eq!(start_export(&mut tabs, false, ExportFormat::Pdf), None);
    assert_eq!(start_export(&mut tabs, true, ExportFormat::Pdf).as_deref(), Some("Aguardando o destino do PDF..."));
    assert!(tabs.file_busy());
    assert_eq!(start_export(&mut tabs, true, ExportFormat::Pdf), None);

    let pending = export_destination(&mut tabs, ExportFormat::Pdf, Some("/p/out.pdf".to_owned()), true, 7, 3).unwrap();
    let mut waiting = Some(pending);

    assert_eq!(export_output(&mut waiting, &mut tabs, &output(6, 3, Purpose::Export(ExportFormat::Pdf)), 3), ExportReaction::Ignored);
    assert_eq!(export_output(&mut waiting, &mut tabs, &output(7, 3, Purpose::Preview), 3), ExportReaction::Ignored);
    assert_eq!(export_output(&mut waiting, &mut tabs, &output(7, 3, Purpose::Export(ExportFormat::Svg)), 3), ExportReaction::Ignored);
    assert!(waiting.is_some());

    let reaction = export_output(&mut waiting, &mut tabs, &output(7, 3, Purpose::Export(ExportFormat::Pdf)), 4);
    assert_eq!(
        reaction,
        ExportReaction::Write {
            path: "/p/out.pdf".to_owned(),
            format: ExportFormat::Pdf,
            status: "Gravando PDF...".to_owned(),
            show_diagnostics: false,
        }
    );
    assert!(waiting.is_none());
    assert!(tabs.file_busy());

    let status = export_written(&mut tabs, ExportWriteOutcome::Saved { format: ExportFormat::Pdf, path: "/p/out.pdf".to_owned() });
    assert_eq!(status, "PDF exportado: /p/out.pdf");
    assert!(!tabs.file_busy());
}

#[test]
fn failed_or_cancelled_exports_free_the_tabs() {
    let mut tabs = tabs();
    let _ = start_export(&mut tabs, true, ExportFormat::Html);
    let cancelled = export_destination(&mut tabs, ExportFormat::Html, None, true, 1, 1);
    assert_eq!(cancelled.unwrap_err(), "A exportação de HTML foi cancelada");
    assert!(!tabs.file_busy());

    let _ = start_export(&mut tabs, true, ExportFormat::Svg);
    let gone = export_destination(&mut tabs, ExportFormat::Svg, Some("/x.svg".to_owned()), false, 1, 1);
    assert_eq!(gone.unwrap_err(), "O worker de compilação não está disponível");

    let _ = start_export(&mut tabs, true, ExportFormat::Svg);
    let mut waiting = Some(export_destination(&mut tabs, ExportFormat::Svg, Some("/x.svg".to_owned()), true, 2, 5).unwrap());
    let mut broken = output(2, 5, Purpose::Export(ExportFormat::Svg));
    broken.error_count = 2;
    assert_eq!(
        export_output(&mut waiting, &mut tabs, &broken, 5),
        ExportReaction::Failed { status: "Falha ao gerar SVG: 2 erro(s)".to_owned(), show_diagnostics: true }
    );
    assert!(!tabs.file_busy());

    let _ = start_export(&mut tabs, true, ExportFormat::Svg);
    let mut waiting = Some(export_destination(&mut tabs, ExportFormat::Svg, Some("/x.svg".to_owned()), true, 3, 5).unwrap());
    let mut empty = output(3, 5, Purpose::Export(ExportFormat::Svg));
    empty.has_artifact = false;
    assert_eq!(
        export_output(&mut waiting, &mut tabs, &empty, 5),
        ExportReaction::Failed { status: "A compilação não produziu um arquivo SVG".to_owned(), show_diagnostics: true }
    );
    let status = export_written(&mut tabs, ExportWriteOutcome::Failed { format: ExportFormat::Png, error: "disco cheio".to_owned() });
    assert_eq!(status, "Erro ao exportar PNG: disco cheio");
}
