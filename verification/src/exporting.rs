//! Exporting the document: choosing where, waiting for the compilation made
//! for the export, and writing what it produced.
use vstd::prelude::*;
use crate::compiler::{ExportFormat, Purpose};
use crate::tabs::{Tabs, TabsView};
use crate::text::{decimal, decimal_string, push_str};

verus! {

/// The name of a format in messages.
pub open spec fn format_label(format: ExportFormat) -> Seq<char> {
    match format {
        ExportFormat::Pdf => "PDF"@,
        ExportFormat::Svg => "SVG"@,
        ExportFormat::Html => "HTML"@,
        ExportFormat::Png => "PNG"@,
    }
}

/// An export waiting for its compilation: the compilation request it sent
/// and the revision it compiles, and where the result goes.
#[derive(Debug, Clone)]
pub struct PendingExport {
    pub format: ExportFormat,
    pub request_id: u64,
    pub revision: u64,
    pub path: String,
}

/// What a finished compilation reports to an export.
#[derive(Debug)]
pub struct ExportOutput {
    pub id: u64,
    pub revision: u64,
    pub purpose: Purpose,
    pub error_count: usize,
    pub summary: Option<String>,
    pub has_artifact: bool,
}

/// What the application does with a finished compilation.
#[derive(Debug, PartialEq, Eq)]
pub enum ExportReaction {
    /// It was not made for the waiting export.
    Ignored,
    /// The export failed; the message for the status bar. The diagnostics
    /// are shown when `show_diagnostics`.
    Failed { status: String, show_diagnostics: bool },
    /// Write the produced file to `path`; the message for the status bar.
    Write { path: String, format: ExportFormat, status: String, show_diagnostics: bool },
}

fn message3(a: &str, b: &str, c: &str) -> (r: String)
    ensures
        r@ == a@ + b@ + c@,
{
    let mut s = String::new();
    push_str(&mut s, a);
    push_str(&mut s, b);
    push_str(&mut s, c);
    s
}

/// Asks where to export to, unless a file operation runs or no compiler is
/// there: the tabs become busy; returns the message for the status bar.
pub fn start_export(tabs: &mut Tabs, has_compiler: bool, format: ExportFormat) -> (r: Option<String>)
    requires
        old(tabs).wf(),
    ensures
        final(tabs).wf(),
        old(tabs)@.file_busy || !has_compiler ==> r is None && final(tabs)@ == old(tabs)@,
        !old(tabs)@.file_busy && has_compiler ==> {
            &&& final(tabs)@ == (TabsView { file_busy: true, ..old(tabs)@ })
            &&& r matches Some(m) && m@ == "Aguardando o destino do "@ + format_label(format) + "..."@
        },
{
    if tabs.file_busy() || !has_compiler {
        return None;
    }
    tabs.set_file_busy(true);
    Some(message3("Aguardando o destino do ", format.label(), "..."))
}

/// The destination of an export was chosen (`path`) or not: without one, or
/// without a compiler, the export ends with a message; otherwise the export
/// waits for the compilation `request_id` of `revision`, which the
/// application sends.
pub fn export_destination(tabs: &mut Tabs, format: ExportFormat, path: Option<String>, has_compiler: bool, request_id: u64, revision: u64)
    -> (r: Result<PendingExport, String>)
    requires
        old(tabs).wf(),
    ensures
        final(tabs).wf(),
        match path {
            None => final(tabs)@ == (TabsView { file_busy: false, ..old(tabs)@ })
                && (r matches Err(m) && m@ == "A exportação de "@ + format_label(format) + " foi cancelada"@),
            Some(p) => if !has_compiler {
                final(tabs)@ == (TabsView { file_busy: false, ..old(tabs)@ })
                    && (r matches Err(m) && m@ == "O worker de compilação não está disponível"@)
            } else {
                final(tabs)@ == old(tabs)@ && (r matches Ok(pending) && pending.format == format
                    && pending.request_id == request_id && pending.revision == revision && pending.path@ == p@)
            },
        },
{
    match path {
        None => {
            tabs.set_file_busy(false);
            Err(message3("A exportação de ", format.label(), " foi cancelada"))
        },
        Some(path) => {
            if !has_compiler {
                tabs.set_file_busy(false);
                return Err("O worker de compilação não está disponível".to_owned());
            }
            Ok(PendingExport { format, request_id, revision, path })
        },
    }
}

/// Whether a compilation was made for the waiting export.
pub open spec fn made_for(p: PendingExport, o: ExportOutput) -> bool {
    p.request_id == o.id && p.revision == o.revision && o.purpose == Purpose::Export(p.format)
}

/// The waiting export, the tabs and the reaction after a finished
/// compilation, when `compiled_revision` is the revision now compiled: one
/// not made for the export changes nothing; one with errors, or without a
/// file, ends the export; otherwise its file is written.
pub open spec fn export_reaction(pending: Option<PendingExport>, t: TabsView, o: ExportOutput, compiled_revision: u64)
    -> (Option<PendingExport>, TabsView, ExportReactionView)
{
    match pending {
        None => (pending, t, ExportReactionView::Ignored),
        Some(p) => if !made_for(p, o) {
            (pending, t, ExportReactionView::Ignored)
        } else {
            let show = compiled_revision == o.revision;
            let label = format_label(p.format);
            if o.error_count > 0 {
                let reason = match o.summary {
                    Some(s) => s@,
                    None => decimal(o.error_count as nat) + " erro(s)"@,
                };
                (None, TabsView { file_busy: false, ..t },
                    ExportReactionView::Failed { status: "Falha ao gerar "@ + label + ": "@ + reason, show_diagnostics: show })
            } else if !o.has_artifact {
                (None, TabsView { file_busy: false, ..t },
                    ExportReactionView::Failed { status: "A compilação não produziu um arquivo "@ + label, show_diagnostics: show })
            } else {
                (None, t, ExportReactionView::Write {
                    path: p.path@,
                    format: p.format,
                    status: "Gravando "@ + label + "..."@,
                    show_diagnostics: show,
                })
            }
        },
    }
}

/// A reaction by its texts.
pub ghost enum ExportReactionView {
    Ignored,
    Failed { status: Seq<char>, show_diagnostics: bool },
    Write { path: Seq<char>, format: ExportFormat, status: Seq<char>, show_diagnostics: bool },
}

/// The view of a reaction.
pub open spec fn reaction_view(r: ExportReaction) -> ExportReactionView {
    match r {
        ExportReaction::Ignored => ExportReactionView::Ignored,
        ExportReaction::Failed { status, show_diagnostics } => ExportReactionView::Failed { status: status@, show_diagnostics },
        ExportReaction::Write { path, format, status, show_diagnostics } =>
            ExportReactionView::Write { path: path@, format, status: status@, show_diagnostics },
    }
}

/// Takes in a finished compilation for the waiting export.
pub fn export_output(pending: &mut Option<PendingExport>, tabs: &mut Tabs, output: &ExportOutput, compiled_revision: u64)
    -> (r: ExportReaction)
    requires
        old(tabs).wf(),
    ensures
        final(tabs).wf(),
        ({
            let (p, t, v) = export_reaction(*old(pending), old(tabs)@, *output, compiled_revision);
            &&& *final(pending) == p
            &&& final(tabs)@ == t
            &&& reaction_view(r) == v
        }),
{
    let waiting = match pending {
        None => return ExportReaction::Ignored,
        Some(p) => p,
    };
    let same_purpose = match output.purpose {
        Purpose::Export(format) => format == waiting.format,
        Purpose::Preview => false,
    };
    if waiting.request_id != output.id || waiting.revision != output.revision || !same_purpose {
        return ExportReaction::Ignored;
    }
    let format = waiting.format;
    let path = waiting.path.clone();
    *pending = None;
    let show = compiled_revision == output.revision;
    let label = format.label();
    if output.error_count > 0 {
        tabs.set_file_busy(false);
        let reason = match &output.summary {
            Some(s) => s.clone(),
            None => {
                let mut r = decimal_string(output.error_count);
                push_str(&mut r, " erro(s)");
                r
            },
        };
        let mut status = message3("Falha ao gerar ", label, ": ");
        push_str(&mut status, reason.as_str());
        return ExportReaction::Failed { status, show_diagnostics: show };
    }
    if !output.has_artifact {
        tabs.set_file_busy(false);
        let mut status = String::new();
        push_str(&mut status, "A compilação não produziu um arquivo ");
        push_str(&mut status, label);
        return ExportReaction::Failed { status, show_diagnostics: show };
    }
    ExportReaction::Write { path, format, status: message3("Gravando ", label, "..."), show_diagnostics: show }
}

/// How writing an exported file ended.
#[derive(Debug)]
pub enum ExportWriteOutcome {
    Saved { format: ExportFormat, path: String },
    Failed { format: ExportFormat, error: String },
}

/// Takes in the end of writing an exported file: the tabs are free again;
/// returns the message for the status bar.
pub fn export_written(tabs: &mut Tabs, outcome: ExportWriteOutcome) -> (r: String)
    requires
        old(tabs).wf(),
    ensures
        final(tabs).wf(),
        final(tabs)@ == (TabsView { file_busy: false, ..old(tabs)@ }),
        r@ == match outcome {
            ExportWriteOutcome::Saved { format, path } => format_label(format) + " exportado: "@ + path@,
            ExportWriteOutcome::Failed { format, error } => "Erro ao exportar "@ + format_label(format) + ": "@ + error@,
        },
{
    tabs.set_file_busy(false);
    match outcome {
        ExportWriteOutcome::Saved { format, path } => message3(format.label(), " exportado: ", path.as_str()),
        ExportWriteOutcome::Failed { format, error } => {
            let mut s = message3("Erro ao exportar ", format.label(), ": ");
            push_str(&mut s, error.as_str());
            s
        },
    }
}

/// A compilation made for anything else never touches the waiting export.
pub proof fn law_foreign_compilations_leave_the_export_waiting(p: PendingExport, t: TabsView, o: ExportOutput, compiled_revision: u64)
    requires
        !made_for(p, o),
    ensures
        export_reaction(Some(p), t, o, compiled_revision) == (Some(p), t, ExportReactionView::Ignored),
{
}

} // verus!
