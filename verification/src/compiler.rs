//! Compiler requests and results, and the rule that decides which queued
//! requests are worth compiling.
use vstd::prelude::*;
use std::ops::Range;
use crate::source_map::SourceTarget;

verus! {

/// The source a diagnostic belongs to.
pub type DiagnosticTarget = SourceTarget;

/// A heading of the document outline, with the headings below it.
#[derive(Debug, PartialEq, Eq)]
pub struct DocumentOutlineItem {
    pub title: String,
    pub target: SourceTarget,
    pub range: Range<usize>,
    pub children: Vec<DocumentOutlineItem>,
}

/// A diagnostic of a compilation, located in its source.
#[derive(Debug, PartialEq, Eq)]
pub struct ReportedDiagnostic {
    pub target: DiagnosticTarget,
    pub range: Range<usize>,
    pub severity: DiagnosticSeverity,
    pub message: String,
}

/// What a compilation is for.
#[derive(Debug, Clone, Copy, PartialEq, Eq, Structural)]
pub enum Purpose {
    Preview,
    Export(ExportFormat),
}

/// The formats a document can be exported to.
#[derive(Debug, Clone, Copy, PartialEq, Eq, Structural)]
pub enum ExportFormat {
    Pdf,
    Svg,
    Html,
    Png,
}

impl ExportFormat {
    /// Name of the format shown to the user.
    pub fn label(self) -> (r: &'static str)
        ensures
            r@ == match self {
                ExportFormat::Pdf => "PDF"@,
                ExportFormat::Svg => "SVG"@,
                ExportFormat::Html => "HTML"@,
                ExportFormat::Png => "PNG"@,
            },
    {
        match self {
            ExportFormat::Pdf => "PDF",
            ExportFormat::Svg => "SVG",
            ExportFormat::Html => "HTML",
            ExportFormat::Png => "PNG",
        }
    }

    /// File extension of the format.
    pub fn extension(self) -> (r: &'static str)
        ensures
            r@ == export_extension(self),
    {
        match self {
            ExportFormat::Pdf => "pdf",
            ExportFormat::Svg => "svg",
            ExportFormat::Html => "html",
            ExportFormat::Png => "png",
        }
    }
}

/// File extension of an export format.
pub open spec fn export_extension(format: ExportFormat) -> Seq<char> {
    match format {
        ExportFormat::Pdf => "pdf"@,
        ExportFormat::Svg => "svg"@,
        ExportFormat::Html => "html"@,
        ExportFormat::Png => "png"@,
    }
}

/// Options of each export format.
#[derive(Debug, Clone, Copy, PartialEq, Eq, Structural)]
pub struct ExportOptions {
    pub pdf_tagged: bool,
    pub pdf_pretty: bool,
    pub svg_render_bleed: bool,
    pub svg_pretty: bool,
    pub svg_page_gap: u16,
    pub html_pretty: bool,
    pub png_ppi: u16,
    pub png_render_bleed: bool,
    pub png_page_gap: u16,
}

impl Default for ExportOptions {
    fn default() -> (r: Self)
        ensures
            r == (ExportOptions {
                pdf_tagged: true,
                pdf_pretty: false,
                svg_render_bleed: false,
                svg_pretty: false,
                svg_page_gap: 12,
                html_pretty: true,
                png_ppi: 144,
                png_render_bleed: false,
                png_page_gap: 12,
            }),
    {
        ExportOptions {
            pdf_tagged: true,
            pdf_pretty: false,
            svg_render_bleed: false,
            svg_pretty: false,
            svg_page_gap: 12,
            html_pretty: true,
            png_ppi: 144,
            png_render_bleed: false,
            png_page_gap: 12,
        }
    }
}

/// Unsaved text of a project file that the compiler reads instead of the disk.
#[derive(Debug, Clone, PartialEq, Eq)]
pub struct SourceOverlay {
    pub path: String,
    pub text: String,
}

/// A compilation request sent to the compiler worker.
#[derive(Debug)]
pub struct Request {
    pub id: u64,
    pub revision: u64,
    pub source: Option<String>,
    pub overlays: Vec<SourceOverlay>,
    pub reset_files: bool,
    pub purpose: Purpose,
    pub export_options: ExportOptions,
}

/// Severity of a reported diagnostic.
#[derive(Debug, Clone, Copy, PartialEq, Eq, Structural)]
pub enum DiagnosticSeverity {
    Error,
    Warning,
}

/// Which compiler the worker talks to: the project root and the name of its main file.
#[derive(Debug, Clone, PartialEq, Eq, Hash)]
pub struct Config {
    root: String,
    main_name: String,
}

impl Config {
    /// A configuration for the project at `root` compiling `main_name`.
    pub fn new(root: String, main_name: String) -> (c: Self)
        ensures
            c.spec_root() == root@,
            c.spec_main_name() == main_name@,
    {
        Config { root, main_name }
    }

    /// The root of the project.
    pub closed spec fn spec_root(&self) -> Seq<char> {
        self.root@
    }

    /// The file compiled, relative to the root.
    pub closed spec fn spec_main_name(&self) -> Seq<char> {
        self.main_name@
    }

    /// The root of the project.
    pub fn root(&self) -> (r: &str)
        ensures
            r@ == self.spec_root(),
    {
        self.root.as_str()
    }

    /// The file compiled, relative to the root.
    pub fn main_name(&self) -> (r: &str)
        ensures
            r@ == self.spec_main_name(),
    {
        self.main_name.as_str()
    }
}

/// Whether a request is for the preview.
pub open spec fn is_preview(r: Request) -> bool {
    r.purpose == Purpose::Preview
}

/// Position of the last preview request, or -1.
pub open spec fn last_preview(reqs: Seq<Request>) -> int
    decreases reqs.len(),
{
    if reqs.len() == 0 {
        -1
    } else if is_preview(reqs.last()) {
        reqs.len() - 1
    } else {
        last_preview(reqs.drop_last())
    }
}

/// True when some preview request asks for the file cache to be reset.
pub open spec fn any_preview_reset(reqs: Seq<Request>) -> bool {
    exists|i: int| 0 <= i < reqs.len() && is_preview(#[trigger] reqs[i]) && reqs[i].reset_files
}

/// The requests of `reqs` that are compiled: every export, and only the
/// preview at position `last`, which resets the files when `reset` asks for it.
pub open spec fn kept_requests(reqs: Seq<Request>, last: int, reset: bool) -> Seq<Request>
    decreases reqs.len(),
{
    if reqs.len() == 0 {
        Seq::empty()
    } else {
        let before = kept_requests(reqs.drop_last(), last, reset);
        let r = reqs.last();
        if !is_preview(r) {
            before.push(r)
        } else if reqs.len() - 1 == last {
            before.push(Request { reset_files: r.reset_files || reset, ..r })
        } else {
            before
        }
    }
}

/// The requests that a batch of queued requests is reduced to.
pub open spec fn coalesced(reqs: Seq<Request>) -> Seq<Request> {
    kept_requests(reqs, last_preview(reqs), any_preview_reset(reqs))
}

proof fn lemma_last_preview(reqs: Seq<Request>)
    ensures
        -1 <= last_preview(reqs) < reqs.len(),
        last_preview(reqs) >= 0 ==> is_preview(reqs[last_preview(reqs)]),
        forall|k: int| last_preview(reqs) < k < reqs.len() ==> !is_preview(reqs[k]),
    decreases reqs.len(),
{
    if reqs.len() > 0 && !is_preview(reqs.last()) {
        lemma_last_preview(reqs.drop_last());
        assert forall|k: int| last_preview(reqs) < k < reqs.len() implies !is_preview(reqs[k]) by {
            if k < reqs.len() - 1 {
                assert(reqs.drop_last()[k] == reqs[k]);
            }
        }
    }
}

fn is_preview_request(r: &Request) -> (b: bool)
    ensures
        b == is_preview(*r),
{
    match r.purpose {
        Purpose::Preview => true,
        Purpose::Export(_) => false,
    }
}

/// Keeps only the latest preview request of a batch, and every export.
///
/// The kept preview resets the compiler's files when any dropped preview
/// asked for it; exports keep their order.
pub fn coalesce_requests(requests: Vec<Request>) -> (r: Vec<Request>)
    ensures
        r@ == coalesced(requests@),
{
    let ghost given = requests@;
    let n = requests.len();
    // the latest preview request
    let mut last: Option<usize> = None;
    let mut i = n;
    proof { assert(given.take(n as int) =~= given); }
    while i > 0
        invariant
            i <= n == given.len(),
            n == requests@.len(),
            requests@ == given,
            last is None ==> last_preview(given) == last_preview(given.take(i as int)),
            last matches Some(k) ==> last_preview(given) == k && k < n,
        decreases i,
    {
        if last.is_none() {
            if is_preview_request(&requests[i - 1]) {
                assert(given.take(i as int).last() == given[i - 1]);
                last = Some(i - 1);
            } else {
                assert(given.take(i as int).drop_last() =~= given.take(i - 1));
            }
        }
        i = i - 1;
    }
    proof {
        if last is None {
            assert(given.take(0) =~= Seq::<Request>::empty());
        }
    }
    // whether any preview asked for a reset
    let mut reset = false;
    let mut j: usize = 0;
    while j < n
        invariant
            j <= n == given.len(),
            requests@ == given,
            reset == exists|k: int| 0 <= k < j && is_preview(#[trigger] given[k]) && given[k].reset_files,
        decreases n - j,
    {
        if is_preview_request(&requests[j]) && requests[j].reset_files {
            reset = true;
        }
        j = j + 1;
    }
    let ghost last_index: int = match last {
        Some(k) => k as int,
        None => -1,
    };
    assert(last_index == last_preview(given));
    let mut rest = requests;
    let mut out: Vec<Request> = Vec::new();
    let mut index: usize = 0;
    proof { assert(given.take(0) =~= Seq::<Request>::empty()); }
    while index < n
        invariant
            index <= n == given.len(),
            rest@ == given.skip(index as int),
            last_index == last_preview(given),
            last matches Some(k) ==> last_index == k,
            last is None ==> last_index == -1,
            reset == any_preview_reset(given),
            out@ == kept_requests(given.take(index as int), last_index, reset),
        decreases n - index,
    {
        let mut request = rest.remove(0);
        proof {
            assert(request == given[index as int]);
            assert(rest@ =~= given.skip(index + 1));
            assert(given.take(index + 1).drop_last() =~= given.take(index as int));
            assert(given.take(index + 1).last() == given[index as int]);
        }
        if is_preview_request(&request) {
            let is_last = match last {
                Some(k) => k == index,
                None => false,
            };
            if is_last {
                request.reset_files = request.reset_files || reset;
                out.push(request);
            }
        } else {
            out.push(request);
        }
        index = index + 1;
    }
    proof { assert(given.take(n as int) =~= given); }
    out
}

/// Previews dropped by coalescing never carry information that is lost:
/// every export of the batch is compiled, in its order, and exactly the
/// latest preview is compiled, resetting the files when any preview of the
/// batch asked for it.
pub proof fn law_coalesce_keeps_exports_and_latest_preview(reqs: Seq<Request>)
    ensures
        coalesced(reqs).filter(|r: Request| !is_preview(r)) == reqs.filter(|r: Request| !is_preview(r)),
        coalesced(reqs).filter(|r: Request| is_preview(r)) == if last_preview(reqs) < 0 {
            Seq::<Request>::empty()
        } else {
            seq![Request {
                reset_files: reqs[last_preview(reqs)].reset_files || any_preview_reset(reqs),
                ..reqs[last_preview(reqs)]
            }]
        },
{
    lemma_last_preview(reqs);
    lemma_kept_exports(reqs, last_preview(reqs), any_preview_reset(reqs));
    lemma_kept_previews(reqs, last_preview(reqs), any_preview_reset(reqs));
}

proof fn lemma_kept_exports(reqs: Seq<Request>, last: int, reset: bool)
    ensures
        kept_requests(reqs, last, reset).filter(|r: Request| !is_preview(r)) == reqs.filter(|r: Request| !is_preview(r)),
    decreases reqs.len(),
{
    reveal_with_fuel(Seq::filter, 1);
    if reqs.len() > 0 {
        lemma_kept_exports(reqs.drop_last(), last, reset);
        let before = kept_requests(reqs.drop_last(), last, reset);
        let r = reqs.last();
        if !is_preview(r) {
            assert(before.push(r).drop_last() =~= before);
        } else if reqs.len() - 1 == last {
            let adjusted = Request { reset_files: r.reset_files || reset, ..r };
            assert(before.push(adjusted).drop_last() =~= before);
        }
    }
}

proof fn lemma_kept_previews(reqs: Seq<Request>, last: int, reset: bool)
    requires
        -1 <= last < reqs.len() || last >= reqs.len(),
        last >= 0 && last < reqs.len() ==> is_preview(reqs[last]),
    ensures
        kept_requests(reqs, last, reset).filter(|r: Request| is_preview(r)) == if last < 0 || last >= reqs.len() {
            Seq::<Request>::empty()
        } else {
            seq![Request { reset_files: reqs[last].reset_files || reset, ..reqs[last] }]
        },
    decreases reqs.len(),
{
    reveal_with_fuel(Seq::filter, 1);
    if reqs.len() > 0 {
        let shorter = reqs.drop_last();
        if last == reqs.len() - 1 {
            lemma_kept_previews(shorter, last, reset);
        } else {
            lemma_kept_previews(shorter, last, reset);
            if last >= 0 && last < reqs.len() {
                assert(shorter[last] == reqs[last]);
            }
        }
        let before = kept_requests(shorter, last, reset);
        let r = reqs.last();
        if !is_preview(r) {
            assert(before.push(r).drop_last() =~= before);
        } else if reqs.len() - 1 == last {
            let adjusted = Request { reset_files: r.reset_files || reset, ..r };
            assert(before.push(adjusted).drop_last() =~= before);
            assert(before.filter(|r: Request| is_preview(r)) =~= Seq::<Request>::empty());
        }
    }
}

} // verus!
