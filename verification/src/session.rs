//! The stored editing session: its documents, the pane layout and where the
//! session file lives.
use vstd::prelude::*;
use crate::paths::{join, path_join};
use crate::text::{push_str, decimal, decimal_string, str_eq, strings_view};

verus! {

/// The version of the session format.
pub const SESSION_VERSION: u32 = 1;

/// Most documents a session may hold.
pub const MAX_DOCUMENTS: usize = 512;

/// A document of a stored session.
#[derive(Debug, PartialEq, Eq)]
pub struct Document {
    pub path: Option<String>,
    pub text: String,
    pub saved_text: Option<String>,
}

impl Document {
    /// An unnamed empty document, saved as empty.
    pub fn blank() -> (r: Self)
        ensures
            r.path is None,
            r.text@ == Seq::<char>::empty(),
            r.saved_text matches Some(t) && t@ == Seq::<char>::empty(),
    {
        Document { path: None, text: String::new(), saved_text: Some(String::new()) }
    }
}

/// How the editor and the preview are split.
#[derive(Debug, Clone, Copy, PartialEq, Eq, Structural)]
pub enum Axis {
    Horizontal,
    Vertical,
}

/// The panes that can come first in the split.
#[derive(Debug, Clone, Copy, PartialEq, Eq, Structural)]
pub enum Pane {
    Editor,
    Preview,
}

/// A path given by an environment variable, when it is set and not empty.
pub open spec fn non_empty(value: Option<Seq<char>>) -> Option<Seq<char>> {
    match value {
        Some(v) => if v.len() > 0 { Some(v) } else { None },
        None => None,
    }
}

/// Where state files go: `$XDG_STATE_HOME` when it is an absolute path,
/// else `$HOME/.local/state`.
pub open spec fn state_root(xdg_state_home: Option<Seq<char>>, home: Option<Seq<char>>) -> Option<Seq<char>> {
    match non_empty(xdg_state_home) {
        Some(x) => if x[0] == '/' {
            Some(x)
        } else {
            match non_empty(home) {
                Some(h) => Some(join(join(h, ".local"@), "state"@)),
                None => None,
            }
        },
        None => match non_empty(home) {
            Some(h) => Some(join(join(h, ".local"@), "state"@)),
            None => None,
        },
    }
}

/// The session file: `$TYPSTATION_SESSION_FILE` when set, else
/// `typstation/session.json` under the state root.
pub open spec fn session_path(
    session_file: Option<Seq<char>>,
    xdg_state_home: Option<Seq<char>>,
    home: Option<Seq<char>>,
) -> Option<Seq<char>> {
    match non_empty(session_file) {
        Some(p) => Some(p),
        None => match state_root(xdg_state_home, home) {
            Some(root) => Some(join(join(root, "typstation"@), "session.json"@)),
            None => None,
        },
    }
}

/// An optional text by its characters.
pub open spec fn opt_str_view(s: Option<&str>) -> Option<Seq<char>> {
    match s {
        Some(s) => Some(s@),
        None => None,
    }
}

fn non_empty_value(value: Option<&str>) -> (r: Option<&str>)
    ensures
        opt_str_view(r) == non_empty(opt_str_view(value)),
{
    match value {
        Some(v) => if v.is_empty() { None } else { Some(v) },
        None => None,
    }
}

fn state_root_from(xdg_state_home: Option<&str>, home: Option<&str>) -> (r: Option<String>)
    ensures
        crate::paths::opt_view(r) == state_root(opt_str_view(xdg_state_home), opt_str_view(home)),
{
    if let Some(x) = non_empty_value(xdg_state_home) {
        let chars = crate::text::to_chars(x);
        if chars[0] == '/' {
            return Some(x.to_owned());
        }
    }
    match non_empty_value(home) {
        Some(h) => {
            let local = path_join(h, ".local");
            Some(path_join(local.as_str(), "state"))
        },
        None => None,
    }
}

/// The path of the session file, from the values of the environment
/// variables `TYPSTATION_SESSION_FILE`, `XDG_STATE_HOME` and `HOME`.
pub fn default_path(session_file: Option<&str>, xdg_state_home: Option<&str>, home: Option<&str>) -> (r: Option<String>)
    ensures
        crate::paths::opt_view(r) == session_path(opt_str_view(session_file), opt_str_view(xdg_state_home), opt_str_view(home)),
{
    if let Some(p) = non_empty_value(session_file) {
        return Some(p.to_owned());
    }
    match state_root_from(xdg_state_home, home) {
        Some(root) => {
            let dir = path_join(root.as_str(), "typstation");
            Some(path_join(dir.as_str(), "session.json"))
        },
        None => None,
    }
}

/// Why a stored session cannot be used.
#[derive(Debug, Clone, Copy, PartialEq, Eq, Structural)]
pub enum SessionProblem {
    /// Written by another version of the format.
    Version(u32),
    /// Holds no document.
    NoDocuments,
    /// Holds more documents than allowed.
    TooManyDocuments,
}

/// The checks of a stored session: the index of its active document, moved
/// to the last document when it points past it, or the problem.
pub open spec fn checked_session(version: u32, documents: nat, active: nat) -> Result<nat, SessionProblem> {
    if version != SESSION_VERSION {
        Err(SessionProblem::Version(version))
    } else if documents == 0 {
        Err(SessionProblem::NoDocuments)
    } else if documents > MAX_DOCUMENTS {
        Err(SessionProblem::TooManyDocuments)
    } else if active < documents {
        Ok(active)
    } else {
        Ok((documents - 1) as nat)
    }
}

/// Checks a stored session with `documents` documents.
pub fn check_session(version: u32, documents: usize, active_document: usize) -> (r: Result<usize, SessionProblem>)
    ensures
        match (r, checked_session(version, documents as nat, active_document as nat)) {
            (Ok(a), Ok(b)) => a == b,
            (Err(a), Err(b)) => a == b,
            _ => false,
        },
{
    if version != SESSION_VERSION {
        return Err(SessionProblem::Version(version));
    }
    if documents == 0 {
        return Err(SessionProblem::NoDocuments);
    }
    if documents > MAX_DOCUMENTS {
        return Err(SessionProblem::TooManyDocuments);
    }
    if active_document < documents {
        Ok(active_document)
    } else {
        Ok(documents - 1)
    }
}

/// The message shown for a session problem.
pub open spec fn problem_message(problem: SessionProblem) -> Seq<char> {
    match problem {
        SessionProblem::Version(v) => "versão de sessão incompatível: "@ + decimal(v as nat) + " (esperada: "@
            + decimal(SESSION_VERSION as nat) + ")"@,
        SessionProblem::NoDocuments => "a sessão não contém documentos"@,
        SessionProblem::TooManyDocuments => "a sessão excede o limite de "@ + decimal(MAX_DOCUMENTS as nat) + " documentos"@,
    }
}

impl SessionProblem {
    /// The message of the problem.
    pub fn message(self) -> (r: String)
        ensures
            r@ == problem_message(self),
    {
        match self {
            SessionProblem::Version(v) => {
                let mut s = "versão de sessão incompatível: ".to_owned();
                push_str(&mut s, decimal_string(v as usize).as_str());
                push_str(&mut s, " (esperada: ");
                push_str(&mut s, decimal_string(SESSION_VERSION as usize).as_str());
                push_str(&mut s, ")");
                s
            },
            SessionProblem::NoDocuments => "a sessão não contém documentos".to_owned(),
            SessionProblem::TooManyDocuments => {
                let mut s = "a sessão excede o limite de ".to_owned();
                push_str(&mut s, decimal_string(MAX_DOCUMENTS).as_str());
                push_str(&mut s, " documentos");
                s
            },
        }
    }
}

/// How many recent projects are remembered.
pub const RECENT_PROJECTS_KEPT: usize = 10;

/// `s` without the occurrences of `x`, the rest in order.
pub open spec fn without(s: Seq<Seq<char>>, x: Seq<char>) -> Seq<Seq<char>>
    decreases s.len(),
{
    if s.len() == 0 {
        Seq::empty()
    } else {
        let before = without(s.drop_last(), x);
        if s.last() == x { before } else { before.push(s.last()) }
    }
}

/// The recent projects after `project` is opened: it comes first, its
/// earlier place is dropped, and the first ten stay.
pub open spec fn remembered(recent: Seq<Seq<char>>, project: Seq<char>) -> Seq<Seq<char>> {
    let all = seq![project] + without(recent, project);
    if all.len() <= RECENT_PROJECTS_KEPT { all } else { all.take(RECENT_PROJECTS_KEPT as int) }
}

proof fn lemma_without(s: Seq<Seq<char>>, x: Seq<char>)
    ensures
        !without(s, x).contains(x),
        forall|y: Seq<char>| #[trigger] without(s, x).contains(y) ==> s.contains(y),
        s.no_duplicates() ==> without(s, x).no_duplicates(),
    decreases s.len(),
{
    if s.len() > 0 {
        let before = s.drop_last();
        lemma_without(before, x);
        let w = without(s, x);
        let wb = without(before, x);
        assert forall|y: Seq<char>| #[trigger] w.contains(y) implies s.contains(y) by {
            let k = w.index_of(y);
            if k < wb.len() {
                assert(wb[k] == y);
                assert(wb.contains(y));
                let j = before.index_of(y);
                assert(s[j] == y);
            } else {
                assert(s[s.len() - 1] == y);
            }
        }
        if s.last() != x {
            assert forall|y: Seq<char>| w.contains(y) implies y != x by {
                let k = w.index_of(y);
                if k < wb.len() {
                    assert(wb[k] == y);
                }
            }
        }
        if s.no_duplicates() {
            assert(before.no_duplicates()) by {
                assert forall|i: int, j: int| 0 <= i < before.len() && 0 <= j < before.len() && i != j implies before[i] != before[j] by {
                    assert(before[i] == s[i] && before[j] == s[j]);
                }
            }
            if s.last() != x {
                assert(!wb.contains(s.last())) by {
                    if wb.contains(s.last()) {
                        let j = before.index_of(s.last());
                        assert(s[j] == s[s.len() - 1]);
                    }
                }
                assert forall|i: int, j: int| 0 <= i < w.len() && 0 <= j < w.len() && i != j implies w[i] != w[j] by {
                    if i < wb.len() && j < wb.len() {
                        assert(w[i] == wb[i] && w[j] == wb[j]);
                    } else if i < wb.len() {
                        assert(w[i] == wb[i]);
                        assert(wb.contains(wb[i]));
                    } else {
                        assert(w[j] == wb[j]);
                        assert(wb.contains(wb[j]));
                    }
                }
            }
        }
    }
}

/// Opening a project puts it first among the recent projects and nowhere
/// else, keeps at most ten, and lists none twice when none was listed twice.
pub proof fn law_recent_project_comes_first(recent: Seq<Seq<char>>, project: Seq<char>)
    ensures
        remembered(recent, project)[0] == project,
        !remembered(recent, project).drop_first().contains(project),
        remembered(recent, project).len() <= RECENT_PROJECTS_KEPT,
        recent.no_duplicates() ==> remembered(recent, project).no_duplicates(),
{
    lemma_without(recent, project);
    let w = without(recent, project);
    let all = seq![project] + w;
    let r = remembered(recent, project);
    assert(r[0] == project);
    assert forall|y: Seq<char>| #[trigger] r.drop_first().contains(y) implies w.contains(y) by {
        let k = r.drop_first().index_of(y);
        assert(all[k + 1] == y);
        assert(w[k] == y);
    }
    if recent.no_duplicates() {
        assert forall|i: int, j: int| 0 <= i < r.len() && 0 <= j < r.len() && i != j implies r[i] != r[j] by {
            if i == 0 {
                assert(r[j] == w[j - 1]);
                assert(w.contains(w[j - 1]));
            } else if j == 0 {
                assert(r[i] == w[i - 1]);
                assert(w.contains(w[i - 1]));
            } else {
                assert(r[i] == w[i - 1] && r[j] == w[j - 1]);
            }
        }
    }
}

/// Records that `project` was opened in the list of recent projects, most
/// recent first.
pub fn remember_recent_project(recent: &mut Vec<String>, project: &str)
    ensures
        strings_view(final(recent)@) == remembered(strings_view(old(recent)@), project@),
{
    let ghost given = strings_view(recent@);
    let mut out: Vec<String> = Vec::new();
    out.push(project.to_owned());
    let mut i: usize = 0;
    proof { assert(strings_view(out@) =~= seq![project@] + without(given.take(0), project@)); }
    while i < recent.len()
        invariant
            given == strings_view(recent@),
            i <= recent@.len(),
            strings_view(out@) == seq![project@] + without(given.take(i as int), project@),
        decreases recent@.len() - i,
    {
        proof { assert(given.take(i + 1).drop_last() =~= given.take(i as int)); }
        if !str_eq(recent[i].as_str(), project) {
            let ghost before = out@;
            out.push(recent[i].clone());
            proof { assert(strings_view(out@) =~= strings_view(before).push(given[i as int])); }
        }
        i = i + 1;
    }
    proof { assert(given.take(recent@.len() as int) =~= given); }
    let ghost full = out@;
    out.truncate(RECENT_PROJECTS_KEPT);
    proof {
        if full.len() > RECENT_PROJECTS_KEPT {
            assert(strings_view(out@) =~= strings_view(full).take(RECENT_PROJECTS_KEPT as int));
        }
    }
    *recent = out;
}

} // verus!
