use vstd::prelude::*;
use super::icons::WorkflowIcon;
use crate::text::{decimal, decimal_string, push_str};

verus! {

/// Severity of a problem, from the most to the least urgent.
#[derive(Debug, Clone, Copy, PartialEq, Eq, Structural)]
pub enum ProblemSeverity {
    Error,
    Warning,
    Information,
    Hint,
}

/// Errors come first, then warnings, then information.
pub open spec fn priority_of(s: ProblemSeverity) -> u8 {
    match s {
        ProblemSeverity::Error => 0,
        ProblemSeverity::Warning => 1,
        ProblemSeverity::Information => 2,
        ProblemSeverity::Hint => 3,
    }
}

/// The noun counting `count` problems of severity `s`, in singular or plural.
pub open spec fn severity_noun(s: ProblemSeverity, count: nat) -> Seq<char> {
    match s {
        ProblemSeverity::Error => if count == 1 { "erro"@ } else { "erros"@ },
        ProblemSeverity::Warning => if count == 1 { "aviso"@ } else { "avisos"@ },
        ProblemSeverity::Information => if count == 1 { "informação"@ } else { "informações"@ },
        ProblemSeverity::Hint => if count == 1 { "dica"@ } else { "dicas"@ },
    }
}

impl ProblemSeverity {
    /// Sorting key: errors first, hints last.
    pub fn priority(self) -> (r: u8)
        ensures
            r == priority_of(self),
    {
        match self {
            ProblemSeverity::Error => 0,
            ProblemSeverity::Warning => 1,
            ProblemSeverity::Information => 2,
            ProblemSeverity::Hint => 3,
        }
    }

    /// The name of the severity.
    pub fn label(self) -> (r: &'static str)
        ensures
            r@ == match self {
                ProblemSeverity::Error => "Erro"@,
                ProblemSeverity::Warning => "Aviso"@,
                ProblemSeverity::Information => "Informação"@,
                ProblemSeverity::Hint => "Dica"@,
            },
    {
        match self {
            ProblemSeverity::Error => "Erro",
            ProblemSeverity::Warning => "Aviso",
            ProblemSeverity::Information => "Informação",
            ProblemSeverity::Hint => "Dica",
        }
    }

    /// The short name of the severity.
    pub fn short_label(self) -> (r: &'static str)
        ensures
            r@ == match self {
                ProblemSeverity::Error => "E"@,
                ProblemSeverity::Warning => "A"@,
                ProblemSeverity::Information => "I"@,
                ProblemSeverity::Hint => "D"@,
            },
    {
        match self {
            ProblemSeverity::Error => "E",
            ProblemSeverity::Warning => "A",
            ProblemSeverity::Information => "I",
            ProblemSeverity::Hint => "D",
        }
    }

    fn noun(self, count: usize) -> (r: &'static str)
        ensures
            r@ == severity_noun(self, count as nat),
    {
        match self {
            ProblemSeverity::Error => if count == 1 { "erro" } else { "erros" },
            ProblemSeverity::Warning => if count == 1 { "aviso" } else { "avisos" },
            ProblemSeverity::Information => if count == 1 { "informação" } else { "informações" },
            ProblemSeverity::Hint => if count == 1 { "dica" } else { "dicas" },
        }
    }

    /// "1 erro", "2 avisos", ...
    pub fn count_label(self, count: usize) -> (r: String)
        ensures
            r@ == decimal(count as nat) + " "@ + severity_noun(self, count as nat),
    {
        let mut r = decimal_string(count);
        push_str(&mut r, " ");
        push_str(&mut r, self.noun(count));
        r
    }

    /// The status icon of the severity.
    pub fn indicator_icon(self) -> (r: WorkflowIcon)
        ensures
            r == match self {
                ProblemSeverity::Warning => WorkflowIcon::Alert,
                _ => WorkflowIcon::AlertCircleFilled,
            },
    {
        match self {
            ProblemSeverity::Error => WorkflowIcon::AlertCircleFilled,
            ProblemSeverity::Warning => WorkflowIcon::Alert,
            ProblemSeverity::Information | ProblemSeverity::Hint => WorkflowIcon::AlertCircleFilled,
        }
    }
}

/// One reported problem and what pressing it does.
#[derive(Debug, Clone)]
pub struct ProblemItem<Message> {
    pub severity: ProblemSeverity,
    pub message: String,
    pub source: String,
    pub on_press: Option<Message>,
}

impl<Message> ProblemItem<Message> {
    /// A problem of `severity` with its message and source.
    pub fn new(severity: ProblemSeverity, message: String, source: String, on_press: Option<Message>) -> (r: Self)
        ensures
            r.severity == severity,
            r.message@ == message@,
            r.source@ == source@,
            r.on_press == on_press,
    {
        ProblemItem { severity, message, source, on_press }
    }
}

/// The items of severity `s`, in the order given.
pub open spec fn of_severity<Message>(items: Seq<ProblemItem<Message>>, s: ProblemSeverity) -> Seq<ProblemItem<Message>> {
    items.filter(|i: ProblemItem<Message>| i.severity == s)
}

/// The items ordered by severity, keeping the order of items of equal severity.
pub open spec fn sorted_by_severity<Message>(items: Seq<ProblemItem<Message>>) -> Seq<ProblemItem<Message>> {
    of_severity(items, ProblemSeverity::Error) + of_severity(items, ProblemSeverity::Warning)
        + of_severity(items, ProblemSeverity::Information) + of_severity(items, ProblemSeverity::Hint)
}

/// How many problems of each severity there are.
#[derive(Debug, Clone, Copy, Default, PartialEq, Eq, Structural)]
pub struct ProblemCounts {
    pub errors: usize,
    pub warnings: usize,
    pub information: usize,
    pub hints: usize,
}

/// The count of one severity.
pub open spec fn count_of(c: ProblemCounts, s: ProblemSeverity) -> usize {
    match s {
        ProblemSeverity::Error => c.errors,
        ProblemSeverity::Warning => c.warnings,
        ProblemSeverity::Information => c.information,
        ProblemSeverity::Hint => c.hints,
    }
}

impl ProblemCounts {
    /// Counts the items of each severity.
    pub fn from_items<Message>(items: &Vec<ProblemItem<Message>>) -> (r: Self)
        ensures
            r.errors == of_severity(items@, ProblemSeverity::Error).len(),
            r.warnings == of_severity(items@, ProblemSeverity::Warning).len(),
            r.information == of_severity(items@, ProblemSeverity::Information).len(),
            r.hints == of_severity(items@, ProblemSeverity::Hint).len(),
    {
        let mut counts = ProblemCounts { errors: 0, warnings: 0, information: 0, hints: 0 };
        let mut i: usize = 0;
        proof { assert(items@.take(0) =~= Seq::<ProblemItem<Message>>::empty()); }
        while i < items.len()
            invariant
                i <= items@.len(),
                counts.errors == of_severity(items@.take(i as int), ProblemSeverity::Error).len(),
                counts.warnings == of_severity(items@.take(i as int), ProblemSeverity::Warning).len(),
                counts.information == of_severity(items@.take(i as int), ProblemSeverity::Information).len(),
                counts.hints == of_severity(items@.take(i as int), ProblemSeverity::Hint).len(),
                counts.errors + counts.warnings + counts.information + counts.hints == i,
            decreases items@.len() - i,
        {
            proof {
                reveal_with_fuel(Seq::filter, 1);
                assert(items@.take(i + 1).drop_last() =~= items@.take(i as int));
            }
            match items[i].severity {
                ProblemSeverity::Error => counts.errors = counts.errors + 1,
                ProblemSeverity::Warning => counts.warnings = counts.warnings + 1,
                ProblemSeverity::Information => counts.information = counts.information + 1,
                ProblemSeverity::Hint => counts.hints = counts.hints + 1,
            }
            i = i + 1;
        }
        proof { assert(items@.take(items@.len() as int) =~= items@); }
        counts
    }

    /// The count of one severity.
    pub fn get(self, severity: ProblemSeverity) -> (r: usize)
        ensures
            r == count_of(self, severity),
    {
        match severity {
            ProblemSeverity::Error => self.errors,
            ProblemSeverity::Warning => self.warnings,
            ProblemSeverity::Information => self.information,
            ProblemSeverity::Hint => self.hints,
        }
    }
}

/// The problems panel: its items ordered by severity, and whether it shows a header.
pub struct Problems<Message> {
    items: Vec<ProblemItem<Message>>,
    show_header: bool,
}

impl<Message> Problems<Message> {
    /// The problems listed.
    pub closed spec fn spec_items(&self) -> Seq<ProblemItem<Message>> {
        self.items@
    }

    /// Whether the header is shown.
    pub closed spec fn spec_show_header(&self) -> bool {
        self.show_header
    }

    /// A panel listing `items` with errors first and hints last; items of
    /// the same severity keep their order.
    pub fn new(items: Vec<ProblemItem<Message>>) -> (r: Self)
        ensures
            r.spec_items() == sorted_by_severity(items@),
            r.spec_show_header(),
    {
        let ghost given = items@;
        let mut rest = items;
        let mut errors: Vec<ProblemItem<Message>> = Vec::new();
        let mut warnings: Vec<ProblemItem<Message>> = Vec::new();
        let mut information: Vec<ProblemItem<Message>> = Vec::new();
        let mut hints: Vec<ProblemItem<Message>> = Vec::new();
        let n = rest.len();
        let mut i: usize = 0;
        proof { assert(given.take(0) =~= Seq::<ProblemItem<Message>>::empty()); }
        while i < n
            invariant
                i <= n == given.len(),
                rest@ == given.skip(i as int),
                errors@ == of_severity(given.take(i as int), ProblemSeverity::Error),
                warnings@ == of_severity(given.take(i as int), ProblemSeverity::Warning),
                information@ == of_severity(given.take(i as int), ProblemSeverity::Information),
                hints@ == of_severity(given.take(i as int), ProblemSeverity::Hint),
            decreases n - i,
        {
            let item = rest.remove(0);
            proof {
                reveal_with_fuel(Seq::filter, 1);
                assert(item == given[i as int]);
                assert(rest@ =~= given.skip(i + 1));
                assert(given.take(i + 1).drop_last() =~= given.take(i as int));
                assert(given.take(i + 1).last() == given[i as int]);
            }
            match item.severity {
                ProblemSeverity::Error => errors.push(item),
                ProblemSeverity::Warning => warnings.push(item),
                ProblemSeverity::Information => information.push(item),
                ProblemSeverity::Hint => hints.push(item),
            }
            i = i + 1;
        }
        proof { assert(given.take(n as int) =~= given); }
        errors.append(&mut warnings);
        errors.append(&mut information);
        errors.append(&mut hints);
        Problems { items: errors, show_header: true }
    }

    /// The list, with its header shown or not.
    pub fn show_header(self, show_header: bool) -> (r: Self)
        ensures
            r.spec_items() == self.spec_items(),
            r.spec_show_header() == show_header,
    {
        Problems { items: self.items, show_header }
    }

    /// Whether the header is shown.
    pub fn header_shown(&self) -> (r: bool)
        ensures
            r == self.spec_show_header(),
    {
        self.show_header
    }

    /// The number of problems.
    pub fn len(&self) -> (n: usize)
        ensures
            n == self.spec_items().len(),
    {
        self.items.len()
    }

    /// Whether there are no problems.
    pub fn is_empty(&self) -> (r: bool)
        ensures
            r == (self.spec_items().len() == 0),
    {
        self.items.len() == 0
    }

    /// The item at position `index`.
    pub fn item(&self, index: usize) -> (r: &ProblemItem<Message>)
        requires
            index < self.spec_items().len(),
        ensures
            *r == self.spec_items()[index as int],
    {
        &self.items[index]
    }
}

/// Ordering by severity keeps as many items as were given, and the items
/// come out by non-decreasing priority (items of one severity keep their
/// order by the definition of `sorted_by_severity`).
pub proof fn law_severity_order_keeps_every_item_and_sorts<Message>(items: Seq<ProblemItem<Message>>)
    ensures
        sorted_by_severity(items).len() == items.len(),
        forall|i: int, j: int|
            0 <= i < j < sorted_by_severity(items).len() ==> priority_of(#[trigger] sorted_by_severity(items)[i].severity)
                <= priority_of(#[trigger] sorted_by_severity(items)[j].severity),
{
    lemma_partition_len(items);
    let e = of_severity(items, ProblemSeverity::Error);
    let w = of_severity(items, ProblemSeverity::Warning);
    let f = of_severity(items, ProblemSeverity::Information);
    let h = of_severity(items, ProblemSeverity::Hint);
    lemma_filter_all(items, ProblemSeverity::Error);
    lemma_filter_all(items, ProblemSeverity::Warning);
    lemma_filter_all(items, ProblemSeverity::Information);
    lemma_filter_all(items, ProblemSeverity::Hint);
    let s = sorted_by_severity(items);
    assert forall|i: int| 0 <= i < s.len() implies priority_of(#[trigger] s[i].severity) as int == if i < e.len() {
        0int
    } else if i < e.len() + w.len() {
        1int
    } else if i < e.len() + w.len() + f.len() {
        2int
    } else {
        3int
    } by {
        if i < e.len() {
            assert(s[i] == e[i]);
        } else if i < e.len() + w.len() {
            assert(s[i] == w[i - e.len()]);
        } else if i < e.len() + w.len() + f.len() {
            assert(s[i] == f[i - e.len() - w.len()]);
        } else {
            assert(s[i] == h[i - e.len() - w.len() - f.len()]);
        }
    }
}

proof fn lemma_filter_all<Message>(items: Seq<ProblemItem<Message>>, s: ProblemSeverity)
    ensures
        forall|i: int| 0 <= i < of_severity(items, s).len() ==> (#[trigger] of_severity(items, s)[i]).severity == s,
{
    broadcast use vstd::seq_lib::group_filter_ensures;
}

proof fn lemma_partition_len<Message>(items: Seq<ProblemItem<Message>>)
    ensures
        of_severity(items, ProblemSeverity::Error).len() + of_severity(items, ProblemSeverity::Warning).len()
            + of_severity(items, ProblemSeverity::Information).len() + of_severity(items, ProblemSeverity::Hint).len()
            == items.len(),
    decreases items.len(),
{
    reveal_with_fuel(Seq::filter, 1);
    if items.len() > 0 {
        lemma_partition_len(items.drop_last());
    }
}

} // verus!
