//! The diagnostics model: a phase-independent representation of errors and
//! warnings.
//!
//! Every phase builds [`Diagnostic`] values and pushes them into a shared
//! [`Diagnostics`] sink rather than returning `Err` eagerly, which lets phases
//! report many problems from one run. Construction is infallible.
//!
//! Rendering a single diagnostic against its source is the job of the
//! presentation layer; this module fixes the order in which a sink's
//! diagnostics are presented (source order, stable) and how the rendered parts
//! are joined.

use vstd::prelude::*;

use crate::errors::DiagCode;
use crate::span::Span;
use crate::text::push_str;

verus! {

/// Whether a diagnostic blocks compilation (`Error`) or is advisory (`Warning`).
#[derive(Clone, Copy, Debug, PartialEq, Eq, Structural)]
pub enum Severity {
    Error,
    Warning,
}

/// A span annotated with a message. The `primary` label points at the root of
/// the problem; secondary labels add supporting context elsewhere.
#[derive(Clone, Debug, PartialEq, Eq)]
pub struct Label {
    pub span: Span,
    pub message: String,
    pub primary: bool,
}

/// A single error or warning, with optional labels, notes, and help text.
#[derive(Clone, Debug, PartialEq, Eq)]
pub struct Diagnostic {
    pub severity: Severity,
    pub code: DiagCode,
    pub message: String,
    pub labels: Vec<Label>,
    pub notes: Vec<String>,
    pub helps: Vec<String>,
}

/// The span of the first primary label among `labels`, if any.
pub open spec fn first_primary(labels: Seq<Label>) -> Option<Span>
    decreases labels.len(),
{
    if labels.len() == 0 {
        None
    } else if labels[0].primary {
        Some(labels[0].span)
    } else {
        first_primary(labels.drop_first())
    }
}

/// The primary span of a list of labels: the first primary label's span, else
/// the first label's span, else the empty span at offset 0.
pub open spec fn primary_span_of(labels: Seq<Label>) -> Span {
    match first_primary(labels) {
        Some(s) => s,
        None => if labels.len() > 0 {
            labels[0].span
        } else {
            Span { lo: 0, hi: 0 }
        },
    }
}

impl Diagnostic {
    /// The footer under the labelled source: the notes, each tagged
    /// `note: `, then the helps, one per line; `None` when there are neither.
    pub fn footer(&self) -> (r: Option<String>)
        ensures
            footer_lines(*self).len() == 0 ==> r is None,
            footer_lines(*self).len() > 0 ==> (r matches Some(s) && s@ == join_lines(footer_lines(*self))),
    {
        let ghost ls = footer_lines(*self);
        let ghost nn = self.notes@.len();
        let mut out = String::new();
        let mut n: usize = 0;
        while n < self.notes.len()
            invariant
                ls == footer_lines(*self),
                nn == self.notes@.len(),
                0 <= n <= nn,
                out@ == join_lines(ls.take(n as int)),
            decreases nn - n,
        {
            proof {
                reveal_strlit("note: ");
                reveal_strlit("\n");
                lemma_join_step(ls, n as int);
                assert(ls[n as int] == "note: "@ + self.notes@[n as int]@);
            }
            let ghost before = out@;
            if n > 0 {
                push_str(&mut out, "\n");
            }
            push_str(&mut out, "note: ");
            push_str(&mut out, self.notes[n].as_str());
            proof {
                if n == 0 {
                    assert(out@ =~= ls[0]);
                } else {
                    assert(out@ =~= before + seq!['\n'] + ls[n as int]);
                }
            }
            n = n + 1;
        }
        let mut h: usize = 0;
        while h < self.helps.len()
            invariant
                ls == footer_lines(*self),
                nn == self.notes@.len(),
                ls.len() == nn + self.helps@.len(),
                n == nn,
                0 <= h <= self.helps@.len(),
                out@ == join_lines(ls.take(nn + h)),
            decreases self.helps@.len() - h,
        {
            proof {
                reveal_strlit("\n");
                lemma_join_step(ls, nn + h);
                assert(ls[nn + h] == self.helps@[h as int]@);
            }
            let ghost before = out@;
            if n > 0 || h > 0 {
                push_str(&mut out, "\n");
            }
            push_str(&mut out, self.helps[h].as_str());
            proof {
                if nn + h == 0 {
                    assert(out@ =~= ls[0]);
                } else {
                    assert(out@ =~= before + seq!['\n'] + ls[nn + h]);
                }
            }
            h = h + 1;
        }
        proof {
            assert(ls.take(ls.len() as int) =~= ls);
        }
        if n == 0 && h == 0 {
            None
        } else {
            Some(out)
        }
    }

    /// Starts an error diagnostic with the given code and headline message.
    pub fn error(code: DiagCode, message: &str) -> (d: Diagnostic)
        ensures
            d.severity == Severity::Error,
            d.code == code,
            d.message@ == message@,
            d.labels@.len() == 0,
            d.notes@.len() == 0,
            d.helps@.len() == 0,
    {
        Diagnostic {
            severity: Severity::Error,
            code,
            message: message.to_owned(),
            labels: Vec::new(),
            notes: Vec::new(),
            helps: Vec::new(),
        }
    }

    /// Starts a warning diagnostic with the given code and headline message.
    pub fn warning(code: DiagCode, message: &str) -> (d: Diagnostic)
        ensures
            d.severity == Severity::Warning,
            d.code == code,
            d.message@ == message@,
            d.labels@.len() == 0,
            d.notes@.len() == 0,
            d.helps@.len() == 0,
    {
        Diagnostic {
            severity: Severity::Warning,
            code,
            message: message.to_owned(),
            labels: Vec::new(),
            notes: Vec::new(),
            helps: Vec::new(),
        }
    }

    /// Adds the primary label, which carries the caret underline in rendered
    /// output. A diagnostic should have exactly one.
    pub fn with_primary(self, span: Span, message: &str) -> (d: Diagnostic)
        ensures
            d.severity == self.severity,
            d.code == self.code,
            d.message == self.message,
            d.labels@.len() == self.labels@.len() + 1,
            d.labels@.drop_last() == self.labels@,
            d.labels@.last().span == span,
            d.labels@.last().message@ == message@,
            d.labels@.last().primary,
            d.notes == self.notes,
            d.helps == self.helps,
    {
        let mut d = self;
        d.labels.push(Label { span, message: message.to_owned(), primary: true });
        d
    }

    /// Adds a secondary label providing extra context at another location.
    pub fn with_label(self, span: Span, message: &str) -> (d: Diagnostic)
        ensures
            d.severity == self.severity,
            d.code == self.code,
            d.message == self.message,
            d.labels@.len() == self.labels@.len() + 1,
            d.labels@.drop_last() == self.labels@,
            d.labels@.last().span == span,
            d.labels@.last().message@ == message@,
            !d.labels@.last().primary,
            d.notes == self.notes,
            d.helps == self.helps,
    {
        let mut d = self;
        d.labels.push(Label { span, message: message.to_owned(), primary: false });
        d
    }

    /// Adds a free-standing note (rendered after the snippet).
    pub fn with_note(self, note: &str) -> (d: Diagnostic)
        ensures
            d.severity == self.severity,
            d.code == self.code,
            d.message == self.message,
            d.labels == self.labels,
            d.notes@.len() == self.notes@.len() + 1,
            d.notes@.drop_last() == self.notes@,
            d.notes@.last()@ == note@,
            d.helps == self.helps,
    {
        let mut d = self;
        d.notes.push(note.to_owned());
        d
    }

    /// Adds an actionable help line suggesting how to fix the problem.
    pub fn with_help(self, help: &str) -> (d: Diagnostic)
        ensures
            d.severity == self.severity,
            d.code == self.code,
            d.message == self.message,
            d.labels == self.labels,
            d.notes == self.notes,
            d.helps@.len() == self.helps@.len() + 1,
            d.helps@.drop_last() == self.helps@,
            d.helps@.last()@ == help@,
    {
        let mut d = self;
        d.helps.push(help.to_owned());
        d
    }

    /// The primary span, if any, else the first label's span, else the empty
    /// span at offset 0. Useful for sorting diagnostics by source order.
    pub fn primary_span(&self) -> (s: Span)
        ensures
            s == primary_span_of(self.labels@),
    {
        let mut i: usize = 0;
        assert(self.labels@.skip(0) =~= self.labels@);
        while i < self.labels.len()
            invariant
                0 <= i <= self.labels@.len(),
                first_primary(self.labels@) == first_primary(self.labels@.skip(i as int)),
            decreases self.labels@.len() - i,
        {
            assert(self.labels@.skip(i as int).drop_first() =~= self.labels@.skip(i + 1));
            if self.labels[i].primary {
                return self.labels[i].span;
            }
            i = i + 1;
        }
        if self.labels.len() > 0 {
            self.labels[0].span
        } else {
            Span::dummy()
        }
    }
}

/// The lines of a diagnostic's footer: each note, tagged `note: `, then each
/// help.
pub open spec fn footer_lines(d: Diagnostic) -> Seq<Seq<char>> {
    d.notes@.map_values(|n: String| "note: "@ + n@) + d.helps@.map_values(|h: String| h@)
}

/// Lines joined with a line break between each two.
pub open spec fn join_lines(ls: Seq<Seq<char>>) -> Seq<char>
    decreases ls.len(),
{
    if ls.len() == 0 {
        seq![]
    } else if ls.len() == 1 {
        ls[0]
    } else {
        join_lines(ls.drop_last()) + seq!['\n'] + ls.last()
    }
}

/// Appending one more line to joined lines.
proof fn lemma_join_step(ls: Seq<Seq<char>>, n: int)
    requires
        0 <= n < ls.len(),
    ensures
        join_lines(ls.take(n + 1)) == if n == 0 {
            ls[0]
        } else {
            join_lines(ls.take(n)) + seq!['\n'] + ls[n]
        },
{
    assert(ls.take(n + 1).drop_last() =~= ls.take(n));
}

/// The codes of a run of diagnostics, in order.
pub open spec fn diag_codes(items: Seq<Diagnostic>) -> Seq<DiagCode> {
    items.map_values(|d: Diagnostic| d.code)
}

/// Reporting one more diagnostic adds its code at the end.
pub proof fn lemma_diag_codes_push(items: Seq<Diagnostic>, d: Diagnostic)
    ensures
        diag_codes(items.push(d)) == diag_codes(items).push(d.code),
{
    assert(diag_codes(items.push(d)) =~= diag_codes(items).push(d.code));
}

/// The number of diagnostics with the given severity.
pub open spec fn count_severity(items: Seq<Diagnostic>, sev: Severity) -> nat
    decreases items.len(),
{
    if items.len() == 0 {
        0
    } else {
        count_severity(items.drop_last(), sev) + if items.last().severity == sev {
            1nat
        } else {
            0nat
        }
    }
}

proof fn lemma_counts_sum(items: Seq<Diagnostic>)
    ensures
        count_severity(items, Severity::Error) + count_severity(items, Severity::Warning)
            == items.len(),
    decreases items.len(),
{
    if items.len() > 0 {
        lemma_counts_sum(items.drop_last());
    }
}

/// A growable collection of diagnostics shared across phases.
#[derive(Debug)]
pub struct Diagnostics {
    items: Vec<Diagnostic>,
    errors: usize,
    warnings: usize,
}

/// Whether the sequence `order` lists indices in strictly increasing order of
/// `(key, index)`.
pub open spec fn sorted_by_key_then_index(order: Seq<usize>, keys: Seq<u32>) -> bool {
    forall|a: int, b: int|
        0 <= a < b < order.len() ==> (keys[order[a] as int] < keys[order[b] as int] || (keys[order[a] as int]
            == keys[order[b] as int] && order[a] < order[b]))
}

impl Diagnostics {
    /// The recorded diagnostics, in emission order.
    pub closed spec fn spec_items(&self) -> Seq<Diagnostic> {
        self.items@
    }

    /// The tallies match the recorded diagnostics.
    pub closed spec fn wf(&self) -> bool {
        &&& self.errors == count_severity(self.items@, Severity::Error)
        &&& self.warnings == count_severity(self.items@, Severity::Warning)
    }

    /// An empty sink.
    pub fn new() -> (d: Diagnostics)
        ensures
            d.wf(),
            d.spec_items() == Seq::<Diagnostic>::empty(),
    {
        Diagnostics { items: Vec::new(), errors: 0, warnings: 0 }
    }

    /// Records a diagnostic, updating the error/warning tallies.
    pub fn emit(&mut self, diag: Diagnostic)
        requires
            old(self).wf(),
        ensures
            final(self).wf(),
            final(self).spec_items() == old(self).spec_items().push(diag),
    {
        let ghost old_items = self.items@;
        let sev = diag.severity;
        self.items.push(diag);
        let n = self.items.len();
        proof {
            lemma_counts_sum(old_items);
            assert(self.items@.drop_last() =~= old_items);
        }
        match sev {
            Severity::Error => self.errors = self.errors + 1,
            Severity::Warning => self.warnings = self.warnings + 1,
        }
    }

    /// Number of errors recorded so far.
    pub fn error_count(&self) -> (n: usize)
        requires
            self.wf(),
        ensures
            n == count_severity(self.spec_items(), Severity::Error),
    {
        self.errors
    }

    /// Number of warnings recorded so far.
    pub fn warning_count(&self) -> (n: usize)
        requires
            self.wf(),
        ensures
            n == count_severity(self.spec_items(), Severity::Warning),
    {
        self.warnings
    }

    /// Whether any error has been recorded.
    pub fn has_errors(&self) -> (b: bool)
        requires
            self.wf(),
        ensures
            b == (count_severity(self.spec_items(), Severity::Error) > 0),
    {
        self.errors > 0
    }

    /// Whether nothing has been recorded at all.
    pub fn is_empty(&self) -> (b: bool)
        ensures
            b == (self.spec_items().len() == 0),
    {
        self.items.len() == 0
    }

    /// All recorded diagnostics, in emission order.
    pub fn items(&self) -> (r: &[Diagnostic])
        ensures
            r@ == self.spec_items(),
    {
        self.items.as_slice()
    }

    /// The order in which the diagnostics are presented: indices sorted by
    /// the start of their primary span, ties kept in emission order.
    pub fn render_order(&self) -> (order: Vec<usize>)
        ensures
            order@.len() == self.spec_items().len(),
            forall|k: int| 0 <= k < order@.len() ==> #[trigger] order@[k] < self.spec_items().len(),
            sorted_by_key_then_index(
                order@,
                Seq::new(
                    self.spec_items().len(),
                    |i: int| primary_span_of(self.spec_items()[i].labels@).lo,
                ),
            ),
    {
        let ghost keys = Seq::new(
            self.items@.len(),
            |i: int| primary_span_of(self.items@[i].labels@).lo,
        );
        let mut key_vec: Vec<u32> = Vec::new();
        let mut i: usize = 0;
        while i < self.items.len()
            invariant
                0 <= i <= self.items@.len(),
                key_vec@.len() == i,
                keys == Seq::new(
                    self.items@.len(),
                    |i: int| primary_span_of(self.items@[i].labels@).lo,
                ),
                forall|k: int| 0 <= k < i ==> key_vec@[k] == keys[k],
            decreases self.items@.len() - i,
        {
            key_vec.push(self.items[i].primary_span().lo);
            i = i + 1;
        }
        assert(key_vec@ =~= keys);
        let mut order: Vec<usize> = Vec::new();
        let mut i: usize = 0;
        while i < key_vec.len()
            invariant
                0 <= i <= key_vec@.len(),
                key_vec@ == keys,
                order@.len() == i,
                forall|k: int| 0 <= k < order@.len() ==> #[trigger] order@[k] < i,
                sorted_by_key_then_index(order@, keys),
            decreases key_vec@.len() - i,
        {
            let key = key_vec[i];
            let mut p: usize = order.len();
            while p > 0 && key_vec[order[p - 1]] > key
                invariant
                    0 <= p <= order@.len(),
                    order@.len() == i,
                    i < key_vec@.len(),
                    key_vec@ == keys,
                    key == keys[i as int],
                    forall|k: int| 0 <= k < order@.len() ==> #[trigger] order@[k] < i,
                    forall|k: int| p <= k < order@.len() ==> keys[#[trigger] order@[k] as int] > key,
                decreases p,
            {
                p = p - 1;
            }
            let ghost before = order@;
            order.insert(p, i);
            proof {
                assert forall|a: int, b: int| 0 <= a < b < order@.len() implies (keys[order@[a] as int]
                    < keys[order@[b] as int] || (keys[order@[a] as int] == keys[order@[b] as int]
                    && order@[a] < order@[b])) by {
                    if b < p {
                        assert(order@[a] == before[a] && order@[b] == before[b]);
                    } else if a > p {
                        assert(order@[a] == before[a - 1] && order@[b] == before[b - 1]);
                    } else if a == p {
                        assert(order@[b] == before[b - 1]);
                    } else {
                        assert(order@[a] == before[a]);
                        if b == p {
                            // before[p - 1] has key <= key (the scan stopped there)
                            if a < p - 1 {
                                assert(keys[before[a] as int] < keys[before[p - 1] as int] || (keys[before[a] as int] == keys[before[p - 1] as int] && before[a] < before[p - 1]));
                            }
                        } else {
                            assert(order@[b] == before[b - 1]);
                        }
                    }
                }
                assert forall|k: int| 0 <= k < order@.len() implies #[trigger] order@[k] < i + 1 by {
                    if k < p {
                        assert(order@[k] == before[k]);
                    } else if k > p {
                        assert(order@[k] == before[k - 1]);
                    }
                }
            }
            i = i + 1;
        }
        order
    }

    /// Joins the rendered form of every diagnostic in presentation order
    /// ([`Diagnostics::render_order`]), each followed by a newline.
    /// `rendered[i]` is the rendering of the `i`-th recorded diagnostic.
    pub fn render_all(&self, rendered: &Vec<String>) -> (out: String)
        requires
            rendered@.len() == self.spec_items().len(),
        ensures
            exists|order: Seq<usize>|
                #![trigger order.len()]
                order.len() == self.spec_items().len() && (forall|k: int|
                    0 <= k < order.len() ==> #[trigger] order[k] < self.spec_items().len())
                    && sorted_by_key_then_index(
                    order,
                    Seq::new(
                        self.spec_items().len(),
                        |i: int| primary_span_of(self.spec_items()[i].labels@).lo,
                    ),
                ) && out@ == joined_lines(order.map_values(|i: usize| rendered@[i as int]@)),
    {
        let order = self.render_order();
        let mut out = String::new();
        let mut k: usize = 0;
        while k < order.len()
            invariant
                0 <= k <= order@.len(),
                order@.len() == self.spec_items().len(),
                rendered@.len() == self.spec_items().len(),
                forall|j: int| 0 <= j < order@.len() ==> #[trigger] order@[j] < self.spec_items().len(),
                out@ == joined_lines(order@.take(k as int).map_values(|i: usize| rendered@[i as int]@)),
            decreases order@.len() - k,
        {
            let idx = order[k];
            push_str(&mut out, rendered[idx].as_str());
            push_str(&mut out, "\n");
            proof {
                reveal_strlit("\n");
                assert(order@.take(k + 1).map_values(|i: usize| rendered@[i as int]@).drop_last()
                    =~= order@.take(k as int).map_values(|i: usize| rendered@[i as int]@));
            }
            k = k + 1;
        }
        assert(order@.take(order@.len() as int) =~= order@);
        out
    }
}

/// The concatenation of `parts`, each followed by a newline.
pub open spec fn joined_lines(parts: Seq<Seq<char>>) -> Seq<char>
    decreases parts.len(),
{
    if parts.len() == 0 {
        Seq::empty()
    } else {
        joined_lines(parts.drop_last()) + parts.last() + seq!['\n']
    }
}

} // verus!
