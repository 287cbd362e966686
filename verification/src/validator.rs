//! Structural validation of a graph.
//!
//! Two rules are applied, in this order. The first gives a warning for each
//! triple, in the order of the graph, whose predicate is none of the
//! standard ones: the type identifier and the two required properties,
//! label and comment. The second gives one error where no triple declares a
//! class, that is, has the type identifier as predicate and the class
//! identifier as object.

use crate::term::{term_text, Term, TermView, Triple, TripleView};
use crate::text::{lemma_views_push, views};
use crate::vocab::{CLASS_IDENTIFIER, COMMENT_IDENTIFIER, LABEL_IDENTIFIER, TYPE_IDENTIFIER};
use vstd::prelude::*;

verus! {

/// How grave a diagnostic is.
#[derive(Clone, Copy, Debug, PartialEq, Eq, Structural)]
pub enum Severity {
    Warning,
    Error,
}

/// What a [`Diagnostic`] stands for in contracts.
pub struct DiagnosticView {
    pub severity: Severity,
    pub message: Seq<char>,
}

/// One finding of the validator.
#[derive(Debug)]
pub struct Diagnostic {
    pub severity: Severity,
    pub message: String,
}

impl View for Diagnostic {
    type V = DiagnosticView;

    open spec fn view(&self) -> DiagnosticView {
        DiagnosticView { severity: self.severity, message: self.message@ }
    }
}

/// Whether a predicate of this name draws no warning.
pub open spec fn is_standard(name: Seq<char>) -> bool {
    name == TYPE_IDENTIFIER@ || name == LABEL_IDENTIFIER@ || name == COMMENT_IDENTIFIER@
}

/// Whether the first rule gives a warning for the triple.
pub open spec fn draws_warning(triple: TripleView) -> bool {
    match triple.predicate {
        TermView::Identifier(name) => !is_standard(name),
        _ => false,
    }
}

/// Whether the triple declares a class.
pub open spec fn is_class_declaration(triple: TripleView) -> bool {
    triple.predicate == TermView::Identifier(TYPE_IDENTIFIER@) && triple.object
        == TermView::Identifier(CLASS_IDENTIFIER@)
}

/// Whether any of the triples declares a class.
pub open spec fn declares_class(triples: Seq<TripleView>) -> bool {
    exists|i: int| 0 <= i < triples.len() && is_class_declaration(#[trigger] triples[i])
}

/// The message of a warning, given the three terms of the triple as text.
pub open spec fn warning_text(
    subject: Seq<char>,
    predicate: Seq<char>,
    object: Seq<char>,
) -> Seq<char> {
    "Triple "@ + subject + " "@ + predicate + " "@ + object + " uses non-standard predicate"@
}

/// The warning that the first rule gives for a triple.
pub open spec fn warning_for(triple: TripleView) -> DiagnosticView {
    DiagnosticView {
        severity: Severity::Warning,
        message: warning_text(
            term_text(triple.subject),
            term_text(triple.predicate),
            term_text(triple.object),
        ),
    }
}

/// The error that the second rule gives.
pub open spec fn missing_class() -> DiagnosticView {
    DiagnosticView { severity: Severity::Error, message: "No class definitions found."@ }
}

/// The triples for which the first rule gives a warning, in their order.
pub open spec fn offending(triples: Seq<TripleView>) -> Seq<TripleView> {
    triples.filter(|triple: TripleView| draws_warning(triple))
}

/// What the first rule gives.
pub open spec fn warnings_of(triples: Seq<TripleView>) -> Seq<DiagnosticView> {
    offending(triples).map_values(|triple: TripleView| warning_for(triple))
}

/// What both rules give: the warnings of the first, then the error of the second.
pub open spec fn validated(triples: Seq<TripleView>) -> Seq<DiagnosticView> {
    if declares_class(triples) {
        warnings_of(triples)
    } else {
        warnings_of(triples).push(missing_class())
    }
}

/// A diagnostic as one line of text: its severity, a colon, its message.
pub open spec fn diagnostic_text(diagnostic: DiagnosticView) -> Seq<char> {
    match diagnostic.severity {
        Severity::Warning => "Warning: "@ + diagnostic.message,
        Severity::Error => "Error: "@ + diagnostic.message,
    }
}

proof fn lemma_warnings_push(triples: Seq<TripleView>, triple: TripleView)
    ensures
        warnings_of(triples.push(triple)) == if draws_warning(triple) {
            warnings_of(triples).push(warning_for(triple))
        } else {
            warnings_of(triples)
        },
{
    triples.lemma_filter_push(triple, |triple: TripleView| draws_warning(triple));
    assert(warnings_of(triples.push(triple)) =~= if draws_warning(triple) {
        warnings_of(triples).push(warning_for(triple))
    } else {
        warnings_of(triples)
    });
}

proof fn lemma_declares_push(triples: Seq<TripleView>, triple: TripleView)
    ensures
        declares_class(triples.push(triple)) == (declares_class(triples) || is_class_declaration(
            triple,
        )),
{
    let longer = triples.push(triple);
    if declares_class(triples) {
        let i = choose|i: int| 0 <= i < triples.len() && is_class_declaration(#[trigger] triples[i]);
        assert(is_class_declaration(longer[i]));
    }
    if is_class_declaration(triple) {
        assert(is_class_declaration(longer[triples.len() as int]));
    }
    if declares_class(longer) {
        let i = choose|i: int| 0 <= i < longer.len() && is_class_declaration(#[trigger] longer[i]);
        if i < triples.len() {
            assert(is_class_declaration(triples[i]));
        }
    }
}

impl Diagnostic {
    /// The diagnostic as one line of text.
    pub fn to_text(&self) -> (text: String)
        ensures
            text@ == diagnostic_text(self@),
    {
        let mut text = match self.severity {
            Severity::Warning => "Warning: ".to_owned(),
            Severity::Error => "Error: ".to_owned(),
        };
        text.append(self.message.as_str());
        text
    }
}

/// The message of a warning, given the three terms of the triple as text.
pub fn warning_message(subject: &str, predicate: &str, object: &str) -> (message: String)
    ensures
        message@ == warning_text(subject@, predicate@, object@),
{
    let mut message = "Triple ".to_owned();
    message.append(subject);
    message.append(" ");
    message.append(predicate);
    message.append(" ");
    message.append(object);
    message.append(" uses non-standard predicate");
    message
}

fn warn(triple: &Triple) -> (warning: Diagnostic)
    ensures
        warning@ == warning_for(triple@),
{
    let subject = triple.subject().to_text();
    let predicate = triple.predicate().to_text();
    let object = triple.object().to_text();
    Diagnostic {
        severity: Severity::Warning,
        message: warning_message(subject.as_str(), predicate.as_str(), object.as_str()),
    }
}

/// Applies both rules to the triples of a graph.
pub fn validate(triples: &Vec<Triple>) -> (report: Vec<Diagnostic>)
    ensures
        views(report@) == validated(views(triples@)),
{
    let kind_name = TYPE_IDENTIFIER.to_owned();
    let class_name = CLASS_IDENTIFIER.to_owned();
    let label_name = LABEL_IDENTIFIER.to_owned();
    let comment_name = COMMENT_IDENTIFIER.to_owned();
    let mut report: Vec<Diagnostic> = Vec::new();
    let mut has_class = false;
    let mut k: usize = 0;
    let ghost graph = views(triples@);
    proof {
        reveal(Seq::filter);
        assert(warnings_of(graph.take(0)) =~= Seq::empty());
        assert(views(report@) =~= Seq::empty());
    }
    while k < triples.len()
        invariant
            k <= triples.len(),
            graph == views(triples@),
            kind_name@ == TYPE_IDENTIFIER@,
            class_name@ == CLASS_IDENTIFIER@,
            label_name@ == LABEL_IDENTIFIER@,
            comment_name@ == COMMENT_IDENTIFIER@,
            views(report@) == warnings_of(graph.take(k as int)),
            has_class == declares_class(graph.take(k as int)),
        decreases triples.len() - k,
    {
        let triple = &triples[k];
        let name = triple.predicate_name();
        proof {
            assert(graph.take(k + 1) =~= graph.take(k as int).push(triple@));
            lemma_warnings_push(graph.take(k as int), triple@);
            lemma_declares_push(graph.take(k as int), triple@);
        }
        let is_type = *name == kind_name;
        if !(is_type || *name == label_name || *name == comment_name) {
            let ghost before = report@;
            report.push(warn(triple));
            proof {
                lemma_views_push(before, report@.last());
            }
        }
        if is_type {
            if let Term::Identifier(object) = triple.object() {
                if *object == class_name {
                    has_class = true;
                }
            }
        }
        k += 1;
    }
    assert(graph.take(k as int) =~= graph);
    if !has_class {
        let ghost before = report@;
        report.push(
            Diagnostic {
                severity: Severity::Error,
                message: "No class definitions found.".to_owned(),
            },
        );
        proof {
            lemma_views_push(before, report@.last());
        }
    }
    report
}

/// The errors among diagnostics, in their order.
pub open spec fn errors_in(report: Seq<DiagnosticView>) -> Seq<DiagnosticView> {
    report.filter(|diagnostic: DiagnosticView| diagnostic.severity == Severity::Error)
}

/// The first rule gives warnings only.
pub proof fn lemma_warnings_only(triples: Seq<TripleView>)
    ensures
        errors_in(warnings_of(triples)) == Seq::<DiagnosticView>::empty(),
        forall|k: int|
            0 <= k < warnings_of(triples).len() ==> (#[trigger] warnings_of(triples)[k]).severity
                == Severity::Warning,
    decreases triples.len(),
{
    reveal(Seq::filter);
    if triples.len() > 0 {
        let front = triples.drop_last();
        lemma_warnings_only(front);
        lemma_warnings_push(front, triples.last());
        assert(front.push(triples.last()) =~= triples);
        warnings_of(front).lemma_filter_push(
            warning_for(triples.last()),
            |diagnostic: DiagnosticView| diagnostic.severity == Severity::Error,
        );
    } else {
        assert(warnings_of(triples) =~= Seq::empty());
    }
}

/// A graph that declares a class and uses standard predicates only has no
/// diagnostics.
pub proof fn lemma_clean_graph(triples: Seq<TripleView>)
    requires
        declares_class(triples),
        forall|i: int| 0 <= i < triples.len() ==> !draws_warning(#[trigger] triples[i]),
    ensures
        validated(triples) == Seq::<DiagnosticView>::empty(),
{
    let keep = |triple: TripleView| draws_warning(triple);
    if offending(triples).len() > 0 {
        triples.lemma_filter_pred(keep, 0);
        assert(offending(triples).contains(offending(triples)[0]));
        triples.lemma_filter_contains_rev(keep, offending(triples)[0]);
    }
    assert(warnings_of(triples) =~= Seq::empty());
}

/// A graph that declares no class has exactly one error, which says so and
/// comes last; a graph that declares one has no error.
pub proof fn lemma_one_error(triples: Seq<TripleView>)
    ensures
        errors_in(validated(triples)) == if declares_class(triples) {
            Seq::<DiagnosticView>::empty()
        } else {
            seq![missing_class()]
        },
        !declares_class(triples) ==> validated(triples).last() == missing_class(),
{
    lemma_warnings_only(triples);
    if !declares_class(triples) {
        warnings_of(triples).lemma_filter_push(
            missing_class(),
            |diagnostic: DiagnosticView| diagnostic.severity == Severity::Error,
        );
        assert(errors_in(validated(triples)) =~= seq![missing_class()]);
    }
}

} // verus!
