//! The engine: one store, fed by texts of statements and asked by queries.

use crate::parser::{parse, parsed, ParseFatal};
use crate::query::{row_views, Binding, BindingView, Solutions, SolutionsView};
use crate::sparql::{answer, answered, parse_query, text_query, QuerySyntaxError};
use crate::store::{
    insert_all, lemma_insert_all_distinct, lemma_insert_all_extends, lemma_insert_all_new,
    lemma_insert_all_twice, Store,
};
use crate::term::{term_text, TripleView};
use crate::text::{lemma_views_push, views};
use crate::validator::{diagnostic_text, validate, validated, Diagnostic, DiagnosticView};
use vstd::prelude::*;

verus! {

/// What a [`QueryAnswer`] stands for in contracts.
pub enum AnswerView {
    Rows(Seq<Seq<(Seq<char>, Seq<char>)>>),
    Boolean(bool),
}

/// What a query gives, as plain text: for a pattern with variables one row
/// for each solution, each row holding the variables' names with their
/// terms as text; for a pattern without, a truth value.
#[derive(Debug)]
pub enum QueryAnswer {
    Rows(Vec<Vec<(String, String)>>),
    Boolean(bool),
}

/// The values of the cells of a row.
pub open spec fn cell_views(row: Seq<(String, String)>) -> Seq<(Seq<char>, Seq<char>)> {
    row.map_values(|cell: (String, String)| (cell.0@, cell.1@))
}

/// The values of the rows of an answer.
pub open spec fn answer_rows(rows: Seq<Vec<(String, String)>>) -> Seq<Seq<(Seq<char>, Seq<char>)>> {
    rows.map_values(|row: Vec<(String, String)>| cell_views(row@))
}

impl View for QueryAnswer {
    type V = AnswerView;

    open spec fn view(&self) -> AnswerView {
        match self {
            QueryAnswer::Rows(rows) => AnswerView::Rows(answer_rows(rows@)),
            QueryAnswer::Boolean(value) => AnswerView::Boolean(*value),
        }
    }
}

/// A solution as text: each variable's name with its term as text.
pub open spec fn row_text(row: Seq<BindingView>) -> Seq<(Seq<char>, Seq<char>)> {
    row.map_values(|binding: BindingView| (binding.name, term_text(binding.term)))
}

/// Solutions as text.
pub open spec fn answer_of(solutions: SolutionsView) -> AnswerView {
    match solutions {
        SolutionsView::Bindings(rows) => AnswerView::Rows(
            rows.map_values(|row: Seq<BindingView>| row_text(row)),
        ),
        SolutionsView::Boolean(value) => AnswerView::Boolean(value),
    }
}

/// The diagnostics as lines of text.
pub open spec fn report_text(report: Seq<DiagnosticView>) -> Seq<Seq<char>> {
    report.map_values(|diagnostic: DiagnosticView| diagnostic_text(diagnostic))
}

/// The triples that a store holds after an update with `text`: those it
/// held and, behind them, the triples of the text that it did not hold; or
/// those it held and no more, where the text cannot be read.
pub open spec fn updated(triples: Seq<TripleView>, text: Seq<char>) -> Seq<TripleView> {
    match parsed(text) {
        Ok(read) => insert_all(triples, read.triples),
        Err(_) => triples,
    }
}

/// An update with the same text a second time changes nothing: neither the
/// triples held nor their number.
pub proof fn lemma_update_twice(triples: Seq<TripleView>, text: Seq<char>)
    ensures
        updated(updated(triples, text), text) == updated(triples, text),
        updated(updated(triples, text), text).len() == updated(triples, text).len(),
{
    if let Ok(read) = parsed(text) {
        lemma_insert_all_twice(triples, read.triples);
    }
}

/// An update never makes a triple stand twice, and what was held stays
/// where it was.
pub proof fn lemma_update_grows(triples: Seq<TripleView>, text: Seq<char>)
    requires
        triples.no_duplicates(),
    ensures
        updated(triples, text).no_duplicates(),
        triples.is_prefix_of(updated(triples, text)),
{
    if let Ok(read) = parsed(text) {
        lemma_insert_all_distinct(triples, read.triples);
        lemma_insert_all_extends(triples, read.triples);
    }
}

/// An update of an empty store with a text whose statements are all
/// different gives as many triples as the text has.
pub proof fn lemma_update_counts(text: Seq<char>)
    requires
        parsed(text) is Ok,
        parsed(text)->Ok_0.triples.no_duplicates(),
    ensures
        updated(Seq::empty(), text) == parsed(text)->Ok_0.triples,
        updated(Seq::empty(), text).len() == parsed(text)->Ok_0.triples.len(),
{
    let more = parsed(text)->Ok_0.triples;
    lemma_insert_all_new(Seq::empty(), more);
    assert(Seq::<TripleView>::empty() + more =~= more);
}

fn write_row(row: &Vec<Binding>) -> (cells: Vec<(String, String)>)
    ensures
        cell_views(cells@) == row_text(views(row@)),
{
    let mut cells: Vec<(String, String)> = Vec::new();
    let mut k: usize = 0;
    assert(cell_views(cells@) =~= row_text(views(row@).take(0)));
    while k < row.len()
        invariant
            k <= row.len(),
            cell_views(cells@) == row_text(views(row@).take(k as int)),
        decreases row.len() - k,
    {
        let ghost before = cells@;
        let ghost seen = views(row@).take(k as int);
        let cell = (row[k].name.clone(), row[k].term.to_text());
        cells.push(cell);
        proof {
            assert(cell_views(cells@) =~= cell_views(before).push((cell.0@, cell.1@)));
            assert(views(row@).take(k + 1) =~= seen.push(row[k as int]@));
            assert(row_text(seen.push(row[k as int]@)) =~= row_text(seen).push(
                (row[k as int]@.name, term_text(row[k as int]@.term)),
            ));
        }
        k += 1;
    }
    assert(views(row@).take(k as int) =~= views(row@));
    cells
}

/// Writes solutions as text.
pub fn write_answer(solutions: &Solutions) -> (answer: QueryAnswer)
    ensures
        answer@ == answer_of(solutions@),
{
    match solutions {
        Solutions::Boolean(value) => QueryAnswer::Boolean(*value),
        Solutions::Bindings(rows) => {
            let mut written: Vec<Vec<(String, String)>> = Vec::new();
            let mut k: usize = 0;
            let ghost wanted = answer_of(solutions@)->Rows_0;
            assert(answer_rows(written@) =~= wanted.take(0));
            while k < rows.len()
                invariant
                    k <= rows.len(),
                    wanted == answer_of(SolutionsView::Bindings(row_views(rows@)))->Rows_0,
                    answer_rows(written@) == wanted.take(k as int),
                decreases rows.len() - k,
            {
                let ghost before = written@;
                let cells = write_row(&rows[k]);
                written.push(cells);
                proof {
                    assert(answer_rows(written@) =~= answer_rows(before).push(cell_views(cells@)));
                    assert(wanted[k as int] == row_text(row_views(rows@)[k as int]));
                    assert(wanted.take(k + 1) =~= wanted.take(k as int).push(wanted[k as int]));
                }
                k += 1;
            }
            assert(wanted.take(k as int) =~= wanted);
            QueryAnswer::Rows(written)
        },
    }
}

/// Writes diagnostics as lines of text.
pub fn write_report(report: &Vec<Diagnostic>) -> (lines: Vec<String>)
    ensures
        views(lines@) == report_text(views(report@)),
{
    let mut lines: Vec<String> = Vec::new();
    let mut k: usize = 0;
    assert(views(lines@) =~= report_text(views(report@).take(0)));
    while k < report.len()
        invariant
            k <= report.len(),
            views(lines@) == report_text(views(report@).take(k as int)),
        decreases report.len() - k,
    {
        let ghost before = lines@;
        let ghost seen = views(report@).take(k as int);
        lines.push(report[k].to_text());
        proof {
            lemma_views_push(before, lines@.last());
            assert(views(report@).take(k + 1) =~= seen.push(report[k as int]@));
            assert(report_text(seen.push(report[k as int]@)) =~= report_text(seen).push(
                diagnostic_text(report[k as int]@),
            ));
        }
        k += 1;
    }
    assert(views(report@).take(k as int) =~= views(report@));
    lines
}

/// An in-memory graph engine.
pub struct RDFEngine {
    store: Store,
}

impl View for RDFEngine {
    type V = Seq<TripleView>;

    /// The triples held, in insertion order.
    closed spec fn view(&self) -> Seq<TripleView> {
        self.store@
    }
}

impl RDFEngine {
    /// An engine with an empty store.
    pub fn new() -> (engine: RDFEngine)
        ensures
            engine@ == Seq::<TripleView>::empty(),
    {
        RDFEngine { store: Store::new() }
    }

    /// The store.
    pub fn store(&self) -> (store: &Store)
        ensures
            store@ == self@,
    {
        &self.store
    }

    /// Reads `query` and answers it on the store. A text that is no query
    /// comes back in the error.
    pub fn execute_query(&self, query: &str) -> (outcome: Result<QueryAnswer, QuerySyntaxError>)
        ensures
            match text_query(query@) {
                Some(asked) => outcome is Ok && outcome->Ok_0@ == answer_of(
                    answered(self@, asked),
                ),
                None => outcome is Err && outcome->Err_0.fragment@ == query@,
            },
    {
        match parse_query(query) {
            Ok(asked) => {
                let solutions = answer(&self.store, &asked);
                Ok(write_answer(&solutions))
            },
            Err(error) => Err(error),
        }
    }

    /// Reads `ttl` and inserts its triples, in order. Where the text cannot
    /// be read the store stays as it was.
    pub fn execute_update(&mut self, ttl: &str) -> (outcome: Result<bool, ParseFatal>)
        ensures
            final(self)@ == updated(old(self)@, ttl@),
            match parsed(ttl@) {
                Ok(_) => outcome == Ok::<bool, ParseFatal>(true),
                Err(fatal) => outcome == Err::<bool, ParseFatal>(fatal),
            },
    {
        match parse(ttl) {
            Ok(read) => {
                self.store.insert_all(read.triples);
                Ok(true)
            },
            Err(fatal) => Err(fatal),
        }
    }

    /// Reads `ttl` into a graph of its own and validates that graph. The
    /// store plays no part and stays as it is.
    pub fn execute_validation(&self, ttl: &str) -> (outcome: Result<Vec<String>, ParseFatal>)
        ensures
            match parsed(ttl@) {
                Ok(read) => outcome is Ok && views(outcome->Ok_0@) == report_text(
                    validated(insert_all(Seq::empty(), read.triples)),
                ),
                Err(fatal) => outcome == Err::<Vec<String>, ParseFatal>(fatal),
            },
    {
        match parse(ttl) {
            Ok(read) => {
                let mut graph = Store::new();
                graph.insert_all(read.triples);
                let report = validate(graph.all());
                Ok(write_report(&report))
            },
            Err(fatal) => Err(fatal),
        }
    }
}

} // verus!
