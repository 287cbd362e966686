//! Matching one pattern against the store.
//!
//! A pattern has a variable or a term in each of its three places. With at
//! least one variable it gives one solution for each triple that it admits,
//! in the order of the store; with none it gives `true` or `false`.

use crate::store::{has_predicate, with_predicate, Store};
use crate::term::{Term, TermView, Triple, TripleView};
use crate::text::{lemma_views_push, views};
use vstd::prelude::*;

verus! {

/// What a [`PatternTerm`] stands for in contracts.
pub enum PatternTermView {
    Variable(Seq<char>),
    Constant(TermView),
}

/// What a [`Pattern`] stands for in contracts.
pub struct PatternView {
    pub subject: PatternTermView,
    pub predicate: PatternTermView,
    pub object: PatternTermView,
}

/// What a [`Binding`] stands for in contracts.
pub struct BindingView {
    pub name: Seq<char>,
    pub term: TermView,
}

/// What [`Solutions`] stand for in contracts.
pub enum SolutionsView {
    Bindings(Seq<Seq<BindingView>>),
    Boolean(bool),
}

impl PatternTermView {
    /// A variable admits every term, a constant only itself.
    pub open spec fn admits(self, term: TermView) -> bool {
        match self {
            PatternTermView::Variable(_) => true,
            PatternTermView::Constant(constant) => constant == term,
        }
    }

    /// Whether this is the variable called `name`.
    pub open spec fn names(self, name: Seq<char>) -> bool {
        self == PatternTermView::Variable(name)
    }
}

/// Where two places hold the same variable, their terms are equal.
pub open spec fn agree(
    first: PatternTermView,
    first_term: TermView,
    second: PatternTermView,
    second_term: TermView,
) -> bool {
    match first {
        PatternTermView::Variable(name) => second.names(name) ==> first_term == second_term,
        PatternTermView::Constant(_) => true,
    }
}

impl PatternView {
    pub open spec fn has_variable(self) -> bool {
        self.subject is Variable || self.predicate is Variable || self.object is Variable
    }

    /// Each place admits the triple's term there, and a variable that
    /// stands in several places meets the same term in all of them.
    pub open spec fn admits(self, triple: TripleView) -> bool {
        &&& self.subject.admits(triple.subject)
        &&& self.predicate.admits(triple.predicate)
        &&& self.object.admits(triple.object)
        &&& agree(self.subject, triple.subject, self.predicate, triple.predicate)
        &&& agree(self.subject, triple.subject, self.object, triple.object)
        &&& agree(self.predicate, triple.predicate, self.object, triple.object)
    }

    /// The bindings that an admitted triple gives: one for each variable,
    /// in the order in which the variables first stand in the pattern.
    pub open spec fn solution(self, triple: TripleView) -> Seq<BindingView> {
        let first = match self.subject {
            PatternTermView::Variable(name) => seq![BindingView { name, term: triple.subject }],
            _ => Seq::empty(),
        };
        let second = match self.predicate {
            PatternTermView::Variable(name) if !self.subject.names(name) => seq![
                BindingView { name, term: triple.predicate },
            ],
            _ => Seq::empty(),
        };
        let third = match self.object {
            PatternTermView::Variable(name) if !self.subject.names(name)
                && !self.predicate.names(name) => seq![BindingView { name, term: triple.object }],
            _ => Seq::empty(),
        };
        first + second + third
    }
}

/// The triples that the pattern admits, in their order.
pub open spec fn matching(triples: Seq<TripleView>, pattern: PatternView) -> Seq<TripleView> {
    triples.filter(|triple: TripleView| pattern.admits(triple))
}

/// The solution that each of the triples gives.
pub open spec fn solutions_of(triples: Seq<TripleView>, pattern: PatternView) -> Seq<
    Seq<BindingView>,
> {
    triples.map_values(|triple: TripleView| pattern.solution(triple))
}

/// Whether the pattern admits any of the triples.
pub open spec fn admits_any(triples: Seq<TripleView>, pattern: PatternView) -> bool {
    exists|i: int| 0 <= i < triples.len() && pattern.admits(triples[i])
}

/// What the pattern gives on the triples of a store.
pub open spec fn evaluated(triples: Seq<TripleView>, pattern: PatternView) -> SolutionsView {
    if pattern.has_variable() {
        SolutionsView::Bindings(solutions_of(matching(triples, pattern), pattern))
    } else {
        SolutionsView::Boolean(admits_any(triples, pattern))
    }
}

/// One place of a pattern.
#[derive(Debug)]
pub enum PatternTerm {
    Variable(String),
    Constant(Term),
}

/// A triple pattern.
#[derive(Debug)]
pub struct Pattern {
    pub subject: PatternTerm,
    pub predicate: PatternTerm,
    pub object: PatternTerm,
}

/// A variable and the term it stands for in one solution.
#[derive(Debug)]
pub struct Binding {
    pub name: String,
    pub term: Term,
}

/// What a pattern gives: solutions where it has a variable, else a truth value.
#[derive(Debug)]
pub enum Solutions {
    Bindings(Vec<Vec<Binding>>),
    Boolean(bool),
}

impl View for PatternTerm {
    type V = PatternTermView;

    open spec fn view(&self) -> PatternTermView {
        match self {
            PatternTerm::Variable(name) => PatternTermView::Variable(name@),
            PatternTerm::Constant(term) => PatternTermView::Constant(term@),
        }
    }
}

impl View for Pattern {
    type V = PatternView;

    open spec fn view(&self) -> PatternView {
        PatternView {
            subject: self.subject@,
            predicate: self.predicate@,
            object: self.object@,
        }
    }
}

impl View for Binding {
    type V = BindingView;

    open spec fn view(&self) -> BindingView {
        BindingView { name: self.name@, term: self.term@ }
    }
}

/// The values of the rows of a result.
pub open spec fn row_views(rows: Seq<Vec<Binding>>) -> Seq<Seq<BindingView>> {
    rows.map_values(|row: Vec<Binding>| views(row@))
}

impl View for Solutions {
    type V = SolutionsView;

    open spec fn view(&self) -> SolutionsView {
        match self {
            Solutions::Bindings(rows) => SolutionsView::Bindings(row_views(rows@)),
            Solutions::Boolean(value) => SolutionsView::Boolean(*value),
        }
    }
}

proof fn lemma_matching_push(triples: Seq<TripleView>, triple: TripleView, pattern: PatternView)
    ensures
        matching(triples.push(triple), pattern) == if pattern.admits(triple) {
            matching(triples, pattern).push(triple)
        } else {
            matching(triples, pattern)
        },
{
    triples.lemma_filter_push(triple, |triple: TripleView| pattern.admits(triple));
}

proof fn lemma_solutions_push(triples: Seq<TripleView>, triple: TripleView, pattern: PatternView)
    ensures
        solutions_of(triples.push(triple), pattern) == solutions_of(triples, pattern).push(
            pattern.solution(triple),
        ),
{
    assert(solutions_of(triples.push(triple), pattern) =~= solutions_of(triples, pattern).push(
        pattern.solution(triple),
    ));
}

/// A pattern whose predicate is an identifier admits the same triples
/// among those with that predicate as among all.
proof fn lemma_matching_by_predicate(
    triples: Seq<TripleView>,
    pattern: PatternView,
    name: Seq<char>,
)
    requires
        pattern.predicate == PatternTermView::Constant(TermView::Identifier(name)),
    ensures
        matching(with_predicate(triples, name), pattern) == matching(triples, pattern),
    decreases triples.len(),
{
    let keep = |triple: TripleView| has_predicate(triple, name);
    if triples.len() == 0 {
        reveal(Seq::filter);
        assert(with_predicate(triples, name) =~= triples);
    } else {
        let front = triples.drop_last();
        let last = triples.last();
        lemma_matching_by_predicate(front, pattern, name);
        assert(front.push(last) =~= triples);
        front.lemma_filter_push(last, keep);
        lemma_matching_push(front, last, pattern);
        lemma_matching_push(with_predicate(front, name), last, pattern);
    }
}

/// With no variable, a pattern admits exactly the triple of its constants.
proof fn lemma_constant_pattern(triples: Seq<TripleView>, pattern: PatternView)
    requires
        !pattern.has_variable(),
    ensures
        admits_any(triples, pattern) == triples.contains(
            TripleView {
                subject: pattern.subject->Constant_0,
                predicate: pattern.predicate->Constant_0,
                object: pattern.object->Constant_0,
            },
        ),
{
    let target = TripleView {
        subject: pattern.subject->Constant_0,
        predicate: pattern.predicate->Constant_0,
        object: pattern.object->Constant_0,
    };
    if triples.contains(target) {
        let i = choose|i: int| 0 <= i < triples.len() && triples[i] == target;
        assert(pattern.admits(triples[i]));
    }
    if exists|i: int| 0 <= i < triples.len() && pattern.admits(triples[i]) {
        let i = choose|i: int| 0 <= i < triples.len() && pattern.admits(triples[i]);
        assert(triples[i] == target);
    }
}

impl PatternTerm {
    fn admits(&self, term: &Term) -> (yes: bool)
        ensures
            yes == self@.admits(term@),
    {
        match self {
            PatternTerm::Variable(_) => true,
            PatternTerm::Constant(constant) => *constant == *term,
        }
    }

    fn names(&self, name: &String) -> (yes: bool)
        ensures
            yes == self@.names(name@),
    {
        match self {
            PatternTerm::Variable(own) => *own == *name,
            PatternTerm::Constant(_) => false,
        }
    }
}

fn agrees(first: &PatternTerm, first_term: &Term, second: &PatternTerm, second_term: &Term) -> (yes:
    bool)
    ensures
        yes == agree(first@, first_term@, second@, second_term@),
{
    match first {
        PatternTerm::Variable(name) => !second.names(name) || *first_term == *second_term,
        PatternTerm::Constant(_) => true,
    }
}

impl Pattern {
    /// Whether a variable stands in any of the three places.
    pub fn has_variable(&self) -> (yes: bool)
        ensures
            yes == self@.has_variable(),
    {
        let subject = match &self.subject {
            PatternTerm::Variable(_) => true,
            _ => false,
        };
        let predicate = match &self.predicate {
            PatternTerm::Variable(_) => true,
            _ => false,
        };
        let object = match &self.object {
            PatternTerm::Variable(_) => true,
            _ => false,
        };
        subject || predicate || object
    }

    /// Whether the pattern admits `triple`.
    pub fn admits(&self, triple: &Triple) -> (yes: bool)
        ensures
            yes == self@.admits(triple@),
    {
        let subject = triple.subject();
        let predicate = triple.predicate();
        let object = triple.object();
        self.subject.admits(subject) && self.predicate.admits(predicate) && self.object.admits(
            object,
        ) && agrees(&self.subject, subject, &self.predicate, predicate) && agrees(
            &self.subject,
            subject,
            &self.object,
            object,
        ) && agrees(&self.predicate, predicate, &self.object, object)
    }

    /// The bindings that `triple` gives.
    pub fn solution(&self, triple: &Triple) -> (row: Vec<Binding>)
        ensures
            views(row@) == self@.solution(triple@),
    {
        let mut row: Vec<Binding> = Vec::new();
        if let PatternTerm::Variable(name) = &self.subject {
            row.push(Binding { name: name.clone(), term: triple.subject().clone() });
        }
        if let PatternTerm::Variable(name) = &self.predicate {
            if !self.subject.names(name) {
                row.push(Binding { name: name.clone(), term: triple.predicate().clone() });
            }
        }
        if let PatternTerm::Variable(name) = &self.object {
            if !self.subject.names(name) && !self.predicate.names(name) {
                row.push(Binding { name: name.clone(), term: triple.object().clone() });
            }
        }
        assert(views(row@) =~= self@.solution(triple@));
        row
    }
}

fn references(triples: &Vec<Triple>) -> (found: Vec<&Triple>)
    ensures
        views(found@) == views(triples@),
{
    let mut found: Vec<&Triple> = Vec::new();
    let mut k: usize = 0;
    assert(views(found@) =~= views(triples@).take(0));
    while k < triples.len()
        invariant
            k <= triples.len(),
            views(found@) == views(triples@).take(k as int),
        decreases triples.len() - k,
    {
        let ghost before = found@;
        found.push(&triples[k]);
        proof {
            lemma_views_push(before, found@.last());
            assert(views(triples@).take(k + 1) =~= views(triples@).take(k as int).push(
                triples[k as int]@,
            ));
        }
        k += 1;
    }
    assert(views(triples@).take(k as int) =~= views(triples@));
    found
}

/// The pattern admits a triple exactly where it admits one of those that
/// it picks out.
pub proof fn lemma_matching_any(triples: Seq<TripleView>, pattern: PatternView)
    ensures
        admits_any(triples, pattern) == (matching(triples, pattern).len() > 0),
{
    let keep = |triple: TripleView| pattern.admits(triple);
    let admitted = matching(triples, pattern);
    if admits_any(triples, pattern) {
        let i = choose|i: int| 0 <= i < triples.len() && pattern.admits(triples[i]);
        triples.lemma_filter_contains(keep, i);
    }
    if admitted.len() > 0 {
        triples.lemma_filter_pred(keep, 0);
        assert(admitted.contains(admitted[0]));
        triples.lemma_filter_contains_rev(keep, admitted[0]);
        let i = choose|i: int| 0 <= i < triples.len() && triples[i] == admitted[0];
        assert(pattern.admits(triples[i]));
    }
}

/// The triples among which the pattern has to look: those of its predicate
/// where that is an identifier, else all.
fn candidates<'a>(store: &'a Store, pattern: &Pattern) -> (found: Vec<&'a Triple>)
    ensures
        matching(views(found@), pattern@) == matching(store@, pattern@),
{
    match &pattern.predicate {
        PatternTerm::Constant(Term::Identifier(name)) => {
            proof {
                lemma_matching_by_predicate(store@, pattern@, name@);
            }
            store.by_predicate(name.as_str())
        },
        _ => references(store.all()),
    }
}

/// The solutions of `pattern` on the triples of `store`: one for each
/// triple that the pattern admits, in the order of the store.
pub fn solve(store: &Store, pattern: &Pattern) -> (rows: Vec<Vec<Binding>>)
    ensures
        row_views(rows@) == solutions_of(matching(store@, pattern@), pattern@),
{
    let candidates = candidates(store, pattern);
    let mut rows: Vec<Vec<Binding>> = Vec::new();
    let mut k: usize = 0;
    assert(views(candidates@).take(0) =~= Seq::empty());
    assert(row_views(rows@) =~= Seq::empty());
    proof {
        reveal(Seq::filter);
    }
    assert(matching(Seq::empty(), pattern@) =~= Seq::empty());
    assert(solutions_of(Seq::empty(), pattern@) =~= Seq::empty());
    while k < candidates.len()
        invariant
            k <= candidates.len(),
            row_views(rows@) == solutions_of(
                matching(views(candidates@).take(k as int), pattern@),
                pattern@,
            ),
        decreases candidates.len() - k,
    {
        let ghost seen = views(candidates@).take(k as int);
        let ghost before = rows@;
        proof {
            assert(views(candidates@).take(k + 1) =~= seen.push(candidates[k as int]@));
            lemma_matching_push(seen, candidates[k as int]@, pattern@);
        }
        if pattern.admits(candidates[k]) {
            let row = pattern.solution(candidates[k]);
            rows.push(row);
            proof {
                lemma_solutions_push(matching(seen, pattern@), candidates[k as int]@, pattern@);
                assert(row_views(rows@) =~= row_views(before).push(views(row@)));
            }
        }
        k += 1;
    }
    assert(views(candidates@).take(k as int) =~= views(candidates@));
    rows
}

/// Whether `pattern` admits any triple of `store`.
pub fn any(store: &Store, pattern: &Pattern) -> (held: bool)
    ensures
        held == admits_any(store@, pattern@),
{
    let all = store.all();
    if let PatternTerm::Constant(subject) = &pattern.subject {
        if let PatternTerm::Constant(predicate) = &pattern.predicate {
            if let PatternTerm::Constant(object) = &pattern.object {
                proof {
                    lemma_constant_pattern(store@, pattern@);
                }
                return match Triple::new(subject.clone(), predicate.clone(), object.clone()) {
                    Some(target) => store.contains(&target),
                    None => {
                        assert forall|i: int| 0 <= i < store@.len() implies !pattern@.admits(
                            store@[i],
                        ) by {
                            assert(store@[i].well_formed());
                        }
                        false
                    },
                };
            }
        }
    }
    let candidates = candidates(store, pattern);
    proof {
        lemma_matching_any(store@, pattern@);
        lemma_matching_any(views(candidates@), pattern@);
    }
    let mut k: usize = 0;
    while k < candidates.len()
        invariant
            k <= candidates.len(),
            admits_any(store@, pattern@) == admits_any(views(candidates@), pattern@),
            forall|j: int| 0 <= j < k ==> !pattern@.admits(#[trigger] views(candidates@)[j]),
        decreases candidates.len() - k,
    {
        if pattern.admits(candidates[k]) {
            assert(pattern@.admits(views(candidates@)[k as int]));
            assert(admits_any(views(candidates@), pattern@));
            return true;
        }
        k += 1;
    }
    false
}

/// Evaluates `pattern` on the triples of `store`.
pub fn evaluate(store: &Store, pattern: &Pattern) -> (found: Solutions)
    ensures
        found@ == evaluated(store@, pattern@),
{
    if pattern.has_variable() {
        Solutions::Bindings(solve(store, pattern))
    } else {
        Solutions::Boolean(any(store, pattern))
    }
}

/// On an empty store a pattern with a variable has no solution, and a
/// pattern without is false.
pub proof fn lemma_empty_store(pattern: PatternView)
    ensures
        evaluated(Seq::empty(), pattern) == if pattern.has_variable() {
            SolutionsView::Bindings(Seq::empty())
        } else {
            SolutionsView::Boolean(false)
        },
{
    reveal(Seq::filter);
    assert(matching(Seq::empty(), pattern) =~= Seq::empty());
    assert(solutions_of(Seq::empty(), pattern) =~= Seq::empty());
}

/// A pattern with a subject, a variable as predicate and an object binds
/// the variable to exactly the predicates that join the two in the store:
/// every solution binds that one variable, and a solution binds it to
/// `predicate` if and only if the store holds the triple of the subject,
/// `predicate` and the object.
pub proof fn lemma_predicate_variable(
    triples: Seq<TripleView>,
    subject: TermView,
    name: Seq<char>,
    object: TermView,
    predicate: TermView,
)
    ensures
        ({
            let pattern = PatternView {
                subject: PatternTermView::Constant(subject),
                predicate: PatternTermView::Variable(name),
                object: PatternTermView::Constant(object),
            };
            let found = evaluated(triples, pattern);
            &&& found is Bindings
            &&& forall|j: int|
                0 <= j < found->Bindings_0.len() ==> {
                    &&& (#[trigger] found->Bindings_0[j]).len() == 1
                    &&& found->Bindings_0[j][0].name == name
                }
            &&& found->Bindings_0.contains(seq![BindingView { name, term: predicate }])
                <==> triples.contains(TripleView { subject, predicate, object })
        }),
{
    let pattern = PatternView {
        subject: PatternTermView::Constant(subject),
        predicate: PatternTermView::Variable(name),
        object: PatternTermView::Constant(object),
    };
    let keep = |triple: TripleView| pattern.admits(triple);
    let admitted = matching(triples, pattern);
    let rows = solutions_of(admitted, pattern);
    let wanted = seq![BindingView { name, term: predicate }];
    let target = TripleView { subject, predicate, object };
    assert forall|j: int| 0 <= j < admitted.len() implies pattern.admits(
        #[trigger] admitted[j],
    ) && triples.contains(admitted[j]) by {
        triples.lemma_filter_pred(keep, j);
        assert(admitted.contains(admitted[j]));
        triples.lemma_filter_contains_rev(keep, admitted[j]);
    }
    assert forall|j: int| 0 <= j < rows.len() implies rows[j] =~= seq![
        BindingView { name, term: admitted[j].predicate },
    ] by {
        assert(pattern.admits(admitted[j]));
    }
    if rows.contains(wanted) {
        let j = choose|j: int| 0 <= j < rows.len() && rows[j] == wanted;
        assert(rows[j][0] == wanted[0]);
        assert(pattern.admits(admitted[j]));
        assert(admitted[j] == target);
    }
    if triples.contains(target) {
        let i = choose|i: int| 0 <= i < triples.len() && triples[i] == target;
        triples.lemma_filter_contains(keep, i);
        let j = choose|j: int| 0 <= j < admitted.len() && admitted[j] == target;
        assert(rows[j] == wanted);
    }
}

/// Every solution of a pattern binds each of the pattern's variables once,
/// and nothing else.
pub proof fn lemma_solution_names(pattern: PatternView, triple: TripleView, name: Seq<char>)
    ensures
        (exists|k: int|
            0 <= k < pattern.solution(triple).len() && (#[trigger] pattern.solution(
                triple,
            )[k]).name == name) <==> (pattern.subject.names(name) || pattern.predicate.names(name)
            || pattern.object.names(name)),
        forall|j: int, k: int|
            0 <= j < k < pattern.solution(triple).len() ==> (#[trigger] pattern.solution(
                triple,
            )[j]).name != (#[trigger] pattern.solution(triple)[k]).name,
{
    let row = pattern.solution(triple);
    if pattern.subject.names(name) {
        assert(row[0].name == name);
    } else if pattern.predicate.names(name) {
        assert(row[row.len() - 1].name == name || row[row.len() - 2].name == name);
    } else if pattern.object.names(name) {
        assert(row[row.len() - 1].name == name);
    }
}

} // verus!
