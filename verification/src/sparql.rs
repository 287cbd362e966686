//! Queries as text.
//!
//! A query is one triple pattern between braces, behind `ASK` or behind
//! `SELECT` and what it selects: `*`, or one or more variables. `WHERE` may
//! stand before the opening brace, and a `.` may stand before the closing
//! one. The three words are read in upper or lower case.
//!
//! ```text
//! SELECT ?p WHERE { <http://example.org/s> ?p "text"@en }
//! ASK { <http://example.org/s> a <http://example.org/C> . }
//! ```
//!
//! A place of the pattern holds a variable (`?name` or `$name`), an
//! identifier between `<` and `>`, a blank node `_:label`, or a quoted
//! text, bare or with `@` and a language or `^^` and a datatype between `<`
//! and `>`; the word `a` in the place of the predicate is the type
//! identifier. Between quotes a backslash stands only before one of `t`,
//! `n`, `r`, `b`, `f`, `"`, `'` and `\`, and no line ends there. No
//! variable is selected twice. Any other text is no query.
//!
//! `SELECT` gives one row for each triple that the pattern admits, in the
//! order of the store. With `*` a row holds every variable of the pattern;
//! with a list of variables it holds those of them that the pattern binds,
//! in the order of the list. `ASK` says whether the pattern admits any
//! triple.

use crate::lexer::{
    blank, decode, decoded, escape_of, escape_value, iri_end, is_blank, lemma_iri_end_bounds, lemma_quote_end_bounds,
    lemma_scan_suffix_bounds, quote_end, read_suffix, scan_iri, scan_quote, scan_suffix, Suffix,
    SuffixView,
};
use crate::query::{
    admits_any, any, evaluated, matching, row_views, solutions_of, solve, Binding, BindingView,
    Pattern, PatternTerm, PatternTermView, PatternView, Solutions, SolutionsView,
};
use crate::store::Store;
use crate::term::{LiteralKind, LiteralKindView, Term, TermView, TripleView};
use crate::text::{chars_of, lemma_views_index, lemma_views_push, slice_of, string_of, views, whole};
use crate::vocab::TYPE_IDENTIFIER;
use vstd::prelude::*;

verus! {

/// What a [`QueryToken`] stands for in contracts.
pub enum QueryTokenView {
    Word(Seq<char>),
    Variable(Seq<char>),
    Iri(Seq<char>),
    Text(Seq<char>, SuffixView),
    Star,
    Open,
    Close,
    Dot,
    Bad,
}

/// One lexical unit of a query. `Bad` stands for what is no part of any
/// query; nothing follows it.
#[derive(Debug)]
pub enum QueryToken {
    Word(Vec<char>),
    Variable(Vec<char>),
    Iri(Vec<char>),
    Text(Vec<char>, Suffix),
    Star,
    Open,
    Close,
    Dot,
    Bad,
}

impl View for QueryToken {
    type V = QueryTokenView;

    open spec fn view(&self) -> QueryTokenView {
        match self {
            QueryToken::Word(word) => QueryTokenView::Word(word@),
            QueryToken::Variable(name) => QueryTokenView::Variable(name@),
            QueryToken::Iri(name) => QueryTokenView::Iri(name@),
            QueryToken::Text(value, suffix) => QueryTokenView::Text(value@, suffix@),
            QueryToken::Star => QueryTokenView::Star,
            QueryToken::Open => QueryTokenView::Open,
            QueryToken::Close => QueryTokenView::Close,
            QueryToken::Dot => QueryTokenView::Dot,
            QueryToken::Bad => QueryTokenView::Bad,
        }
    }
}

/// What a [`Selection`] stands for in contracts.
pub enum SelectionView {
    All,
    Names(Seq<Seq<char>>),
}

/// What a [`Query`] stands for in contracts.
pub enum QueryView {
    Select(SelectionView, PatternView),
    Ask(PatternView),
}

/// What the rows of a `SELECT` hold: every variable of the pattern, or the
/// listed ones.
#[derive(Debug)]
pub enum Selection {
    All,
    Names(Vec<String>),
}

/// A query: a pattern, and what is asked of it.
#[derive(Debug)]
pub enum Query {
    Select(Selection, Pattern),
    Ask(Pattern),
}

/// A text that is no query. It comes back whole.
#[derive(Debug)]
pub struct QuerySyntaxError {
    pub fragment: String,
}

impl View for Selection {
    type V = SelectionView;

    open spec fn view(&self) -> SelectionView {
        match self {
            Selection::All => SelectionView::All,
            Selection::Names(names) => SelectionView::Names(views(names@)),
        }
    }
}

impl View for Query {
    type V = QueryView;

    open spec fn view(&self) -> QueryView {
        match self {
            Query::Select(selection, pattern) => QueryView::Select(selection@, pattern@),
            Query::Ask(pattern) => QueryView::Ask(pattern@),
        }
    }
}

/// A letter, a digit or `_`.
pub open spec fn is_name_char(c: char) -> bool {
    ('a' <= c && c <= 'z') || ('A' <= c && c <= 'Z') || ('0' <= c && c <= '9') || c == '_'
}

/// The first index from `i` on that holds no letter, digit or `_`, nor,
/// where `with_colon` is set, a `:`; at least the text's length where
/// there is none.
pub open spec fn run_end(text: Seq<char>, i: int, with_colon: bool) -> int
    decreases text.len() - i,
{
    if i >= text.len() || !(is_name_char(text[i]) || (with_colon && text[i] == ':')) {
        i
    } else {
        run_end(text, i + 1, with_colon)
    }
}

pub proof fn lemma_run_end_bounds(text: Seq<char>, i: int, with_colon: bool)
    requires
        0 <= i <= text.len(),
    ensures
        i <= run_end(text, i, with_colon) <= text.len(),
    decreases text.len() - i,
{
    if i < text.len() && (is_name_char(text[i]) || (with_colon && text[i] == ':')) {
        lemma_run_end_bounds(text, i + 1, with_colon);
    }
}

/// Whether a character cannot stand in an identifier between `<` and `>`.
pub open spec fn is_iri_stop(c: char) -> bool {
    c <= ' ' || c == '<' || c == '"' || c == '{' || c == '}' || c == '|' || c == '^' || c == '`'
        || c == '\\'
}

/// Whether `text[i..end]` holds only what can stand in an identifier.
pub open spec fn iri_clean(text: Seq<char>, i: int, end: int) -> bool
    decreases end - i,
{
    if i >= end {
        true
    } else {
        !is_iri_stop(text[i]) && iri_clean(text, i + 1, end)
    }
}

/// Whether `text[i..end]` holds only what can stand between quotes: no
/// line feed or carriage return as such, and no backslash but before one
/// of `t`, `n`, `r`, `b`, `f`, `"`, `'` and `\`.
pub open spec fn quote_clean(text: Seq<char>, i: int, end: int) -> bool
    decreases end - i,
{
    if i >= end {
        true
    } else if text[i] == '\\' {
        i + 1 < end && escape_value(text[i + 1]) is Some && quote_clean(text, i + 2, end)
    } else {
        text[i] != '\n' && text[i] != '\r' && quote_clean(text, i + 1, end)
    }
}

/// The tokens of a query text from index `i` on.
pub open spec fn query_tokens_from(text: Seq<char>, i: int) -> Seq<QueryTokenView>
    decreases text.len() - i,
{
    if i < 0 || i >= text.len() {
        Seq::empty()
    } else if is_blank(text[i]) {
        query_tokens_from(text, i + 1)
    } else if text[i] == '{' {
        seq![QueryTokenView::Open] + query_tokens_from(text, i + 1)
    } else if text[i] == '}' {
        seq![QueryTokenView::Close] + query_tokens_from(text, i + 1)
    } else if text[i] == '*' {
        seq![QueryTokenView::Star] + query_tokens_from(text, i + 1)
    } else if text[i] == '.' {
        seq![QueryTokenView::Dot] + query_tokens_from(text, i + 1)
    } else if text[i] == '<' {
        let close = iri_end(text, i + 1);
        if close >= text.len() || !iri_clean(text, i + 1, close) {
            seq![QueryTokenView::Bad]
        } else {
            proof {
                lemma_iri_end_bounds(text, i + 1);
            }
            seq![QueryTokenView::Iri(text.subrange(i + 1, close))] + query_tokens_from(
                text,
                close + 1,
            )
        }
    } else if text[i] == '"' {
        let close = quote_end(text, i + 1);
        if close >= text.len() || !quote_clean(text, i + 1, close) {
            seq![QueryTokenView::Bad]
        } else {
            let scan = scan_suffix(text, close + 1);
            if scan.broken {
                seq![QueryTokenView::Bad]
            } else {
                proof {
                    lemma_quote_end_bounds(text, i + 1);
                    lemma_scan_suffix_bounds(text, close + 1);
                }
                seq![QueryTokenView::Text(decoded(text, i + 1, close), scan.suffix)] + (
                if scan.dot {
                    seq![QueryTokenView::Dot]
                } else {
                    Seq::empty()
                }) + query_tokens_from(text, scan.next)
            }
        }
    } else if text[i] == '?' || text[i] == '$' {
        let end = run_end(text, i + 1, false);
        if end <= i + 1 {
            seq![QueryTokenView::Bad]
        } else {
            proof {
                lemma_run_end_bounds(text, i + 1, false);
            }
            seq![QueryTokenView::Variable(text.subrange(i + 1, end))] + query_tokens_from(
                text,
                end,
            )
        }
    } else if is_name_char(text[i]) || text[i] == ':' {
        let end = run_end(text, i + 1, true);
        proof {
            lemma_run_end_bounds(text, i + 1, true);
        }
        seq![QueryTokenView::Word(text.subrange(i, end))] + query_tokens_from(text, end)
    } else {
        seq![QueryTokenView::Bad]
    }
}

/// The tokens of a query text.
pub open spec fn query_tokens(text: Seq<char>) -> Seq<QueryTokenView> {
    query_tokens_from(text, 0)
}

/// Whether `c` is the letter given in lower and in upper case.
pub open spec fn is_letter(c: char, lower: char, upper: char) -> bool {
    c == lower || c == upper
}

pub open spec fn is_select(word: Seq<char>) -> bool {
    &&& word.len() == 6
    &&& is_letter(word[0], 's', 'S')
    &&& is_letter(word[1], 'e', 'E')
    &&& is_letter(word[2], 'l', 'L')
    &&& is_letter(word[3], 'e', 'E')
    &&& is_letter(word[4], 'c', 'C')
    &&& is_letter(word[5], 't', 'T')
}

pub open spec fn is_where(word: Seq<char>) -> bool {
    &&& word.len() == 5
    &&& is_letter(word[0], 'w', 'W')
    &&& is_letter(word[1], 'h', 'H')
    &&& is_letter(word[2], 'e', 'E')
    &&& is_letter(word[3], 'r', 'R')
    &&& is_letter(word[4], 'e', 'E')
}

pub open spec fn is_ask(word: Seq<char>) -> bool {
    &&& word.len() == 3
    &&& is_letter(word[0], 'a', 'A')
    &&& is_letter(word[1], 's', 'S')
    &&& is_letter(word[2], 'k', 'K')
}

/// What a token stands for in a place of the pattern, where it can stand there.
pub open spec fn token_slot(token: QueryTokenView, as_predicate: bool) -> Option<PatternTermView> {
    match token {
        QueryTokenView::Variable(name) => Some(PatternTermView::Variable(name)),
        QueryTokenView::Iri(name) => Some(PatternTermView::Constant(TermView::Identifier(name))),
        QueryTokenView::Text(value, SuffixView::Bare) => Some(
            PatternTermView::Constant(TermView::Literal(value, LiteralKindView::Plain)),
        ),
        QueryTokenView::Text(value, SuffixView::Language(tag)) => Some(
            PatternTermView::Constant(TermView::Literal(value, LiteralKindView::Language(tag))),
        ),
        QueryTokenView::Text(value, SuffixView::TypeIri(name)) => Some(
            PatternTermView::Constant(TermView::Literal(value, LiteralKindView::Typed(name))),
        ),
        QueryTokenView::Word(word) => if word.len() > 2 && word[0] == '_' && word[1] == ':' {
            Some(PatternTermView::Constant(TermView::BlankNode(word.skip(2))))
        } else if as_predicate && word.len() == 1 && word[0] == 'a' {
            Some(PatternTermView::Constant(TermView::Identifier(TYPE_IDENTIFIER@)))
        } else {
            None
        },
        _ => None,
    }
}

/// Whether the tokens end at index `k` with `}` or with `.` and `}`.
pub open spec fn closes(tokens: Seq<QueryTokenView>, k: int) -> bool {
    ||| tokens.len() == k + 1 && tokens[k] is Close
    ||| tokens.len() == k + 2 && tokens[k] is Dot && tokens[k + 1] is Close
}

/// The pattern between braces that begins at index `j` and ends the tokens.
pub open spec fn group(tokens: Seq<QueryTokenView>, j: int) -> Option<PatternView> {
    if 0 <= j && j + 4 < tokens.len() && tokens[j] is Open && closes(tokens, j + 4) {
        match (
            token_slot(tokens[j + 1], false),
            token_slot(tokens[j + 2], true),
            token_slot(tokens[j + 3], false),
        ) {
            (Some(subject), Some(predicate), Some(object)) => Some(
                PatternView { subject, predicate, object },
            ),
            _ => None,
        }
    } else {
        None
    }
}

/// The first index from `i` on that holds no variable.
pub open spec fn variables_end(tokens: Seq<QueryTokenView>, i: int) -> int
    decreases tokens.len() - i,
{
    if i < 0 || i >= tokens.len() || !(tokens[i] is Variable) {
        i
    } else {
        variables_end(tokens, i + 1)
    }
}

/// The names of the variables at the indices from `from` up to `to`.
pub open spec fn variable_names(tokens: Seq<QueryTokenView>, from: int, to: int) -> Seq<Seq<char>> {
    Seq::new((to - from) as nat, |k: int| tokens[from + k]->Variable_0)
}

/// What stands behind `SELECT`, and the index behind it: `*`, or one or
/// more variables, none of them twice.
pub open spec fn selection_of(tokens: Seq<QueryTokenView>) -> Option<(SelectionView, int)> {
    if tokens.len() > 1 && tokens[1] is Star {
        Some((SelectionView::All, 2))
    } else {
        let end = variables_end(tokens, 1);
        if end > 1 && variable_names(tokens, 1, end).no_duplicates() {
            Some((SelectionView::Names(variable_names(tokens, 1, end)), end))
        } else {
            None
        }
    }
}

/// The index behind `WHERE` where that stands at index `j`, else `j`.
pub open spec fn after_where(tokens: Seq<QueryTokenView>, j: int) -> int {
    if 0 <= j < tokens.len() && tokens[j] is Word && is_where(tokens[j]->Word_0) {
        j + 1
    } else {
        j
    }
}

/// The query that the tokens spell, where they spell one.
pub open spec fn tokens_query(tokens: Seq<QueryTokenView>) -> Option<QueryView> {
    if tokens.len() == 0 {
        None
    } else {
        match tokens[0] {
            QueryTokenView::Word(word) if is_select(word) => match selection_of(tokens) {
                Some((selection, next)) => match group(tokens, after_where(tokens, next)) {
                    Some(pattern) => Some(QueryView::Select(selection, pattern)),
                    None => None,
                },
                None => None,
            },
            QueryTokenView::Word(word) if is_ask(word) => match group(
                tokens,
                after_where(tokens, 1),
            ) {
                Some(pattern) => Some(QueryView::Ask(pattern)),
                None => None,
            },
            _ => None,
        }
    }
}

/// The query that a text spells, where it spells one.
pub open spec fn text_query(text: Seq<char>) -> Option<QueryView> {
    tokens_query(query_tokens(text))
}

/// The bindings of a row that bind `name`.
pub open spec fn bound_in(row: Seq<BindingView>, name: Seq<char>) -> Seq<BindingView> {
    row.filter(|binding: BindingView| binding.name == name)
}

/// The bindings of a row for each of `names`, in the order of `names`.
pub open spec fn projected(row: Seq<BindingView>, names: Seq<Seq<char>>) -> Seq<BindingView>
    decreases names.len(),
{
    if names.len() == 0 {
        Seq::empty()
    } else {
        projected(row, names.drop_last()) + bound_in(row, names.last())
    }
}

/// The rows as the selection shows them.
pub open spec fn selected(rows: Seq<Seq<BindingView>>, selection: SelectionView) -> Seq<
    Seq<BindingView>,
> {
    match selection {
        SelectionView::All => rows,
        SelectionView::Names(names) => rows.map_values(
            |row: Seq<BindingView>| projected(row, names),
        ),
    }
}

/// What a query gives on the triples of a store.
pub open spec fn answered(triples: Seq<TripleView>, query: QueryView) -> SolutionsView {
    match query {
        QueryView::Select(selection, pattern) => SolutionsView::Bindings(
            selected(solutions_of(matching(triples, pattern), pattern), selection),
        ),
        QueryView::Ask(pattern) => SolutionsView::Boolean(admits_any(triples, pattern)),
    }
}

fn name_char(c: char) -> (yes: bool)
    ensures
        yes == is_name_char(c),
{
    ('a' <= c && c <= 'z') || ('A' <= c && c <= 'Z') || ('0' <= c && c <= '9') || c == '_'
}

fn scan_run(text: &Vec<char>, i: usize, with_colon: bool) -> (end: usize)
    requires
        i <= text.len(),
    ensures
        end == run_end(text@, i as int, with_colon),
        i <= end <= text.len(),
{
    let mut j: usize = i;
    while j < text.len() && (name_char(text[j]) || (with_colon && text[j] == ':'))
        invariant
            i <= j <= text.len(),
            run_end(text@, j as int, with_colon) == run_end(text@, i as int, with_colon),
        decreases text.len() - j,
    {
        j += 1;
    }
    j
}

fn iri_stop(c: char) -> (yes: bool)
    ensures
        yes == is_iri_stop(c),
{
    c <= ' ' || c == '<' || c == '"' || c == '{' || c == '}' || c == '|' || c == '^' || c == '`'
        || c == '\\'
}

fn check_iri(text: &Vec<char>, from: usize, end: usize) -> (clean: bool)
    requires
        from <= end <= text.len(),
    ensures
        clean == iri_clean(text@, from as int, end as int),
{
    let mut i: usize = from;
    while i < end
        invariant
            from <= i <= end <= text.len(),
            iri_clean(text@, i as int, end as int) == iri_clean(text@, from as int, end as int),
        decreases end - i,
    {
        if iri_stop(text[i]) {
            return false;
        }
        i += 1;
    }
    true
}

fn check_quote(text: &Vec<char>, from: usize, end: usize) -> (clean: bool)
    requires
        from <= end <= text.len(),
    ensures
        clean == quote_clean(text@, from as int, end as int),
{
    let mut i: usize = from;
    while i < end
        invariant
            from <= i <= end <= text.len(),
            quote_clean(text@, i as int, end as int) == quote_clean(
                text@,
                from as int,
                end as int,
            ),
        decreases end - i,
    {
        if text[i] == '\\' {
            if i + 1 >= end {
                return false;
            }
            if escape_of(text[i + 1]).is_none() {
                return false;
            }
            i += 2;
        } else {
            if text[i] == '\n' || text[i] == '\r' {
                return false;
            }
            i += 1;
        }
    }
    true
}

/// Splits a query text into its tokens.
pub fn lex_query(text: &Vec<char>) -> (tokens: Vec<QueryToken>)
    ensures
        views(tokens@) == query_tokens(text@),
{
    let n = text.len();
    let mut tokens: Vec<QueryToken> = Vec::new();
    let mut i: usize = 0;
    assert(views(tokens@) + query_tokens_from(text@, 0) =~= query_tokens_from(text@, 0));
    while i < n
        invariant
            i <= n == text.len(),
            views(tokens@) + query_tokens_from(text@, i as int) == query_tokens_from(text@, 0),
        decreases n - i,
    {
        let ghost before = tokens@;
        let ghost rest = query_tokens_from(text@, i as int);
        let c = text[i];
        if blank(c) {
            i += 1;
        } else if c == '{' {
            tokens.push(QueryToken::Open);
            i += 1;
        } else if c == '}' {
            tokens.push(QueryToken::Close);
            i += 1;
        } else if c == '*' {
            tokens.push(QueryToken::Star);
            i += 1;
        } else if c == '.' {
            tokens.push(QueryToken::Dot);
            i += 1;
        } else if c == '<' {
            let close = scan_iri(text, i + 1);
            if close >= n || !check_iri(text, i + 1, close) {
                tokens.push(QueryToken::Bad);
                i = n;
            } else {
                tokens.push(QueryToken::Iri(slice_of(text, i + 1, close)));
                i = close + 1;
            }
        } else if c == '"' {
            let close = scan_quote(text, i + 1);
            if close >= n || !check_quote(text, i + 1, close) {
                tokens.push(QueryToken::Bad);
                i = n;
            } else {
                let (suffix, dot, next, broken) = read_suffix(text, close + 1);
                if broken {
                    tokens.push(QueryToken::Bad);
                    i = n;
                } else {
                    tokens.push(QueryToken::Text(decode(text, i + 1, close), suffix));
                    proof {
                        lemma_views_push(before, tokens@.last());
                    }
                    if dot {
                        let ghost middle = tokens@;
                        tokens.push(QueryToken::Dot);
                        proof {
                            lemma_views_push(middle, tokens@.last());
                        }
                    }
                    i = next;
                }
            }
        } else if c == '?' || c == '$' {
            let end = scan_run(text, i + 1, false);
            if end <= i + 1 {
                tokens.push(QueryToken::Bad);
                i = n;
            } else {
                tokens.push(QueryToken::Variable(slice_of(text, i + 1, end)));
                i = end;
            }
        } else if name_char(c) || c == ':' {
            let end = scan_run(text, i + 1, true);
            tokens.push(QueryToken::Word(slice_of(text, i, end)));
            i = end;
        } else {
            tokens.push(QueryToken::Bad);
            i = n;
        }
        proof {
            if tokens@.len() == before.len() + 1 {
                lemma_views_push(before, tokens@.last());
            }
            assert(views(tokens@) + query_tokens_from(text@, i as int) =~= views(before) + rest);
        }
    }
    assert(views(tokens@) + query_tokens_from(text@, i as int) =~= views(tokens@));
    tokens
}

fn letter(c: char, lower: char, upper: char) -> (yes: bool)
    ensures
        yes == is_letter(c, lower, upper),
{
    c == lower || c == upper
}

fn spells_select(word: &Vec<char>) -> (yes: bool)
    ensures
        yes == is_select(word@),
{
    word.len() == 6 && letter(word[0], 's', 'S') && letter(word[1], 'e', 'E') && letter(
        word[2],
        'l',
        'L',
    ) && letter(word[3], 'e', 'E') && letter(word[4], 'c', 'C') && letter(word[5], 't', 'T')
}

fn spells_where(word: &Vec<char>) -> (yes: bool)
    ensures
        yes == is_where(word@),
{
    word.len() == 5 && letter(word[0], 'w', 'W') && letter(word[1], 'h', 'H') && letter(
        word[2],
        'e',
        'E',
    ) && letter(word[3], 'r', 'R') && letter(word[4], 'e', 'E')
}

fn spells_ask(word: &Vec<char>) -> (yes: bool)
    ensures
        yes == is_ask(word@),
{
    word.len() == 3 && letter(word[0], 'a', 'A') && letter(word[1], 's', 'S') && letter(
        word[2],
        'k',
        'K',
    )
}

fn slot_of(token: &QueryToken, as_predicate: bool) -> (slot: Option<PatternTerm>)
    ensures
        match slot {
            Some(made) => token_slot(token@, as_predicate) == Some(made@),
            None => token_slot(token@, as_predicate) is None,
        },
{
    match token {
        QueryToken::Variable(name) => Some(PatternTerm::Variable(whole(name))),
        QueryToken::Iri(name) => Some(PatternTerm::Constant(Term::Identifier(whole(name)))),
        QueryToken::Text(value, suffix) => match suffix {
            Suffix::Bare => Some(
                PatternTerm::Constant(Term::Literal(whole(value), LiteralKind::Plain)),
            ),
            Suffix::Language(tag) => Some(
                PatternTerm::Constant(
                    Term::Literal(whole(value), LiteralKind::Language(whole(tag))),
                ),
            ),
            Suffix::TypeIri(name) => Some(
                PatternTerm::Constant(Term::Literal(whole(value), LiteralKind::Typed(whole(name)))),
            ),
            Suffix::TypeName(_) => None,
        },
        QueryToken::Word(word) => {
            if word.len() > 2 && word[0] == '_' && word[1] == ':' {
                assert(word@.skip(2) =~= word@.subrange(2, word.len() as int));
                Some(PatternTerm::Constant(Term::BlankNode(string_of(word, 2, word.len()))))
            } else if as_predicate && word.len() == 1 && word[0] == 'a' {
                Some(PatternTerm::Constant(Term::Identifier(TYPE_IDENTIFIER.to_owned())))
            } else {
                None
            }
        },
        _ => None,
    }
}

fn group_of(tokens: &Vec<QueryToken>, j: usize) -> (pattern: Option<Pattern>)
    ensures
        match pattern {
            Some(made) => group(views(tokens@), j as int) == Some(made@),
            None => group(views(tokens@), j as int) is None,
        },
{
    proof {
        lemma_views_index(tokens@);
    }
    let n = tokens.len();
    if n < 5 || j > n - 5 {
        return None;
    }
    let opened = match &tokens[j] {
        QueryToken::Open => true,
        _ => false,
    };
    let closed = match &tokens[j + 4] {
        QueryToken::Close => n - j == 5,
        QueryToken::Dot => n - j == 6 && match &tokens[j + 5] {
            QueryToken::Close => true,
            _ => false,
        },
        _ => false,
    };
    if !opened || !closed {
        return None;
    }
    if let Some(subject) = slot_of(&tokens[j + 1], false) {
        if let Some(predicate) = slot_of(&tokens[j + 2], true) {
            if let Some(object) = slot_of(&tokens[j + 3], false) {
                return Some(Pattern { subject, predicate, object });
            }
        }
    }
    None
}

fn is_variable(token: &QueryToken) -> (yes: bool)
    ensures
        yes == (token@ is Variable),
{
    match token {
        QueryToken::Variable(_) => true,
        _ => false,
    }
}

fn distinct(names: &Vec<String>) -> (yes: bool)
    ensures
        yes == views(names@).no_duplicates(),
{
    proof {
        lemma_views_index(names@);
    }
    let mut i: usize = 0;
    while i < names.len()
        invariant
            i <= names.len(),
            views(names@).len() == names.len(),
            forall|k: int| 0 <= k < names.len() ==> views(names@)[k] == (#[trigger] names[k])@,
            forall|a: int, b: int| 0 <= a < b < i ==> names[a]@ != names[b]@,
        decreases names.len() - i,
    {
        let mut j: usize = 0;
        while j < i
            invariant
                j <= i < names.len(),
                views(names@).len() == names.len(),
                forall|k: int|
                    0 <= k < names.len() ==> views(names@)[k] == (#[trigger] names[k])@,
                forall|a: int| 0 <= a < j ==> names[a]@ != names[i as int]@,
            decreases i - j,
        {
            if names[j] == names[i] {
                assert(views(names@)[j as int] == views(names@)[i as int]);
                return false;
            }
            j += 1;
        }
        i += 1;
    }
    assert forall|a: int, b: int|
        0 <= a < names.len() && 0 <= b < names.len() && a != b implies views(names@)[a] != views(
        names@,
    )[b] by {
        if a < b {
            assert(names[a]@ != names[b]@);
        } else {
            assert(names[b]@ != names[a]@);
        }
    }
    true
}

fn selection_from(tokens: &Vec<QueryToken>) -> (found: Option<(Selection, usize)>)
    ensures
        match found {
            Some((selection, next)) => selection_of(views(tokens@)) == Some((selection@, next as int))
                && next <= tokens.len(),
            None => selection_of(views(tokens@)) is None,
        },
{
    proof {
        lemma_views_index(tokens@);
    }
    let starred = tokens.len() > 1 && match &tokens[1] {
        QueryToken::Star => true,
        _ => false,
    };
    if starred {
        return Some((Selection::All, 2));
    }
    if tokens.len() == 0 {
        return None;
    }
    let mut names: Vec<String> = Vec::new();
    let mut end: usize = 1;
    assert(views(names@) =~= variable_names(views(tokens@), 1, 1));
    while end < tokens.len() && is_variable(&tokens[end])
        invariant
            1 <= end <= tokens.len(),
            forall|i: int|
                0 <= i < tokens.len() ==> views(tokens@)[i] == (#[trigger] tokens[i])@,
            views(tokens@).len() == tokens.len(),
            variables_end(views(tokens@), end as int) == variables_end(views(tokens@), 1),
            views(names@) == variable_names(views(tokens@), 1, end as int),
        decreases tokens.len() - end,
    {
        if let QueryToken::Variable(name) = &tokens[end] {
            let ghost before = names@;
            names.push(whole(name));
            proof {
                lemma_views_push(before, names@.last());
                assert(views(names@) =~= variable_names(views(tokens@), 1, end + 1));
            }
        }
        end += 1;
    }
    if end > 1 && distinct(&names) {
        Some((Selection::Names(names), end))
    } else {
        None
    }
}

fn skip_where(tokens: &Vec<QueryToken>, j: usize) -> (next: usize)
    requires
        j <= tokens.len(),
    ensures
        next == after_where(views(tokens@), j as int),
{
    proof {
        lemma_views_index(tokens@);
    }
    if j < tokens.len() {
        if let QueryToken::Word(word) = &tokens[j] {
            if spells_where(word) {
                return j + 1;
            }
        }
    }
    j
}

fn query_of(tokens: &Vec<QueryToken>) -> (query: Option<Query>)
    ensures
        match query {
            Some(made) => tokens_query(views(tokens@)) == Some(made@),
            None => tokens_query(views(tokens@)) is None,
        },
{
    proof {
        lemma_views_index(tokens@);
    }
    if tokens.len() == 0 {
        return None;
    }
    if let QueryToken::Word(word) = &tokens[0] {
        if spells_select(word) {
            if let Some((selection, next)) = selection_from(tokens) {
                if let Some(pattern) = group_of(tokens, skip_where(tokens, next)) {
                    return Some(Query::Select(selection, pattern));
                }
            }
            return None;
        }
        if spells_ask(word) {
            if let Some(pattern) = group_of(tokens, skip_where(tokens, 1)) {
                return Some(Query::Ask(pattern));
            }
            return None;
        }
    }
    None
}

/// Reads a query from text. A text that is no query comes back whole in
/// the error.
pub fn parse_query(text: &str) -> (outcome: Result<Query, QuerySyntaxError>)
    ensures
        match outcome {
            Ok(query) => text_query(text@) == Some(query@),
            Err(error) => text_query(text@) is None && error.fragment@ == text@,
        },
{
    let chars = chars_of(text);
    let tokens = lex_query(&chars);
    match query_of(&tokens) {
        Some(query) => Ok(query),
        None => Err(QuerySyntaxError { fragment: text.to_owned() }),
    }
}

fn project(row: &Vec<Binding>, names: &Vec<String>) -> (kept: Vec<Binding>)
    ensures
        views(kept@) == projected(views(row@), views(names@)),
{
    let mut kept: Vec<Binding> = Vec::new();
    let mut n: usize = 0;
    proof {
        lemma_views_index(row@);
        lemma_views_index(names@);
        reveal(Seq::filter);
    }
    assert(views(kept@) =~= projected(views(row@), views(names@).take(0)));
    while n < names.len()
        invariant
            n <= names.len(),
            views(kept@) == projected(views(row@), views(names@).take(n as int)),
        decreases names.len() - n,
    {
        let ghost base = views(kept@);
        let ghost name = names[n as int]@;
        let mut k: usize = 0;
        assert(views(kept@) =~= base + bound_in(views(row@).take(0), name)) by {
            reveal(Seq::filter);
        }
        while k < row.len()
            invariant
                k <= row.len(),
                n < names.len(),
                name == names[n as int]@,
                views(kept@) == base + bound_in(views(row@).take(k as int), name),
            decreases row.len() - k,
        {
            let ghost before = kept@;
            let ghost seen = views(row@).take(k as int);
            proof {
                lemma_views_index(row@);
                assert(views(row@).take(k + 1) =~= seen.push(row[k as int]@));
                seen.lemma_filter_push(row[k as int]@, |binding: BindingView| binding.name == name);
            }
            if row[k].name == names[n] {
                kept.push(Binding { name: row[k].name.clone(), term: row[k].term.clone() });
                proof {
                    lemma_views_push(before, kept@.last());
                    assert(views(kept@) =~= base + bound_in(seen, name).push(row[k as int]@));
                }
            }
            k += 1;
        }
        proof {
            lemma_views_index(names@);
            assert(views(row@).take(k as int) =~= views(row@));
            assert(views(names@).take(n + 1).drop_last() =~= views(names@).take(n as int));
            assert(views(names@).take(n + 1).last() == name);
        }
        n += 1;
    }
    assert(views(names@).take(n as int) =~= views(names@));
    kept
}

/// Answers `query` on the triples of `store`.
pub fn answer(store: &Store, query: &Query) -> (found: Solutions)
    ensures
        found@ == answered(store@, query@),
{
    match query {
        Query::Ask(pattern) => Solutions::Boolean(any(store, pattern)),
        Query::Select(selection, pattern) => {
            let rows = solve(store, pattern);
            match selection {
                Selection::All => Solutions::Bindings(rows),
                Selection::Names(names) => {
                    let ghost wanted = selected(row_views(rows@), selection@);
                    let mut shown: Vec<Vec<Binding>> = Vec::new();
                    let mut k: usize = 0;
                    assert(row_views(shown@) =~= wanted.take(0));
                    while k < rows.len()
                        invariant
                            k <= rows.len(),
                            wanted == selected(
                                row_views(rows@),
                                SelectionView::Names(views(names@)),
                            ),
                            row_views(shown@) == wanted.take(k as int),
                        decreases rows.len() - k,
                    {
                        let ghost before = shown@;
                        let kept = project(&rows[k], names);
                        shown.push(kept);
                        proof {
                            assert(row_views(shown@) =~= row_views(before).push(views(kept@)));
                            assert(wanted[k as int] == projected(
                                row_views(rows@)[k as int],
                                views(names@),
                            ));
                            assert(wanted.take(k + 1) =~= wanted.take(k as int).push(
                                wanted[k as int],
                            ));
                        }
                        k += 1;
                    }
                    assert(wanted.take(k as int) =~= wanted);
                    Solutions::Bindings(shown)
                },
            }
        },
    }
}

/// On an empty store `SELECT` gives no row and `ASK` gives `false`.
pub proof fn lemma_empty_store_answers(query: QueryView)
    ensures
        answered(Seq::empty(), query) == match query {
            QueryView::Select(_, _) => SolutionsView::Bindings(Seq::empty()),
            QueryView::Ask(_) => SolutionsView::Boolean(false),
        },
{
    reveal(Seq::filter);
    match query {
        QueryView::Select(selection, pattern) => {
            assert(matching(Seq::empty(), pattern) =~= Seq::empty());
            assert(solutions_of(Seq::empty(), pattern) =~= Seq::empty());
            assert(selected(Seq::empty(), selection) =~= Seq::empty());
        },
        QueryView::Ask(_) => {},
    }
}

/// `SELECT *` gives the solutions of the pattern as they are, and `ASK`
/// on a pattern without variable gives what the pattern gives.
pub proof fn lemma_answers_of_pattern(triples: Seq<TripleView>, pattern: PatternView)
    ensures
        pattern.has_variable() ==> answered(
            triples,
            QueryView::Select(SelectionView::All, pattern),
        ) == evaluated(triples, pattern),
        !pattern.has_variable() ==> answered(triples, QueryView::Ask(pattern))
            == evaluated(triples, pattern),
{
}

/// A `SELECT` of the one variable that stands as predicate between a
/// subject and an object gives the solutions of that pattern as they are:
/// one row for each predicate that joins the two in the store.
pub proof fn lemma_select_predicate_variable(
    triples: Seq<TripleView>,
    subject: TermView,
    name: Seq<char>,
    object: TermView,
)
    ensures
        ({
            let pattern = PatternView {
                subject: PatternTermView::Constant(subject),
                predicate: PatternTermView::Variable(name),
                object: PatternTermView::Constant(object),
            };
            answered(triples, QueryView::Select(SelectionView::Names(seq![name]), pattern))
                == evaluated(triples, pattern)
        }),
{
    let pattern = PatternView {
        subject: PatternTermView::Constant(subject),
        predicate: PatternTermView::Variable(name),
        object: PatternTermView::Constant(object),
    };
    let rows = solutions_of(matching(triples, pattern), pattern);
    let names = seq![name];
    assert forall|j: int| 0 <= j < rows.len() implies projected(#[trigger] rows[j], names)
        == rows[j] by {
        let row = rows[j];
        reveal_with_fuel(Seq::filter, 3);
        assert(names.drop_last() =~= Seq::empty());
        assert(projected(row, names.drop_last()) =~= Seq::empty());
        assert(row =~= seq![row[0]]);
        assert(row.drop_last() =~= Seq::empty());
        assert(bound_in(row, name) =~= row);
        assert(projected(row, names) =~= row);
    }
    assert(selected(rows, SelectionView::Names(names)) =~= rows);
}

} // verus!
