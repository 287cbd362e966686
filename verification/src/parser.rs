//! Reading statements from text.
//!
//! The text is read line by line, each line as its tokens. A statement is a
//! subject followed by groups of a predicate and its objects; `,` separates
//! the objects of one predicate, `;` the groups, and `.` ends the statement.
//! A statement may run over several lines where each of them ends after a
//! `;` or a `,`. A line that ends after an object ends the statement as a
//! `.` would, so a line of three bare terms is a statement too; what stands
//! on such a line after the object and before any separator is passed over.
//!
//! `@prefix label: <namespace> .` on one line binds a label. A word
//! `label:local` whose label is bound reads as the identifier made of the
//! namespace and the local part; any other word reads as the identifier it
//! spells. A word that begins with `_:` is a blank node, and the word `a` in
//! the place of a predicate is the type identifier.
//!
//! A statement that cannot be read is left out as a whole, with a warning
//! that names the line on which reading failed. A prefix declaration that
//! cannot be read makes the whole text unreadable.

use crate::lexer::{lex, lex_line, Suffix, SuffixView, Token, TokenView};
use crate::term::{LiteralKind, LiteralKindView, Term, TermView, Triple, TripleView};
use crate::vocab::TYPE_IDENTIFIER;
use crate::text::{append_chars, chars_of, lemma_views_push, string_of, views, whole};
use vstd::hash_map::StringHashMap;
use vstd::prelude::*;

verus! {

/// Why a statement was left out.
#[derive(Clone, Copy, Debug, PartialEq, Eq, Structural)]
pub enum Problem {
    /// The statement ended before it had a subject, a predicate and an object.
    MissingTerms,
    /// Quoting was opened and not closed on the same line.
    BrokenQuoting,
    /// A literal stands as subject, or something other than an identifier as predicate.
    MisplacedTerm,
    /// A `;` or `,` stands where no group or object came before it.
    MisplacedSeparator,
}

/// A statement that was left out, and the line on which reading it failed.
#[derive(Clone, Copy, Debug, PartialEq, Eq, Structural)]
pub struct ParseWarning {
    pub line: usize,
    pub problem: Problem,
}

/// A prefix declaration that could not be read, and its line.
#[derive(Clone, Copy, Debug, PartialEq, Eq, Structural)]
pub struct ParseFatal {
    pub line: usize,
}

/// Where the reader stands within a statement.
pub enum ModeView {
    /// Between statements.
    Idle,
    /// A subject is there and a predicate is due. The flag says that a
    /// `;` came last, so that the line may end here.
    NeedPredicate(TermView, bool),
    /// Subject and predicate are there and an object is due. The flag says
    /// that a `,` came last, so that the line may end here.
    NeedObject(TermView, TermView, bool),
    /// An object came last.
    Complete(TermView, TermView),
    /// `@prefix` came last.
    PrefixLabel,
    /// `@prefix` and a label came last.
    PrefixNamespace(Seq<char>),
    /// `@prefix`, a label and a namespace came last.
    PrefixClose(Seq<char>, Seq<char>),
    /// The rest of a statement that could not be read is passed over. The
    /// flag says that a `;` or `,` came last.
    Skipping(bool),
    /// A prefix declaration on the given line could not be read.
    Fatal(usize),
}

/// The reader's state between two tokens.
pub struct ReaderView {
    pub mode: ModeView,
    pub prefixes: Map<Seq<char>, Seq<char>>,
    /// The triples of the statement that is being read.
    pub pending: Seq<TripleView>,
    /// The triples of the statements that were read.
    pub triples: Seq<TripleView>,
    pub warnings: Seq<ParseWarning>,
}

/// The first index from `i` on that holds `:`; at least the word's length
/// where there is none.
pub open spec fn colon_at(word: Seq<char>, i: int) -> int
    decreases word.len() - i,
{
    if i >= word.len() || word[i] == ':' {
        i
    } else {
        colon_at(word, i + 1)
    }
}

/// The identifier that a word spells: namespace and local part where the
/// word is `label:local` and the label is bound, else the word itself.
pub open spec fn expanded(word: Seq<char>, prefixes: Map<Seq<char>, Seq<char>>) -> Seq<char> {
    let colon = colon_at(word, 0);
    if colon < word.len() && prefixes.contains_key(word.take(colon)) {
        prefixes[word.take(colon)] + word.skip(colon + 1)
    } else {
        word
    }
}

pub open spec fn is_blank_label(word: Seq<char>) -> bool {
    word.len() >= 2 && word[0] == '_' && word[1] == ':'
}

pub open spec fn is_type_keyword(word: Seq<char>) -> bool {
    word.len() == 1 && word[0] == 'a'
}

pub open spec fn is_prefix_keyword(word: Seq<char>) -> bool {
    word =~= seq!['@', 'p', 'r', 'e', 'f', 'i', 'x']
}

/// The term that a word stands for.
pub open spec fn word_term(
    word: Seq<char>,
    prefixes: Map<Seq<char>, Seq<char>>,
    as_predicate: bool,
) -> TermView {
    if is_blank_label(word) {
        TermView::BlankNode(word.skip(2))
    } else if as_predicate && is_type_keyword(word) {
        TermView::Identifier(TYPE_IDENTIFIER@)
    } else {
        TermView::Identifier(expanded(word, prefixes))
    }
}

/// The kind of literal that a suffix makes.
pub open spec fn suffix_kind(
    suffix: SuffixView,
    prefixes: Map<Seq<char>, Seq<char>>,
) -> LiteralKindView {
    match suffix {
        SuffixView::Bare => LiteralKindView::Plain,
        SuffixView::Language(tag) => LiteralKindView::Language(tag),
        SuffixView::TypeIri(name) => LiteralKindView::Typed(name),
        SuffixView::TypeName(word) => LiteralKindView::Typed(expanded(word, prefixes)),
    }
}

/// The term that a token stands for; none for `.`, `;`, `,` and broken quoting.
pub open spec fn token_term(
    token: TokenView,
    prefixes: Map<Seq<char>, Seq<char>>,
    as_predicate: bool,
) -> Option<TermView> {
    match token {
        TokenView::Iri(name) => Some(TermView::Identifier(name)),
        TokenView::Name(word) => Some(word_term(word, prefixes, as_predicate)),
        TokenView::Text(value, suffix) => Some(
            TermView::Literal(value, suffix_kind(suffix, prefixes)),
        ),
        _ => None,
    }
}

impl ReaderView {
    /// The state before the first token.
    pub open spec fn start() -> ReaderView {
        ReaderView {
            mode: ModeView::Idle,
            prefixes: Map::empty(),
            pending: Seq::empty(),
            triples: Seq::empty(),
            warnings: Seq::empty(),
        }
    }

    /// Subjects are no literals and predicates are identifiers.
    pub open spec fn wf(self) -> bool {
        match self.mode {
            ModeView::NeedPredicate(subject, _) => !(subject is Literal),
            ModeView::NeedObject(subject, predicate, _) => !(subject is Literal)
                && predicate is Identifier,
            ModeView::Complete(subject, predicate) => !(subject is Literal)
                && predicate is Identifier,
            _ => true,
        }
    }

    pub open spec fn go(self, mode: ModeView) -> ReaderView {
        ReaderView { mode, ..self }
    }

    /// The statement that is being read cannot be read: its triples are
    /// dropped and a warning is recorded.
    pub open spec fn reject(self, line: usize, problem: Problem, mode: ModeView) -> ReaderView {
        ReaderView {
            mode,
            pending: Seq::empty(),
            warnings: self.warnings.push(ParseWarning { line, problem }),
            ..self
        }
    }

    /// The statement that is being read ends: its triples are kept.
    pub open spec fn commit(self) -> ReaderView {
        ReaderView {
            mode: ModeView::Idle,
            pending: Seq::empty(),
            triples: self.triples + self.pending,
            ..self
        }
    }

    /// A token that cannot stand where it stands: which problem it makes,
    /// and how the rest of the statement is passed over.
    pub open spec fn refuse(self, token: TokenView, line: usize) -> ReaderView {
        match token {
            TokenView::Dot => self.reject(line, Problem::MissingTerms, ModeView::Idle),
            TokenView::Semicolon | TokenView::Comma => self.reject(
                line,
                Problem::MisplacedSeparator,
                ModeView::Skipping(true),
            ),
            TokenView::Broken => self.reject(
                line,
                Problem::BrokenQuoting,
                ModeView::Skipping(false),
            ),
            _ => self.reject(line, Problem::MisplacedTerm, ModeView::Skipping(false)),
        }
    }

    /// The state after one more token, read on the given line.
    pub open spec fn step(self, token: TokenView, line: usize) -> ReaderView {
        match self.mode {
            ModeView::Fatal(_) => self,
            ModeView::Skipping(_) => match token {
                TokenView::Dot => self.go(ModeView::Idle),
                TokenView::Semicolon | TokenView::Comma => self.go(ModeView::Skipping(true)),
                _ => self.go(ModeView::Skipping(false)),
            },
            ModeView::Idle => match token {
                TokenView::Dot => self,
                TokenView::Name(word) if is_prefix_keyword(word) => self.go(ModeView::PrefixLabel),
                _ => match token_term(token, self.prefixes, false) {
                    Some(subject) if !(subject is Literal) => self.go(
                        ModeView::NeedPredicate(subject, false),
                    ),
                    _ => self.refuse(token, line),
                },
            },
            ModeView::NeedPredicate(subject, after_separator) => match token {
                TokenView::Dot if after_separator => self.commit(),
                TokenView::Semicolon if after_separator => self,
                _ => match token_term(token, self.prefixes, true) {
                    Some(predicate) if predicate is Identifier => self.go(
                        ModeView::NeedObject(subject, predicate, false),
                    ),
                    _ => self.refuse(token, line),
                },
            },
            ModeView::NeedObject(subject, predicate, _) => match token_term(
                token,
                self.prefixes,
                false,
            ) {
                Some(object) => ReaderView {
                    mode: ModeView::Complete(subject, predicate),
                    pending: self.pending.push(TripleView { subject, predicate, object }),
                    ..self
                },
                None => self.refuse(token, line),
            },
            ModeView::Complete(subject, predicate) => match token {
                TokenView::Dot => self.commit(),
                TokenView::Semicolon => self.go(ModeView::NeedPredicate(subject, true)),
                TokenView::Comma => self.go(ModeView::NeedObject(subject, predicate, true)),
                TokenView::Broken => self.refuse(token, line),
                _ => self,
            },
            ModeView::PrefixLabel => match token {
                TokenView::Name(word) if word.len() > 0 && word.last() == ':' => self.go(
                    ModeView::PrefixNamespace(word.drop_last()),
                ),
                _ => self.go(ModeView::Fatal(line)),
            },
            ModeView::PrefixNamespace(label) => match token {
                TokenView::Iri(namespace) => self.go(ModeView::PrefixClose(label, namespace)),
                _ => self.go(ModeView::Fatal(line)),
            },
            ModeView::PrefixClose(label, namespace) => match token {
                TokenView::Dot => ReaderView {
                    mode: ModeView::Idle,
                    prefixes: self.prefixes.insert(label, namespace),
                    ..self
                },
                _ => self.go(ModeView::Fatal(line)),
            },
        }
    }

    /// The state after the end of the given line.
    pub open spec fn end_line(self, line: usize) -> ReaderView {
        match self.mode {
            ModeView::Complete(_, _) => self.commit(),
            ModeView::NeedPredicate(_, false) | ModeView::NeedObject(_, _, false) => self.reject(
                line,
                Problem::MissingTerms,
                ModeView::Idle,
            ),
            ModeView::PrefixLabel | ModeView::PrefixNamespace(_) | ModeView::PrefixClose(
                _,
                _,
            ) => self.go(ModeView::Fatal(line)),
            ModeView::Skipping(false) => self.go(ModeView::Idle),
            _ => self,
        }
    }

    /// The state after the end of the text, whose last line is the given one.
    pub open spec fn finish(self, line: usize) -> ReaderView {
        match self.mode {
            ModeView::NeedPredicate(_, _) | ModeView::NeedObject(_, _, _) => self.reject(
                line,
                Problem::MissingTerms,
                ModeView::Idle,
            ),
            _ => self,
        }
    }

    /// The state after the first `count` of `tokens`, all on the given line.
    pub open spec fn read_tokens(self, tokens: Seq<TokenView>, count: int, line: usize) -> ReaderView
        decreases count,
    {
        if count <= 0 {
            self
        } else {
            self.read_tokens(tokens, count - 1, line).step(tokens[count - 1], line)
        }
    }

    /// The state after a whole line.
    pub open spec fn read_line(self, text: Seq<char>, line: usize) -> ReaderView {
        self.read_tokens(lex(text), lex(text).len() as int, line).end_line(line)
    }
}

/// The lines of a text: what stands between its line feeds.
pub open spec fn split_lines(text: Seq<char>) -> Seq<Seq<char>>
    decreases text.len(),
{
    if text.len() == 0 {
        seq![Seq::empty()]
    } else {
        let before = split_lines(text.drop_last());
        if text.last() == '\n' {
            before.push(Seq::empty())
        } else {
            before.drop_last().push(before.last().push(text.last()))
        }
    }
}

/// The state after the first `count` of `lines`; lines are counted from 1.
pub open spec fn read_lines(lines: Seq<Seq<char>>, count: int) -> ReaderView
    decreases count,
{
    if count <= 0 {
        ReaderView::start()
    } else {
        read_lines(lines, count - 1).read_line(lines[count - 1], count as usize)
    }
}

/// What a text holds: its triples in the order of their statements, and a
/// warning for each statement that was left out.
pub struct ParsedView {
    pub triples: Seq<TripleView>,
    pub warnings: Seq<ParseWarning>,
}

/// What reading `text` gives.
pub open spec fn parsed(text: Seq<char>) -> Result<ParsedView, ParseFatal> {
    let lines = split_lines(text);
    let end = read_lines(lines, lines.len() as int).finish(lines.len() as usize);
    match end.mode {
        ModeView::Fatal(line) => Err(ParseFatal { line }),
        _ => Ok(ParsedView { triples: end.triples, warnings: end.warnings }),
    }
}

impl ReaderView {
    /// The state is well formed, and so is each triple that it holds.
    pub open spec fn sound(self) -> bool {
        &&& self.wf()
        &&& forall|i: int|
            0 <= i < self.pending.len() ==> (#[trigger] self.pending[i]).well_formed()
        &&& forall|i: int|
            0 <= i < self.triples.len() ==> (#[trigger] self.triples[i]).well_formed()
    }
}

proof fn lemma_read_tokens_sound(
    state: ReaderView,
    tokens: Seq<TokenView>,
    count: int,
    line: usize,
)
    requires
        state.sound(),
    ensures
        state.read_tokens(tokens, count, line).sound(),
    decreases count,
{
    if count > 0 {
        lemma_read_tokens_sound(state, tokens, count - 1, line);
    }
}

proof fn lemma_read_lines_sound(lines: Seq<Seq<char>>, count: int)
    ensures
        read_lines(lines, count).sound(),
    decreases count,
{
    if count > 0 {
        lemma_read_lines_sound(lines, count - 1);
        let text = lines[count - 1];
        lemma_read_tokens_sound(
            read_lines(lines, count - 1),
            lex(text),
            lex(text).len() as int,
            count as usize,
        );
    }
}

/// Every triple that a text gives has a subject that is no literal and a
/// predicate that is an identifier.
pub proof fn lemma_parsed_well_formed(text: Seq<char>)
    ensures
        match parsed(text) {
            Ok(read) => forall|i: int|
                0 <= i < read.triples.len() ==> (#[trigger] read.triples[i]).well_formed(),
            Err(_) => true,
        },
{
    let lines = split_lines(text);
    lemma_read_lines_sound(lines, lines.len() as int);
}

/// What a text holds: its triples in the order of their statements, and a
/// warning for each statement that was left out.
pub struct Parsed {
    pub triples: Vec<Triple>,
    pub warnings: Vec<ParseWarning>,
}

impl View for Parsed {
    type V = ParsedView;

    open spec fn view(&self) -> ParsedView {
        ParsedView { triples: views(self.triples@), warnings: self.warnings@ }
    }
}

enum Mode {
    Idle,
    NeedPredicate(Term, bool),
    NeedObject(Term, Term, bool),
    Complete(Term, Term),
    PrefixLabel,
    PrefixNamespace(Vec<char>),
    PrefixClose(Vec<char>, Vec<char>),
    Skipping(bool),
    Fatal(usize),
}

impl View for Mode {
    type V = ModeView;

    closed spec fn view(&self) -> ModeView {
        match self {
            Mode::Idle => ModeView::Idle,
            Mode::NeedPredicate(subject, flag) => ModeView::NeedPredicate(subject@, *flag),
            Mode::NeedObject(subject, predicate, flag) => ModeView::NeedObject(
                subject@,
                predicate@,
                *flag,
            ),
            Mode::Complete(subject, predicate) => ModeView::Complete(subject@, predicate@),
            Mode::PrefixLabel => ModeView::PrefixLabel,
            Mode::PrefixNamespace(label) => ModeView::PrefixNamespace(label@),
            Mode::PrefixClose(label, namespace) => ModeView::PrefixClose(label@, namespace@),
            Mode::Skipping(flag) => ModeView::Skipping(*flag),
            Mode::Fatal(line) => ModeView::Fatal(*line),
        }
    }
}

spec fn prefix_views(prefixes: Map<Seq<char>, String>) -> Map<Seq<char>, Seq<char>> {
    prefixes.map_values(|namespace: String| namespace@)
}

struct Reader {
    mode: Mode,
    prefixes: StringHashMap<String>,
    pending: Vec<Triple>,
    triples: Vec<Triple>,
    warnings: Vec<ParseWarning>,
}

impl View for Reader {
    type V = ReaderView;

    closed spec fn view(&self) -> ReaderView {
        ReaderView {
            mode: self.mode@,
            prefixes: prefix_views(self.prefixes@),
            pending: views(self.pending@),
            triples: views(self.triples@),
            warnings: self.warnings@,
        }
    }
}

fn find_colon(word: &Vec<char>) -> (at: usize)
    ensures
        at == colon_at(word@, 0),
        at <= word.len(),
{
    let mut i: usize = 0;
    while i < word.len() && word[i] != ':'
        invariant
            i <= word.len(),
            colon_at(word@, i as int) == colon_at(word@, 0),
        decreases word.len() - i,
    {
        i += 1;
    }
    i
}

fn expand(word: &Vec<char>, prefixes: &StringHashMap<String>) -> (name: String)
    ensures
        name@ == expanded(word@, prefix_views(prefixes@)),
{
    let colon = find_colon(word);
    if colon < word.len() {
        let label = string_of(word, 0, colon);
        match prefixes.get(label.as_str()) {
            Some(namespace) => {
                let mut name = namespace.clone();
                append_chars(&mut name, word, colon + 1, word.len());
                assert(word@.skip(colon + 1) =~= word@.subrange(colon + 1, word.len() as int));
                return name;
            },
            None => {},
        }
    }
    assert(word@ =~= word@.subrange(0, word.len() as int));
    string_of(word, 0, word.len())
}

fn prefix_keyword(word: &Vec<char>) -> (yes: bool)
    ensures
        yes == is_prefix_keyword(word@),
{
    word.len() == 7 && word[0] == '@' && word[1] == 'p' && word[2] == 'r' && word[3] == 'e'
        && word[4] == 'f' && word[5] == 'i' && word[6] == 'x'
}

fn word_to_term(word: &Vec<char>, prefixes: &StringHashMap<String>, as_predicate: bool) -> (term:
    Term)
    ensures
        term@ == word_term(word@, prefix_views(prefixes@), as_predicate),
{
    if word.len() >= 2 && word[0] == '_' && word[1] == ':' {
        assert(word@.skip(2) =~= word@.subrange(2, word.len() as int));
        Term::BlankNode(string_of(word, 2, word.len()))
    } else if as_predicate && word.len() == 1 && word[0] == 'a' {
        Term::Identifier(TYPE_IDENTIFIER.to_owned())
    } else {
        Term::Identifier(expand(word, prefixes))
    }
}

fn token_to_term(token: &Token, prefixes: &StringHashMap<String>, as_predicate: bool) -> (term:
    Option<Term>)
    ensures
        match term {
            Some(made) => token_term(token@, prefix_views(prefixes@), as_predicate) == Some(made@),
            None => token_term(token@, prefix_views(prefixes@), as_predicate) is None,
        },
{
    match token {
        Token::Iri(name) => Some(Term::Identifier(whole(name))),
        Token::Name(word) => Some(word_to_term(word, prefixes, as_predicate)),
        Token::Text(value, suffix) => {
            let kind = match suffix {
                Suffix::Bare => LiteralKind::Plain,
                Suffix::Language(tag) => LiteralKind::Language(whole(tag)),
                Suffix::TypeIri(name) => LiteralKind::Typed(whole(name)),
                Suffix::TypeName(word) => LiteralKind::Typed(expand(word, prefixes)),
            };
            Some(Term::Literal(whole(value), kind))
        },
        _ => None,
    }
}

impl Reader {
    fn start() -> (reader: Reader)
        ensures
            reader@ == ReaderView::start(),
    {
        let reader = Reader {
            mode: Mode::Idle,
            prefixes: StringHashMap::new(),
            pending: Vec::new(),
            triples: Vec::new(),
            warnings: Vec::new(),
        };
        assert(reader@.prefixes =~= Map::empty());
        assert(reader@.pending =~= Seq::empty());
        assert(reader@.triples =~= Seq::empty());
        reader
    }

    fn go(self, mode: Mode) -> (next: Reader)
        ensures
            next@ == self@.go(mode@),
    {
        let mut next = self;
        next.mode = mode;
        next
    }

    fn reject(self, line: usize, problem: Problem, mode: Mode) -> (next: Reader)
        ensures
            next@ == self@.reject(line, problem, mode@),
    {
        let mut next = self;
        next.mode = mode;
        next.pending = Vec::new();
        next.warnings.push(ParseWarning { line, problem });
        assert(next@.pending =~= Seq::empty());
        next
    }

    fn commit(self) -> (next: Reader)
        ensures
            next@ == self@.commit(),
    {
        let mut next = self;
        next.mode = Mode::Idle;
        let mut pending: Vec<Triple> = Vec::new();
        core::mem::swap(&mut next.pending, &mut pending);
        next.triples.append(&mut pending);
        assert(next@.pending =~= Seq::empty());
        assert(next@.triples =~= self@.triples + self@.pending);
        next
    }

    fn refuse(self, token: &Token, line: usize) -> (next: Reader)
        ensures
            next@ == self@.refuse(token@, line),
    {
        match token {
            Token::Dot => self.reject(line, Problem::MissingTerms, Mode::Idle),
            Token::Semicolon => self.reject(line, Problem::MisplacedSeparator, Mode::Skipping(true)),
            Token::Comma => self.reject(line, Problem::MisplacedSeparator, Mode::Skipping(true)),
            Token::Broken => self.reject(line, Problem::BrokenQuoting, Mode::Skipping(false)),
            _ => self.reject(line, Problem::MisplacedTerm, Mode::Skipping(false)),
        }
    }

    fn step(self, token: &Token, line: usize) -> (next: Reader)
        requires
            self@.wf(),
        ensures
            next@ == self@.step(token@, line),
            next@.wf(),
    {
        let mut next = self;
        let mut mode = Mode::Idle;
        core::mem::swap(&mut next.mode, &mut mode);
        match mode {
            Mode::Fatal(at) => next.go(Mode::Fatal(at)),
            Mode::Skipping(_) => match token {
                Token::Dot => next.go(Mode::Idle),
                Token::Semicolon => next.go(Mode::Skipping(true)),
                Token::Comma => next.go(Mode::Skipping(true)),
                _ => next.go(Mode::Skipping(false)),
            },
            Mode::Idle => {
                let keyword = match token {
                    Token::Name(word) => prefix_keyword(word),
                    _ => false,
                };
                if let Token::Dot = token {
                    next
                } else if keyword {
                    next.go(Mode::PrefixLabel)
                } else {
                    match token_to_term(token, &next.prefixes, false) {
                        Some(Term::Literal(_, _)) => next.refuse(token, line),
                        Some(subject) => next.go(Mode::NeedPredicate(subject, false)),
                        None => next.refuse(token, line),
                    }
                }
            },
            Mode::NeedPredicate(subject, after_separator) => {
                let closes = match token {
                    Token::Dot => after_separator,
                    _ => false,
                };
                let repeats = match token {
                    Token::Semicolon => after_separator,
                    _ => false,
                };
                if closes {
                    next.commit()
                } else if repeats {
                    next.go(Mode::NeedPredicate(subject, after_separator))
                } else {
                    match token_to_term(token, &next.prefixes, true) {
                        Some(Term::Identifier(name)) => next.go(
                            Mode::NeedObject(subject, Term::Identifier(name), false),
                        ),
                        _ => next.refuse(token, line),
                    }
                }
            },
            Mode::NeedObject(subject, predicate, _) => {
                match token_to_term(token, &next.prefixes, false) {
                    Some(object) => {
                        match Triple::new(subject.clone(), predicate.clone(), object) {
                            Some(triple) => {
                                proof {
                                    lemma_views_push(next.pending@, triple);
                                }
                                next.pending.push(triple);
                            },
                            None => {},
                        }
                        next.go(Mode::Complete(subject, predicate))
                    },
                    None => next.refuse(token, line),
                }
            },
            Mode::Complete(subject, predicate) => match token {
                Token::Dot => next.commit(),
                Token::Semicolon => next.go(Mode::NeedPredicate(subject, true)),
                Token::Comma => next.go(Mode::NeedObject(subject, predicate, true)),
                Token::Broken => next.refuse(token, line),
                _ => next.go(Mode::Complete(subject, predicate)),
            },
            Mode::PrefixLabel => {
                match token {
                    Token::Name(word) => {
                        if word.len() > 0 && word[word.len() - 1] == ':' {
                            let mut label = word.clone();
                            label.pop();
                            assert(label@ =~= word@.drop_last());
                            next.go(Mode::PrefixNamespace(label))
                        } else {
                            next.go(Mode::Fatal(line))
                        }
                    },
                    _ => next.go(Mode::Fatal(line)),
                }
            },
            Mode::PrefixNamespace(label) => match token {
                Token::Iri(namespace) => next.go(Mode::PrefixClose(label, namespace.clone())),
                _ => next.go(Mode::Fatal(line)),
            },
            Mode::PrefixClose(label, namespace) => match token {
                Token::Dot => {
                    let ghost before = next.prefixes@;
                    let namespace = whole(&namespace);
                    next.prefixes.insert(whole(&label), namespace);
                    assert(prefix_views(next.prefixes@) =~= prefix_views(before).insert(
                        label@,
                        namespace@,
                    ));
                    next.go(Mode::Idle)
                },
                _ => next.go(Mode::Fatal(line)),
            },
        }
    }

    fn end_line(self, line: usize) -> (next: Reader)
        requires
            self@.wf(),
        ensures
            next@ == self@.end_line(line),
            next@.wf(),
    {
        match &self.mode {
            Mode::Complete(_, _) => self.commit(),
            Mode::NeedPredicate(_, false) | Mode::NeedObject(_, _, false) => self.reject(
                line,
                Problem::MissingTerms,
                Mode::Idle,
            ),
            Mode::PrefixLabel | Mode::PrefixNamespace(_) | Mode::PrefixClose(_, _) => self.go(
                Mode::Fatal(line),
            ),
            Mode::Skipping(false) => self.go(Mode::Idle),
            _ => self,
        }
    }

    fn finish(self, line: usize) -> (next: Reader)
        ensures
            next@ == self@.finish(line),
    {
        match &self.mode {
            Mode::NeedPredicate(_, _) | Mode::NeedObject(_, _, _) => self.reject(
                line,
                Problem::MissingTerms,
                Mode::Idle,
            ),
            _ => self,
        }
    }
}

/// Splits a text at its line feeds.
fn split(text: &Vec<char>) -> (lines: Vec<Vec<char>>)
    ensures
        views(lines@) == split_lines(text@),
{
    let mut lines: Vec<Vec<char>> = Vec::new();
    let mut current: Vec<char> = Vec::new();
    let mut i: usize = 0;
    assert(text@.take(0) =~= Seq::empty());
    assert(views(lines@).push(current@) =~= split_lines(text@.take(0)));
    while i < text.len()
        invariant
            i <= text.len(),
            views(lines@).push(current@) == split_lines(text@.take(i as int)),
        decreases text.len() - i,
    {
        let ghost before = views(lines@).push(current@);
        assert(text@.take(i + 1).drop_last() =~= text@.take(i as int));
        let c = text[i];
        if c == '\n' {
            proof {
                lemma_views_push(lines@, current);
            }
            lines.push(current);
            current = Vec::new();
        } else {
            current.push(c);
            assert(views(lines@).push(current@) =~= before.drop_last().push(
                before.last().push(c),
            ));
        }
        i += 1;
    }
    assert(text@.take(i as int) =~= text@);
    proof {
        lemma_views_push(lines@, current);
    }
    lines.push(current);
    lines
}

/// Reads the statements of `text`.
pub fn parse(text: &str) -> (outcome: Result<Parsed, ParseFatal>)
    ensures
        match outcome {
            Ok(read) => parsed(text@) == Ok::<ParsedView, ParseFatal>(read@),
            Err(fatal) => parsed(text@) == Err::<ParsedView, ParseFatal>(fatal),
        },
{
    let chars = chars_of(text);
    let lines = split(&chars);
    let mut reader = Reader::start();
    let mut k: usize = 0;
    while k < lines.len()
        invariant
            k <= lines.len(),
            reader@ == read_lines(views(lines@), k as int),
            reader@.wf(),
        decreases lines.len() - k,
    {
        let tokens = lex_line(&lines[k]);
        let line = k + 1;
        let ghost state = reader@;
        let mut n: usize = 0;
        while n < tokens.len()
            invariant
                n <= tokens.len(),
                reader@ == state.read_tokens(views(tokens@), n as int, line),
                reader@.wf(),
            decreases tokens.len() - n,
        {
            reader = reader.step(&tokens[n], line);
            n += 1;
        }
        reader = reader.end_line(line);
        k += 1;
    }
    let reader = reader.finish(lines.len());
    match reader.mode {
        Mode::Fatal(line) => Err(ParseFatal { line }),
        _ => Ok(Parsed { triples: reader.triples, warnings: reader.warnings }),
    }
}

} // verus!
