//! Terms and triples, with the mathematical values that contracts speak of.

use crate::text::push_char;
use vstd::prelude::*;

verus! {

/// What a [`LiteralKind`] stands for in contracts.
pub enum LiteralKindView {
    Plain,
    Language(Seq<char>),
    Typed(Seq<char>),
}

/// What a [`Term`] stands for in contracts.
pub enum TermView {
    Identifier(Seq<char>),
    BlankNode(Seq<char>),
    Literal(Seq<char>, LiteralKindView),
}

/// What a [`Triple`] stands for in contracts.
pub struct TripleView {
    pub subject: TermView,
    pub predicate: TermView,
    pub object: TermView,
}

impl TripleView {
    /// A subject is never a literal, and a predicate is always an identifier.
    pub open spec fn well_formed(self) -> bool {
        &&& !(self.subject is Literal)
        &&& self.predicate is Identifier
    }
}

/// The digit, in upper case, that writes a number below sixteen to the
/// base of sixteen.
pub open spec fn hex_digit(n: int) -> char {
    seq!['0', '1', '2', '3', '4', '5', '6', '7', '8', '9', 'A', 'B', 'C', 'D', 'E', 'F'][n]
}

/// How a character is written between double quotes. Backspace, tab, line
/// feed, form feed, carriage return, `"` and `\` are written as `\b`,
/// `\t`, `\n`, `\f`, `\r`, `\"` and `\\`. The other characters up to
/// U+001F, and U+007F, U+FFFE and U+FFFF, are written as `\u` and their
/// number in four digits to the base of sixteen. Every other character
/// stands for itself.
pub open spec fn escaped_char(c: char) -> Seq<char> {
    if c == '\u{8}' {
        seq!['\\', 'b']
    } else if c == '\t' {
        seq!['\\', 't']
    } else if c == '\n' {
        seq!['\\', 'n']
    } else if c == '\u{c}' {
        seq!['\\', 'f']
    } else if c == '\r' {
        seq!['\\', 'r']
    } else if c == '"' {
        seq!['\\', '"']
    } else if c == '\\' {
        seq!['\\', '\\']
    } else if c <= '\u{1f}' || c == '\u{7f}' || c == '\u{fffe}' || c == '\u{ffff}' {
        seq![
            '\\',
            'u',
            hex_digit(c as int / 4096),
            hex_digit(c as int / 256 % 16),
            hex_digit(c as int / 16 % 16),
            hex_digit(c as int % 16),
        ]
    } else {
        seq![c]
    }
}

/// The characters of a text, each as it is written between double quotes.
pub open spec fn escaped(value: Seq<char>) -> Seq<char>
    decreases value.len(),
{
    if value.len() == 0 {
        Seq::empty()
    } else {
        escaped(value.drop_last()) + escaped_char(value.last())
    }
}

/// The text of a literal between double quotes.
pub open spec fn quoted(value: Seq<char>) -> Seq<char> {
    seq!['"'] + escaped(value) + seq!['"']
}

/// `Display` of `oxigraph::model::Literal`, on the simple literal that
/// `Literal::new_simple_literal` makes of `value`: a double quote, each
/// character of `value` as `print_quoted_str` of `oxrdf` writes it, and a
/// double quote.
#[verifier::external_body]
fn quote(value: &str) -> (text: String)
    ensures
        text@ == quoted(value@),
{
    oxigraph::model::Literal::new_simple_literal(value).to_string()
}

/// A literal as text, given its text between quotes: that text, with `@`
/// and the language or `^^` and the datatype between `<` and `>` behind it.
pub open spec fn literal_text(quoted: Seq<char>, kind: LiteralKindView) -> Seq<char> {
    match kind {
        LiteralKindView::Plain => quoted,
        LiteralKindView::Language(tag) => quoted + seq!['@'] + tag,
        LiteralKindView::Typed(datatype) => quoted + seq!['^', '^', '<'] + datatype + seq!['>'],
    }
}

/// A term as one reads it in a line of statements: an identifier between
/// `<` and `>`, a blank node after `_:`, a literal between quotes with its
/// language or datatype behind it.
pub open spec fn term_text(term: TermView) -> Seq<char> {
    match term {
        TermView::Identifier(name) => seq!['<'] + name + seq!['>'],
        TermView::BlankNode(label) => seq!['_', ':'] + label,
        TermView::Literal(value, kind) => literal_text(quoted(value), kind),
    }
}

/// The flavour of a literal: bare text, text in a language, or text of a datatype.
#[derive(Debug)]
pub enum LiteralKind {
    Plain,
    Language(String),
    Typed(String),
}

impl View for LiteralKind {
    type V = LiteralKindView;

    open spec fn view(&self) -> LiteralKindView {
        match self {
            LiteralKind::Plain => LiteralKindView::Plain,
            LiteralKind::Language(tag) => LiteralKindView::Language(tag@),
            LiteralKind::Typed(datatype) => LiteralKindView::Typed(datatype@),
        }
    }
}

impl LiteralKind {
    /// Writes a literal of this kind, given its text between quotes.
    pub fn write_behind(&self, quoted: String) -> (text: String)
        ensures
            text@ == literal_text(quoted@, self@),
    {
        let mut text = quoted;
        match self {
            LiteralKind::Plain => {},
            LiteralKind::Language(tag) => {
                push_char(&mut text, '@');
                text.append(tag.as_str());
                assert(text@ =~= quoted@ + seq!['@'] + tag@);
            },
            LiteralKind::Typed(datatype) => {
                push_char(&mut text, '^');
                push_char(&mut text, '^');
                push_char(&mut text, '<');
                text.append(datatype.as_str());
                push_char(&mut text, '>');
                assert(text@ =~= quoted@ + seq!['^', '^', '<'] + datatype@ + seq!['>']);
            },
        }
        text
    }
}

impl Clone for LiteralKind {
    fn clone(&self) -> (copy: Self)
        ensures
            copy@ == self@,
    {
        match self {
            LiteralKind::Plain => LiteralKind::Plain,
            LiteralKind::Language(tag) => LiteralKind::Language(tag.clone()),
            LiteralKind::Typed(datatype) => LiteralKind::Typed(datatype.clone()),
        }
    }
}

impl PartialEq for LiteralKind {
    fn eq(&self, other: &Self) -> (same: bool) {
        match self {
            LiteralKind::Plain => match other {
                LiteralKind::Plain => true,
                _ => false,
            },
            LiteralKind::Language(a) => match other {
                LiteralKind::Language(b) => *a == *b,
                _ => false,
            },
            LiteralKind::Typed(a) => match other {
                LiteralKind::Typed(b) => *a == *b,
                _ => false,
            },
        }
    }
}

impl vstd::std_specs::cmp::PartialEqSpecImpl for LiteralKind {
    open spec fn obeys_eq_spec() -> bool {
        true
    }

    open spec fn eq_spec(&self, other: &Self) -> bool {
        self@ == other@
    }
}

/// A node of the graph: a resource identifier, a blank node, or a literal.
#[derive(Debug)]
pub enum Term {
    Identifier(String),
    BlankNode(String),
    Literal(String, LiteralKind),
}

impl View for Term {
    type V = TermView;

    open spec fn view(&self) -> TermView {
        match self {
            Term::Identifier(name) => TermView::Identifier(name@),
            Term::BlankNode(label) => TermView::BlankNode(label@),
            Term::Literal(value, kind) => TermView::Literal(value@, kind@),
        }
    }
}

impl Clone for Term {
    fn clone(&self) -> (copy: Self)
        ensures
            copy@ == self@,
    {
        match self {
            Term::Identifier(name) => Term::Identifier(name.clone()),
            Term::BlankNode(label) => Term::BlankNode(label.clone()),
            Term::Literal(value, kind) => Term::Literal(value.clone(), kind.clone()),
        }
    }
}

impl Term {
    /// The term as text.
    pub fn to_text(&self) -> (text: String)
        ensures
            text@ == term_text(self@),
    {
        match self {
            Term::Identifier(name) => {
                let mut text = String::new();
                push_char(&mut text, '<');
                text.append(name.as_str());
                push_char(&mut text, '>');
                assert(text@ =~= seq!['<'] + name@ + seq!['>']);
                text
            },
            Term::BlankNode(label) => {
                let mut text = String::new();
                push_char(&mut text, '_');
                push_char(&mut text, ':');
                text.append(label.as_str());
                assert(text@ =~= seq!['_', ':'] + label@);
                text
            },
            Term::Literal(value, kind) => kind.write_behind(quote(value.as_str())),
        }
    }
}

impl PartialEq for Term {
    fn eq(&self, other: &Self) -> (same: bool) {
        match self {
            Term::Identifier(a) => match other {
                Term::Identifier(b) => *a == *b,
                _ => false,
            },
            Term::BlankNode(a) => match other {
                Term::BlankNode(b) => *a == *b,
                _ => false,
            },
            Term::Literal(a, ka) => match other {
                Term::Literal(b, kb) => *a == *b && *ka == *kb,
                _ => false,
            },
        }
    }
}

impl vstd::std_specs::cmp::PartialEqSpecImpl for Term {
    open spec fn obeys_eq_spec() -> bool {
        true
    }

    open spec fn eq_spec(&self, other: &Self) -> bool {
        self@ == other@
    }
}

/// One statement of the graph. The fields are private so that every value
/// keeps the shape that [`TripleView::well_formed`] describes.
#[derive(Debug)]
pub struct Triple {
    subject: Term,
    predicate: Term,
    object: Term,
}

impl View for Triple {
    type V = TripleView;

    closed spec fn view(&self) -> TripleView {
        TripleView { subject: self.subject@, predicate: self.predicate@, object: self.object@ }
    }
}

impl Triple {
    #[verifier::type_invariant]
    spec fn shape(self) -> bool {
        self@.well_formed()
    }

    /// Builds a triple, or gives `None` where the subject is a literal or
    /// the predicate is anything but an identifier.
    pub fn new(subject: Term, predicate: Term, object: Term) -> (made: Option<Triple>)
        ensures
            made is Some <==> (TripleView {
                subject: subject@,
                predicate: predicate@,
                object: object@,
            }).well_formed(),
            made is Some ==> made->0@ == (TripleView {
                subject: subject@,
                predicate: predicate@,
                object: object@,
            }),
    {
        let subject_fits = match &subject {
            Term::Literal(_, _) => false,
            _ => true,
        };
        let predicate_fits = match &predicate {
            Term::Identifier(_) => true,
            _ => false,
        };
        if subject_fits && predicate_fits {
            Some(Triple { subject, predicate, object })
        } else {
            None
        }
    }

    pub fn subject(&self) -> (term: &Term)
        ensures
            term@ == self@.subject,
            self@.well_formed(),
    {
        proof {
            use_type_invariant(self);
        }
        &self.subject
    }

    pub fn predicate(&self) -> (term: &Term)
        ensures
            term@ == self@.predicate,
            self@.well_formed(),
    {
        proof {
            use_type_invariant(self);
        }
        &self.predicate
    }

    /// The identifier that the predicate holds.
    pub fn predicate_name(&self) -> (name: &String)
        ensures
            self@.predicate == TermView::Identifier(name@),
            self@.well_formed(),
    {
        proof {
            use_type_invariant(self);
        }
        match &self.predicate {
            Term::Identifier(name) => name,
            Term::BlankNode(name) => name,
            Term::Literal(name, _) => name,
        }
    }

    pub fn object(&self) -> (term: &Term)
        ensures
            term@ == self@.object,
            self@.well_formed(),
    {
        proof {
            use_type_invariant(self);
        }
        &self.object
    }
}

impl Clone for Triple {
    fn clone(&self) -> (copy: Self)
        ensures
            copy@ == self@,
    {
        proof {
            use_type_invariant(self);
        }
        Triple {
            subject: self.subject.clone(),
            predicate: self.predicate.clone(),
            object: self.object.clone(),
        }
    }
}

impl PartialEq for Triple {
    fn eq(&self, other: &Self) -> (same: bool) {
        self.subject == other.subject && self.predicate == other.predicate && self.object
            == other.object
    }
}

impl vstd::std_specs::cmp::PartialEqSpecImpl for Triple {
    open spec fn obeys_eq_spec() -> bool {
        true
    }

    open spec fn eq_spec(&self, other: &Self) -> bool {
        self@ == other@
    }
}

} // verus!
