//! Splitting one line of text into tokens.
//!
//! A line is read from left to right. Blanks separate tokens, `#` at the
//! start of a token opens a comment that runs to the end of the line, `;`
//! and `,` stand alone, `<` opens an identifier that runs to the next `>`,
//! `"` opens a quoted text, and anything else is a word that runs to the
//! next blank, `;` or `,`. A word's last `.` is the statement terminator.

use crate::text::{lemma_views_push, slice_of, views};
use vstd::prelude::*;

verus! {

/// What follows the closing quote of a quoted text.
pub enum SuffixView {
    Bare,
    Language(Seq<char>),
    TypeIri(Seq<char>),
    TypeName(Seq<char>),
}

/// What a [`Token`] stands for in contracts.
pub enum TokenView {
    Iri(Seq<char>),
    Name(Seq<char>),
    Text(Seq<char>, SuffixView),
    Dot,
    Semicolon,
    Comma,
    Broken,
}

/// What follows the closing quote of a quoted text: nothing, `@` and a
/// language tag, or `^^` and a datatype written as `<..>` or as a word.
#[derive(Debug)]
pub enum Suffix {
    Bare,
    Language(Vec<char>),
    TypeIri(Vec<char>),
    TypeName(Vec<char>),
}

/// One lexical unit of a line. `Broken` stands for quoting that the line
/// does not close; nothing follows it.
#[derive(Debug)]
pub enum Token {
    Iri(Vec<char>),
    Name(Vec<char>),
    Text(Vec<char>, Suffix),
    Dot,
    Semicolon,
    Comma,
    Broken,
}

impl View for Suffix {
    type V = SuffixView;

    open spec fn view(&self) -> SuffixView {
        match self {
            Suffix::Bare => SuffixView::Bare,
            Suffix::Language(tag) => SuffixView::Language(tag@),
            Suffix::TypeIri(name) => SuffixView::TypeIri(name@),
            Suffix::TypeName(name) => SuffixView::TypeName(name@),
        }
    }
}

impl View for Token {
    type V = TokenView;

    open spec fn view(&self) -> TokenView {
        match self {
            Token::Iri(name) => TokenView::Iri(name@),
            Token::Name(word) => TokenView::Name(word@),
            Token::Text(value, suffix) => TokenView::Text(value@, suffix@),
            Token::Dot => TokenView::Dot,
            Token::Semicolon => TokenView::Semicolon,
            Token::Comma => TokenView::Comma,
            Token::Broken => TokenView::Broken,
        }
    }
}

pub open spec fn is_blank(c: char) -> bool {
    c == ' ' || c == '\t' || c == '\r' || c == '\n'
}

pub open spec fn ends_word(c: char) -> bool {
    is_blank(c) || c == ';' || c == ','
}

pub open spec fn is_tag_char(c: char) -> bool {
    ('a' <= c && c <= 'z') || ('A' <= c && c <= 'Z') || ('0' <= c && c <= '9') || c == '-'
}

/// The first index from `i` on that holds a blank, `;` or `,`; at least
/// the line's length where there is none.
pub open spec fn word_end(line: Seq<char>, i: int) -> int
    decreases line.len() - i,
{
    if i >= line.len() || ends_word(line[i]) {
        i
    } else {
        word_end(line, i + 1)
    }
}

/// The first index from `i` on that holds `>`; at least the line's length
/// where there is none.
pub open spec fn iri_end(line: Seq<char>, i: int) -> int
    decreases line.len() - i,
{
    if i >= line.len() || line[i] == '>' {
        i
    } else {
        iri_end(line, i + 1)
    }
}

/// The first index from `i` on that holds a `"` which no backslash
/// escapes; at least the line's length where there is none.
pub open spec fn quote_end(line: Seq<char>, i: int) -> int
    decreases line.len() - i,
{
    if i >= line.len() || line[i] == '"' {
        i
    } else if line[i] == '\\' && i + 1 < line.len() {
        quote_end(line, i + 2)
    } else {
        quote_end(line, i + 1)
    }
}

/// The first index from `i` on that holds no character of a language tag.
pub open spec fn tag_end(line: Seq<char>, i: int) -> int
    decreases line.len() - i,
{
    if i >= line.len() || !is_tag_char(line[i]) {
        i
    } else {
        tag_end(line, i + 1)
    }
}

/// The character that a backslash and `c` stand for, where they stand for one.
pub open spec fn escape_value(c: char) -> Option<char> {
    if c == 't' {
        Some('\t')
    } else if c == 'n' {
        Some('\n')
    } else if c == 'r' {
        Some('\r')
    } else if c == 'b' {
        Some('\u{8}')
    } else if c == 'f' {
        Some('\u{c}')
    } else if c == '"' || c == '\'' || c == '\\' {
        Some(c)
    } else {
        None
    }
}

/// The text that `line[i..end]` spells between quotes: each known escape
/// gives its character, everything else stands for itself.
pub open spec fn decoded(line: Seq<char>, i: int, end: int) -> Seq<char>
    decreases end - i,
{
    if i >= end {
        Seq::empty()
    } else if line[i] == '\\' && i + 1 < end && escape_value(line[i + 1]) is Some {
        seq![escape_value(line[i + 1])->0] + decoded(line, i + 2, end)
    } else {
        seq![line[i]] + decoded(line, i + 1, end)
    }
}

/// What was read after a closing quote, and where reading goes on.
pub struct SuffixScan {
    pub suffix: SuffixView,
    pub dot: bool,
    pub next: int,
    pub broken: bool,
}

/// Reads the suffix of a quoted text whose closing quote stands just before `k`.
pub open spec fn scan_suffix(line: Seq<char>, k: int) -> SuffixScan {
    if k < line.len() && line[k] == '@' {
        let end = tag_end(line, k + 1);
        SuffixScan {
            suffix: SuffixView::Language(line.subrange(k + 1, end)),
            dot: false,
            next: end,
            broken: false,
        }
    } else if k + 1 < line.len() && line[k] == '^' && line[k + 1] == '^' {
        if k + 2 < line.len() && line[k + 2] == '<' {
            let close = iri_end(line, k + 3);
            SuffixScan {
                suffix: SuffixView::TypeIri(line.subrange(k + 3, close)),
                dot: false,
                next: close + 1,
                broken: close >= line.len(),
            }
        } else {
            let end = word_end(line, k + 2);
            let dot = end > k + 2 && line[end - 1] == '.';
            SuffixScan {
                suffix: SuffixView::TypeName(line.subrange(k + 2, if dot { end - 1 } else { end })),
                dot,
                next: end,
                broken: false,
            }
        }
    } else {
        SuffixScan { suffix: SuffixView::Bare, dot: false, next: k, broken: false }
    }
}

/// The tokens of the word `line[i..end]`: the word itself, or the word
/// without its last character and a `Dot` where that character is `.`.
pub open spec fn word_tokens(line: Seq<char>, i: int, end: int) -> Seq<TokenView> {
    if line[end - 1] == '.' {
        if end - 1 > i {
            seq![TokenView::Name(line.subrange(i, end - 1)), TokenView::Dot]
        } else {
            seq![TokenView::Dot]
        }
    } else {
        seq![TokenView::Name(line.subrange(i, end))]
    }
}

pub proof fn lemma_word_end_bounds(line: Seq<char>, i: int)
    requires
        0 <= i <= line.len(),
    ensures
        i <= word_end(line, i) <= line.len(),
    decreases line.len() - i,
{
    if i < line.len() && !ends_word(line[i]) {
        lemma_word_end_bounds(line, i + 1);
    }
}

pub proof fn lemma_iri_end_bounds(line: Seq<char>, i: int)
    requires
        0 <= i <= line.len(),
    ensures
        i <= iri_end(line, i) <= line.len(),
    decreases line.len() - i,
{
    if i < line.len() && line[i] != '>' {
        lemma_iri_end_bounds(line, i + 1);
    }
}

pub proof fn lemma_quote_end_bounds(line: Seq<char>, i: int)
    requires
        0 <= i,
    ensures
        i <= quote_end(line, i),
        i <= line.len() ==> quote_end(line, i) <= line.len(),
    decreases line.len() - i,
{
    if i < line.len() && line[i] != '"' {
        if line[i] == '\\' && i + 1 < line.len() {
            lemma_quote_end_bounds(line, i + 2);
        } else {
            lemma_quote_end_bounds(line, i + 1);
        }
    }
}

pub proof fn lemma_tag_end_bounds(line: Seq<char>, i: int)
    requires
        0 <= i <= line.len(),
    ensures
        i <= tag_end(line, i) <= line.len(),
    decreases line.len() - i,
{
    if i < line.len() && is_tag_char(line[i]) {
        lemma_tag_end_bounds(line, i + 1);
    }
}

pub proof fn lemma_scan_suffix_bounds(line: Seq<char>, k: int)
    requires
        0 <= k <= line.len(),
    ensures
        k <= scan_suffix(line, k).next,
        !scan_suffix(line, k).broken ==> scan_suffix(line, k).next <= line.len(),
{
    if k < line.len() && line[k] == '@' {
        lemma_tag_end_bounds(line, k + 1);
    } else if k + 1 < line.len() && line[k] == '^' && line[k + 1] == '^' {
        if k + 2 < line.len() && line[k + 2] == '<' {
            lemma_iri_end_bounds(line, k + 3);
        } else {
            lemma_word_end_bounds(line, k + 2);
        }
    }
}

/// The tokens of `line` from index `i` on.
pub open spec fn lex_from(line: Seq<char>, i: int) -> Seq<TokenView>
    decreases line.len() - i,
{
    if i < 0 || i >= line.len() {
        Seq::empty()
    } else if is_blank(line[i]) {
        lex_from(line, i + 1)
    } else if line[i] == '#' {
        Seq::empty()
    } else if line[i] == ';' {
        seq![TokenView::Semicolon] + lex_from(line, i + 1)
    } else if line[i] == ',' {
        seq![TokenView::Comma] + lex_from(line, i + 1)
    } else if line[i] == '<' {
        let close = iri_end(line, i + 1);
        if close >= line.len() {
            seq![TokenView::Broken]
        } else {
            proof {
                lemma_iri_end_bounds(line, i + 1);
            }
            seq![TokenView::Iri(line.subrange(i + 1, close))] + lex_from(line, close + 1)
        }
    } else if line[i] == '"' {
        let close = quote_end(line, i + 1);
        if close >= line.len() {
            seq![TokenView::Broken]
        } else {
            let scan = scan_suffix(line, close + 1);
            if scan.broken {
                seq![TokenView::Broken]
            } else {
                proof {
                    lemma_quote_end_bounds(line, i + 1);
                    lemma_scan_suffix_bounds(line, close + 1);
                }
                seq![TokenView::Text(decoded(line, i + 1, close), scan.suffix)] + (if scan.dot {
                    seq![TokenView::Dot]
                } else {
                    Seq::empty()
                }) + lex_from(line, scan.next)
            }
        }
    } else {
        let end = word_end(line, i + 1);
        proof {
            lemma_word_end_bounds(line, i + 1);
        }
        word_tokens(line, i, end) + lex_from(line, end)
    }
}

/// The tokens of a whole line.
pub open spec fn lex(line: Seq<char>) -> Seq<TokenView> {
    lex_from(line, 0)
}

pub(crate) fn blank(c: char) -> (yes: bool)
    ensures
        yes == is_blank(c),
{
    c == ' ' || c == '\t' || c == '\r' || c == '\n'
}

fn tag_char(c: char) -> (yes: bool)
    ensures
        yes == is_tag_char(c),
{
    ('a' <= c && c <= 'z') || ('A' <= c && c <= 'Z') || ('0' <= c && c <= '9') || c == '-'
}

pub(crate) fn escape_of(c: char) -> (value: Option<char>)
    ensures
        value == escape_value(c),
{
    if c == 't' {
        Some('\t')
    } else if c == 'n' {
        Some('\n')
    } else if c == 'r' {
        Some('\r')
    } else if c == 'b' {
        Some('\u{8}')
    } else if c == 'f' {
        Some('\u{c}')
    } else if c == '"' || c == '\'' || c == '\\' {
        Some(c)
    } else {
        None
    }
}

fn scan_word(line: &Vec<char>, i: usize) -> (end: usize)
    requires
        i <= line.len(),
    ensures
        end == word_end(line@, i as int),
        i <= end <= line.len(),
{
    let mut j: usize = i;
    while j < line.len() && !(blank(line[j]) || line[j] == ';' || line[j] == ',')
        invariant
            i <= j <= line.len(),
            word_end(line@, j as int) == word_end(line@, i as int),
        decreases line.len() - j,
    {
        j += 1;
    }
    j
}

pub(crate) fn scan_iri(line: &Vec<char>, i: usize) -> (end: usize)
    requires
        i <= line.len(),
    ensures
        end == iri_end(line@, i as int),
        i <= end <= line.len(),
{
    let mut j: usize = i;
    while j < line.len() && line[j] != '>'
        invariant
            i <= j <= line.len(),
            iri_end(line@, j as int) == iri_end(line@, i as int),
        decreases line.len() - j,
    {
        j += 1;
    }
    j
}

fn scan_tag(line: &Vec<char>, i: usize) -> (end: usize)
    requires
        i <= line.len(),
    ensures
        end == tag_end(line@, i as int),
        i <= end <= line.len(),
{
    let mut j: usize = i;
    while j < line.len() && tag_char(line[j])
        invariant
            i <= j <= line.len(),
            tag_end(line@, j as int) == tag_end(line@, i as int),
        decreases line.len() - j,
    {
        j += 1;
    }
    j
}

pub(crate) fn scan_quote(line: &Vec<char>, i: usize) -> (end: usize)
    requires
        i <= line.len(),
    ensures
        end == quote_end(line@, i as int),
        i <= end <= line.len(),
{
    let mut j: usize = i;
    while j < line.len() && line[j] != '"'
        invariant
            i <= j <= line.len(),
            quote_end(line@, j as int) == quote_end(line@, i as int),
        decreases line.len() - j,
    {
        if line[j] == '\\' && j + 1 < line.len() {
            j += 2;
        } else {
            j += 1;
        }
    }
    j
}

pub(crate) fn decode(line: &Vec<char>, from: usize, end: usize) -> (text: Vec<char>)
    requires
        from <= end <= line.len(),
    ensures
        text@ == decoded(line@, from as int, end as int),
{
    let mut text: Vec<char> = Vec::new();
    let mut i: usize = from;
    assert(text@ + decoded(line@, i as int, end as int) =~= decoded(line@, i as int, end as int));
    while i < end
        invariant
            from <= i <= end <= line.len(),
            text@ + decoded(line@, i as int, end as int) == decoded(
                line@,
                from as int,
                end as int,
            ),
        decreases end - i,
    {
        let ghost before = text@;
        let mut step: usize = 1;
        let mut c: char = line[i];
        if c == '\\' && i + 1 < end {
            if let Some(value) = escape_of(line[i + 1]) {
                c = value;
                step = 2;
            }
        }
        text.push(c);
        assert(text@ + decoded(line@, i + step, end as int) =~= before + (seq![c] + decoded(
            line@,
            i + step,
            end as int,
        )));
        i += step;
    }
    text
}

pub(crate) fn read_suffix(line: &Vec<char>, k: usize) -> (read: (Suffix, bool, usize, bool))
    requires
        k <= line.len(),
    ensures
        read.0@ == scan_suffix(line@, k as int).suffix,
        read.1 == scan_suffix(line@, k as int).dot,
        read.3 == scan_suffix(line@, k as int).broken,
        !read.3 ==> read.2 == scan_suffix(line@, k as int).next,
        k <= read.2 <= line.len(),
{
    let n = line.len();
    if k < n && line[k] == '@' {
        let end = scan_tag(line, k + 1);
        (Suffix::Language(slice_of(line, k + 1, end)), false, end, false)
    } else if k < n && k + 1 < n && line[k] == '^' && line[k + 1] == '^' {
        if k + 2 < n && line[k + 2] == '<' {
            let close = scan_iri(line, k + 3);
            if close >= n {
                (Suffix::TypeIri(slice_of(line, k + 3, close)), false, n, true)
            } else {
                (Suffix::TypeIri(slice_of(line, k + 3, close)), false, close + 1, false)
            }
        } else {
            let end = scan_word(line, k + 2);
            let dot = end > k + 2 && line[end - 1] == '.';
            let stop = if dot {
                end - 1
            } else {
                end
            };
            (Suffix::TypeName(slice_of(line, k + 2, stop)), dot, end, false)
        }
    } else {
        (Suffix::Bare, false, k, false)
    }
}

/// Splits a line into its tokens.
pub fn lex_line(line: &Vec<char>) -> (tokens: Vec<Token>)
    ensures
        views(tokens@) == lex(line@),
{
    let n = line.len();
    let mut tokens: Vec<Token> = Vec::new();
    let mut i: usize = 0;
    assert(views(tokens@) + lex_from(line@, 0) =~= lex_from(line@, 0));
    while i < n
        invariant
            i <= n == line.len(),
            views(tokens@) + lex_from(line@, i as int) == lex_from(line@, 0),
        decreases n - i,
    {
        let ghost before = tokens@;
        let ghost rest = lex_from(line@, i as int);
        let c = line[i];
        if blank(c) {
            i += 1;
        } else if c == '#' {
            i = n;
        } else if c == ';' {
            tokens.push(Token::Semicolon);
            i += 1;
        } else if c == ',' {
            tokens.push(Token::Comma);
            i += 1;
        } else if c == '<' {
            let close = scan_iri(line, i + 1);
            if close >= n {
                tokens.push(Token::Broken);
                i = n;
            } else {
                tokens.push(Token::Iri(slice_of(line, i + 1, close)));
                i = close + 1;
            }
        } else if c == '"' {
            let close = scan_quote(line, i + 1);
            if close >= n {
                tokens.push(Token::Broken);
                i = n;
            } else {
                let (suffix, dot, next, broken) = read_suffix(line, close + 1);
                if broken {
                    tokens.push(Token::Broken);
                    i = n;
                } else {
                    tokens.push(Token::Text(decode(line, i + 1, close), suffix));
                    proof {
                        lemma_views_push(before, tokens@.last());
                    }
                    if dot {
                        let ghost middle = tokens@;
                        tokens.push(Token::Dot);
                        proof {
                            lemma_views_push(middle, tokens@.last());
                        }
                    }
                    i = next;
                }
            }
        } else {
            let end = scan_word(line, i + 1);
            if line[end - 1] == '.' {
                if end - 1 > i {
                    tokens.push(Token::Name(slice_of(line, i, end - 1)));
                    proof {
                        lemma_views_push(before, tokens@.last());
                    }
                }
                let ghost middle = tokens@;
                tokens.push(Token::Dot);
                proof {
                    lemma_views_push(middle, tokens@.last());
                }
            } else {
                tokens.push(Token::Name(slice_of(line, i, end)));
            }
            i = end;
        }
        proof {
            if tokens@.len() == before.len() + 1 {
                lemma_views_push(before, tokens@.last());
            }
            assert(views(tokens@) + lex_from(line@, i as int) =~= views(before) + rest);
        }
    }
    assert(views(tokens@) + lex_from(line@, i as int) =~= views(tokens@));
    tokens
}

} // verus!
