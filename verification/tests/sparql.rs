use rdf_engine::query::{Binding, Pattern, PatternTerm, Solutions};
use rdf_engine::sparql::{answer, lex_query, parse_query, Query, QueryToken, Selection};
use rdf_engine::store::Store;
use rdf_engine::term::{LiteralKind, Term, Triple};
use rdf_engine::vocab::TYPE_IDENTIFIER;

fn identifier(name: &str) -> Term {
    Term::Identifier(name.to_string())
}

fn is_variable(slot: &PatternTerm, name: &str) -> bool {
    matches!(slot, PatternTerm::Variable(own) if own == name)
}

fn is_constant(slot: &PatternTerm, term: &Term) -> bool {
    matches!(slot, PatternTerm::Constant(own) if own == term)
}

fn select(text: &str) -> (Selection, Pattern) {
    match parse_query(text).unwrap() {
        Query::Select(selection, pattern) => (selection, pattern),
        Query::Ask(_) => panic!("expected a selection"),
    }
}

fn ask(text: &str) -> Pattern {
    match parse_query(text).unwrap() {
        Query::Ask(pattern) => pattern,
        Query::Select(_, _) => panic!("expected a question"),
    }
}

fn refused(text: &str) -> bool {
    match parse_query(text) {
        Ok(_) => false,
        Err(error) => error.fragment == text,
    }
}

fn letters() -> Store {
    let mut store = Store::new();
    for (subject, predicate, object) in [("a", "p", "b"), ("b", "p", "b"), ("a", "q", "c")] {
        store.insert(Triple::new(identifier(subject), identifier(predicate), identifier(object)).unwrap());
    }
    store
}

fn names_of(solutions: Solutions) -> Vec<Vec<(String, Term)>> {
    match solutions {
        Solutions::Bindings(rows) => rows
            .into_iter()
            .map(|row| row.into_iter().map(|Binding { name, term }| (name, term)).collect())
            .collect(),
        Solutions::Boolean(_) => panic!("expected rows"),
    }
}

#[test]
fn query_text_splits_into_tokens() {
    let found = lex_query(&"SELECT*{?s<http://p>_:b.}".chars().collect());
    assert_eq!(found.len(), 8);
    assert!(matches!(&found[0], QueryToken::Word(word) if word.iter().collect::<String>() == "SELECT"));
    assert!(matches!(found[1], QueryToken::Star));
    assert!(matches!(found[2], QueryToken::Open));
    assert!(matches!(&found[3], QueryToken::Variable(name) if name.iter().collect::<String>() == "s"));
    assert!(matches!(&found[4], QueryToken::Iri(name) if name.iter().collect::<String>() == "http://p"));
    assert!(matches!(&found[5], QueryToken::Word(word) if word.iter().collect::<String>() == "_:b"));
    assert!(matches!(found[6], QueryToken::Dot));
    assert!(matches!(found[7], QueryToken::Close));
}

#[test]
fn query_text_ends_at_what_is_no_part_of_a_query() {
    let found = lex_query(&"ASK { ?s # ?p ?o }".chars().collect());
    assert_eq!(found.len(), 4);
    assert!(matches!(found[3], QueryToken::Bad));
    let found = lex_query(&"? x".chars().collect());
    assert_eq!(found.len(), 1);
    assert!(matches!(found[0], QueryToken::Bad));
    let found = lex_query(&"\"open".chars().collect());
    assert!(matches!(found[0], QueryToken::Bad));
    let found = lex_query(&"<open".chars().collect());
    assert!(matches!(found[0], QueryToken::Bad));
}

#[test]
fn select_of_all_variables_is_read() {
    let (selection, pattern) = select("SELECT * WHERE { ?s ?p ?o }");
    assert!(matches!(selection, Selection::All));
    assert!(is_variable(&pattern.subject, "s"));
    assert!(is_variable(&pattern.predicate, "p"));
    assert!(is_variable(&pattern.object, "o"));
}

#[test]
fn select_of_listed_variables_is_read() {
    let (selection, pattern) = select("SELECT ?o $s WHERE { ?s <http://ex/p> ?o }");
    assert!(matches!(&selection, Selection::Names(names) if *names == vec!["o".to_string(), "s".to_string()]));
    assert!(is_variable(&pattern.subject, "s"));
    assert!(is_constant(&pattern.predicate, &identifier("http://ex/p")));
    assert!(is_variable(&pattern.object, "o"));
}

#[test]
fn ask_is_read() {
    let pattern = ask("ASK { <http://ex/a> a \"x\"@en }");
    assert!(is_constant(&pattern.subject, &identifier("http://ex/a")));
    assert!(is_constant(&pattern.predicate, &identifier(TYPE_IDENTIFIER)));
    let object = Term::Literal("x".to_string(), LiteralKind::Language("en".to_string()));
    assert!(is_constant(&pattern.object, &object));
}

#[test]
fn terms_of_a_pattern_are_read() {
    let pattern = ask("ASK { _:b1 <p> \"7\"^^<http://t> }");
    assert!(is_constant(&pattern.subject, &Term::BlankNode("b1".to_string())));
    let object = Term::Literal("7".to_string(), LiteralKind::Typed("http://t".to_string()));
    assert!(is_constant(&pattern.object, &object));
    let pattern = ask("ASK { <s> <p> \"say \\\"hi\\\"\\n\" }");
    let object = Term::Literal("say \"hi\"\n".to_string(), LiteralKind::Plain);
    assert!(is_constant(&pattern.object, &object));
}

#[test]
fn keywords_are_read_in_either_case() {
    assert!(parse_query("select * where { ?s ?p ?o }").is_ok());
    assert!(parse_query("Select ?s Where { ?s ?p ?o }").is_ok());
    assert!(parse_query("ask { <a> <b> <c> }").is_ok());
    assert!(parse_query("AsK wHeRe { <a> <b> <c> }").is_ok());
}

#[test]
fn where_and_the_last_dot_may_be_left_out() {
    assert!(parse_query("SELECT * { ?s ?p ?o }").is_ok());
    assert!(parse_query("SELECT * WHERE { ?s ?p ?o . }").is_ok());
    assert!(parse_query("ASK WHERE { ?s ?p ?o }").is_ok());
    assert!(parse_query("  ASK\n{\n  <a>\t<b>\n<c>.}\n").is_ok());
    assert!(parse_query("SELECT*{?s?p?o}").is_ok());
}

#[test]
fn bare_pattern_is_no_query() {
    assert!(refused("?s ?p ?o"));
    assert!(refused("<a> <b> <c> ."));
    assert!(refused("{ ?s ?p ?o }"));
    assert!(refused(""));
    assert!(refused("   "));
}

#[test]
fn select_without_selection_or_group_is_no_query() {
    assert!(refused("SELECT WHERE {"));
    assert!(refused("SELECT WHERE { ?s ?p ?o }"));
    assert!(refused("SELECT { ?s ?p ?o }"));
    assert!(refused("SELECT *"));
    assert!(refused("SELECT * WHERE"));
    assert!(refused("SELECT * ?s WHERE { ?s ?p ?o }"));
    assert!(refused("SELECT ?s * WHERE { ?s ?p ?o }"));
    assert!(refused("SELECT <a> WHERE { ?s ?p ?o }"));
    assert!(refused("SELECT * WHERE WHERE { ?s ?p ?o }"));
    assert!(refused("SELECT * FROM { ?s ?p ?o }"));
    assert!(refused("ASK"));
    assert!(refused("ASK * { ?s ?p ?o }"));
    assert!(refused("ASK ?s { ?s ?p ?o }"));
    assert!(refused("CONSTRUCT { ?s ?p ?o }"));
    assert!(refused("SELECTS * { ?s ?p ?o }"));
}

#[test]
fn group_of_other_than_three_terms_is_no_query() {
    assert!(refused("SELECT * WHERE { }"));
    assert!(refused("SELECT * WHERE { ?s ?p }"));
    assert!(refused("SELECT * WHERE { ?s ?p ?o ?q }"));
    assert!(refused("SELECT * WHERE { ?s ?p ?o . ?a ?b ?c }"));
    assert!(refused("SELECT * WHERE { ?s ?p ?o . . }"));
    assert!(refused("SELECT * WHERE { ?s ?p ?o"));
    assert!(refused("SELECT * WHERE ?s ?p ?o }"));
    assert!(refused("SELECT * WHERE { ?s ?p ?o } ."));
    assert!(refused("SELECT * WHERE { ?s ?p ?o } LIMIT"));
    assert!(refused("SELECT * WHERE { { ?s ?p ?o } }"));
}

#[test]
fn word_that_is_no_term_is_no_query() {
    assert!(refused("SELECT WHERE {"));
    assert!(refused("ASK { SELECT WHERE x }"));
    assert!(refused("ASK { ex:a ex:p ex:b }"));
    assert!(refused("ASK { <a> <b> 42 }"));
    assert!(refused("ASK { <a> <b> true }"));
    assert!(refused("ASK { a <b> <c> }"));
    assert!(refused("ASK { <a> <b> a }"));
    assert!(refused("ASK { <a> <b> _: }"));
    assert!(refused("ASK { <a> <b> \"1\"^^xsd:integer }"));
    assert!(refused("ASK { <a> <b> 'c' }"));
    assert!(refused("ASK { <a> <b> ? }"));
    assert!(refused("ASK { <a> ; <c> }"));
    assert!(refused("ASK { <a> <b> \"open }"));
    assert!(refused("ASK { <a> <b> <open }"));
}

#[test]
fn variable_selected_twice_is_no_query() {
    assert!(refused("SELECT ?s ?s WHERE { ?s ?p ?o }"));
    assert!(refused("SELECT ?s ?p $s WHERE { ?s ?p ?o }"));
    assert!(parse_query("SELECT ?s ?p ?o ?q WHERE { ?s ?p ?o }").is_ok());
}

#[test]
fn identifier_with_what_cannot_stand_in_it_is_no_query() {
    assert!(refused("ASK { <a b> <p> <o> }"));
    assert!(refused("ASK { <a\tb> <p> <o> }"));
    assert!(refused("ASK { <a{b}> <p> <o> }"));
    assert!(refused("ASK { <a\"b> <p> <o> }"));
    assert!(refused("ASK { <a<b> <p> <o> }"));
    assert!(refused("ASK { <a|b> <p> <o> }"));
    assert!(refused("ASK { <a^b> <p> <o> }"));
    assert!(refused("ASK { <a`b> <p> <o> }"));
    assert!(refused("ASK { <a\\b> <p> <o> }"));
    assert!(parse_query("ASK { <http://ex/a?b=c#d> <p> <o> }").is_ok());
}

#[test]
fn quoted_text_with_unknown_escape_or_line_end_is_no_query() {
    assert!(refused("ASK { <s> <p> \"a\\qb\" }"));
    assert!(refused("ASK { <s> <p> \"a\\u0041\" }"));
    assert!(refused("ASK { <s> <p> \"a\nb\" }"));
    assert!(refused("ASK { <s> <p> \"a\rb\" }"));
    assert!(parse_query("ASK { <s> <p> \"a\\nb\\t\\\"c\\\\\\'\" }").is_ok());
}

#[test]
fn select_all_gives_every_variable_of_the_pattern() {
    let store = letters();
    let found = names_of(answer(&store, &parse_query("SELECT * { ?s <p> ?o }").unwrap()));
    assert_eq!(
        found,
        vec![
            vec![("s".to_string(), identifier("a")), ("o".to_string(), identifier("b"))],
            vec![("s".to_string(), identifier("b")), ("o".to_string(), identifier("b"))],
        ]
    );
}

#[test]
fn select_of_names_gives_those_that_are_bound_in_their_order() {
    let store = letters();
    let found = names_of(answer(&store, &parse_query("SELECT ?o ?none ?s { ?s <p> ?o }").unwrap()));
    assert_eq!(
        found,
        vec![
            vec![("o".to_string(), identifier("b")), ("s".to_string(), identifier("a"))],
            vec![("o".to_string(), identifier("b")), ("s".to_string(), identifier("b"))],
        ]
    );
    let found = names_of(answer(&store, &parse_query("SELECT ?x { ?x <p> ?x }").unwrap()));
    assert_eq!(found, vec![vec![("x".to_string(), identifier("b"))]]);
}

#[test]
fn select_without_variable_gives_an_empty_row_for_the_triple() {
    let store = letters();
    let found = names_of(answer(&store, &parse_query("SELECT * { <a> <p> <b> }").unwrap()));
    assert_eq!(found, vec![Vec::<(String, Term)>::new()]);
    let found = names_of(answer(&store, &parse_query("SELECT * { <b> <p> <a> }").unwrap()));
    assert!(found.is_empty());
}

#[test]
fn ask_gives_a_truth_value() {
    let store = letters();
    assert!(matches!(answer(&store, &parse_query("ASK { <a> <p> <b> }").unwrap()), Solutions::Boolean(true)));
    assert!(matches!(answer(&store, &parse_query("ASK { <b> <p> <a> }").unwrap()), Solutions::Boolean(false)));
    assert!(matches!(answer(&store, &parse_query("ASK { ?s <q> ?o }").unwrap()), Solutions::Boolean(true)));
    assert!(matches!(answer(&store, &parse_query("ASK { ?s <r> ?o }").unwrap()), Solutions::Boolean(false)));
    assert!(matches!(answer(&Store::new(), &parse_query("ASK { ?s ?p ?o }").unwrap()), Solutions::Boolean(false)));
}
