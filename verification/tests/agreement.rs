use oxigraph::io::{RdfFormat, RdfParser};
use oxigraph::model::{BlankNode, Literal, NamedNode};
use oxigraph::sparql::{QueryResults, SparqlEvaluator};
use rdf_engine::engine::QueryAnswer;
use rdf_engine::parser::parse;
use rdf_engine::term::{LiteralKind, Term, Triple};

fn lines_of(triples: &[Triple]) -> Vec<String> {
    triples
        .iter()
        .map(|triple| {
            format!(
                "{} {} {}",
                triple.subject().to_text(),
                triple.predicate().to_text(),
                triple.object().to_text()
            )
        })
        .collect()
}

fn oxigraph_lines(text: &str, format: RdfFormat) -> Vec<String> {
    RdfParser::from_format(format)
        .for_slice(text)
        .map(|quad| {
            let quad = quad.unwrap();
            format!("{} {} {}", quad.subject, quad.predicate, quad.object)
        })
        .collect()
}

#[test]
fn statements_with_full_identifiers_read_as_oxigraph_reads_them() {
    let text = "<http://ex/a> <http://ex/p> <http://ex/b> .\n\
                <http://ex/a> <http://ex/q> \"plain\" .\n\
                <http://ex/b> <http://ex/q> \"chat\"@fr .\n\
                <http://ex/b> <http://ex/r> \"7\"^^<http://www.w3.org/2001/XMLSchema#integer> .\n\
                <http://ex/c> <http://ex/q> \"say \\\"hi\\\"\\n\\tnow\\\\\" .\n";
    let parsed = parse(text).unwrap();
    assert!(parsed.warnings.is_empty());
    assert_eq!(lines_of(&parsed.triples), oxigraph_lines(text, RdfFormat::NTriples));
}

#[test]
fn statements_with_labels_read_as_oxigraph_reads_them() {
    let text = "@prefix ex: <http://ex/> .\n\
                @prefix rdfs: <http://www.w3.org/2000/01/rdf-schema#> .\n\
                @prefix xsd: <http://www.w3.org/2001/XMLSchema#> .\n\
                # a thing and its properties\n\
                ex:Thing a ex:Class ;\n\
                    rdfs:label \"Thing\" , \"Ding\"@de ;\n\
                    ex:size \"3\"^^xsd:integer .\n\
                ex:Other ex:near ex:Thing . ex:Thing ex:near ex:Other .\n";
    let parsed = parse(text).unwrap();
    assert!(parsed.warnings.is_empty());
    assert_eq!(lines_of(&parsed.triples), oxigraph_lines(text, RdfFormat::Turtle));
}

#[test]
fn terms_are_written_as_oxigraph_writes_them() {
    let name = "http://ex/a#b";
    assert_eq!(
        Term::Identifier(name.to_string()).to_text(),
        NamedNode::new(name).unwrap().to_string()
    );
    assert_eq!(
        Term::BlankNode("b1".to_string()).to_text(),
        BlankNode::new("b1").unwrap().to_string()
    );
    for value in ["", "plain", "tab\tfeed\nreturn\r", "quote\" slash\\", "bell\u{7} del\u{7f}", "caf\u{e9} \u{1f600}"] {
        assert_eq!(
            Term::Literal(value.to_string(), LiteralKind::Plain).to_text(),
            Literal::new_simple_literal(value).to_string()
        );
        assert_eq!(
            Term::Literal(value.to_string(), LiteralKind::Language("en".to_string())).to_text(),
            Literal::new_language_tagged_literal(value, "en").unwrap().to_string()
        );
        assert_eq!(
            Term::Literal(value.to_string(), LiteralKind::Typed(name.to_string())).to_text(),
            Literal::new_typed_literal(value, NamedNode::new(name).unwrap()).to_string()
        );
    }
}

fn sorted_rows(mut rows: Vec<Vec<(String, String)>>) -> Vec<Vec<(String, String)>> {
    for row in rows.iter_mut() {
        row.sort();
    }
    rows.sort();
    rows
}

fn oxigraph_answer(store: &oxigraph::store::Store, query: &str) -> Result<QueryAnswer, String> {
    let prepared = SparqlEvaluator::new().parse_query(query).map_err(|error| error.to_string())?;
    match prepared.on_store(store).execute().map_err(|error| error.to_string())? {
        QueryResults::Boolean(value) => Ok(QueryAnswer::Boolean(value)),
        QueryResults::Solutions(solutions) => {
            let mut rows = Vec::new();
            for solution in solutions {
                let solution = solution.map_err(|error| error.to_string())?;
                rows.push(
                    solution.iter().map(|(name, term)| (name.as_str().to_string(), term.to_string())).collect(),
                );
            }
            Ok(QueryAnswer::Rows(rows))
        }
        QueryResults::Graph(_) => Err("graph".to_string()),
    }
}

#[test]
fn queries_are_answered_as_oxigraph_answers_them() {
    let text = "<http://ex/s> <http://ex/p1> <http://ex/o> .\n\
                <http://ex/s> <http://ex/p2> <http://ex/x> .\n\
                <http://ex/s> <http://ex/p3> <http://ex/o> .\n\
                <http://ex/t> <http://ex/p4> <http://ex/o> .\n\
                <http://ex/a> <http://ex/p> <http://ex/a> .\n\
                <http://ex/a> <http://ex/p> <http://ex/b> .\n\
                <http://ex/a> <http://www.w3.org/1999/02/22-rdf-syntax-ns#type> <http://ex/C> .\n\
                <http://ex/a> <http://ex/name> \"Anna\"@de .\n\
                <http://ex/a> <http://ex/name> \"say \\\"hi\\\"\" .\n\
                <http://ex/a> <http://ex/age> \"7\"^^<http://www.w3.org/2001/XMLSchema#integer> .\n";
    let reference = oxigraph::store::Store::new().unwrap();
    reference.load_from_slice(RdfFormat::NTriples, text).unwrap();
    let mut engine = rdf_engine::RDFEngine::new();
    assert_eq!(engine.execute_update(text), Ok(true));
    let queries = [
        "SELECT ?p WHERE { <http://ex/s> ?p <http://ex/o> }",
        "SELECT ?x WHERE { ?x <http://ex/p> ?x }",
        "SELECT * WHERE { ?s ?p ?o }",
        "SELECT * { ?s <http://ex/name> ?o . }",
        "select ?o ?s where { ?s <http://ex/p> ?o }",
        "SELECT ?s WHERE { ?s ?p ?o }",
        "SELECT ?none WHERE { ?s <http://ex/p> ?o }",
        "SELECT $s WHERE { $s a <http://ex/C> }",
        "SELECT * WHERE { ?x ?x ?x }",
        "SELECT * WHERE { <http://ex/a> <http://ex/p> <http://ex/b> }",
        "SELECT * WHERE { <http://ex/b> <http://ex/p> <http://ex/a> }",
        "SELECT ?s WHERE { ?s <http://ex/name> \"Anna\"@de }",
        "SELECT ?s WHERE { ?s <http://ex/name> \"Anna\" }",
        "SELECT ?s WHERE { ?s <http://ex/name> \"say \\\"hi\\\"\" }",
        "SELECT ?s WHERE { ?s <http://ex/age> \"7\"^^<http://www.w3.org/2001/XMLSchema#integer> }",
        "ASK { <http://ex/s> <http://ex/p1> <http://ex/o> }",
        "ASK { <http://ex/s> <http://ex/p1> <http://ex/x> }",
        "ASK WHERE { ?s <http://ex/p4> ?o }",
        "ask { ?s <http://ex/p5> ?o . }",
        "ASK { ?x <http://ex/p> ?x }",
        "ASK { \"Anna\" <http://ex/p> ?x }",
    ];
    for query in queries {
        let expected = oxigraph_answer(&reference, query).unwrap();
        let found = engine.execute_query(query).unwrap();
        match (found, expected) {
            (QueryAnswer::Boolean(found), QueryAnswer::Boolean(expected)) => {
                assert_eq!(found, expected, "{}", query)
            }
            (QueryAnswer::Rows(found), QueryAnswer::Rows(expected)) => {
                assert_eq!(sorted_rows(found), sorted_rows(expected), "{}", query)
            }
            _ => panic!("different kinds of answer for {}", query),
        }
    }
}

#[test]
fn texts_that_are_no_query_are_none_for_oxigraph_either() {
    let reference = oxigraph::store::Store::new().unwrap();
    let engine = rdf_engine::RDFEngine::new();
    for text in [
        "SELECT WHERE {",
        "?s ?p ?o",
        "<http://ex/a> <http://ex/b> <http://ex/c>",
        "SELECT * WHERE { ?s ?p }",
        "SELECT * WHERE { ?s ?p ?o",
        "SELECT WHERE { ?s ?p ?o }",
        "ASK { ex:a ex:p ex:b }",
        "ASK { ?s ?p \"open }",
        "ASK { a <http://ex/b> <http://ex/c> }",
        "SELECT ?s ?s WHERE { ?s ?p ?o }",
        "ASK { <http://ex/a b> ?p ?o }",
        "ASK { ?s ?p \"a\\qb\" }",
        "ASK { ?s ?p \"a\nb\" }",
        "ASK { ?s ?p ?o . . }",
        "",
    ] {
        assert!(oxigraph_answer(&reference, text).is_err(), "{}", text);
        assert_eq!(engine.execute_query(text).unwrap_err().fragment, text);
    }
}
