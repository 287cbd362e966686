use rdf_engine::engine::{QueryAnswer, RDFEngine};
use rdf_engine::parser::ParseFatal;

fn rows(answer: QueryAnswer) -> Vec<Vec<(String, String)>> {
    match answer {
        QueryAnswer::Rows(rows) => rows,
        QueryAnswer::Boolean(_) => panic!("expected rows"),
    }
}

fn truth(answer: QueryAnswer) -> bool {
    match answer {
        QueryAnswer::Boolean(value) => value,
        QueryAnswer::Rows(_) => panic!("expected a truth value"),
    }
}

fn cell(name: &str, value: &str) -> (String, String) {
    (name.to_string(), value.to_string())
}

#[test]
fn bfg9k_rdf_engine_test_basic_validation() {
    let engine = RDFEngine::new();
    let ttl = r#"
            @prefix rdf: <http://www.w3.org/1999/02/22-rdf-syntax-ns#> .
            @prefix rdfs: <http://www.w3.org/2000/01/rdf-schema#> .
            @prefix owl: <http://www.w3.org/2002/07/owl#> .

            :TestClass a owl:Class ;
                rdfs:label "Test Class" ;
                rdfs:comment "A test class" .
        "#;

    let results = engine.execute_validation(ttl).unwrap();
    assert!(results.is_empty());
}

#[test]
fn lib_test_basic_validation() {
    let engine = RDFEngine::new();
    let ttl = r#"
            @prefix rdf: <http://www.w3.org/1999/02/22-rdf-syntax-ns#> .
            @prefix rdfs: <http://www.w3.org/2000/01/rdf-schema#> .
            @prefix owl: <http://www.w3.org/2002/07/owl#> .

            :TestClass a owl:Class ;
                rdfs:label "Test Class" ;
                rdfs:comment "A test class" .
        "#;

    let results = engine.execute_validation(ttl).unwrap();
    assert!(results.is_empty());
}

#[test]
fn new_engine_is_empty() {
    let engine = RDFEngine::new();
    assert_eq!(engine.store().len(), 0);
    assert!(engine.store().all().is_empty());
}

#[test]
fn update_inserts_each_statement_once() {
    let mut engine = RDFEngine::new();
    let text = "<http://ex/a> <http://ex/p> <http://ex/b> .\n\
                <http://ex/b> <http://ex/p> <http://ex/c> .\n\
                <http://ex/c> <http://ex/q> \"end\" .\n";
    assert_eq!(engine.execute_update(text), Ok(true));
    assert_eq!(engine.store().len(), 3);
    assert_eq!(engine.execute_update(text), Ok(true));
    assert_eq!(engine.store().len(), 3);
}

#[test]
fn update_skips_repeated_statements_of_one_text() {
    let mut engine = RDFEngine::new();
    let text = "a b c\na b c\na b d\n";
    assert_eq!(engine.execute_update(text), Ok(true));
    assert_eq!(engine.store().len(), 2);
}

#[test]
fn update_with_warnings_still_completes() {
    let mut engine = RDFEngine::new();
    assert_eq!(engine.execute_update("only two\n<a> <b> <c> .\n"), Ok(true));
    assert_eq!(engine.store().len(), 1);
}

#[test]
fn failed_update_leaves_the_store_alone() {
    let mut engine = RDFEngine::new();
    assert_eq!(engine.execute_update("<a> <b> <c> ."), Ok(true));
    let text = "<d> <e> <f> .\n@prefix broken <http://ex/> .\n<g> <h> <i> .\n";
    assert_eq!(engine.execute_update(text), Err(ParseFatal { line: 2 }));
    assert_eq!(engine.store().len(), 1);
    assert!(truth(engine.execute_query("ASK { <a> <b> <c> }").unwrap()));
    assert!(!truth(engine.execute_query("ASK { <d> <e> <f> }").unwrap()));
}

#[test]
fn query_on_empty_engine_finds_nothing() {
    let engine = RDFEngine::new();
    assert!(rows(engine.execute_query("SELECT * WHERE { ?s ?p ?o }").unwrap()).is_empty());
    assert!(rows(engine.execute_query("SELECT ?p WHERE { <a> ?p <c> }").unwrap()).is_empty());
    assert!(!truth(engine.execute_query("ASK { <a> <b> <c> }").unwrap()));
    assert!(!truth(engine.execute_query("ASK { ?s ?p ?o }").unwrap()));
}

#[test]
fn query_gives_rows_of_text() {
    let mut engine = RDFEngine::new();
    let text = "@prefix ex: <http://ex/> .\n\
                ex:a a ex:Thing .\n\
                ex:b a ex:Other .\n\
                ex:a ex:name \"Anna\"@de .\n";
    assert_eq!(engine.execute_update(text), Ok(true));
    let found = rows(engine.execute_query("SELECT * WHERE { ?subject a ?object }").unwrap());
    assert_eq!(
        found,
        vec![
            vec![cell("subject", "<http://ex/a>"), cell("object", "<http://ex/Thing>")],
            vec![cell("subject", "<http://ex/b>"), cell("object", "<http://ex/Other>")],
        ]
    );
    let names = rows(
        engine.execute_query("select ?n where { <http://ex/a> <http://ex/name> ?n . }").unwrap(),
    );
    assert_eq!(names, vec![vec![cell("n", "\"Anna\"@de")]]);
}

#[test]
fn query_binds_predicate_variable_to_each_predicate() {
    let mut engine = RDFEngine::new();
    let text = "<http://ex/s> <http://ex/p1> <http://ex/o> .\n\
                <http://ex/s> <http://ex/p2> <http://ex/x> .\n\
                <http://ex/s> <http://ex/p3> <http://ex/o> .\n\
                <http://ex/t> <http://ex/p4> <http://ex/o> .";
    assert_eq!(engine.execute_update(text), Ok(true));
    let found =
        rows(engine.execute_query("SELECT ?p WHERE { <http://ex/s> ?p <http://ex/o> }").unwrap());
    assert_eq!(
        found,
        vec![vec![cell("p", "<http://ex/p1>")], vec![cell("p", "<http://ex/p3>")]]
    );
}

#[test]
fn query_with_repeated_variable_binds_where_both_places_agree() {
    let mut engine = RDFEngine::new();
    let text = "<http://ex/a> <http://ex/p> <http://ex/a> .\n\
                <http://ex/a> <http://ex/p> <http://ex/b> .";
    assert_eq!(engine.execute_update(text), Ok(true));
    let found = rows(engine.execute_query("SELECT ?x WHERE { ?x <http://ex/p> ?x }").unwrap());
    assert_eq!(found, vec![vec![cell("x", "<http://ex/a>")]]);
}

#[test]
fn query_shows_the_selected_variables_in_their_order() {
    let mut engine = RDFEngine::new();
    assert_eq!(engine.execute_update("<a> <b> <c> .\n<d> <b> \"e\" ."), Ok(true));
    let found = rows(engine.execute_query("SELECT ?o ?s WHERE { ?s <b> ?o }").unwrap());
    assert_eq!(
        found,
        vec![
            vec![cell("o", "<c>"), cell("s", "<a>")],
            vec![cell("o", "\"e\""), cell("s", "<d>")],
        ]
    );
    let found = rows(engine.execute_query("SELECT ?s WHERE { ?s ?p ?o }").unwrap());
    assert_eq!(found, vec![vec![cell("s", "<a>")], vec![cell("s", "<d>")]]);
    let found = rows(engine.execute_query("SELECT ?other WHERE { ?s <b> <c> }").unwrap());
    assert_eq!(found, vec![Vec::<(String, String)>::new()]);
}

#[test]
fn query_asks_whether_anything_matches() {
    let mut engine = RDFEngine::new();
    assert_eq!(engine.execute_update("<a> <b> <c> ."), Ok(true));
    assert!(truth(engine.execute_query("ASK { <a> <b> <c> }").unwrap()));
    assert!(truth(engine.execute_query("ask where { ?s <b> ?o . }").unwrap()));
    assert!(!truth(engine.execute_query("ASK { ?s <c> ?o }").unwrap()));
    assert!(!truth(engine.execute_query("ASK { ?x <b> ?x }").unwrap()));
}

#[test]
fn query_text_that_is_no_query_comes_back() {
    let engine = RDFEngine::new();
    for text in [
        "SELECT WHERE {",
        "?s ?p ?o",
        "<a> <b> <c>",
        "SELECT * WHERE { ?s ?p }",
        "SELECT * WHERE { ?s ?p \"open }",
        "",
    ] {
        let error = engine.execute_query(text).unwrap_err();
        assert_eq!(error.fragment, text);
    }
}

#[test]
fn validation_does_not_touch_the_store() {
    let mut engine = RDFEngine::new();
    assert_eq!(engine.execute_update("<a> <b> <c> ."), Ok(true));
    let report = engine.execute_validation("<x> <y> <z> .").unwrap();
    assert_eq!(
        report,
        vec![
            "Warning: Triple <x> <y> <z> uses non-standard predicate".to_string(),
            "Error: No class definitions found.".to_string(),
        ]
    );
    assert_eq!(engine.store().len(), 1);
}

#[test]
fn validation_ignores_what_the_store_holds() {
    let mut engine = RDFEngine::new();
    let class = "<http://ex/C> <http://www.w3.org/1999/02/22-rdf-syntax-ns#type> \
                 <http://www.w3.org/2002/07/owl#Class> .";
    assert_eq!(engine.execute_update(class), Ok(true));
    let report = engine.execute_validation("").unwrap();
    assert_eq!(report, vec!["Error: No class definitions found.".to_string()]);
}

#[test]
fn validation_warns_once_for_a_repeated_statement() {
    let engine = RDFEngine::new();
    let report = engine.execute_validation("<x> <y> <z> .\n<x> <y> <z> .\n").unwrap();
    assert_eq!(report.len(), 2);
}

#[test]
fn validation_of_unreadable_text_fails() {
    let engine = RDFEngine::new();
    assert_eq!(engine.execute_validation("@prefix"), Err(ParseFatal { line: 1 }));
}
