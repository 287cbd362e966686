use rdf_engine::engine::RDFEngine;
use rdf_engine::parser::parse;
use rdf_engine::term::{LiteralKind, Term, Triple};
use rdf_engine::validator::{validate, Diagnostic, Severity};
use rdf_engine::vocab::{CLASS_IDENTIFIER, COMMENT_IDENTIFIER, LABEL_IDENTIFIER, TYPE_IDENTIFIER};

const PREFIXES: &str = "@prefix rdfs: <http://www.w3.org/2000/01/rdf-schema#> .\n\
                        @prefix owl: <http://www.w3.org/2002/07/owl#> .\n\
                        @prefix ex: <http://ex/> .\n";

fn report(body: &str) -> Vec<Diagnostic> {
    let text = format!("{}{}", PREFIXES, body);
    validate(&parse(&text).unwrap().triples)
}

fn count(report: &[Diagnostic], severity: Severity) -> usize {
    report.iter().filter(|diagnostic| diagnostic.severity == severity).count()
}

#[test]
fn class_with_both_required_properties_passes() {
    let found = report("ex:Thing a owl:Class ;\n rdfs:label \"Thing\" ;\n rdfs:comment \"Any thing\" .\n");
    assert!(found.is_empty());
}

#[test]
fn one_required_property_and_one_other_give_exactly_one_warning() {
    let found = report("ex:Thing a owl:Class ;\n rdfs:label \"Thing\" ;\n ex:note \"Any thing\" .\n");
    assert_eq!(found.len(), 1);
    assert_eq!(found[0].severity, Severity::Warning);
    assert_eq!(
        found[0].message,
        "Triple <http://ex/Thing> <http://ex/note> \"Any thing\" uses non-standard predicate"
    );
}

#[test]
fn no_class_declaration_gives_exactly_one_error() {
    let found = report("ex:Thing rdfs:label \"Thing\" ;\n rdfs:comment \"Any thing\" .\n");
    assert_eq!(found.len(), 1);
    assert_eq!(found[0].severity, Severity::Error);
    assert_eq!(found[0].message, "No class definitions found.");
    assert_eq!(found[0].to_text(), "Error: No class definitions found.");
}

#[test]
fn empty_graph_gives_exactly_one_error() {
    let found = validate(&Vec::new());
    assert_eq!(found.len(), 1);
    assert_eq!(found[0].severity, Severity::Error);
    assert_eq!(found[0].message, "No class definitions found.");
}

#[test]
fn warnings_come_in_graph_order_before_the_error() {
    let found = report("ex:a ex:p ex:b .\nex:a rdfs:label \"a\" .\nex:b ex:q _:c .\nex:c ex:r \"d\"@en .\n");
    assert_eq!(found.len(), 4);
    assert_eq!(count(&found, Severity::Warning), 3);
    assert_eq!(count(&found, Severity::Error), 1);
    assert_eq!(found[0].message, "Triple <http://ex/a> <http://ex/p> <http://ex/b> uses non-standard predicate");
    assert_eq!(found[1].message, "Triple <http://ex/b> <http://ex/q> _:c uses non-standard predicate");
    assert_eq!(found[2].message, "Triple <http://ex/c> <http://ex/r> \"d\"@en uses non-standard predicate");
    assert_eq!(found[0].to_text(), "Warning: Triple <http://ex/a> <http://ex/p> <http://ex/b> uses non-standard predicate");
    assert_eq!(found[3].severity, Severity::Error);
}

#[test]
fn warning_quotes_a_literal_as_a_statement_would() {
    let found = report("ex:C a owl:Class .\nex:a ex:says \"she said \\\"no\\\"\\n\" .\n");
    assert_eq!(found.len(), 1);
    assert_eq!(
        found[0].message,
        "Triple <http://ex/a> <http://ex/says> \"she said \\\"no\\\"\\n\" uses non-standard predicate"
    );
}

#[test]
fn class_declaration_may_stand_anywhere() {
    let found = report("ex:a rdfs:label \"a\" .\nex:b rdfs:comment \"b\" .\nex:C a owl:Class .\n");
    assert!(found.is_empty());
}

#[test]
fn type_of_something_other_than_class_declares_no_class() {
    let found = report("ex:a a ex:Thing .\n");
    assert_eq!(found.len(), 1);
    assert_eq!(found[0].severity, Severity::Error);
}

#[test]
fn class_as_literal_or_under_another_predicate_declares_no_class() {
    let class = Term::Literal(CLASS_IDENTIFIER.to_string(), LiteralKind::Plain);
    let subject = || Term::Identifier("http://ex/a".to_string());
    let as_literal = Triple::new(subject(), Term::Identifier(TYPE_IDENTIFIER.to_string()), class).unwrap();
    let found = validate(&vec![as_literal]);
    assert_eq!(found.len(), 1);
    assert_eq!(found[0].severity, Severity::Error);
    let under_label = Triple::new(
        subject(),
        Term::Identifier(LABEL_IDENTIFIER.to_string()),
        Term::Identifier(CLASS_IDENTIFIER.to_string()),
    )
    .unwrap();
    let found = validate(&vec![under_label]);
    assert_eq!(found.len(), 1);
    assert_eq!(found[0].severity, Severity::Error);
}

#[test]
fn names_that_no_label_expands_are_not_standard() {
    let engine = RDFEngine::new();
    let found = engine.execute_validation("ex:C rdf:type owl:Class .").unwrap();
    assert_eq!(
        found,
        vec![
            "Warning: Triple <ex:C> <rdf:type> <owl:Class> uses non-standard predicate".to_string(),
            "Error: No class definitions found.".to_string(),
        ]
    );
}

#[test]
fn standard_identifiers_are_the_usual_ones() {
    assert_eq!(TYPE_IDENTIFIER, "http://www.w3.org/1999/02/22-rdf-syntax-ns#type");
    assert_eq!(CLASS_IDENTIFIER, "http://www.w3.org/2002/07/owl#Class");
    assert_eq!(LABEL_IDENTIFIER, "http://www.w3.org/2000/01/rdf-schema#label");
    assert_eq!(COMMENT_IDENTIFIER, "http://www.w3.org/2000/01/rdf-schema#comment");
}

#[test]
fn warning_message_names_the_three_terms() {
    assert_eq!(
        rdf_engine::validator::warning_message("<s>", "<p>", "\"o\""),
        "Triple <s> <p> \"o\" uses non-standard predicate"
    );
}
