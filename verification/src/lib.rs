//! An in-memory graph store for subject–predicate–object statements: a
//! tolerant text reader, a duplicate-free insertion-ordered store with a
//! predicate index, `SELECT` and `ASK` queries over one triple pattern, and
//! structural validation.

pub mod term;
pub mod vocab;
pub mod text;
pub mod lexer;
pub mod store;
pub mod parser;
pub mod query;
pub mod sparql;
pub mod validator;
pub mod engine;

pub use crate::engine::RDFEngine;
