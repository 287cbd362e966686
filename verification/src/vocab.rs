//! The identifiers that the reader and the validator know by name.

use vstd::prelude::*;

verus! {

/// States that a subject belongs to a class. The word `a` stands for it in
/// the place of a predicate.
pub const TYPE_IDENTIFIER: &'static str = "http://www.w3.org/1999/02/22-rdf-syntax-ns#type";

/// The class of classes.
pub const CLASS_IDENTIFIER: &'static str = "http://www.w3.org/2002/07/owl#Class";

/// Gives a subject its name for readers.
pub const LABEL_IDENTIFIER: &'static str = "http://www.w3.org/2000/01/rdf-schema#label";

/// Gives a subject its description for readers.
pub const COMMENT_IDENTIFIER: &'static str = "http://www.w3.org/2000/01/rdf-schema#comment";

} // verus!
