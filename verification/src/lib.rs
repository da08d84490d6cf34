//! RDF statements: subject-predicate-object triples, parsed from a
//! Turtle/N-Triples-family textual syntax or built programmatically, and
//! collected in a graph store that notifies registered actions on every
//! insertion.

pub mod lowlevel;
pub mod parse;
