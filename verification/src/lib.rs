//! Extraction pipeline that turns the class-edge rows of an RDF/OWL
//! ontology-and-instance dataset into a deduplicated, colored
//! class-relationship graph, serialized as Graphviz DOT or D2 text.
//!
//! The RDF triple store and its SPARQL engine are external collaborators:
//! the host loads the dataset, runs the structural edge query, and answers
//! the subclass/equivalence ASK queries this library phrases. Everything on
//! this side of that boundary — label rewriting, filtering, deduplication,
//! color resolution, serialization — is verified.

pub mod color;
pub mod format;
pub mod graph;
pub mod render;
pub mod rewrite;
pub mod strutil;
pub mod viz;
