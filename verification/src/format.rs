//! Serialization format tags accepted by the pipeline, and the parsing of a
//! caller-supplied format string into one of them.

use vstd::prelude::*;
use crate::strutil::str_eq;

verus! {

/// The RDF serialization formats the store adapter can load.
#[derive(Clone, Copy, Debug, PartialEq, Eq, Structural)]
pub enum RdfFormat {
    Turtle,
    NTriples,
    RdfXml,
}

/// Everything that can go wrong in the pipeline.
#[derive(Clone, Copy, Debug, PartialEq, Eq, Structural)]
pub enum VizError {
    /// Malformed or unsupported RDF input handed to a load.
    Load,
    /// The store reported a query failure.
    Query,
    /// An unrecognized format tag.
    Config,
}

/// The format tag, if any, that a format string denotes.
pub open spec fn format_of(s: Seq<char>) -> Option<RdfFormat> {
    if s == "turtle"@ || s == "ttl"@ {
        Some(RdfFormat::Turtle)
    } else if s == "ntriples"@ || s == "triple"@ {
        Some(RdfFormat::NTriples)
    } else if s == "rdfxml"@ {
        Some(RdfFormat::RdfXml)
    } else {
        None
    }
}

/// Parses a format tag string; any string other than the five accepted tags
/// is a configuration error.
pub fn format_from_str(format: &str) -> (r: Result<RdfFormat, VizError>)
    ensures
        r == match format_of(format@) {
            Some(f) => Ok::<RdfFormat, VizError>(f),
            None => Err::<RdfFormat, VizError>(VizError::Config),
        },
{
    if str_eq(format, "turtle") || str_eq(format, "ttl") {
        Ok(RdfFormat::Turtle)
    } else if str_eq(format, "ntriples") || str_eq(format, "triple") {
        Ok(RdfFormat::NTriples)
    } else if str_eq(format, "rdfxml") {
        Ok(RdfFormat::RdfXml)
    } else {
        Err(VizError::Config)
    }
}

} // verus!
