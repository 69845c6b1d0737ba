//! A placeholder query endpoint over one ontology.
//!
//! Query answering is outside the scope of this crate: every query returns
//! a typed failure saying so, and the endpoint only holds the ontology.

use crate::api::{Owl2RsError, SpecOwl2RsError};
use crate::{Ontology, SpecOntology};
use vstd::prelude::*;
use vstd::string::StringExecFns;

verus! {

/// The rows a query would produce: the variable names and, for each result
/// row, the bindings from variable to value.
#[derive(Debug)]
pub struct SparqlResults {
    /// The variables of the query.
    pub variables: Vec<String>,
    /// One list of `(variable, value)` bindings per result row.
    pub bindings: Vec<Vec<(String, String)>>,
}

impl SparqlResults {
    /// Creates an empty result set.
    pub fn new() -> (r: Self)
        ensures
            r.variables@.len() == 0,
            r.bindings@.len() == 0,
    {
        SparqlResults { variables: Vec::new(), bindings: Vec::new() }
    }
}

/// The message returned for every query.
pub open spec fn spec_query_unavailable() -> Seq<char> {
    "SPARQL querying not yet implemented"@
}

/// A query endpoint bound to one ontology.
pub struct SparqlEndpoint {
    ontology: Ontology,
}

impl View for SparqlEndpoint {
    type V = SpecOntology;

    closed spec fn view(&self) -> SpecOntology {
        self.ontology@
    }
}

impl SparqlEndpoint {
    /// Creates an endpoint over the given ontology.
    pub fn new(ontology: Ontology) -> (r: Self)
        ensures
            r@ == ontology@,
    {
        SparqlEndpoint { ontology }
    }

    /// Answers a query.  Query answering is not available: the result is
    /// always the same typed failure.
    pub fn query(&self, query: &str) -> (r: Result<SparqlResults, Owl2RsError>)
        ensures
            r matches Err(e) && e@ matches SpecOwl2RsError::StreamingError(m) && m
                == spec_query_unavailable(),
    {
        Result::Err(
            Owl2RsError::StreamingError(String::from_str("SPARQL querying not yet implemented")),
        )
    }
}

} // verus!
