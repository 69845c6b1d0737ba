//! The public face of the library: loading an ontology from functional-style
//! text and the reasoner with its five services.
//!
//! Every service is a pure function of the ontology: repeated calls on the
//! same ontology return the same result.

use crate::parser::{
    OWLParser, ParseError, spec_parse_ontology, spec_trailing_message, spec_no_match_message,
    spec_ws,
};
use crate::reasoner::{
    ClassHierarchy, IndividualTypes, TableauReasoner, CompletionGraph, spec_classify,
    spec_consistent, spec_realize, spec_realization_seq,
};
use crate::{Individual, Ontology, SpecOntology};
use vstd::prelude::*;

verus! {

/// Mathematical value of an [`Owl2RsError`].
pub enum SpecOwl2RsError {
    ParsingError(crate::parser::SpecParseError),
    StreamingError(Seq<char>),
}

/// The failures the library surfaces: a parse failure with its position and
/// description, or a feature that this crate does not carry out.
#[derive(Debug)]
pub enum Owl2RsError {
    /// The input did not match the functional-style grammar.
    ParsingError(ParseError),
    /// The requested operation is not available.
    StreamingError(String),
}

impl View for Owl2RsError {
    type V = SpecOwl2RsError;

    open spec fn view(&self) -> SpecOwl2RsError {
        match self {
            Owl2RsError::ParsingError(e) => SpecOwl2RsError::ParsingError(e@),
            Owl2RsError::StreamingError(m) => SpecOwl2RsError::StreamingError(m@),
        }
    }
}

/// Loads an ontology from a string in OWL 2 Functional-Style Syntax.
pub fn load_ontology(input: &str) -> (r: Result<Ontology, Owl2RsError>)
    ensures
        ({
            let p0 = spec_ws(input@, 0);
            match spec_parse_ontology(input@, p0) {
                Some((v, q)) => if q == input@.len() {
                    r matches Ok(o) && o@ == v
                } else {
                    r matches Err(e) && e@ matches SpecOwl2RsError::ParsingError(pe)
                        && pe.position == q && pe.message == spec_trailing_message()
                },
                None => (r matches Err(e) && e@ matches SpecOwl2RsError::ParsingError(pe)
                    && pe.position == p0 && pe.message == spec_no_match_message()),
            }
        }),
{
    match OWLParser::parse_ontology(input) {
        Result::Ok(o) => Result::Ok(o),
        Result::Err(e) => Result::Err(Owl2RsError::ParsingError(e)),
    }
}

/// A reasoner over one ontology, offering consistency, classification, and
/// realization.  Each service recomputes from the ontology, so results are
/// deterministic across repeated calls.
pub struct Reasoner {
    tableau_reasoner: TableauReasoner,
}

impl View for Reasoner {
    type V = SpecOntology;

    closed spec fn view(&self) -> SpecOntology {
        self.tableau_reasoner.ontology@
    }
}

impl Reasoner {
    /// Creates a reasoner for the given ontology.
    pub fn new(ontology: Ontology) -> (r: Self)
        ensures
            r@ == ontology@,
    {
        Reasoner { tableau_reasoner: TableauReasoner::new(ontology) }
    }

    /// Returns whether the ontology is consistent.
    pub fn is_consistent(&mut self) -> (r: bool)
        ensures
            final(self)@ == old(self)@,
            r == spec_consistent(old(self)@),
    {
        self.tableau_reasoner.graph = CompletionGraph::new();
        self.tableau_reasoner.is_consistent()
    }

    /// Computes the class hierarchy of direct subsumptions between the named
    /// classes; an inconsistent ontology yields an empty hierarchy.
    pub fn classify(&mut self) -> (r: ClassHierarchy)
        ensures
            final(self)@ == old(self)@,
            r@ == spec_classify(old(self)@),
    {
        self.tableau_reasoner.classify()
    }

    /// Computes the types of every individual the assertions mention; an
    /// inconsistent ontology yields no entries.
    pub fn realize(&mut self) -> (r: Vec<(Individual, IndividualTypes)>)
        ensures
            final(self)@ == old(self)@,
            spec_realization_seq(r@) == spec_realize(old(self)@),
    {
        self.tableau_reasoner.realize()
    }

    /// Checks consistency again from the current ontology.  Reasoning keeps
    /// no state between calls, so this returns the same answer as
    /// [`Reasoner::is_consistent`].
    pub fn is_consistent_incremental(&mut self) -> (r: bool)
        ensures
            final(self)@ == old(self)@,
            r == spec_consistent(old(self)@),
    {
        self.is_consistent()
    }

    /// Classifies again from the current ontology, returning the same
    /// hierarchy as [`Reasoner::classify`].
    pub fn classify_incremental(&mut self) -> (r: ClassHierarchy)
        ensures
            final(self)@ == old(self)@,
            r@ == spec_classify(old(self)@),
    {
        self.classify()
    }

    /// Realizes again from the current ontology, returning the same entries
    /// as [`Reasoner::realize`].
    pub fn realize_incremental(&mut self) -> (r: Vec<(Individual, IndividualTypes)>)
        ensures
            final(self)@ == old(self)@,
            spec_realization_seq(r@) == spec_realize(old(self)@),
    {
        self.realize()
    }
}

} // verus!
