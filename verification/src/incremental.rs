//! Re-running the reasoning services as one bundle.
//!
//! Reasoning keeps no state between calls, so each run revalidates the whole
//! ontology; the previous results are kept only so that a caller can compare
//! runs.

use crate::reasoner::{
    ClassHierarchy, IndividualTypes, SpecHierarchy, SpecIndividualTypes, TableauReasoner,
    spec_classify, spec_consistent, spec_realize, spec_realization_seq,
};
use crate::{Individual, Ontology, SpecIndividual, SpecOntology};
use vstd::prelude::*;

verus! {

/// The results of one reasoning run: consistency, the class hierarchy, and
/// the individual types.
#[derive(Debug)]
pub struct ReasoningResults {
    /// The computed class hierarchy; empty when inconsistent.
    pub class_hierarchy: ClassHierarchy,
    /// The computed individual types; empty when inconsistent.
    pub individual_types: Vec<(Individual, IndividualTypes)>,
    /// Whether the ontology was found consistent.
    pub is_consistent: bool,
}

impl Default for ReasoningResults {
    /// Returns the results of reasoning over nothing: consistent and empty.
    fn default() -> (r: Self)
        ensures
            r.is_consistent,
            r.class_hierarchy@.subclasses.len() == 0,
            r.class_hierarchy@.superclasses.len() == 0,
            r.individual_types@.len() == 0,
    {
        ReasoningResults {
            class_hierarchy: ClassHierarchy::new(),
            individual_types: Vec::new(),
            is_consistent: true,
        }
    }
}

/// A reasoner that bundles the services into one run and keeps the last
/// results.
#[derive(Debug)]
pub struct IncrementalReasoner {
    tableau_reasoner: TableauReasoner,
    /// The results of the last run, kept for comparison.
    pub previous_results: Option<ReasoningResults>,
}

impl View for IncrementalReasoner {
    type V = SpecOntology;

    closed spec fn view(&self) -> SpecOntology {
        self.tableau_reasoner.ontology@
    }
}

impl IncrementalReasoner {
    /// The results kept from the last run, as mathematical values: the
    /// hierarchy, the realization entries, and the consistency verdict.
    pub closed spec fn spec_kept(&self) -> Option<
        (SpecHierarchy, Seq<(SpecIndividual, SpecIndividualTypes)>, bool),
    > {
        match self.previous_results {
            Option::Some(ref kept) => Option::Some(
                (
                    kept.class_hierarchy@,
                    spec_realization_seq(kept.individual_types@),
                    kept.is_consistent,
                ),
            ),
            Option::None => Option::None,
        }
    }

    /// Creates a reasoner with no previous results.
    pub fn new(ontology: Ontology) -> (r: Self)
        ensures
            r@ == ontology@,
            r.spec_kept() is None,
    {
        IncrementalReasoner { tableau_reasoner: TableauReasoner::new(ontology), previous_results: Option::None }
    }

    /// Runs all three services over the current ontology and keeps a copy of
    /// the results for later comparison.
    pub fn reason_incremental(&mut self) -> (r: ReasoningResults)
        ensures
            final(self)@ == old(self)@,
            r.is_consistent == spec_consistent(old(self)@),
            r.class_hierarchy@ == spec_classify(old(self)@),
            spec_realization_seq(r.individual_types@) == spec_realize(old(self)@),
            final(self).spec_kept() == Option::Some(
                (
                    spec_classify(old(self)@),
                    spec_realize(old(self)@),
                    spec_consistent(old(self)@),
                ),
            ),
    {
        let consistent = {
            let mut base = TableauReasoner::new(self.tableau_reasoner.ontology.clone());
            base.is_consistent()
        };
        let hierarchy = self.tableau_reasoner.classify();
        let types = self.tableau_reasoner.realize();
        let kept = ReasoningResults {
            class_hierarchy: self.tableau_reasoner.classify(),
            individual_types: self.tableau_reasoner.realize(),
            is_consistent: consistent,
        };
        self.previous_results = Option::Some(kept);
        ReasoningResults {
            class_hierarchy: hierarchy,
            individual_types: types,
            is_consistent: consistent,
        }
    }

    /// Forgets the previous results.
    pub fn clear_previous_results(&mut self)
        ensures
            final(self)@ == old(self)@,
            final(self).spec_kept() is None,
    {
        self.previous_results = Option::None;
    }
}

} // verus!
