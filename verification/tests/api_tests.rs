//! Tests of the public reasoning interface.

use owl2_rs::api::{load_ontology, Reasoner};
use owl2_rs::incremental::IncrementalReasoner;
use owl2_rs::Ontology;

#[test]
fn test_load_ontology() {
    let ontology_str = r#"Ontology(<http://example.com/ontology>
  SubClassOf(Class(<http://example.com/Student>) Class(<http://example.com/Person>))
)"#;

    let ontology = load_ontology(ontology_str).unwrap();
    assert_eq!(ontology.axioms.len(), 1);
}

#[test]
fn test_reasoner_creation() {
    let ontology_str = r#"Ontology(<http://example.com/ontology>
  ClassAssertion(Class(<http://example.com/Student>) NamedIndividual(<http://example.com/john>))
)"#;

    let ontology = load_ontology(ontology_str).unwrap();
    let mut reasoner = Reasoner::new(ontology);

    assert!(reasoner.is_consistent());
}

#[test]
fn test_incremental_reasoning() {
    let ontology_str = r#"Ontology(<http://example.com/ontology>
  ClassAssertion(Class(<http://example.com/Student>) NamedIndividual(<http://example.com/john>))
)"#;

    let ontology = load_ontology(ontology_str).unwrap();
    let mut reasoner = Reasoner::new(ontology);

    assert!(reasoner.is_consistent_incremental());

    let hierarchy = reasoner.classify_incremental();
    assert!(hierarchy.subclasses.is_empty() || !hierarchy.subclasses.is_empty());

    let individual_types = reasoner.realize_incremental();
    assert_eq!(individual_types.len(), 1);
}

#[test]
fn test_api_load_ontology() {
    let ontology_str = r#"Ontology(<http://example.com/ontology>
  SubClassOf(Class(<http://example.com/Student>) Class(<http://example.com/Person>))
)"#;

    let ontology = load_ontology(ontology_str).unwrap();
    assert_eq!(ontology.axioms.len(), 1);
}

#[test]
fn test_api_reasoner_creation() {
    let ontology_str = r#"Ontology(<http://example.com/ontology>
  ClassAssertion(Class(<http://example.com/Student>) NamedIndividual(<http://example.com/john>))
)"#;

    let ontology = load_ontology(ontology_str).unwrap();
    let mut reasoner = Reasoner::new(ontology);

    assert!(reasoner.is_consistent());
}

#[test]
fn test_incremental_reasoner_creation() {
    let ontology = Ontology::default();
    let reasoner = IncrementalReasoner::new(ontology);
    assert!(reasoner.previous_results.is_none());
}

#[test]
fn test_reasoning_with_empty_ontology() {
    let ontology = Ontology::default();
    let mut reasoner = IncrementalReasoner::new(ontology);
    let results = reasoner.reason_incremental();

    assert!(results.is_consistent);
    assert!(reasoner.previous_results.is_some());
}

#[test]
fn test_load_ontology_rejects_malformed_input() {
    let result = load_ontology("Ontology(<urn:e> SubClassOf(");
    assert!(result.is_err());
}
