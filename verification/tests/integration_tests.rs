//! End-to-end tests: parse a document, then reason over it.

use owl2_rs::parser::OWLParser;
use owl2_rs::reasoner::TableauReasoner;

struct OWL2TestCase {
    name: String,
    ontology_str: String,
    expected_consistent: bool,
}

fn run_owl2_case(test_case: OWL2TestCase) {
    let ontology = OWLParser::parse_ontology(&test_case.ontology_str)
        .unwrap_or_else(|_| panic!("Failed to parse ontology for test case: {}", test_case.name));

    let mut reasoner = TableauReasoner::new(ontology);

    let is_consistent = reasoner.is_consistent();
    assert_eq!(
        is_consistent, test_case.expected_consistent,
        "Consistency check failed for test case: {}. Expected: {}, Got: {}",
        test_case.name, test_case.expected_consistent, is_consistent
    );
}

#[test]
fn test_basic_consistency() {
    let test_case = OWL2TestCase {
        name: "Basic Consistency Test".to_string(),
        ontology_str: r#"Ontology(<http://example.com/test>
  ClassAssertion(Class(<http://example.com/Student>) NamedIndividual(<http://example.com/john>))
)"#
        .to_string(),
        expected_consistent: true,
    };

    run_owl2_case(test_case);
}

#[test]
fn test_inconsistent_ontology() {
    let test_case = OWL2TestCase {
        name: "Inconsistent Ontology Test".to_string(),
        ontology_str: r#"Ontology(<http://example.com/test>
  ClassAssertion(Class(<http://example.com/Student>) NamedIndividual(<http://example.com/john>))
  ClassAssertion(ObjectComplementOf(Class(<http://example.com/Student>)) NamedIndividual(<http://example.com/john>))
)"#
        .to_string(),
        expected_consistent: false,
    };

    run_owl2_case(test_case);
}

#[test]
fn test_subclass_relationship() {
    let test_case = OWL2TestCase {
        name: "Subclass Relationship Test".to_string(),
        ontology_str: r#"Ontology(<http://example.com/test>
  SubClassOf(Class(<http://example.com/Student>) Class(<http://example.com/Person>))
  ClassAssertion(Class(<http://example.com/Student>) NamedIndividual(<http://example.com/john>))
)"#
        .to_string(),
        expected_consistent: true,
    };

    run_owl2_case(test_case);
}

#[test]
fn test_ontology_with_comments() {
    let test_case = OWL2TestCase {
        name: "Ontology with Comments Test".to_string(),
        ontology_str: r#"Ontology(<http://example.com/test>
  # This is a comment
  SubClassOf(Class(<http://example.com/Student>) Class(<http://example.com/Person>))
  # Another comment
  ClassAssertion(Class(<http://example.com/Student>) NamedIndividual(<http://example.com/john>))
  # Final comment
)"#
        .to_string(),
        expected_consistent: true,
    };

    run_owl2_case(test_case);
}
