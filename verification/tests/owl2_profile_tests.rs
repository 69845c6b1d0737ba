//! Tests of the profile checkers over parsed ontologies.

use owl2_rs::api::{load_ontology, Reasoner};
use owl2_rs::owl2_profile::{check_profile_compliance, OwlProfile};

#[test]
fn test_owl2_el_profile() {
    let ontology_str = r#"Ontology(<http://example.com/ontology>
  SubClassOf(Class(<http://example.com/Student>) Class(<http://example.com/Person>))

  ObjectPropertyDomain(ObjectProperty(<http://example.com/hasParent>) Class(<http://example.com/Person>))
  ObjectPropertyRange(ObjectProperty(<http://example.com/hasParent>) Class(<http://example.com/Person>))

  DataPropertyDomain(DataProperty(<http://example.com/hasAge>) Class(<http://example.com/Person>))
  DataPropertyRange(DataProperty(<http://example.com/hasAge>) Datatype(<http://www.w3.org/2001/XMLSchema#integer>))

  FunctionalDataProperty(DataProperty(<http://example.com/hasAge>))

  ClassAssertion(Class(<http://example.com/Student>) NamedIndividual(<http://example.com/john>))
  ObjectPropertyAssertion(ObjectProperty(<http://example.com/hasParent>) NamedIndividual(<http://example.com/john>) NamedIndividual(<http://example.com/mary>))
  DataPropertyAssertion(DataProperty(<http://example.com/hasAge>) NamedIndividual(<http://example.com/john>) "22"^^<http://www.w3.org/2001/XMLSchema#integer>)
)"#;

    let ontology = load_ontology(ontology_str).expect("Failed to parse ontology");
    assert_eq!(ontology.axioms.len(), 9);

    let mut reasoner = Reasoner::new(ontology);
    assert!(reasoner.is_consistent());
}

#[test]
fn test_owl2_rl_profile() {
    let ontology_str = r#"Ontology(<http://example.com/ontology>
  SubClassOf(Class(<http://example.com/Student>) Class(<http://example.com/Person>))

  SubClassOf(Class(<http://example.com/Narcissist>) ObjectHasSelf(ObjectProperty(<http://example.com/loves>)))

  ObjectPropertyDomain(ObjectProperty(<http://example.com/hasParent>) Class(<http://example.com/Person>))
  ObjectPropertyRange(ObjectProperty(<http://example.com/hasParent>) Class(<http://example.com/Person>))

  ReflexiveObjectProperty(ObjectProperty(<http://example.com/loves>))
  SymmetricObjectProperty(ObjectProperty(<http://example.com/loves>))

  ClassAssertion(Class(<http://example.com/Student>) NamedIndividual(<http://example.com/john>))
  ObjectPropertyAssertion(ObjectProperty(<http://example.com/hasParent>) NamedIndividual(<http://example.com/john>) NamedIndividual(<http://example.com/mary>))
)"#;

    let ontology = load_ontology(ontology_str).expect("Failed to parse ontology");
    assert_eq!(ontology.axioms.len(), 8);

    let mut reasoner = Reasoner::new(ontology);
    assert!(reasoner.is_consistent());
}

#[test]
fn test_full_owl2_not_in_profiles() {
    let ontology_str = r#"Ontology(<http://example.com/ontology>
  SubClassOf(ObjectUnionOf(Class(<http://example.com/Student>) Class(<http://example.com/Employee>)) Class(<http://example.com/Person>))

  SubClassOf(Class(<http://example.com/Student>) ObjectComplementOf(Class(<http://example.com/Employee>)))

  SubClassOf(Class(<http://example.com/Manager>) ObjectAllValuesFrom(ObjectProperty(<http://example.com/worksFor>) Class(<http://example.com/Company>)))
)"#;

    let ontology = load_ontology(ontology_str).expect("Failed to parse ontology");
    assert_eq!(ontology.axioms.len(), 3);

    let mut reasoner = Reasoner::new(ontology);
    assert!(reasoner.is_consistent());
}

#[test]
fn test_profile_checking() {
    let el_ontology_str = r#"Ontology(<http://example.com/ontology>
  SubClassOf(Class(<http://example.com/Student>) Class(<http://example.com/Person>))

  ObjectPropertyDomain(ObjectProperty(<http://example.com/hasParent>) Class(<http://example.com/Person>))
  ObjectPropertyRange(ObjectProperty(<http://example.com/hasParent>) Class(<http://example.com/Person>))

  ClassAssertion(Class(<http://example.com/Student>) NamedIndividual(<http://example.com/john>))
)"#;

    let el_ontology = load_ontology(el_ontology_str).expect("Failed to parse EL ontology");
    assert_eq!(el_ontology.axioms.len(), 4);

    let full_ontology_str = r#"Ontology(<http://example.com/ontology>
  SubClassOf(ObjectUnionOf(Class(<http://example.com/Student>) Class(<http://example.com/Employee>)) Class(<http://example.com/Person>))
)"#;

    let full_ontology = load_ontology(full_ontology_str).expect("Failed to parse full ontology");
    assert_eq!(full_ontology.axioms.len(), 1);
}

#[test]
fn test_ql_profile_checking() {
    let ql_ontology_str = r#"Ontology(<http://example.com/ontology>
  SubClassOf(Class(<http://example.com/Student>) Class(<http://example.com/Person>))

  ObjectPropertyDomain(ObjectProperty(<http://example.com/hasParent>) Class(<http://example.com/Person>))

  ClassAssertion(Class(<http://example.com/Student>) NamedIndividual(<http://example.com/john>))
)"#;

    let ql_ontology = load_ontology(ql_ontology_str).expect("Failed to parse QL ontology");
    let ql_result = check_profile_compliance(&ql_ontology, OwlProfile::QL);
    assert!(ql_result.conforms);

    let non_ql_ontology_str = r#"Ontology(<http://example.com/ontology>
  TransitiveObjectProperty(ObjectProperty(<http://example.com/ancestorOf>))
)"#;

    let non_ql_ontology = load_ontology(non_ql_ontology_str).expect("Failed to parse ontology");
    let non_ql_result = check_profile_compliance(&non_ql_ontology, OwlProfile::QL);
    assert!(!non_ql_result.conforms);
}

#[test]
fn test_rl_profile_checking() {
    let rl_ontology_str = r#"Ontology(<http://example.com/ontology>
  SubClassOf(Class(<http://example.com/Student>) Class(<http://example.com/Person>))

  ObjectPropertyDomain(ObjectProperty(<http://example.com/hasParent>) Class(<http://example.com/Person>))

  ClassAssertion(Class(<http://example.com/Student>) NamedIndividual(<http://example.com/john>))
)"#;

    let rl_ontology = load_ontology(rl_ontology_str).expect("Failed to parse RL ontology");
    let rl_result = check_profile_compliance(&rl_ontology, OwlProfile::RL);
    assert!(rl_result.conforms);

    let non_rl_ontology_str = r#"Ontology(<http://example.com/ontology>
  ReflexiveObjectProperty(ObjectProperty(<http://example.com/knows>))
)"#;

    let non_rl_ontology = load_ontology(non_rl_ontology_str).expect("Failed to parse ontology");
    let non_rl_result = check_profile_compliance(&non_rl_ontology, OwlProfile::RL);
    assert!(!non_rl_result.conforms);
}

#[test]
fn test_el_profile_checker() {
    let el_ontology_str = r#"Ontology(<http://example.com/ontology>
          SubClassOf(Class(<http://example.com/Student>) Class(<http://example.com/Person>))

          ObjectPropertyDomain(ObjectProperty(<http://example.com/hasParent>) Class(<http://example.com/Person>))
          ObjectPropertyRange(ObjectProperty(<http://example.com/hasParent>) Class(<http://example.com/Person>))

          ClassAssertion(Class(<http://example.com/Student>) NamedIndividual(<http://example.com/john>))
        )"#;

    let ontology = load_ontology(el_ontology_str).expect("Failed to parse ontology");
    let result = check_profile_compliance(&ontology, OwlProfile::EL);

    assert!(result.conforms);
    assert!(result.violations.is_empty());
}

#[test]
fn test_non_el_profile_checker() {
    let full_ontology_str = r#"Ontology(<http://example.com/ontology>
  SubClassOf(ObjectUnionOf(Class(<http://example.com/Student>) Class(<http://example.com/Employee>)) Class(<http://example.com/Person>))
)"#;

    let ontology = load_ontology(full_ontology_str).expect("Failed to parse ontology");
    let result = check_profile_compliance(&ontology, OwlProfile::EL);

    assert!(!result.conforms);
    assert!(!result.violations.is_empty());
}
