//! Tests of the completion graph and the tableau reasoner.

use owl2_rs::reasoner::{ClassHierarchy, CompletionGraph, TableauReasoner};
use owl2_rs::{
    Assertion, Axiom, Class, ClassAxiom, ClassExpression, IRI, Individual, NodeID,
    ObjectProperty, ObjectPropertyExpression, Ontology,
};

#[test]
fn test_completion_graph_creation() {
    let graph = CompletionGraph::new();
    assert_eq!(graph.nodes.len(), 0);
    assert_eq!(graph.next_fresh_id, 0);
}

#[test]
fn test_add_node() {
    let mut graph = CompletionGraph::new();
    let individual = Individual::Named(IRI("http://example.com/individual1".to_string()));
    let idx = graph.add_node(individual.clone());
    let node = &graph.nodes[idx];
    assert_eq!(node.individual, individual);
    assert_eq!(node.concepts.len(), 0);
    assert_eq!(node.roles.len(), 0);
    assert_eq!(graph.nodes.len(), 1);
}

#[test]
fn test_get_or_create_node() {
    let mut graph = CompletionGraph::new();
    let individual = Individual::Named(IRI("http://example.com/individual1".to_string()));

    let idx1 = graph.get_or_create_node(&individual);
    assert_eq!(graph.nodes[idx1].individual, individual);
    assert_eq!(graph.nodes.len(), 1);

    let idx2 = graph.get_or_create_node(&individual);
    assert_eq!(graph.nodes[idx2].individual, individual);
    assert_eq!(idx1, idx2);
    assert_eq!(graph.nodes.len(), 1);
}

#[test]
fn test_add_concept() {
    let mut graph = CompletionGraph::new();
    let individual = Individual::Named(IRI("http://example.com/individual1".to_string()));
    let class = ClassExpression::Class(Class(IRI("http://example.com/ClassA".to_string())));

    graph.add_concept(&individual, class.clone());

    let idx = graph.get_or_create_node(&individual);
    assert_eq!(graph.nodes[idx].concepts.len(), 1);
    assert_eq!(graph.nodes[idx].concepts[0], class);
}

#[test]
fn test_add_role() {
    let mut graph = CompletionGraph::new();
    let source = Individual::Named(IRI("http://example.com/source".to_string()));
    let target = Individual::Named(IRI("http://example.com/target".to_string()));
    let property = ObjectPropertyExpression::ObjectProperty(ObjectProperty(IRI(
        "http://example.com/prop".to_string(),
    )));

    graph.add_role(&source, property.clone(), target.clone());

    let idx = graph.get_or_create_node(&source);
    assert_eq!(graph.nodes[idx].roles.len(), 1);
    assert_eq!(graph.nodes[idx].roles[0].0, property);
    assert_eq!(graph.nodes[idx].roles[0].1, target);
}

#[test]
fn test_fresh_individual() {
    let mut graph = CompletionGraph::new();
    let individual1 = graph.fresh_individual();
    let individual2 = graph.fresh_individual();

    assert_ne!(individual1, individual2);
    if let Individual::Anonymous(node_id1) = individual1 {
        assert_eq!(node_id1.0, "_:fresh1");
    } else {
        panic!("Expected an anonymous individual");
    }

    if let Individual::Anonymous(node_id2) = individual2 {
        assert_eq!(node_id2.0, "_:fresh2");
    } else {
        panic!("Expected an anonymous individual");
    }

    assert_eq!(graph.next_fresh_id, 2);
}

#[test]
fn test_tableau_reasoner_creation() {
    let ontology = Ontology::default();
    let reasoner = TableauReasoner::new(ontology);
    assert_eq!(reasoner.ontology.axioms.len(), 0);
    assert_eq!(reasoner.graph.nodes.len(), 0);
}

#[test]
fn test_consistency_checker() {
    let mut reasoner = TableauReasoner::new(Ontology::default());
    assert!(reasoner.is_consistent());
}

#[test]
fn test_class_hierarchy_creation() {
    let hierarchy = ClassHierarchy::new();
    assert!(hierarchy.subclasses.is_empty());
    assert!(hierarchy.superclasses.is_empty());
}

#[test]
fn test_classify_empty_ontology() {
    let mut reasoner = TableauReasoner::new(Ontology::default());
    let hierarchy = reasoner.classify();
    assert!(hierarchy.subclasses.is_empty());
    assert!(hierarchy.superclasses.is_empty());
}

#[test]
fn reasoner_test_extract_classes() {
    let class_a = Class(IRI("http://example.com/A".to_string()));
    let class_b = Class(IRI("http://example.com/B".to_string()));
    let class_c = Class(IRI("http://example.com/C".to_string()));

    let ax = Axiom::Class(ClassAxiom::SubClassOf {
        sub_class: ClassExpression::Class(class_a.clone()),
        super_class: ClassExpression::Class(class_b.clone()),
    });

    let ontology = Ontology { direct_imports: vec![], axioms: vec![ax] };

    let reasoner = TableauReasoner::new(ontology);
    let classes = reasoner.extract_classes();

    assert_eq!(classes.len(), 2);
    assert!(classes.contains(&class_a));
    assert!(classes.contains(&class_b));
    assert!(!classes.contains(&class_c));
}

#[test]
fn reasoner_test_extract_classes_from_complex_expression() {
    let class_a = Class(IRI("http://example.com/A".to_string()));
    let class_b = Class(IRI("http://example.com/B".to_string()));

    let complex_expr = ClassExpression::ObjectIntersectionOf(vec![
        ClassExpression::Class(class_a.clone()),
        ClassExpression::Class(class_b.clone()),
    ]);

    let ax = Axiom::Class(ClassAxiom::SubClassOf {
        sub_class: complex_expr,
        super_class: ClassExpression::Class(class_a.clone()),
    });

    let ontology = Ontology { direct_imports: vec![], axioms: vec![ax] };

    let reasoner = TableauReasoner::new(ontology);
    let classes = reasoner.extract_classes();

    assert_eq!(classes.len(), 2);
    assert!(classes.contains(&class_a));
    assert!(classes.contains(&class_b));
}

#[test]
fn test_classification_basic_structure() {
    let class_a = Class(IRI("http://example.com/A".to_string()));
    let class_b = Class(IRI("http://example.com/B".to_string()));

    let ax = Axiom::Class(ClassAxiom::SubClassOf {
        sub_class: ClassExpression::Class(class_a.clone()),
        super_class: ClassExpression::Class(class_b.clone()),
    });

    let ontology = Ontology { direct_imports: vec![], axioms: vec![ax] };

    let mut reasoner = TableauReasoner::new(ontology);
    let hierarchy = reasoner.classify();

    // The asserted inclusion is entailed, so classification records it as a
    // direct relation in both maps.
    assert_eq!(hierarchy.superclasses.len(), 1);
    assert_eq!(hierarchy.subclasses.len(), 1);
    let (sub_key, supers) = &hierarchy.superclasses[0];
    assert_eq!(sub_key, &class_a);
    assert_eq!(supers, &vec![class_b.clone()]);
    let (super_key, subs) = &hierarchy.subclasses[0];
    assert_eq!(super_key, &class_b);
    assert_eq!(subs, &vec![class_a.clone()]);
}

#[test]
fn test_realization_empty_ontology() {
    let mut reasoner = TableauReasoner::new(Ontology::default());
    let individual_types = reasoner.realize();
    assert!(individual_types.is_empty());
}

#[test]
fn test_realization_with_individual() {
    let class_student = Class(IRI("http://example.com/Student".to_string()));
    let individual_john = Individual::Named(IRI("http://example.com/john".to_string()));

    let ax = Axiom::Assertion(Assertion::ClassAssertion {
        class: ClassExpression::Class(class_student.clone()),
        individual: individual_john.clone(),
    });

    let ontology = Ontology { direct_imports: vec![], axioms: vec![ax] };

    let mut reasoner = TableauReasoner::new(ontology);
    let individual_types = reasoner.realize();

    assert_eq!(individual_types.len(), 1);

    let (who, types) =
        individual_types.iter().find(|(i, _)| *i == individual_john).expect("john missing");
    assert_eq!(*who, individual_john);
    assert!(types.all.contains(&class_student));
    assert!(types.most_specific.contains(&class_student));
}

#[test]
fn test_instance_checking() {
    let class_student = Class(IRI("http://example.com/Student".to_string()));
    let class_person = Class(IRI("http://example.com/Person".to_string()));
    let individual_john = Individual::Named(IRI("http://example.com/john".to_string()));

    let ax = Axiom::Assertion(Assertion::ClassAssertion {
        class: ClassExpression::Class(class_student.clone()),
        individual: individual_john.clone(),
    });

    let ontology = Ontology { direct_imports: vec![], axioms: vec![ax] };

    let mut reasoner = TableauReasoner::new(ontology);

    assert!(reasoner.is_instance_of(&individual_john, &class_student));
    assert!(!reasoner.is_instance_of(&individual_john, &class_person));
}

#[test]
fn test_clash_detection() {
    let mut reasoner = TableauReasoner::new(Ontology::default());

    let individual = Individual::Named(IRI("http://example.com/individual1".to_string()));
    let class = ClassExpression::Class(Class(IRI("http://example.com/ClassA".to_string())));
    let complement = ClassExpression::ObjectComplementOf(Box::new(class.clone()));

    reasoner.graph.add_concept(&individual, class);
    reasoner.graph.add_concept(&individual, complement);

    assert!(reasoner.has_clash());
}

#[test]
fn test_conjunction_rule() {
    let mut reasoner = TableauReasoner::new(Ontology::default());

    let individual = Individual::Named(IRI("http://example.com/individual1".to_string()));
    let class_a = ClassExpression::Class(Class(IRI("http://example.com/ClassA".to_string())));
    let class_b = ClassExpression::Class(Class(IRI("http://example.com/ClassB".to_string())));

    let intersection =
        ClassExpression::ObjectIntersectionOf(vec![class_a.clone(), class_b.clone()]);

    reasoner.graph.add_concept(&individual, intersection);

    reasoner.apply_conjunction_rule();

    let idx = reasoner.graph.get_or_create_node(&individual);
    assert!(reasoner.graph.nodes[idx].concepts.contains(&class_a));
    assert!(reasoner.graph.nodes[idx].concepts.contains(&class_b));
}

#[test]
fn test_disjunction_rule() {
    let mut reasoner = TableauReasoner::new(Ontology::default());

    let individual = Individual::Named(IRI("http://example.com/individual1".to_string()));
    let class_a = ClassExpression::Class(Class(IRI("http://example.com/ClassA".to_string())));
    let class_b = ClassExpression::Class(Class(IRI("http://example.com/ClassB".to_string())));

    let union = ClassExpression::ObjectUnionOf(vec![class_a.clone(), class_b.clone()]);

    reasoner.graph.add_concept(&individual, union);

    let concept_added = reasoner.apply_disjunction_rule();

    assert!(concept_added);

    let idx = reasoner.graph.get_or_create_node(&individual);
    assert!(reasoner.graph.nodes[idx].concepts.contains(&class_a));
    assert!(!reasoner.graph.nodes[idx].concepts.contains(&class_b));
}

#[test]
fn test_existential_rule() {
    let mut reasoner = TableauReasoner::new(Ontology::default());

    let individual = Individual::Named(IRI("http://example.com/individual1".to_string()));
    let class_c = ClassExpression::Class(Class(IRI("http://example.com/ClassC".to_string())));
    let property = ObjectPropertyExpression::ObjectProperty(ObjectProperty(IRI(
        "http://example.com/prop".to_string(),
    )));

    let existential = ClassExpression::ObjectSomeValuesFrom {
        property: property.clone(),
        filler: Box::new(class_c.clone()),
    };

    reasoner.graph.add_concept(&individual, existential);

    let assertion_added = reasoner.apply_existential_rule();

    assert!(assertion_added);

    assert_eq!(reasoner.graph.nodes.len(), 2);
    let node = &reasoner.graph.nodes[0];
    assert_eq!(node.individual, individual);
    assert_eq!(node.roles.len(), 1);
    assert_eq!(node.roles[0].0, property);

    let target = node.roles[0].1.clone();
    let target_node = &reasoner.graph.nodes[1];
    assert_eq!(target_node.individual, target);
    assert!(target_node.concepts.contains(&class_c));
}

#[test]
fn test_universal_rule() {
    let mut reasoner = TableauReasoner::new(Ontology::default());

    let individual1 = Individual::Named(IRI("http://example.com/individual1".to_string()));
    let individual2 = Individual::Named(IRI("http://example.com/individual2".to_string()));
    let class_c = ClassExpression::Class(Class(IRI("http://example.com/ClassC".to_string())));
    let property = ObjectPropertyExpression::ObjectProperty(ObjectProperty(IRI(
        "http://example.com/prop".to_string(),
    )));

    let universal = ClassExpression::ObjectAllValuesFrom {
        property: property.clone(),
        filler: Box::new(class_c.clone()),
    };

    reasoner.graph.add_concept(&individual1, universal);
    reasoner.graph.add_role(&individual1, property.clone(), individual2.clone());
    reasoner.graph.get_or_create_node(&individual2);

    let concept_added = reasoner.apply_universal_rule();

    assert!(concept_added);

    let idx2 = reasoner.graph.get_or_create_node(&individual2);
    assert!(reasoner.graph.nodes[idx2].concepts.contains(&class_c));
}

#[test]
fn test_initialize_seeds_assertions() {
    let class_a = Class(IRI("http://example.com/A".to_string()));
    let john = Individual::Named(IRI("http://example.com/john".to_string()));
    let ax = Axiom::Assertion(Assertion::ClassAssertion {
        class: ClassExpression::Class(class_a.clone()),
        individual: john.clone(),
    });
    let ontology = Ontology { direct_imports: vec![], axioms: vec![ax] };
    let mut reasoner = TableauReasoner::new(ontology);
    reasoner.initialize();
    assert_eq!(reasoner.graph.nodes.len(), 1);
    assert_eq!(reasoner.graph.nodes[0].individual, john);
    assert!(reasoner.graph.nodes[0].concepts.contains(&ClassExpression::Class(class_a)));
}

#[test]
fn test_fresh_individuals_are_anonymous() {
    let mut graph = CompletionGraph::new();
    let i = graph.fresh_individual();
    assert!(matches!(i, Individual::Anonymous(NodeID(_))));
}
