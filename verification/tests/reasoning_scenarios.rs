//! End-to-end reasoning scenarios with exact expected outcomes.

use owl2_rs::api::{load_ontology, Reasoner};
use owl2_rs::owl2_profile::{check_profile_compliance, OwlProfile};
use owl2_rs::reasoner::{CompletionGraph, TableauReasoner};
use owl2_rs::{Class, ClassExpression, IRI, Individual};

#[test]
fn empty_ontology_is_consistent_with_nothing_to_report() {
    let ontology = load_ontology("Ontology(<urn:e>)").unwrap();
    let mut reasoner = Reasoner::new(ontology);
    assert!(reasoner.is_consistent());
    let hierarchy = reasoner.classify();
    assert!(hierarchy.subclasses.is_empty());
    assert!(hierarchy.superclasses.is_empty());
    let realization = reasoner.realize();
    assert!(realization.is_empty());
}

#[test]
fn direct_clash_is_inconsistent() {
    let ontology = load_ontology(
        "Ontology(<urn:e> ClassAssertion(Class(<u:A>) NamedIndividual(<u:i>)) ClassAssertion(ObjectComplementOf(Class(<u:A>)) NamedIndividual(<u:i>)))",
    )
    .unwrap();
    let mut reasoner = Reasoner::new(ontology);
    assert!(!reasoner.is_consistent());
}

#[test]
fn subsumption_by_transitivity() {
    let ontology = load_ontology(
        "Ontology(<urn:e> SubClassOf(Class(<u:Student>) Class(<u:Person>)) SubClassOf(Class(<u:GradStudent>) Class(<u:Student>)) ClassAssertion(Class(<u:GradStudent>) NamedIndividual(<u:j>)))",
    )
    .unwrap();
    let mut tableau = TableauReasoner::new(ontology);
    assert!(tableau.is_consistent());

    let j = Individual::Named(IRI("u:j".to_string()));
    let person = Class(IRI("u:Person".to_string()));
    let student = Class(IRI("u:Student".to_string()));
    let grad = Class(IRI("u:GradStudent".to_string()));

    assert!(tableau.is_instance_of(&j, &person));

    // The entailed chain is recorded as two direct links, and the composed
    // subsumption holds under the subsumption test itself.
    let hierarchy = tableau.classify();
    assert!(hierarchy
        .superclasses
        .iter()
        .any(|(c, sups)| *c == grad && sups.contains(&student)));
    assert!(hierarchy
        .superclasses
        .iter()
        .any(|(c, sups)| *c == student && sups.contains(&person)));
    assert!(tableau.is_subsumed_by(&grad, &person));
}

#[test]
fn disjointness_makes_shared_member_inconsistent() {
    let ontology = load_ontology(
        "Ontology(<urn:e> DisjointClasses(Class(<u:S>) Class(<u:E>)) ClassAssertion(Class(<u:S>) NamedIndividual(<u:i>)) ClassAssertion(Class(<u:E>) NamedIndividual(<u:i>)))",
    )
    .unwrap();
    let mut reasoner = Reasoner::new(ontology);
    assert!(!reasoner.is_consistent());
}

#[test]
fn existential_mints_fresh_successor_and_terminates() {
    let ontology = load_ontology(
        "Ontology(<urn:e> SubClassOf(Class(<u:Person>) ObjectSomeValuesFrom(ObjectProperty(<u:hasParent>) Class(<u:Person>))) ClassAssertion(Class(<u:Person>) NamedIndividual(<u:i>)))",
    )
    .unwrap();
    let mut reasoner = Reasoner::new(ontology);
    assert!(reasoner.is_consistent());
}

#[test]
fn el_violation_with_rl_conformance() {
    let ontology = load_ontology(
        "Ontology(<urn:e> SubClassOf(ObjectUnionOf(Class(<u:A>) Class(<u:B>)) Class(<u:C>)))",
    )
    .unwrap();
    let el = check_profile_compliance(&ontology, OwlProfile::EL);
    assert!(!el.conforms);
    assert!(el.violations.iter().any(|v| v.contains("subclass")));
    let rl = check_profile_compliance(&ontology, OwlProfile::RL);
    assert!(rl.conforms);
}

#[test]
fn consistency_is_deterministic_across_calls() {
    let ontology = load_ontology(
        "Ontology(<urn:e> SubClassOf(Class(<u:Student>) Class(<u:Person>)) ClassAssertion(Class(<u:Student>) NamedIndividual(<u:j>)))",
    )
    .unwrap();
    let mut reasoner = Reasoner::new(ontology);
    let first = reasoner.is_consistent();
    let second = reasoner.is_consistent();
    let third = reasoner.is_consistent();
    assert_eq!(first, second);
    assert_eq!(second, third);
    assert!(first);
}

#[test]
fn realization_reports_entailed_types_and_keeps_most_specific() {
    let ontology = load_ontology(
        "Ontology(<urn:e> SubClassOf(Class(<u:Student>) Class(<u:Person>)) ClassAssertion(Class(<u:Student>) NamedIndividual(<u:j>)))",
    )
    .unwrap();
    let mut tableau = TableauReasoner::new(ontology);
    let realization = tableau.realize();
    assert_eq!(realization.len(), 1);
    let j = Individual::Named(IRI("u:j".to_string()));
    let student = Class(IRI("u:Student".to_string()));
    let person = Class(IRI("u:Person".to_string()));
    let (who, types) = &realization[0];
    assert_eq!(*who, j);
    // Every reported class passes the instance test, and the most specific
    // set drops the strict superclass.
    assert!(types.all.contains(&student));
    assert!(types.all.contains(&person));
    assert!(types.most_specific.contains(&student));
    assert!(!types.most_specific.contains(&person));
    for c in &types.all {
        assert!(tableau.is_instance_of(&j, c));
    }
}

#[test]
fn inconsistent_ontology_yields_empty_services_and_trivial_entailments() {
    let ontology = load_ontology(
        "Ontology(<urn:e> ClassAssertion(Class(<u:A>) NamedIndividual(<u:i>)) ClassAssertion(ObjectComplementOf(Class(<u:A>)) NamedIndividual(<u:i>)))",
    )
    .unwrap();
    let mut tableau = TableauReasoner::new(ontology);
    assert!(!tableau.is_consistent());
    let hierarchy = tableau.classify();
    assert!(hierarchy.subclasses.is_empty());
    assert!(hierarchy.superclasses.is_empty());
    let realization = tableau.realize();
    assert!(realization.is_empty());
    // Ex falso: instance checks and subsumptions hold trivially.
    let b = Class(IRI("u:B".to_string()));
    let c = Class(IRI("u:C".to_string()));
    let i = Individual::Named(IRI("u:i".to_string()));
    assert!(tableau.is_instance_of(&i, &b));
    assert!(tableau.is_subsumed_by(&b, &c));
}

#[test]
fn parse_error_reports_position_of_trailing_input() {
    let err = load_ontology("Ontology(<urn:e>) trailing").unwrap_err();
    match err {
        owl2_rs::api::Owl2RsError::ParsingError(pe) => {
            assert_eq!(pe.position, 18);
            assert!(pe.message.contains("unexpected input"));
        },
        _ => panic!("expected a parse error"),
    }
}

#[test]
fn parse_error_reports_malformed_input() {
    let err = load_ontology("NotAnOntology(<urn:e>)").unwrap_err();
    match err {
        owl2_rs::api::Owl2RsError::ParsingError(pe) => {
            assert_eq!(pe.position, 0);
            assert!(pe.message.contains("grammar"));
        },
        _ => panic!("expected a parse error"),
    }
}

#[test]
fn cardinality_larger_than_u32_is_rejected() {
    let result = load_ontology(
        "Ontology(<urn:e> SubClassOf(Class(<u:A>) ObjectMinCardinality(4294967296 ObjectProperty(<u:p>) Class(<u:B>))))",
    );
    assert!(result.is_err());
}

#[test]
fn same_and_different_individuals_clash() {
    let ontology = load_ontology(
        "Ontology(<urn:e> SameIndividual(NamedIndividual(<u:a>) NamedIndividual(<u:b>)) DifferentIndividuals(NamedIndividual(<u:a>) NamedIndividual(<u:b>)))",
    )
    .unwrap();
    let mut reasoner = Reasoner::new(ontology);
    assert!(!reasoner.is_consistent());
}

#[test]
fn equivalent_classes_entail_mutual_subsumption() {
    let ontology = load_ontology(
        "Ontology(<urn:e> EquivalentClasses(Class(<u:A>) Class(<u:B>)))",
    )
    .unwrap();
    let tableau = TableauReasoner::new(ontology);
    let a = Class(IRI("u:A".to_string()));
    let b = Class(IRI("u:B".to_string()));
    assert!(tableau.is_subsumed_by(&a, &b));
    assert!(tableau.is_subsumed_by(&b, &a));
}

#[test]
fn disjunction_choice_backtracks() {
    // The first disjunct leads to a clash, so the search must fall back to
    // the second and report the ontology consistent.
    let ontology = load_ontology(
        "Ontology(<urn:e> ClassAssertion(ObjectUnionOf(Class(<u:A>) Class(<u:B>)) NamedIndividual(<u:i>)) SubClassOf(Class(<u:A>) Class(<u:C>)) SubClassOf(Class(<u:A>) ObjectComplementOf(Class(<u:C>))))",
    )
    .unwrap();
    let mut reasoner = Reasoner::new(ontology);
    assert!(reasoner.is_consistent());
}

#[test]
fn cardinality_bounds_clash() {
    let ontology = load_ontology(
        "Ontology(<urn:e> ClassAssertion(ObjectMinCardinality(2 ObjectProperty(<u:p>) Class(<u:A>)) NamedIndividual(<u:i>)) ClassAssertion(ObjectMaxCardinality(1 ObjectProperty(<u:p>) Class(<u:A>)) NamedIndividual(<u:i>)))",
    )
    .unwrap();
    let mut reasoner = Reasoner::new(ontology);
    assert!(!reasoner.is_consistent());
}

#[test]
fn forbidden_self_edge_clash() {
    let ontology = load_ontology(
        "Ontology(<urn:e> ObjectPropertyAssertion(ObjectProperty(<u:p>) NamedIndividual(<u:i>) NamedIndividual(<u:i>)) ClassAssertion(ObjectComplementOf(ObjectHasSelf(ObjectProperty(<u:p>))) NamedIndividual(<u:i>)))",
    )
    .unwrap();
    let mut reasoner = Reasoner::new(ontology);
    assert!(!reasoner.is_consistent());
}

#[test]
fn negative_assertion_seeds_both_nodes() {
    // Both ends of a negative object-property assertion get a node in the
    // completion graph.
    let ontology = load_ontology(
        "Ontology(<urn:e> NegativeObjectPropertyAssertion(ObjectProperty(<u:p>) NamedIndividual(<u:i>) NamedIndividual(<u:j>)))",
    )
    .unwrap();
    let mut tableau = TableauReasoner::new(ontology);
    assert!(tableau.is_consistent());
    assert_eq!(tableau.graph.nodes.len(), 2);
}

#[test]
fn nested_intersections_close_in_one_call() {
    let a = ClassExpression::Class(Class(IRI("u:A".to_string())));
    let b = ClassExpression::Class(Class(IRI("u:B".to_string())));
    let inner = ClassExpression::ObjectIntersectionOf(vec![a.clone(), b.clone()]);
    let outer = ClassExpression::ObjectIntersectionOf(vec![inner.clone()]);
    let i = Individual::Named(IRI("u:i".to_string()));
    let mut reasoner = TableauReasoner::new(
        load_ontology("Ontology(<urn:e>)").unwrap(),
    );
    let _ = CompletionGraph::new();
    reasoner.graph.add_concept(&i, outer);
    reasoner.apply_conjunction_rule();
    let idx = reasoner.graph.get_or_create_node(&i);
    assert!(reasoner.graph.nodes[idx].concepts.contains(&inner));
    assert!(reasoner.graph.nodes[idx].concepts.contains(&a));
    assert!(reasoner.graph.nodes[idx].concepts.contains(&b));
}
