//! Tests of the data model: construction and structural equality.

use owl2_rs::{
    Assertion, Axiom, Class, ClassAxiom, ClassExpression, DataProperty, DataPropertyAxiom,
    DataRange, Datatype, Entity, IRI, Individual, Literal, NodeID, ObjectProperty,
    ObjectPropertyAxiom, ObjectPropertyExpression, Ontology,
};

#[test]
fn test_iri_creation() {
    let iri = IRI("http://example.com/class".to_string());
    assert_eq!(iri.0, "http://example.com/class");
}

#[test]
fn test_entity_creation() {
    let class_entity = Entity::Class(Class(IRI("http://example.com/class".to_string())));
    assert!(matches!(class_entity, Entity::Class(_)));

    let datatype_entity =
        Entity::Datatype(Datatype(IRI("http://www.w3.org/2001/XMLSchema#string".to_string())));
    assert!(matches!(datatype_entity, Entity::Datatype(_)));

    let object_property_entity =
        Entity::ObjectProperty(ObjectProperty(IRI("http://example.com/hasPart".to_string())));
    assert!(matches!(object_property_entity, Entity::ObjectProperty(_)));

    let data_property_entity =
        Entity::DataProperty(DataProperty(IRI("http://example.com/hasAge".to_string())));
    assert!(matches!(data_property_entity, Entity::DataProperty(_)));

    let annotation_property_entity =
        Entity::AnnotationProperty(IRI("http://example.com/comment".to_string()));
    assert!(matches!(annotation_property_entity, Entity::AnnotationProperty(_)));

    let named_individual_entity =
        Entity::NamedIndividual(IRI("http://example.com/individual1".to_string()));
    assert!(matches!(named_individual_entity, Entity::NamedIndividual(_)));
}

#[test]
fn test_class_creation() {
    let class = Class(IRI("http://example.com/MyClass".to_string()));
    assert_eq!(class.0 .0, "http://example.com/MyClass");
}

#[test]
fn test_datatype_creation() {
    let datatype = Datatype(IRI("http://www.w3.org/2001/XMLSchema#string".to_string()));
    assert_eq!(datatype.0 .0, "http://www.w3.org/2001/XMLSchema#string");
}

#[test]
fn test_object_property_creation() {
    let object_property = ObjectProperty(IRI("http://example.com/hasPart".to_string()));
    assert_eq!(object_property.0 .0, "http://example.com/hasPart");
}

#[test]
fn test_data_property_creation() {
    let data_property = DataProperty(IRI("http://example.com/hasAge".to_string()));
    assert_eq!(data_property.0 .0, "http://example.com/hasAge");
}

#[test]
fn test_individual_creation() {
    let named_individual = Individual::Named(IRI("http://example.com/individual".to_string()));
    assert!(matches!(named_individual, Individual::Named(_)));

    let anonymous_individual = Individual::Anonymous(NodeID("_:b1".to_string()));
    assert!(matches!(anonymous_individual, Individual::Anonymous(_)));
}

#[test]
fn test_node_id_creation() {
    let node_id = NodeID("_:b1".to_string());
    assert_eq!(node_id.0, "_:b1");
}

#[test]
fn test_literal_creation() {
    let literal = Literal {
        value: "hello".to_string(),
        datatype: Datatype(IRI("http://www.w3.org/2001/XMLSchema#string".to_string())),
        lang: Some("en".to_string()),
    };
    assert_eq!(literal.value, "hello");
    assert_eq!(literal.lang, Some("en".to_string()));
}

#[test]
fn test_subclassof_axiom() {
    let child_class = Class(IRI("http://example.com/child".to_string()));
    let parent_class = Class(IRI("http://example.com/parent".to_string()));

    let ax = ClassAxiom::SubClassOf {
        sub_class: ClassExpression::Class(child_class.clone()),
        super_class: ClassExpression::Class(parent_class.clone()),
    };

    if let ClassAxiom::SubClassOf { sub_class, super_class } = ax {
        assert_eq!(sub_class, ClassExpression::Class(child_class));
        assert_eq!(super_class, ClassExpression::Class(parent_class));
    } else {
        panic!("Axiom is not SubClassOf");
    }
}

#[test]
fn test_subobjectpropertyof_axiom() {
    let sub_prop = ObjectProperty(IRI("http://example.com/subProp".to_string()));
    let super_prop = ObjectProperty(IRI("http://example.com/superProp".to_string()));

    let ax = ObjectPropertyAxiom::SubObjectPropertyOf {
        sub_property: ObjectPropertyExpression::ObjectProperty(sub_prop.clone()),
        super_property: ObjectPropertyExpression::ObjectProperty(super_prop.clone()),
    };

    if let ObjectPropertyAxiom::SubObjectPropertyOf { sub_property, super_property } = ax {
        assert_eq!(sub_property, ObjectPropertyExpression::ObjectProperty(sub_prop));
        assert_eq!(super_property, ObjectPropertyExpression::ObjectProperty(super_prop));
    } else {
        panic!("Axiom is not SubObjectPropertyOf");
    }
}

#[test]
fn test_subdatapropertyof_axiom() {
    let sub_prop = DataProperty(IRI("http://example.com/subProp".to_string()));
    let super_prop = DataProperty(IRI("http://example.com/superProp".to_string()));

    let ax = DataPropertyAxiom::SubDataPropertyOf {
        sub_property: sub_prop.clone(),
        super_property: super_prop.clone(),
    };

    if let DataPropertyAxiom::SubDataPropertyOf { sub_property, super_property } = ax {
        assert_eq!(sub_property, sub_prop);
        assert_eq!(super_property, super_prop);
    } else {
        panic!("Axiom is not SubDataPropertyOf");
    }
}

#[test]
fn test_classassertion_axiom() {
    let class = Class(IRI("http://example.com/class".to_string()));
    let individual = Individual::Named(IRI("http://example.com/individual".to_string()));

    let ax = Assertion::ClassAssertion {
        class: ClassExpression::Class(class.clone()),
        individual: individual.clone(),
    };

    if let Assertion::ClassAssertion { class: c, individual: i } = ax {
        assert_eq!(c, ClassExpression::Class(class));
        assert_eq!(i, individual);
    } else {
        panic!("Axiom is not ClassAssertion");
    }
}

#[test]
fn test_complex_class_expressions() {
    let class1 = Class(IRI("http://example.com/class1".to_string()));
    let class2 = Class(IRI("http://example.com/class2".to_string()));

    let intersection = ClassExpression::ObjectIntersectionOf(vec![
        ClassExpression::Class(class1.clone()),
        ClassExpression::Class(class2.clone()),
    ]);
    assert_eq!(
        intersection,
        ClassExpression::ObjectIntersectionOf(vec![
            ClassExpression::Class(class1.clone()),
            ClassExpression::Class(class2.clone()),
        ])
    );

    let union = ClassExpression::ObjectUnionOf(vec![
        ClassExpression::Class(class1.clone()),
        ClassExpression::Class(class2.clone()),
    ]);
    assert_eq!(
        union,
        ClassExpression::ObjectUnionOf(vec![
            ClassExpression::Class(class1.clone()),
            ClassExpression::Class(class2.clone()),
        ])
    );

    let complement =
        ClassExpression::ObjectComplementOf(Box::new(ClassExpression::Class(class1.clone())));
    assert_eq!(
        complement,
        ClassExpression::ObjectComplementOf(Box::new(ClassExpression::Class(class1.clone())))
    );
}

#[test]
fn test_data_range() {
    let datatype = Datatype(IRI("http://www.w3.org/2001/XMLSchema#string".to_string()));
    let data_range = DataRange::Datatype(datatype.clone());
    assert_eq!(data_range, DataRange::Datatype(datatype));
}

#[test]
fn test_ontology_creation() {
    let mut ontology = Ontology::default();
    let class = Class(IRI("http://example.com/class".to_string()));
    let individual = Individual::Named(IRI("http://example.com/individual".to_string()));

    let ax = Axiom::Assertion(Assertion::ClassAssertion {
        class: ClassExpression::Class(class.clone()),
        individual: individual.clone(),
    });

    ontology.axioms.push(ax);

    assert_eq!(ontology.axioms.len(), 1);
}
