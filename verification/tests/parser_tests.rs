//! Tests of the functional-style syntax parser.

use owl2_rs::parser::{OWLParser, Prefix};
use owl2_rs::{
    Class, ClassAxiom, ClassExpression, DataProperty, Datatype, Entity, IRI, Individual, Literal,
    ObjectProperty, ObjectPropertyAxiom, ObjectPropertyExpression,
};

#[test]
fn test_parser_iri() {
    let input = "<http://example.com/iri>";
    let iri = OWLParser::parse_iri(input).unwrap();
    assert_eq!(iri, IRI("http://example.com/iri".to_string()));
}

#[test]
fn test_parser_prefix() {
    let input = "Prefix(ex:=<http://example.com/>)";
    let prefix = OWLParser::parse_prefix(input).unwrap();
    assert_eq!(
        prefix,
        Prefix { name: "ex".to_string(), iri: IRI("http://example.com/".to_string()) }
    );
}

#[test]
fn test_parser_entity() {
    let input_class = "Class(<http://example.com/MyClass>)";
    let entity_class = OWLParser::parse_entity(input_class).unwrap();
    assert_eq!(entity_class, Entity::Class(Class(IRI("http://example.com/MyClass".to_string()))));

    let input_datatype = "Datatype(<http://www.w3.org/2001/XMLSchema#string>)";
    let entity_datatype = OWLParser::parse_entity(input_datatype).unwrap();
    assert_eq!(
        entity_datatype,
        Entity::Datatype(Datatype(IRI("http://www.w3.org/2001/XMLSchema#string".to_string())))
    );

    let input_object_property = "ObjectProperty(<http://example.com/hasPart>)";
    let entity_object_property = OWLParser::parse_entity(input_object_property).unwrap();
    assert_eq!(
        entity_object_property,
        Entity::ObjectProperty(ObjectProperty(IRI("http://example.com/hasPart".to_string())))
    );

    let input_data_property = "DataProperty(<http://example.com/hasValue>)";
    let entity_data_property = OWLParser::parse_entity(input_data_property).unwrap();
    assert_eq!(
        entity_data_property,
        Entity::DataProperty(DataProperty(IRI("http://example.com/hasValue".to_string())))
    );

    let input_annotation_property = "AnnotationProperty(<http://example.com/comment>)";
    let entity_annotation_property = OWLParser::parse_entity(input_annotation_property).unwrap();
    assert_eq!(
        entity_annotation_property,
        Entity::AnnotationProperty(IRI("http://example.com/comment".to_string()))
    );

    let input_named_individual = "NamedIndividual(<http://example.com/individual1>)";
    let entity_named_individual = OWLParser::parse_entity(input_named_individual).unwrap();
    assert_eq!(
        entity_named_individual,
        Entity::NamedIndividual(IRI("http://example.com/individual1".to_string()))
    );
}

#[test]
fn test_parser_literal() {
    let input_simple = r#""hello""#;
    let literal_simple = OWLParser::parse_literal(input_simple).unwrap();
    assert_eq!(
        literal_simple,
        Literal {
            value: "hello".to_string(),
            datatype: Datatype(IRI("http://www.w3.org/2001/XMLSchema#string".to_string())),
            lang: None,
        }
    );

    let input_lang = r#""hello"@en"#;
    let literal_lang = OWLParser::parse_literal(input_lang).unwrap();
    assert_eq!(
        literal_lang,
        Literal {
            value: "hello".to_string(),
            datatype: Datatype(IRI("http://www.w3.org/2001/XMLSchema#string".to_string())),
            lang: Some("en".to_string()),
        }
    );
}

#[test]
fn test_parser_class_expression() {
    let input_class = "Class(<http://example.com/MyClass>)";
    let class_expression = OWLParser::parse_class_expression(input_class).unwrap();
    assert_eq!(
        class_expression,
        ClassExpression::Class(Class(IRI("http://example.com/MyClass".to_string())))
    );
}

#[test]
fn test_parser_object_property_expression() {
    let input_op = "ObjectProperty(<http://example.com/hasPart>)";
    let op_expr = OWLParser::parse_object_property_expression(input_op).unwrap();
    assert_eq!(
        op_expr,
        ObjectPropertyExpression::ObjectProperty(ObjectProperty(IRI(
            "http://example.com/hasPart".to_string()
        )))
    );

    let input_inv_op = "ObjectInverseOf(ObjectProperty(<http://example.com/hasPart>))";
    let inv_op_expr = OWLParser::parse_object_property_expression(input_inv_op).unwrap();
    assert_eq!(
        inv_op_expr,
        ObjectPropertyExpression::InverseObjectProperty(ObjectProperty(IRI(
            "http://example.com/hasPart".to_string()
        )))
    );
}

#[test]
fn test_parser_class_axiom() {
    let input_subclass =
        "SubClassOf(Class(<http://example.com/Child>) Class(<http://example.com/Parent>))";
    let axiom_subclass = OWLParser::parse_class_axiom(input_subclass).unwrap();
    assert_eq!(
        axiom_subclass,
        ClassAxiom::SubClassOf {
            sub_class: ClassExpression::Class(Class(IRI("http://example.com/Child".to_string()))),
            super_class: ClassExpression::Class(Class(IRI(
                "http://example.com/Parent".to_string()
            ))),
        }
    );

    let input_equivalent =
        "EquivalentClasses(Class(<http://example.com/Class1>) Class(<http://example.com/Class2>))";
    let axiom_equivalent = OWLParser::parse_class_axiom(input_equivalent).unwrap();
    assert_eq!(
        axiom_equivalent,
        ClassAxiom::EquivalentClasses {
            classes: vec![
                ClassExpression::Class(Class(IRI("http://example.com/Class1".to_string()))),
                ClassExpression::Class(Class(IRI("http://example.com/Class2".to_string()))),
            ],
        }
    );

    let input_disjoint =
        "DisjointClasses(Class(<http://example.com/ClassA>) Class(<http://example.com/ClassB>))";
    let axiom_disjoint = OWLParser::parse_class_axiom(input_disjoint).unwrap();
    assert_eq!(
        axiom_disjoint,
        ClassAxiom::DisjointClasses {
            classes: vec![
                ClassExpression::Class(Class(IRI("http://example.com/ClassA".to_string()))),
                ClassExpression::Class(Class(IRI("http://example.com/ClassB".to_string()))),
            ],
        }
    );

    let input_disjoint_union = "DisjointUnion(Class(<http://example.com/UnionClass>) Class(<http://example.com/Part1>) Class(<http://example.com/Part2>))";
    let axiom_disjoint_union = OWLParser::parse_class_axiom(input_disjoint_union).unwrap();
    assert_eq!(
        axiom_disjoint_union,
        ClassAxiom::DisjointUnion {
            class: Class(IRI("http://example.com/UnionClass".to_string())),
            disjoint_classes: vec![
                ClassExpression::Class(Class(IRI("http://example.com/Part1".to_string()))),
                ClassExpression::Class(Class(IRI("http://example.com/Part2".to_string()))),
            ],
        }
    );
}

#[test]
fn test_parser_ontology() {
    let input = "Ontology(<http://example.com/ontology> SubClassOf(Class(<http://example.com/Child>) Class(<http://example.com/Parent>)))";
    let ontology = OWLParser::parse_ontology(input).unwrap();
    assert_eq!(ontology.axioms.len(), 1);
}

#[test]
fn test_parser_data_property() {
    let input = "DataProperty(<http://example.com/hasAge>)";
    let entity = OWLParser::parse_entity(input).unwrap();
    assert!(matches!(entity, Entity::DataProperty(_)));
}

#[test]
fn test_parser_complex_ontology() {
    let input = r#"Ontology(<http://example.com/ontology>
  SubClassOf(Class(<http://example.com/Student>) Class(<http://example.com/Person>))
  SubClassOf(Class(<http://example.com/Employee>) Class(<http://example.com/Person>))

  DisjointClasses(Class(<http://example.com/Student>) Class(<http://example.com/Employee>))

  ObjectPropertyDomain(ObjectProperty(<http://example.com/worksFor>) Class(<http://example.com/Employee>))
  ObjectPropertyRange(ObjectProperty(<http://example.com/worksFor>) Class(<http://example.com/Organization>))

  DataPropertyDomain(DataProperty(<http://example.com/hasAge>) Class(<http://example.com/Person>))
  DataPropertyRange(DataProperty(<http://example.com/hasAge>) Datatype(<http://www.w3.org/2001/XMLSchema#integer>))

  ClassAssertion(Class(<http://example.com/Student>) NamedIndividual(<http://example.com/john>))
  DataPropertyAssertion(DataProperty(<http://example.com/hasAge>) NamedIndividual(<http://example.com/john>) "22"^^<http://www.w3.org/2001/XMLSchema#integer>)
)"#;
    let ontology = OWLParser::parse_ontology(input).unwrap();
    assert_eq!(ontology.axioms.len(), 9);
}

#[test]
fn test_parser_object_property_axiom() {
    let input_sub_op = "SubObjectPropertyOf(ObjectProperty(<http://example.com/subProp>) ObjectProperty(<http://example.com/superProp>))";
    let axiom_sub_op = OWLParser::parse_object_property_axiom(input_sub_op).unwrap();
    assert_eq!(
        axiom_sub_op,
        ObjectPropertyAxiom::SubObjectPropertyOf {
            sub_property: ObjectPropertyExpression::ObjectProperty(ObjectProperty(IRI(
                "http://example.com/subProp".to_string()
            ))),
            super_property: ObjectPropertyExpression::ObjectProperty(ObjectProperty(IRI(
                "http://example.com/superProp".to_string()
            ))),
        }
    );

    let input_equivalent_op = "EquivalentObjectProperties(ObjectProperty(<http://example.com/Prop1>) ObjectProperty(<http://example.com/Prop2>))";
    let axiom_equivalent_op = OWLParser::parse_object_property_axiom(input_equivalent_op).unwrap();
    assert_eq!(
        axiom_equivalent_op,
        ObjectPropertyAxiom::EquivalentObjectProperties {
            properties: vec![
                ObjectPropertyExpression::ObjectProperty(ObjectProperty(IRI(
                    "http://example.com/Prop1".to_string()
                ))),
                ObjectPropertyExpression::ObjectProperty(ObjectProperty(IRI(
                    "http://example.com/Prop2".to_string()
                ))),
            ],
        }
    );

    let input_disjoint_op = "DisjointObjectProperties(ObjectProperty(<http://example.com/PropA>) ObjectProperty(<http://example.com/PropB>))";
    let axiom_disjoint_op = OWLParser::parse_object_property_axiom(input_disjoint_op).unwrap();
    assert_eq!(
        axiom_disjoint_op,
        ObjectPropertyAxiom::DisjointObjectProperties {
            properties: vec![
                ObjectPropertyExpression::ObjectProperty(ObjectProperty(IRI(
                    "http://example.com/PropA".to_string()
                ))),
                ObjectPropertyExpression::ObjectProperty(ObjectProperty(IRI(
                    "http://example.com/PropB".to_string()
                ))),
            ],
        }
    );

    let input_inverse_op = "InverseObjectProperties(ObjectProperty(<http://example.com/Prop1>) ObjectProperty(<http://example.com/Prop2>))";
    let axiom_inverse_op = OWLParser::parse_object_property_axiom(input_inverse_op).unwrap();
    assert_eq!(
        axiom_inverse_op,
        ObjectPropertyAxiom::InverseObjectProperties {
            prop1: ObjectPropertyExpression::ObjectProperty(ObjectProperty(IRI(
                "http://example.com/Prop1".to_string()
            ))),
            prop2: ObjectPropertyExpression::ObjectProperty(ObjectProperty(IRI(
                "http://example.com/Prop2".to_string()
            ))),
        }
    );

    let input_domain_op = "ObjectPropertyDomain(ObjectProperty(<http://example.com/hasPart>) Class(<http://example.com/DomainClass>))";
    let axiom_domain_op = OWLParser::parse_object_property_axiom(input_domain_op).unwrap();
    assert_eq!(
        axiom_domain_op,
        ObjectPropertyAxiom::ObjectPropertyDomain {
            property: ObjectPropertyExpression::ObjectProperty(ObjectProperty(IRI(
                "http://example.com/hasPart".to_string()
            ))),
            domain: ClassExpression::Class(Class(IRI(
                "http://example.com/DomainClass".to_string()
            ))),
        }
    );

    let input_range_op = "ObjectPropertyRange(ObjectProperty(<http://example.com/hasPart>) Class(<http://example.com/RangeClass>))";
    let axiom_range_op = OWLParser::parse_object_property_axiom(input_range_op).unwrap();
    assert_eq!(
        axiom_range_op,
        ObjectPropertyAxiom::ObjectPropertyRange {
            property: ObjectPropertyExpression::ObjectProperty(ObjectProperty(IRI(
                "http://example.com/hasPart".to_string()
            ))),
            range: ClassExpression::Class(Class(IRI("http://example.com/RangeClass".to_string()))),
        }
    );

    let input_functional_op =
        "FunctionalObjectProperty(ObjectProperty(<http://example.com/hasPart>))";
    let axiom_functional_op = OWLParser::parse_object_property_axiom(input_functional_op).unwrap();
    assert_eq!(
        axiom_functional_op,
        ObjectPropertyAxiom::FunctionalObjectProperty {
            property: ObjectPropertyExpression::ObjectProperty(ObjectProperty(IRI(
                "http://example.com/hasPart".to_string()
            ))),
        }
    );

    let input_inverse_functional_op =
        "InverseFunctionalObjectProperty(ObjectProperty(<http://example.com/hasPart>))";
    let axiom_inverse_functional_op =
        OWLParser::parse_object_property_axiom(input_inverse_functional_op).unwrap();
    assert_eq!(
        axiom_inverse_functional_op,
        ObjectPropertyAxiom::InverseFunctionalObjectProperty {
            property: ObjectPropertyExpression::ObjectProperty(ObjectProperty(IRI(
                "http://example.com/hasPart".to_string()
            ))),
        }
    );

    let input_reflexive_op = "ReflexiveObjectProperty(ObjectProperty(<http://example.com/hasPart>))";
    let axiom_reflexive_op = OWLParser::parse_object_property_axiom(input_reflexive_op).unwrap();
    assert_eq!(
        axiom_reflexive_op,
        ObjectPropertyAxiom::ReflexiveObjectProperty {
            property: ObjectPropertyExpression::ObjectProperty(ObjectProperty(IRI(
                "http://example.com/hasPart".to_string()
            ))),
        }
    );

    let input_irreflexive_op =
        "IrreflexiveObjectProperty(ObjectProperty(<http://example.com/hasPart>))";
    let axiom_irreflexive_op =
        OWLParser::parse_object_property_axiom(input_irreflexive_op).unwrap();
    assert_eq!(
        axiom_irreflexive_op,
        ObjectPropertyAxiom::IrreflexiveObjectProperty {
            property: ObjectPropertyExpression::ObjectProperty(ObjectProperty(IRI(
                "http://example.com/hasPart".to_string()
            ))),
        }
    );

    let input_symmetric_op = "SymmetricObjectProperty(ObjectProperty(<http://example.com/hasPart>))";
    let axiom_symmetric_op = OWLParser::parse_object_property_axiom(input_symmetric_op).unwrap();
    assert_eq!(
        axiom_symmetric_op,
        ObjectPropertyAxiom::SymmetricObjectProperty {
            property: ObjectPropertyExpression::ObjectProperty(ObjectProperty(IRI(
                "http://example.com/hasPart".to_string()
            ))),
        }
    );

    let input_asymmetric_op =
        "AsymmetricObjectProperty(ObjectProperty(<http://example.com/hasPart>))";
    let axiom_asymmetric_op = OWLParser::parse_object_property_axiom(input_asymmetric_op).unwrap();
    assert_eq!(
        axiom_asymmetric_op,
        ObjectPropertyAxiom::AsymmetricObjectProperty {
            property: ObjectPropertyExpression::ObjectProperty(ObjectProperty(IRI(
                "http://example.com/hasPart".to_string()
            ))),
        }
    );

    let input_transitive_op =
        "TransitiveObjectProperty(ObjectProperty(<http://example.com/hasPart>))";
    let axiom_transitive_op = OWLParser::parse_object_property_axiom(input_transitive_op).unwrap();
    assert_eq!(
        axiom_transitive_op,
        ObjectPropertyAxiom::TransitiveObjectProperty {
            property: ObjectPropertyExpression::ObjectProperty(ObjectProperty(IRI(
                "http://example.com/hasPart".to_string()
            ))),
        }
    );
}
