//! Round-trip tests: serializing a parsed ontology and parsing the result
//! yields an equal axiom tree.

use owl2_rs::api::load_ontology;
use owl2_rs::owl2_profile::{check_profile_compliance, OwlProfile};
use owl2_rs::parser::serialize_ontology;
use owl2_rs::IRI;

fn roundtrip(text: &str) {
    let first = load_ontology(text).expect("the input should parse");
    let rendered = serialize_ontology(&first);
    let second = load_ontology(&rendered).expect("the rendering should re-parse");
    assert_eq!(first.direct_imports, second.direct_imports);
    assert_eq!(first.axioms, second.axioms);
}

#[test]
fn roundtrip_empty_ontology() {
    roundtrip("Ontology(<urn:e>)");
}

#[test]
fn roundtrip_subclass_chain() {
    roundtrip(
        "Ontology(<urn:e> SubClassOf(Class(<u:Student>) Class(<u:Person>)) SubClassOf(Class(<u:GradStudent>) Class(<u:Student>)) ClassAssertion(Class(<u:GradStudent>) NamedIndividual(<u:j>)))",
    );
}

#[test]
fn roundtrip_expressions_and_assertions() {
    roundtrip(
        r#"Ontology(<urn:e>
  SubClassOf(ObjectUnionOf(Class(<u:A>) Class(<u:B>)) ObjectComplementOf(Class(<u:C>)))
  SubClassOf(Class(<u:D>) ObjectSomeValuesFrom(ObjectProperty(<u:p>) ObjectIntersectionOf(Class(<u:A>) Class(<u:B>))))
  SubClassOf(Class(<u:E>) ObjectMaxCardinality(1 ObjectProperty(<u:p>) Class(<u:A>)))
  SubClassOf(Class(<u:F>) ObjectMinCardinality(2 ObjectProperty(<u:q>)))
  SubClassOf(Class(<u:G>) ObjectHasSelf(ObjectProperty(<u:p>)))
  SubClassOf(Class(<u:H>) ObjectOneOf(NamedIndividual(<u:i>) NamedIndividual(<u:j>)))
  EquivalentClasses(Class(<u:A>) Class(<u:AA>))
  DisjointClasses(Class(<u:A>) Class(<u:B>))
  DisjointUnion(Class(<u:W>) Class(<u:A>) Class(<u:B>))
  SubObjectPropertyOf(ObjectPropertyChain(ObjectProperty(<u:p>) ObjectProperty(<u:q>)) ObjectProperty(<u:r>))
  InverseObjectProperties(ObjectProperty(<u:p>) ObjectInverseOf(ObjectProperty(<u:q>)))
  TransitiveObjectProperty(ObjectProperty(<u:p>))
  DataPropertyRange(DataProperty(<u:d>) Datatype(<http://www.w3.org/2001/XMLSchema#integer>))
  ObjectPropertyAssertion(ObjectProperty(<u:p>) NamedIndividual(<u:i>) NamedIndividual(<u:j>))
  DataPropertyAssertion(DataProperty(<u:d>) NamedIndividual(<u:i>) "22"^^<http://www.w3.org/2001/XMLSchema#integer>)
  DataPropertyAssertion(DataProperty(<u:d>) NamedIndividual(<u:i>) "hello")
  DataPropertyAssertion(DataProperty(<u:d>) NamedIndividual(<u:i>) "hallo"@de)
  SameIndividual(NamedIndividual(<u:i>) NamedIndividual(<u:j>))
  DifferentIndividuals(NamedIndividual(<u:i>) NamedIndividual(<u:k>))
  NegativeObjectPropertyAssertion(ObjectProperty(<u:p>) NamedIndividual(<u:i>) NamedIndividual(<u:k>))
  FunctionalDataProperty(DataProperty(<u:d>))
)"#,
    );
}

#[test]
fn roundtrip_with_imports() {
    roundtrip("Ontology(<urn:e> Import(<urn:other>) SubClassOf(Class(<u:A>) Class(<u:B>)))");
}

#[test]
fn serialized_form_is_stable() {
    let text = "Ontology(<urn:e> SubClassOf(Class(<u:A>) Class(<u:B>)))";
    let first = load_ontology(text).unwrap();
    let rendered = serialize_ontology(&first);
    let second = load_ontology(&rendered).unwrap();
    // A second rendering of the re-parsed ontology is identical text.
    assert_eq!(rendered, serialize_ontology(&second));
}

#[test]
fn profile_check_ignores_imports() {
    // The checker is structural: the same axioms with different imports give
    // the same verdict and the same messages.
    let with_import = load_ontology(
        "Ontology(<urn:e> Import(<urn:other>) SubClassOf(ObjectUnionOf(Class(<u:A>) Class(<u:B>)) Class(<u:C>)))",
    )
    .unwrap();
    let without_import = load_ontology(
        "Ontology(<urn:e> SubClassOf(ObjectUnionOf(Class(<u:A>) Class(<u:B>)) Class(<u:C>)))",
    )
    .unwrap();
    assert_eq!(with_import.direct_imports, vec![IRI("urn:other".to_string())]);
    let r1 = check_profile_compliance(&with_import, OwlProfile::EL);
    let r2 = check_profile_compliance(&without_import, OwlProfile::EL);
    assert_eq!(r1.conforms, r2.conforms);
    assert_eq!(r1.violations, r2.violations);
}
