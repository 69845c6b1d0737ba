//! Checkers for the OWL 2 profiles (EL, QL, RL).
//!
//! Each check is a pure structural recursion over the axiom tree: the
//! `spec_*_violations` functions define, axiom by axiom, the ordered list of
//! violation messages, and an ontology conforms to a profile exactly when
//! that list is empty.  Nothing here consults the reasoner: conformance
//! depends only on the shape of the axioms.

use crate::{
    Assertion, Axiom, ClassAxiom, ClassExpression, DataPropertyAxiom, DataRange,
    ObjectPropertyAxiom, ObjectPropertyExpression, Ontology, SpecAssertion, SpecAxiom,
    SpecClassAxiom, SpecClassExpr, SpecDataPropertyAxiom, SpecDataRange, SpecObjectPropertyAxiom,
    SpecObjectPropertyExpr, SpecOntology, spec_ce_seq, lemma_spec_ce_seq,
};
use vstd::prelude::*;
use vstd::string::StringExecFns;

verus! {

/// The OWL 2 profiles a conformance check can target.
#[derive(Debug, PartialEq, Eq)]
pub enum OwlProfile {
    /// The EL profile.
    EL,
    /// The QL profile.
    QL,
    /// The RL profile.
    RL,
    /// Unrestricted OWL 2, to which every ontology conforms.
    Full,
}

/// Mathematical value of an [`OwlProfile`].
pub enum SpecOwlProfile {
    EL,
    QL,
    RL,
    Full,
}

impl View for OwlProfile {
    type V = SpecOwlProfile;

    open spec fn view(&self) -> SpecOwlProfile {
        match self {
            OwlProfile::EL => SpecOwlProfile::EL,
            OwlProfile::QL => SpecOwlProfile::QL,
            OwlProfile::RL => SpecOwlProfile::RL,
            OwlProfile::Full => SpecOwlProfile::Full,
        }
    }
}

impl Clone for OwlProfile {
    fn clone(&self) -> (r: Self)
        ensures
            r@ == self@,
    {
        match self {
            OwlProfile::EL => OwlProfile::EL,
            OwlProfile::QL => OwlProfile::QL,
            OwlProfile::RL => OwlProfile::RL,
            OwlProfile::Full => OwlProfile::Full,
        }
    }
}

/// Whether a class expression lies in the EL fragment: atomic classes,
/// intersections, existentials, and has-value restrictions.
pub open spec fn spec_el_ce(c: SpecClassExpr) -> bool
    decreases c, 1int,
{
    match c {
        SpecClassExpr::Class(_) => true,
        SpecClassExpr::ObjectIntersectionOf(cs) => spec_el_ce_all(cs),
        SpecClassExpr::ObjectSomeValuesFrom { property, filler } => spec_el_ce(*filler),
        SpecClassExpr::ObjectHasValue { property, value } => true,
        _ => false,
    }
}

/// Whether every class expression of a sequence lies in the EL fragment.
pub open spec fn spec_el_ce_all(cs: Seq<SpecClassExpr>) -> bool
    decreases cs, 0int,
{
    if cs.len() == 0 {
        true
    } else {
        spec_el_ce_all(cs.drop_last()) && spec_el_ce(cs.last())
    }
}

/// Whether an object property expression lies in the EL fragment: atomic or
/// inverse, never a chain.
pub open spec fn spec_el_ope(p: SpecObjectPropertyExpr) -> bool {
    !(p is ObjectPropertyChain)
}

/// One message when `ok` fails, nothing otherwise.
pub open spec fn spec_viol(ok: bool, msg: Seq<char>) -> Seq<Seq<char>> {
    if ok {
        Seq::empty()
    } else {
        seq![msg]
    }
}

/// One message per sequence element that fails `spec_el_ce`.
pub open spec fn spec_el_list_viols(cs: Seq<SpecClassExpr>, msg: Seq<char>) -> Seq<Seq<char>>
    decreases cs,
{
    if cs.len() == 0 {
        Seq::empty()
    } else {
        spec_el_list_viols(cs.drop_last(), msg) + spec_viol(spec_el_ce(cs.last()), msg)
    }
}

/// The EL violations of one axiom, in the order the checker reports them.
pub open spec fn spec_el_axiom_viols(a: SpecAxiom) -> Seq<Seq<char>> {
    match a {
        SpecAxiom::Class(ca) => match ca {
            SpecClassAxiom::SubClassOf { sub_class, super_class } => spec_viol(
                spec_el_ce(sub_class),
                "SubClassOf axiom has non-EL subclass expression"@,
            ) + spec_viol(
                spec_el_ce(super_class),
                "SubClassOf axiom has non-EL superclass expression"@,
            ),
            SpecClassAxiom::EquivalentClasses { classes } => spec_el_list_viols(
                classes,
                "EquivalentClasses axiom has non-EL class expression"@,
            ),
            SpecClassAxiom::DisjointClasses { classes } => spec_el_list_viols(
                classes,
                "DisjointClasses axiom has non-EL class expression"@,
            ),
            SpecClassAxiom::DisjointUnion { class, disjoint_classes } => spec_el_list_viols(
                disjoint_classes,
                "DisjointUnion axiom has non-EL class expression"@,
            ),
        },
        SpecAxiom::ObjectProperty(oa) => match oa {
            SpecObjectPropertyAxiom::SubObjectPropertyOf { sub_property, super_property } => spec_viol(
                spec_el_ope(sub_property),
                "SubObjectPropertyOf axiom has non-EL sub-property expression"@,
            ) + spec_viol(
                spec_el_ope(super_property),
                "SubObjectPropertyOf axiom has non-EL super-property expression"@,
            ),
            SpecObjectPropertyAxiom::ObjectPropertyDomain { property, domain } => spec_viol(
                spec_el_ope(property),
                "ObjectPropertyDomain axiom has non-EL property expression"@,
            ) + spec_viol(
                spec_el_ce(domain),
                "ObjectPropertyDomain axiom has non-EL domain expression"@,
            ),
            SpecObjectPropertyAxiom::ObjectPropertyRange { property, range } => spec_viol(
                spec_el_ope(property),
                "ObjectPropertyRange axiom has non-EL property expression"@,
            ) + spec_viol(
                spec_el_ce(range),
                "ObjectPropertyRange axiom has non-EL range expression"@,
            ),
            _ => Seq::empty(),
        },
        SpecAxiom::DataProperty(da) => match da {
            SpecDataPropertyAxiom::DataPropertyDomain { property, domain } => spec_viol(
                spec_el_ce(domain),
                "DataPropertyDomain axiom has non-EL domain expression"@,
            ),
            SpecDataPropertyAxiom::DataPropertyRange { property, range } => spec_viol(
                range is Datatype,
                "DataPropertyRange axiom has non-EL range expression"@,
            ),
            _ => Seq::empty(),
        },
        SpecAxiom::Assertion(asr) => match asr {
            SpecAssertion::ClassAssertion { class, individual } => spec_viol(
                spec_el_ce(class),
                "ClassAssertion has non-EL class expression"@,
            ),
            SpecAssertion::ObjectPropertyAssertion { property, source, target } => spec_viol(
                spec_el_ope(property),
                "ObjectPropertyAssertion has non-EL property expression"@,
            ),
            SpecAssertion::NegativeObjectPropertyAssertion {
                property,
                source,
                target,
            } => spec_viol(
                spec_el_ope(property),
                "NegativeObjectPropertyAssertion has non-EL property expression"@,
            ),
            _ => Seq::empty(),
        },
    }
}

/// Whether a class expression may stand in QL subclass position: atomic
/// classes only.
pub open spec fn spec_ql_sub_ce(c: SpecClassExpr) -> bool {
    c is Class
}

/// Whether a class expression may stand anywhere in QL.
pub open spec fn spec_ql_ce(c: SpecClassExpr) -> bool
    decreases c, 1int,
{
    match c {
        SpecClassExpr::Class(_) => true,
        SpecClassExpr::ObjectIntersectionOf(cs) => spec_ql_ce_all(cs),
        SpecClassExpr::ObjectComplementOf(e) => spec_ql_ce(*e),
        SpecClassExpr::ObjectSomeValuesFrom { property, filler } => spec_ql_ce(*filler),
        SpecClassExpr::ObjectHasValue { property, value } => true,
        _ => false,
    }
}

/// Whether every class expression of a sequence may stand in QL.
pub open spec fn spec_ql_ce_all(cs: Seq<SpecClassExpr>) -> bool
    decreases cs, 0int,
{
    if cs.len() == 0 {
        true
    } else {
        spec_ql_ce_all(cs.drop_last()) && spec_ql_ce(cs.last())
    }
}

/// Whether a class expression may stand in QL superclass position.
pub open spec fn spec_ql_super_ce(c: SpecClassExpr) -> bool
    decreases c, 1int,
{
    match c {
        SpecClassExpr::Class(_) => true,
        SpecClassExpr::ObjectIntersectionOf(cs) => spec_ql_super_ce_all(cs),
        SpecClassExpr::ObjectComplementOf(e) => spec_ql_ce(*e),
        SpecClassExpr::ObjectSomeValuesFrom { property, filler } => spec_ql_ce(*filler),
        SpecClassExpr::ObjectHasValue { property, value } => true,
        _ => false,
    }
}

/// Whether every class expression of a sequence may stand in QL superclass
/// position.
pub open spec fn spec_ql_super_ce_all(cs: Seq<SpecClassExpr>) -> bool
    decreases cs, 0int,
{
    if cs.len() == 0 {
        true
    } else {
        spec_ql_super_ce_all(cs.drop_last()) && spec_ql_super_ce(cs.last())
    }
}

/// One message per sequence element that fails `spec_ql_ce`.
pub open spec fn spec_ql_list_viols(cs: Seq<SpecClassExpr>, msg: Seq<char>) -> Seq<Seq<char>>
    decreases cs,
{
    if cs.len() == 0 {
        Seq::empty()
    } else {
        spec_ql_list_viols(cs.drop_last(), msg) + spec_viol(spec_ql_ce(cs.last()), msg)
    }
}

/// The QL violations of one axiom, in the order the checker reports them.
pub open spec fn spec_ql_axiom_viols(a: SpecAxiom) -> Seq<Seq<char>> {
    match a {
        SpecAxiom::Class(ca) => match ca {
            SpecClassAxiom::SubClassOf { sub_class, super_class } => spec_viol(
                spec_ql_sub_ce(sub_class),
                "SubClassOf axiom has non-QL subclass expression"@,
            ) + spec_viol(
                spec_ql_super_ce(super_class),
                "SubClassOf axiom has non-QL superclass expression"@,
            ),
            SpecClassAxiom::EquivalentClasses { classes } => spec_ql_list_viols(
                classes,
                "EquivalentClasses axiom has non-QL class expression"@,
            ),
            SpecClassAxiom::DisjointClasses { classes } => spec_ql_list_viols(
                classes,
                "DisjointClasses axiom has non-QL class expression"@,
            ),
            SpecClassAxiom::DisjointUnion { class, disjoint_classes } => seq![
                "DisjointUnion axiom is not allowed in QL profile"@,
            ],
        },
        SpecAxiom::ObjectProperty(oa) => match oa {
            SpecObjectPropertyAxiom::SubObjectPropertyOf { sub_property, super_property } => spec_viol(
                !(sub_property is ObjectPropertyChain),
                "SubObjectPropertyOf with property chain is not allowed in QL profile"@,
            ) + spec_viol(
                !(super_property is ObjectPropertyChain),
                "SubObjectPropertyOf with property chain is not allowed in QL profile"@,
            ),
            SpecObjectPropertyAxiom::TransitiveObjectProperty { property } => seq![
                "TransitiveObjectProperty axiom is not allowed in QL profile"@,
            ],
            SpecObjectPropertyAxiom::FunctionalObjectProperty { property } => seq![
                "FunctionalObjectProperty axiom is not allowed in QL profile"@,
            ],
            SpecObjectPropertyAxiom::InverseFunctionalObjectProperty { property } => seq![
                "InverseFunctionalObjectProperty axiom is not allowed in QL profile"@,
            ],
            _ => Seq::empty(),
        },
        SpecAxiom::DataProperty(da) => match da {
            SpecDataPropertyAxiom::FunctionalDataProperty { property } => seq![
                "FunctionalDataProperty axiom is not allowed in QL profile"@,
            ],
            _ => Seq::empty(),
        },
        SpecAxiom::Assertion(asr) => match asr {
            SpecAssertion::SameIndividual { individuals } => seq![
                "SameIndividual assertion is not allowed in QL profile"@,
            ],
            SpecAssertion::NegativeObjectPropertyAssertion { property, source, target } => seq![
                "NegativeObjectPropertyAssertion is not allowed in QL profile"@,
            ],
            SpecAssertion::NegativeDataPropertyAssertion { property, source, target } => seq![
                "NegativeDataPropertyAssertion is not allowed in QL profile"@,
            ],
            _ => Seq::empty(),
        },
    }
}

/// Whether an object property expression may stand in RL: never a chain.
pub open spec fn spec_rl_ope(p: SpecObjectPropertyExpr) -> bool {
    !(p is ObjectPropertyChain)
}

/// Whether a class expression may stand anywhere in RL.
pub open spec fn spec_rl_ce(c: SpecClassExpr) -> bool
    decreases c, 1int,
{
    match c {
        SpecClassExpr::Class(_) => true,
        SpecClassExpr::ObjectIntersectionOf(cs) => spec_rl_ce_all(cs),
        SpecClassExpr::ObjectUnionOf(cs) => spec_rl_ce_all(cs),
        SpecClassExpr::ObjectComplementOf(e) => spec_rl_ce(*e),
        SpecClassExpr::ObjectOneOf(is) => is.len() > 0,
        SpecClassExpr::ObjectSomeValuesFrom { property, filler } => spec_rl_ope(property)
            && spec_rl_ce(*filler),
        SpecClassExpr::ObjectAllValuesFrom { property, filler } => spec_rl_ope(property)
            && spec_rl_ce(*filler),
        SpecClassExpr::ObjectHasValue { property, value } => spec_rl_ope(property),
        SpecClassExpr::ObjectHasSelf(p) => spec_rl_ope(p),
        SpecClassExpr::ObjectMinCardinality { min, property, filler } => min <= 1 && spec_rl_ope(
            property,
        ) && spec_rl_ce_opt(filler),
        SpecClassExpr::ObjectMaxCardinality { max, property, filler } => max <= 1 && spec_rl_ope(
            property,
        ) && spec_rl_ce_opt(filler),
        SpecClassExpr::ObjectExactCardinality { cardinality, property, filler } => cardinality <= 1
            && spec_rl_ope(property) && spec_rl_ce_opt(filler),
    }
}

/// Whether an optional filler may stand anywhere in RL.
pub open spec fn spec_rl_ce_opt(f: Option<Box<SpecClassExpr>>) -> bool
    decreases f, 0int,
{
    match f {
        Some(e) => spec_rl_ce(*e),
        None => true,
    }
}

/// Whether every class expression of a sequence may stand in RL.
pub open spec fn spec_rl_ce_all(cs: Seq<SpecClassExpr>) -> bool
    decreases cs, 0int,
{
    if cs.len() == 0 {
        true
    } else {
        spec_rl_ce_all(cs.drop_last()) && spec_rl_ce(cs.last())
    }
}

/// Whether a class expression may stand in RL subclass position.
pub open spec fn spec_rl_sub_ce(c: SpecClassExpr) -> bool
    decreases c, 1int,
{
    match c {
        SpecClassExpr::Class(_) => true,
        SpecClassExpr::ObjectIntersectionOf(cs) => spec_rl_sub_ce_all(cs),
        SpecClassExpr::ObjectUnionOf(cs) => spec_rl_sub_ce_all(cs),
        SpecClassExpr::ObjectOneOf(is) => is.len() > 0,
        SpecClassExpr::ObjectSomeValuesFrom { property, filler } => spec_rl_ope(property)
            && spec_rl_ce(*filler),
        SpecClassExpr::ObjectHasValue { property, value } => spec_rl_ope(property),
        _ => false,
    }
}

/// Whether every class expression of a sequence may stand in RL subclass
/// position.
pub open spec fn spec_rl_sub_ce_all(cs: Seq<SpecClassExpr>) -> bool
    decreases cs, 0int,
{
    if cs.len() == 0 {
        true
    } else {
        spec_rl_sub_ce_all(cs.drop_last()) && spec_rl_sub_ce(cs.last())
    }
}

/// Whether a class expression may stand in RL superclass position.
pub open spec fn spec_rl_super_ce(c: SpecClassExpr) -> bool
    decreases c, 1int,
{
    match c {
        SpecClassExpr::Class(_) => true,
        SpecClassExpr::ObjectIntersectionOf(cs) => spec_rl_super_ce_all(cs),
        SpecClassExpr::ObjectComplementOf(e) => spec_rl_ce(*e),
        SpecClassExpr::ObjectSomeValuesFrom { property, filler } => spec_rl_ope(property)
            && spec_rl_ce(*filler),
        SpecClassExpr::ObjectAllValuesFrom { property, filler } => spec_rl_ope(property)
            && spec_rl_ce(*filler),
        SpecClassExpr::ObjectHasValue { property, value } => spec_rl_ope(property),
        SpecClassExpr::ObjectMaxCardinality { max, property, filler } => max <= 1 && spec_rl_ope(
            property,
        ) && spec_rl_ce_opt(filler),
        _ => false,
    }
}

/// Whether every class expression of a sequence may stand in RL superclass
/// position.
pub open spec fn spec_rl_super_ce_all(cs: Seq<SpecClassExpr>) -> bool
    decreases cs, 0int,
{
    if cs.len() == 0 {
        true
    } else {
        spec_rl_super_ce_all(cs.drop_last()) && spec_rl_super_ce(cs.last())
    }
}

/// Whether a class expression may stand in an RL equivalence.
pub open spec fn spec_rl_equiv_ce(c: SpecClassExpr) -> bool
    decreases c, 1int,
{
    match c {
        SpecClassExpr::Class(_) => true,
        SpecClassExpr::ObjectIntersectionOf(cs) => spec_rl_equiv_ce_all(cs),
        SpecClassExpr::ObjectHasValue { property, value } => spec_rl_ope(property),
        _ => false,
    }
}

/// Whether every class expression of a sequence may stand in an RL
/// equivalence.
pub open spec fn spec_rl_equiv_ce_all(cs: Seq<SpecClassExpr>) -> bool
    decreases cs, 0int,
{
    if cs.len() == 0 {
        true
    } else {
        spec_rl_equiv_ce_all(cs.drop_last()) && spec_rl_equiv_ce(cs.last())
    }
}

/// One message per sequence element that fails `spec_rl_equiv_ce`.
pub open spec fn spec_rl_equiv_list_viols(cs: Seq<SpecClassExpr>, msg: Seq<char>) -> Seq<
    Seq<char>,
>
    decreases cs,
{
    if cs.len() == 0 {
        Seq::empty()
    } else {
        spec_rl_equiv_list_viols(cs.drop_last(), msg) + spec_viol(spec_rl_equiv_ce(cs.last()), msg)
    }
}

/// One message per sequence element that fails `spec_rl_ce`.
pub open spec fn spec_rl_list_viols(cs: Seq<SpecClassExpr>, msg: Seq<char>) -> Seq<Seq<char>>
    decreases cs,
{
    if cs.len() == 0 {
        Seq::empty()
    } else {
        spec_rl_list_viols(cs.drop_last(), msg) + spec_viol(spec_rl_ce(cs.last()), msg)
    }
}

/// The RL violations of one axiom, in the order the checker reports them.
pub open spec fn spec_rl_axiom_viols(a: SpecAxiom) -> Seq<Seq<char>> {
    match a {
        SpecAxiom::Class(ca) => match ca {
            SpecClassAxiom::SubClassOf { sub_class, super_class } => spec_viol(
                spec_rl_sub_ce(sub_class),
                "SubClassOf axiom has non-RL subclass expression"@,
            ) + spec_viol(
                spec_rl_super_ce(super_class),
                "SubClassOf axiom has non-RL superclass expression"@,
            ),
            SpecClassAxiom::EquivalentClasses { classes } => spec_rl_equiv_list_viols(
                classes,
                "EquivalentClasses axiom has non-RL class expression"@,
            ),
            SpecClassAxiom::DisjointClasses { classes } => spec_rl_list_viols(
                classes,
                "DisjointClasses axiom has non-RL class expression"@,
            ),
            SpecClassAxiom::DisjointUnion { class, disjoint_classes } => seq![
                "DisjointUnion axiom is not allowed in RL profile"@,
            ],
        },
        SpecAxiom::ObjectProperty(oa) => match oa {
            SpecObjectPropertyAxiom::ReflexiveObjectProperty { property } => seq![
                "ReflexiveObjectProperty axiom is not allowed in RL profile"@,
            ],
            _ => Seq::empty(),
        },
        SpecAxiom::DataProperty(da) => match da {
            SpecDataPropertyAxiom::DataPropertyRange { property, range } => spec_viol(
                spec_rl_data_range_ok(range),
                "DataPropertyRange axiom uses a datatype not allowed in RL profile"@,
            ),
            _ => Seq::empty(),
        },
        SpecAxiom::Assertion(asr) => match asr {
            SpecAssertion::ClassAssertion { class, individual } => spec_viol(
                spec_rl_super_ce(class),
                "ClassAssertion has non-RL class expression"@,
            ),
            _ => Seq::empty(),
        },
    }
}

/// Whether a data range may stand in RL: the real and rational datatypes
/// are not allowed there.
pub open spec fn spec_rl_data_range_ok(r: SpecDataRange) -> bool {
    match r {
        SpecDataRange::Datatype(n) => n != "http://www.w3.org/2002/07/owl#real"@ && n
            != "http://www.w3.org/2002/07/owl#rational"@,
        _ => true,
    }
}

/// The violation messages of one axiom for a profile.
pub open spec fn spec_profile_axiom_viols(p: SpecOwlProfile, a: SpecAxiom) -> Seq<Seq<char>> {
    match p {
        SpecOwlProfile::EL => spec_el_axiom_viols(a),
        SpecOwlProfile::QL => spec_ql_axiom_viols(a),
        SpecOwlProfile::RL => spec_rl_axiom_viols(a),
        SpecOwlProfile::Full => Seq::empty(),
    }
}

/// The violation messages of a whole ontology for a profile, in axiom order.
pub open spec fn spec_profile_violations(p: SpecOwlProfile, axs: Seq<SpecAxiom>) -> Seq<Seq<char>>
    decreases axs,
{
    if axs.len() == 0 {
        Seq::empty()
    } else {
        spec_profile_violations(p, axs.drop_last()) + spec_profile_axiom_viols(p, axs.last())
    }
}

/// Mathematical values of a vector of violation messages.
pub open spec fn spec_string_seq(s: Seq<String>) -> Seq<Seq<char>> {
    s.map_values(|x: String| x@)
}

/// The outcome of a profile check: the profile, whether the ontology
/// conforms, and the ordered violation messages.
#[derive(Debug)]
pub struct ProfileCheckResult {
    /// The profile that was checked.
    pub profile: OwlProfile,
    /// Whether the ontology conforms: no violations were found.
    pub conforms: bool,
    /// One message for each violation, in axiom order.
    pub violations: Vec<String>,
}


/// A class expression and its value always take the same top constructor.
pub proof fn lemma_ce_variants(c: ClassExpression)
    ensures
        (c@ is Class) <==> (c is Class),
        (c@ is ObjectIntersectionOf) <==> (c is ObjectIntersectionOf),
        (c@ is ObjectUnionOf) <==> (c is ObjectUnionOf),
        (c@ is ObjectComplementOf) <==> (c is ObjectComplementOf),
        (c@ is ObjectOneOf) <==> (c is ObjectOneOf),
        (c@ is ObjectSomeValuesFrom) <==> (c is ObjectSomeValuesFrom),
        (c@ is ObjectAllValuesFrom) <==> (c is ObjectAllValuesFrom),
        (c@ is ObjectHasValue) <==> (c is ObjectHasValue),
        (c@ is ObjectHasSelf) <==> (c is ObjectHasSelf),
        (c@ is ObjectMinCardinality) <==> (c is ObjectMinCardinality),
        (c@ is ObjectMaxCardinality) <==> (c is ObjectMaxCardinality),
        (c@ is ObjectExactCardinality) <==> (c is ObjectExactCardinality),
{
    match c {
        ClassExpression::Class(_) => {},
        ClassExpression::ObjectIntersectionOf(_) => {},
        ClassExpression::ObjectUnionOf(_) => {},
        ClassExpression::ObjectComplementOf(_) => {},
        ClassExpression::ObjectOneOf(_) => {},
        ClassExpression::ObjectSomeValuesFrom { property: _, filler: _ } => {},
        ClassExpression::ObjectAllValuesFrom { property: _, filler: _ } => {},
        ClassExpression::ObjectHasValue { property: _, value: _ } => {},
        ClassExpression::ObjectHasSelf(_) => {},
        ClassExpression::ObjectMinCardinality { min: _, property: _, filler: _ } => {},
        ClassExpression::ObjectMaxCardinality { max: _, property: _, filler: _ } => {},
        ClassExpression::ObjectExactCardinality { cardinality: _, property: _, filler: _ } => {},
    }
}

/// An object property expression and its value agree on being a chain.
pub proof fn lemma_ope_variants(p: ObjectPropertyExpression)
    ensures
        (p@ is ObjectPropertyChain) <==> (p is ObjectPropertyChain),
{
    match p {
        ObjectPropertyExpression::ObjectProperty(_) => {},
        ObjectPropertyExpression::InverseObjectProperty(_) => {},
        ObjectPropertyExpression::ObjectPropertyChain(_) => {},
    }
}

/// Returns whether every element of a list satisfies the corresponding
/// profile grammar, following [`spec_el_ce_all`].
fn is_el_class_expression_all_rec(x: &ClassExpression, cs: &Vec<ClassExpression>) -> (r: bool)
    requires
        decreases_to!(*x => *cs),
    ensures
        r == spec_el_ce_all(spec_ce_seq(cs@)),
    decreases *x, 0int,
{
    let ghost csv = spec_ce_seq(cs@);
    proof {
        lemma_spec_ce_seq(cs@);
        assert(spec_el_ce_all(csv.subrange(0, 0)));
    }
    let mut ok = true;
    for i in 0..cs.len()
        invariant
            csv == spec_ce_seq(cs@),
            csv.len() == cs@.len(),
            decreases_to!(*x => *cs),
            ok == spec_el_ce_all(csv.subrange(0, i as int)),
    {
        proof {
            lemma_spec_ce_seq(cs@);
            assert(decreases_to!(*cs => cs@));
            vstd::std_specs::vec::axiom_vec_index_decreases::<ClassExpression>(*cs, i as int);
            assert(decreases_to!(*x => cs@[i as int]));
        }
        let e = is_el_class_expression(&cs[i]);
        ok = ok && e;
        proof {
            assert(csv.subrange(0, i as int + 1).drop_last() =~= csv.subrange(0, i as int));
            assert(csv.subrange(0, i as int + 1).last() == csv[i as int]);
        }
    }
    proof {
        assert(csv.subrange(0, csv.len() as int) =~= csv);
    }
    ok
}

/// Returns whether a class expression lies in the EL fragment, following
/// [`spec_el_ce`].
pub fn is_el_class_expression(c: &ClassExpression) -> (r: bool)
    ensures
        r == spec_el_ce((*c)@),
    decreases *c, 1int,
{
    proof {
        lemma_ce_variants(*c);
    }
    match c {
        ClassExpression::Class(_) => true,
        ClassExpression::ObjectIntersectionOf(cs) => {
            proof {
                assert(decreases_to!(*c => c->ObjectIntersectionOf_0));
            }
            is_el_class_expression_all_rec(c, cs)
        },
        ClassExpression::ObjectSomeValuesFrom { property: _, filler } => {
            proof {
                assert(decreases_to!(*c => c->ObjectSomeValuesFrom_filler));
            }
            is_el_class_expression(&*filler)
        },
        ClassExpression::ObjectHasValue { property: _, value: _ } => true,
        _ => false,
    }
}

/// Returns whether an object property expression lies in the EL fragment,
/// following [`spec_el_ope`].
pub fn is_el_object_property_expression(p: &ObjectPropertyExpression) -> (r: bool)
    ensures
        r == spec_el_ope((*p)@),
{
    proof {
        lemma_ope_variants(*p);
    }
    match p {
        ObjectPropertyExpression::ObjectPropertyChain(_) => false,
        _ => true,
    }
}

/// Returns whether every element of a list satisfies the corresponding
/// profile grammar, following [`spec_ql_ce_all`].
fn is_ql_valid_class_expression_all_rec(x: &ClassExpression, cs: &Vec<ClassExpression>) -> (r: bool)
    requires
        decreases_to!(*x => *cs),
    ensures
        r == spec_ql_ce_all(spec_ce_seq(cs@)),
    decreases *x, 0int,
{
    let ghost csv = spec_ce_seq(cs@);
    proof {
        lemma_spec_ce_seq(cs@);
        assert(spec_ql_ce_all(csv.subrange(0, 0)));
    }
    let mut ok = true;
    for i in 0..cs.len()
        invariant
            csv == spec_ce_seq(cs@),
            csv.len() == cs@.len(),
            decreases_to!(*x => *cs),
            ok == spec_ql_ce_all(csv.subrange(0, i as int)),
    {
        proof {
            lemma_spec_ce_seq(cs@);
            assert(decreases_to!(*cs => cs@));
            vstd::std_specs::vec::axiom_vec_index_decreases::<ClassExpression>(*cs, i as int);
            assert(decreases_to!(*x => cs@[i as int]));
        }
        let e = is_ql_valid_class_expression(&cs[i]);
        ok = ok && e;
        proof {
            assert(csv.subrange(0, i as int + 1).drop_last() =~= csv.subrange(0, i as int));
            assert(csv.subrange(0, i as int + 1).last() == csv[i as int]);
        }
    }
    proof {
        assert(csv.subrange(0, csv.len() as int) =~= csv);
    }
    ok
}

/// Returns whether a class expression may stand anywhere in QL, following
/// [`spec_ql_ce`].
pub fn is_ql_valid_class_expression(c: &ClassExpression) -> (r: bool)
    ensures
        r == spec_ql_ce((*c)@),
    decreases *c, 1int,
{
    proof {
        lemma_ce_variants(*c);
    }
    match c {
        ClassExpression::Class(_) => true,
        ClassExpression::ObjectIntersectionOf(cs) => {
            proof {
                assert(decreases_to!(*c => c->ObjectIntersectionOf_0));
            }
            is_ql_valid_class_expression_all_rec(c, cs)
        },
        ClassExpression::ObjectComplementOf(e) => {
            proof {
                assert(decreases_to!(*c => c->ObjectComplementOf_0));
            }
            is_ql_valid_class_expression(&*e)
        },
        ClassExpression::ObjectSomeValuesFrom { property: _, filler } => {
            proof {
                assert(decreases_to!(*c => c->ObjectSomeValuesFrom_filler));
            }
            is_ql_valid_class_expression(&*filler)
        },
        ClassExpression::ObjectHasValue { property: _, value: _ } => true,
        _ => false,
    }
}

/// Returns whether every element of a list satisfies the corresponding
/// profile grammar, following [`spec_ql_super_ce_all`].
fn is_ql_superclass_expression_all_rec(x: &ClassExpression, cs: &Vec<ClassExpression>) -> (r: bool)
    requires
        decreases_to!(*x => *cs),
    ensures
        r == spec_ql_super_ce_all(spec_ce_seq(cs@)),
    decreases *x, 0int,
{
    let ghost csv = spec_ce_seq(cs@);
    proof {
        lemma_spec_ce_seq(cs@);
        assert(spec_ql_super_ce_all(csv.subrange(0, 0)));
    }
    let mut ok = true;
    for i in 0..cs.len()
        invariant
            csv == spec_ce_seq(cs@),
            csv.len() == cs@.len(),
            decreases_to!(*x => *cs),
            ok == spec_ql_super_ce_all(csv.subrange(0, i as int)),
    {
        proof {
            lemma_spec_ce_seq(cs@);
            assert(decreases_to!(*cs => cs@));
            vstd::std_specs::vec::axiom_vec_index_decreases::<ClassExpression>(*cs, i as int);
            assert(decreases_to!(*x => cs@[i as int]));
        }
        let e = is_ql_superclass_expression(&cs[i]);
        ok = ok && e;
        proof {
            assert(csv.subrange(0, i as int + 1).drop_last() =~= csv.subrange(0, i as int));
            assert(csv.subrange(0, i as int + 1).last() == csv[i as int]);
        }
    }
    proof {
        assert(csv.subrange(0, csv.len() as int) =~= csv);
    }
    ok
}

/// Returns whether a class expression may stand in QL subclass position,
/// following [`spec_ql_sub_ce`].
pub fn is_ql_subclass_expression(c: &ClassExpression) -> (r: bool)
    ensures
        r == spec_ql_sub_ce((*c)@),
{
    proof {
        lemma_ce_variants(*c);
    }
    match c {
        ClassExpression::Class(_) => true,
        _ => false,
    }
}

/// Returns whether a class expression may stand in QL superclass position,
/// following [`spec_ql_super_ce`].
pub fn is_ql_superclass_expression(c: &ClassExpression) -> (r: bool)
    ensures
        r == spec_ql_super_ce((*c)@),
    decreases *c, 1int,
{
    proof {
        lemma_ce_variants(*c);
    }
    match c {
        ClassExpression::Class(_) => true,
        ClassExpression::ObjectIntersectionOf(cs) => {
            proof {
                assert(decreases_to!(*c => c->ObjectIntersectionOf_0));
            }
            is_ql_superclass_expression_all_rec(c, cs)
        },
        ClassExpression::ObjectComplementOf(e) => {
            proof {
                assert(decreases_to!(*c => c->ObjectComplementOf_0));
            }
            is_ql_valid_class_expression(&*e)
        },
        ClassExpression::ObjectSomeValuesFrom { property: _, filler } => {
            proof {
                assert(decreases_to!(*c => c->ObjectSomeValuesFrom_filler));
            }
            is_ql_valid_class_expression(&*filler)
        },
        ClassExpression::ObjectHasValue { property: _, value: _ } => true,
        _ => false,
    }
}

/// Returns whether every element of a list satisfies the corresponding
/// profile grammar, following [`spec_rl_ce_all`].
fn is_rl_class_expression_all_rec(x: &ClassExpression, cs: &Vec<ClassExpression>) -> (r: bool)
    requires
        decreases_to!(*x => *cs),
    ensures
        r == spec_rl_ce_all(spec_ce_seq(cs@)),
    decreases *x, 0int,
{
    let ghost csv = spec_ce_seq(cs@);
    proof {
        lemma_spec_ce_seq(cs@);
        assert(spec_rl_ce_all(csv.subrange(0, 0)));
    }
    let mut ok = true;
    for i in 0..cs.len()
        invariant
            csv == spec_ce_seq(cs@),
            csv.len() == cs@.len(),
            decreases_to!(*x => *cs),
            ok == spec_rl_ce_all(csv.subrange(0, i as int)),
    {
        proof {
            lemma_spec_ce_seq(cs@);
            assert(decreases_to!(*cs => cs@));
            vstd::std_specs::vec::axiom_vec_index_decreases::<ClassExpression>(*cs, i as int);
            assert(decreases_to!(*x => cs@[i as int]));
        }
        let e = is_rl_class_expression(&cs[i]);
        ok = ok && e;
        proof {
            assert(csv.subrange(0, i as int + 1).drop_last() =~= csv.subrange(0, i as int));
            assert(csv.subrange(0, i as int + 1).last() == csv[i as int]);
        }
    }
    proof {
        assert(csv.subrange(0, csv.len() as int) =~= csv);
    }
    ok
}

/// Returns whether every element of a list satisfies the corresponding
/// profile grammar, following [`spec_rl_sub_ce_all`].
fn is_rl_subclass_expression_all_rec(x: &ClassExpression, cs: &Vec<ClassExpression>) -> (r: bool)
    requires
        decreases_to!(*x => *cs),
    ensures
        r == spec_rl_sub_ce_all(spec_ce_seq(cs@)),
    decreases *x, 0int,
{
    let ghost csv = spec_ce_seq(cs@);
    proof {
        lemma_spec_ce_seq(cs@);
        assert(spec_rl_sub_ce_all(csv.subrange(0, 0)));
    }
    let mut ok = true;
    for i in 0..cs.len()
        invariant
            csv == spec_ce_seq(cs@),
            csv.len() == cs@.len(),
            decreases_to!(*x => *cs),
            ok == spec_rl_sub_ce_all(csv.subrange(0, i as int)),
    {
        proof {
            lemma_spec_ce_seq(cs@);
            assert(decreases_to!(*cs => cs@));
            vstd::std_specs::vec::axiom_vec_index_decreases::<ClassExpression>(*cs, i as int);
            assert(decreases_to!(*x => cs@[i as int]));
        }
        let e = is_rl_subclass_expression(&cs[i]);
        ok = ok && e;
        proof {
            assert(csv.subrange(0, i as int + 1).drop_last() =~= csv.subrange(0, i as int));
            assert(csv.subrange(0, i as int + 1).last() == csv[i as int]);
        }
    }
    proof {
        assert(csv.subrange(0, csv.len() as int) =~= csv);
    }
    ok
}

/// Returns whether every element of a list satisfies the corresponding
/// profile grammar, following [`spec_rl_super_ce_all`].
fn is_rl_superclass_expression_all_rec(x: &ClassExpression, cs: &Vec<ClassExpression>) -> (r: bool)
    requires
        decreases_to!(*x => *cs),
    ensures
        r == spec_rl_super_ce_all(spec_ce_seq(cs@)),
    decreases *x, 0int,
{
    let ghost csv = spec_ce_seq(cs@);
    proof {
        lemma_spec_ce_seq(cs@);
        assert(spec_rl_super_ce_all(csv.subrange(0, 0)));
    }
    let mut ok = true;
    for i in 0..cs.len()
        invariant
            csv == spec_ce_seq(cs@),
            csv.len() == cs@.len(),
            decreases_to!(*x => *cs),
            ok == spec_rl_super_ce_all(csv.subrange(0, i as int)),
    {
        proof {
            lemma_spec_ce_seq(cs@);
            assert(decreases_to!(*cs => cs@));
            vstd::std_specs::vec::axiom_vec_index_decreases::<ClassExpression>(*cs, i as int);
            assert(decreases_to!(*x => cs@[i as int]));
        }
        let e = is_rl_superclass_expression(&cs[i]);
        ok = ok && e;
        proof {
            assert(csv.subrange(0, i as int + 1).drop_last() =~= csv.subrange(0, i as int));
            assert(csv.subrange(0, i as int + 1).last() == csv[i as int]);
        }
    }
    proof {
        assert(csv.subrange(0, csv.len() as int) =~= csv);
    }
    ok
}

/// Returns whether every element of a list satisfies the corresponding
/// profile grammar, following [`spec_rl_equiv_ce_all`].
fn is_rl_equivalent_expression_all_rec(x: &ClassExpression, cs: &Vec<ClassExpression>) -> (r: bool)
    requires
        decreases_to!(*x => *cs),
    ensures
        r == spec_rl_equiv_ce_all(spec_ce_seq(cs@)),
    decreases *x, 0int,
{
    let ghost csv = spec_ce_seq(cs@);
    proof {
        lemma_spec_ce_seq(cs@);
        assert(spec_rl_equiv_ce_all(csv.subrange(0, 0)));
    }
    let mut ok = true;
    for i in 0..cs.len()
        invariant
            csv == spec_ce_seq(cs@),
            csv.len() == cs@.len(),
            decreases_to!(*x => *cs),
            ok == spec_rl_equiv_ce_all(csv.subrange(0, i as int)),
    {
        proof {
            lemma_spec_ce_seq(cs@);
            assert(decreases_to!(*cs => cs@));
            vstd::std_specs::vec::axiom_vec_index_decreases::<ClassExpression>(*cs, i as int);
            assert(decreases_to!(*x => cs@[i as int]));
        }
        let e = is_rl_equivalent_expression(&cs[i]);
        ok = ok && e;
        proof {
            assert(csv.subrange(0, i as int + 1).drop_last() =~= csv.subrange(0, i as int));
            assert(csv.subrange(0, i as int + 1).last() == csv[i as int]);
        }
    }
    proof {
        assert(csv.subrange(0, csv.len() as int) =~= csv);
    }
    ok
}

/// Returns whether an object property expression may stand in RL,
/// following [`spec_rl_ope`].
pub fn is_rl_object_property_expression(p: &ObjectPropertyExpression) -> (r: bool)
    ensures
        r == spec_rl_ope((*p)@),
{
    proof {
        lemma_ope_variants(*p);
    }
    match p {
        ObjectPropertyExpression::ObjectPropertyChain(_) => false,
        _ => true,
    }
}

/// Returns whether an optional filler may stand anywhere in RL, following
/// [`spec_rl_ce_opt`].
fn is_rl_filler(c: &ClassExpression, f: &Option<Box<ClassExpression>>) -> (r: bool)
    requires
        decreases_to!(*c => *f),
    ensures
        r == spec_rl_ce_opt(match *f {
            Option::Some(b) => Some(Box::new((*b)@)),
            Option::None => None,
        }),
    decreases *c, 0int,
{
    match f {
        Option::Some(b) => {
            proof {
                assert(decreases_to!(*f => f->0));
            }
            is_rl_class_expression(&*b)
        },
        Option::None => true,
    }
}

/// Returns whether a class expression may stand anywhere in RL, following
/// [`spec_rl_ce`].
pub fn is_rl_class_expression(c: &ClassExpression) -> (r: bool)
    ensures
        r == spec_rl_ce((*c)@),
    decreases *c, 1int,
{
    proof {
        lemma_ce_variants(*c);
    }
    match c {
        ClassExpression::Class(_) => true,
        ClassExpression::ObjectIntersectionOf(cs) => {
            proof {
                assert(decreases_to!(*c => c->ObjectIntersectionOf_0));
            }
            is_rl_class_expression_all_rec(c, cs)
        },
        ClassExpression::ObjectUnionOf(cs) => {
            proof {
                assert(decreases_to!(*c => c->ObjectUnionOf_0));
            }
            is_rl_class_expression_all_rec(c, cs)
        },
        ClassExpression::ObjectComplementOf(e) => {
            proof {
                assert(decreases_to!(*c => c->ObjectComplementOf_0));
            }
            is_rl_class_expression(&*e)
        },
        ClassExpression::ObjectOneOf(is) => is.len() > 0,
        ClassExpression::ObjectSomeValuesFrom { property, filler } => {
            proof {
                assert(decreases_to!(*c => c->ObjectSomeValuesFrom_filler));
            }
            is_rl_object_property_expression(property) && is_rl_class_expression(&*filler)
        },
        ClassExpression::ObjectAllValuesFrom { property, filler } => {
            proof {
                assert(decreases_to!(*c => c->ObjectAllValuesFrom_filler));
            }
            is_rl_object_property_expression(property) && is_rl_class_expression(&*filler)
        },
        ClassExpression::ObjectHasValue { property, value: _ } => is_rl_object_property_expression(
            property,
        ),
        ClassExpression::ObjectHasSelf(p) => is_rl_object_property_expression(p),
        ClassExpression::ObjectMinCardinality { min, property, filler } => {
            proof {
                assert(decreases_to!(*c => c->ObjectMinCardinality_filler));
            }
            *min <= 1 && is_rl_object_property_expression(property) && is_rl_filler(c, filler)
        },
        ClassExpression::ObjectMaxCardinality { max, property, filler } => {
            proof {
                assert(decreases_to!(*c => c->ObjectMaxCardinality_filler));
            }
            *max <= 1 && is_rl_object_property_expression(property) && is_rl_filler(c, filler)
        },
        ClassExpression::ObjectExactCardinality { cardinality, property, filler } => {
            proof {
                assert(decreases_to!(*c => c->ObjectExactCardinality_filler));
            }
            *cardinality <= 1 && is_rl_object_property_expression(property) && is_rl_filler(
                c,
                filler,
            )
        },
    }
}

/// Returns whether a class expression may stand in RL subclass position,
/// following [`spec_rl_sub_ce`].
pub fn is_rl_subclass_expression(c: &ClassExpression) -> (r: bool)
    ensures
        r == spec_rl_sub_ce((*c)@),
    decreases *c, 1int,
{
    proof {
        lemma_ce_variants(*c);
    }
    match c {
        ClassExpression::Class(_) => true,
        ClassExpression::ObjectIntersectionOf(cs) => {
            proof {
                assert(decreases_to!(*c => c->ObjectIntersectionOf_0));
            }
            is_rl_subclass_expression_all_rec(c, cs)
        },
        ClassExpression::ObjectUnionOf(cs) => {
            proof {
                assert(decreases_to!(*c => c->ObjectUnionOf_0));
            }
            is_rl_subclass_expression_all_rec(c, cs)
        },
        ClassExpression::ObjectOneOf(is) => is.len() > 0,
        ClassExpression::ObjectSomeValuesFrom { property, filler } => {
            proof {
                assert(decreases_to!(*c => c->ObjectSomeValuesFrom_filler));
            }
            is_rl_object_property_expression(property) && is_rl_class_expression(&*filler)
        },
        ClassExpression::ObjectHasValue { property, value: _ } => is_rl_object_property_expression(
            property,
        ),
        _ => false,
    }
}

/// Returns whether a class expression may stand in RL superclass position,
/// following [`spec_rl_super_ce`].
pub fn is_rl_superclass_expression(c: &ClassExpression) -> (r: bool)
    ensures
        r == spec_rl_super_ce((*c)@),
    decreases *c, 1int,
{
    proof {
        lemma_ce_variants(*c);
    }
    match c {
        ClassExpression::Class(_) => true,
        ClassExpression::ObjectIntersectionOf(cs) => {
            proof {
                assert(decreases_to!(*c => c->ObjectIntersectionOf_0));
            }
            is_rl_superclass_expression_all_rec(c, cs)
        },
        ClassExpression::ObjectComplementOf(e) => {
            proof {
                assert(decreases_to!(*c => c->ObjectComplementOf_0));
            }
            is_rl_class_expression(&*e)
        },
        ClassExpression::ObjectSomeValuesFrom { property, filler } => {
            proof {
                assert(decreases_to!(*c => c->ObjectSomeValuesFrom_filler));
            }
            is_rl_object_property_expression(property) && is_rl_class_expression(&*filler)
        },
        ClassExpression::ObjectAllValuesFrom { property, filler } => {
            proof {
                assert(decreases_to!(*c => c->ObjectAllValuesFrom_filler));
            }
            is_rl_object_property_expression(property) && is_rl_class_expression(&*filler)
        },
        ClassExpression::ObjectHasValue { property, value: _ } => is_rl_object_property_expression(
            property,
        ),
        ClassExpression::ObjectMaxCardinality { max, property, filler } => {
            proof {
                assert(decreases_to!(*c => c->ObjectMaxCardinality_filler));
            }
            *max <= 1 && is_rl_object_property_expression(property) && is_rl_filler(c, filler)
        },
        _ => false,
    }
}

/// Returns whether a class expression may stand in an RL equivalence,
/// following [`spec_rl_equiv_ce`].
pub fn is_rl_equivalent_expression(c: &ClassExpression) -> (r: bool)
    ensures
        r == spec_rl_equiv_ce((*c)@),
    decreases *c, 1int,
{
    proof {
        lemma_ce_variants(*c);
    }
    match c {
        ClassExpression::Class(_) => true,
        ClassExpression::ObjectIntersectionOf(cs) => {
            proof {
                assert(decreases_to!(*c => c->ObjectIntersectionOf_0));
            }
            is_rl_equivalent_expression_all_rec(c, cs)
        },
        ClassExpression::ObjectHasValue { property, value: _ } => is_rl_object_property_expression(
            property,
        ),
        _ => false,
    }
}


/// Pushes `msg` when `ok` fails.
fn push_viol(out: &mut Vec<String>, ok: bool, msg: &str)
    ensures
        spec_string_seq(final(out)@) == spec_string_seq(old(out)@) + spec_viol(ok, msg@),
{
    let ghost base = spec_string_seq(out@);
    if !ok {
        out.push(String::from_str(msg));
        proof {
            assert(spec_string_seq(final(out)@) =~= base + seq![msg@]);
        }
    } else {
        proof {
            assert(spec_string_seq(final(out)@) =~= base + spec_viol(ok, msg@));
        }
    }
}

/// The violation messages of one axiom for a profile, following
/// [`spec_profile_axiom_viols`].
#[verifier::rlimit(100)]
fn profile_axiom_viols(profile: &OwlProfile, a: &Axiom, out: &mut Vec<String>)
    ensures
        spec_string_seq(final(out)@) == spec_string_seq(old(out)@) + spec_profile_axiom_viols(
            profile@,
            (*a)@,
        ),
{
    let ghost base = spec_string_seq(out@);
    match profile {
        OwlProfile::Full => {
            proof {
                assert(spec_string_seq(final(out)@) =~= base + spec_profile_axiom_viols(
                    profile@,
                    (*a)@,
                ));
            }
        },
        OwlProfile::EL => {
            match a {
                Axiom::Class(ca) => match ca {
                    ClassAxiom::SubClassOf { sub_class, super_class } => {
                        let ok1 = is_el_class_expression(sub_class);
                        push_viol(out, ok1, "SubClassOf axiom has non-EL subclass expression");
                        let ok2 = is_el_class_expression(super_class);
                        push_viol(out, ok2, "SubClassOf axiom has non-EL superclass expression");
                    },
                    ClassAxiom::EquivalentClasses { classes } => {
                        el_list_viols(
                            classes,
                            "EquivalentClasses axiom has non-EL class expression",
                            out,
                        );
                    },
                    ClassAxiom::DisjointClasses { classes } => {
                        el_list_viols(
                            classes,
                            "DisjointClasses axiom has non-EL class expression",
                            out,
                        );
                    },
                    ClassAxiom::DisjointUnion { class: _, disjoint_classes } => {
                        el_list_viols(
                            disjoint_classes,
                            "DisjointUnion axiom has non-EL class expression",
                            out,
                        );
                    },
                },
                Axiom::ObjectProperty(oa) => match oa {
                    ObjectPropertyAxiom::SubObjectPropertyOf { sub_property, super_property } => {
                        let ok1 = is_el_object_property_expression(sub_property);
                        push_viol(
                            out,
                            ok1,
                            "SubObjectPropertyOf axiom has non-EL sub-property expression",
                        );
                        let ok2 = is_el_object_property_expression(super_property);
                        push_viol(
                            out,
                            ok2,
                            "SubObjectPropertyOf axiom has non-EL super-property expression",
                        );
                    },
                    ObjectPropertyAxiom::ObjectPropertyDomain { property, domain } => {
                        let ok1 = is_el_object_property_expression(property);
                        push_viol(
                            out,
                            ok1,
                            "ObjectPropertyDomain axiom has non-EL property expression",
                        );
                        let ok2 = is_el_class_expression(domain);
                        push_viol(
                            out,
                            ok2,
                            "ObjectPropertyDomain axiom has non-EL domain expression",
                        );
                    },
                    ObjectPropertyAxiom::ObjectPropertyRange { property, range } => {
                        let ok1 = is_el_object_property_expression(property);
                        push_viol(
                            out,
                            ok1,
                            "ObjectPropertyRange axiom has non-EL property expression",
                        );
                        let ok2 = is_el_class_expression(range);
                        push_viol(out, ok2, "ObjectPropertyRange axiom has non-EL range expression");
                    },
                    _ => {
                        proof {
                            assert(spec_string_seq(final(out)@) =~= base + spec_profile_axiom_viols(
                                profile@,
                                (*a)@,
                            ));
                        }
                    },
                },
                Axiom::DataProperty(da) => match da {
                    DataPropertyAxiom::DataPropertyDomain { property: _, domain } => {
                        let ok1 = is_el_class_expression(domain);
                        push_viol(out, ok1, "DataPropertyDomain axiom has non-EL domain expression");
                    },
                    DataPropertyAxiom::DataPropertyRange { property: _, range } => {
                        let ok1 = match range {
                            DataRange::Datatype(_) => true,
                            _ => false,
                        };
                        proof {
                            lemma_dr_variants(*range);
                        }
                        push_viol(out, ok1, "DataPropertyRange axiom has non-EL range expression");
                    },
                    _ => {
                        proof {
                            assert(spec_string_seq(final(out)@) =~= base + spec_profile_axiom_viols(
                                profile@,
                                (*a)@,
                            ));
                        }
                    },
                },
                Axiom::Assertion(asr) => match asr {
                    Assertion::ClassAssertion { class, individual: _ } => {
                        let ok1 = is_el_class_expression(class);
                        push_viol(out, ok1, "ClassAssertion has non-EL class expression");
                    },
                    Assertion::ObjectPropertyAssertion { property, source: _, target: _ } => {
                        let ok1 = is_el_object_property_expression(property);
                        push_viol(out, ok1, "ObjectPropertyAssertion has non-EL property expression");
                    },
                    Assertion::NegativeObjectPropertyAssertion {
                        property,
                        source: _,
                        target: _,
                    } => {
                        let ok1 = is_el_object_property_expression(property);
                        push_viol(
                            out,
                            ok1,
                            "NegativeObjectPropertyAssertion has non-EL property expression",
                        );
                    },
                    _ => {
                        proof {
                            assert(spec_string_seq(final(out)@) =~= base + spec_profile_axiom_viols(
                                profile@,
                                (*a)@,
                            ));
                        }
                    },
                },
            }
        },
        OwlProfile::QL => {
            match a {
                Axiom::Class(ca) => match ca {
                    ClassAxiom::SubClassOf { sub_class, super_class } => {
                        let ok1 = is_ql_subclass_expression(sub_class);
                        push_viol(out, ok1, "SubClassOf axiom has non-QL subclass expression");
                        let ok2 = is_ql_superclass_expression(super_class);
                        push_viol(out, ok2, "SubClassOf axiom has non-QL superclass expression");
                    },
                    ClassAxiom::EquivalentClasses { classes } => {
                        ql_list_viols(
                            classes,
                            "EquivalentClasses axiom has non-QL class expression",
                            out,
                        );
                    },
                    ClassAxiom::DisjointClasses { classes } => {
                        ql_list_viols(
                            classes,
                            "DisjointClasses axiom has non-QL class expression",
                            out,
                        );
                    },
                    ClassAxiom::DisjointUnion { class: _, disjoint_classes: _ } => {
                        push_viol(out, false, "DisjointUnion axiom is not allowed in QL profile");
                    },
                },
                Axiom::ObjectProperty(oa) => match oa {
                    ObjectPropertyAxiom::SubObjectPropertyOf { sub_property, super_property } => {
                        let ok1 = match sub_property {
                            ObjectPropertyExpression::ObjectPropertyChain(_) => false,
                            _ => true,
                        };
                        proof {
                            lemma_ope_variants(*sub_property);
                        }
                        push_viol(
                            out,
                            ok1,
                            "SubObjectPropertyOf with property chain is not allowed in QL profile",
                        );
                        let ok2 = match super_property {
                            ObjectPropertyExpression::ObjectPropertyChain(_) => false,
                            _ => true,
                        };
                        proof {
                            lemma_ope_variants(*super_property);
                        }
                        push_viol(
                            out,
                            ok2,
                            "SubObjectPropertyOf with property chain is not allowed in QL profile",
                        );
                    },
                    ObjectPropertyAxiom::TransitiveObjectProperty { property: _ } => {
                        push_viol(
                            out,
                            false,
                            "TransitiveObjectProperty axiom is not allowed in QL profile",
                        );
                    },
                    ObjectPropertyAxiom::FunctionalObjectProperty { property: _ } => {
                        push_viol(
                            out,
                            false,
                            "FunctionalObjectProperty axiom is not allowed in QL profile",
                        );
                    },
                    ObjectPropertyAxiom::InverseFunctionalObjectProperty { property: _ } => {
                        push_viol(
                            out,
                            false,
                            "InverseFunctionalObjectProperty axiom is not allowed in QL profile",
                        );
                    },
                    _ => {
                        proof {
                            assert(spec_string_seq(final(out)@) =~= base + spec_profile_axiom_viols(
                                profile@,
                                (*a)@,
                            ));
                        }
                    },
                },
                Axiom::DataProperty(da) => match da {
                    DataPropertyAxiom::FunctionalDataProperty { property: _ } => {
                        push_viol(
                            out,
                            false,
                            "FunctionalDataProperty axiom is not allowed in QL profile",
                        );
                    },
                    _ => {
                        proof {
                            assert(spec_string_seq(final(out)@) =~= base + spec_profile_axiom_viols(
                                profile@,
                                (*a)@,
                            ));
                        }
                    },
                },
                Axiom::Assertion(asr) => match asr {
                    Assertion::SameIndividual { individuals: _ } => {
                        push_viol(out, false, "SameIndividual assertion is not allowed in QL profile");
                    },
                    Assertion::NegativeObjectPropertyAssertion {
                        property: _,
                        source: _,
                        target: _,
                    } => {
                        push_viol(
                            out,
                            false,
                            "NegativeObjectPropertyAssertion is not allowed in QL profile",
                        );
                    },
                    Assertion::NegativeDataPropertyAssertion {
                        property: _,
                        source: _,
                        target: _,
                    } => {
                        push_viol(
                            out,
                            false,
                            "NegativeDataPropertyAssertion is not allowed in QL profile",
                        );
                    },
                    _ => {
                        proof {
                            assert(spec_string_seq(final(out)@) =~= base + spec_profile_axiom_viols(
                                profile@,
                                (*a)@,
                            ));
                        }
                    },
                },
            }
        },
        OwlProfile::RL => {
            match a {
                Axiom::Class(ca) => match ca {
                    ClassAxiom::SubClassOf { sub_class, super_class } => {
                        let ok1 = is_rl_subclass_expression(sub_class);
                        push_viol(out, ok1, "SubClassOf axiom has non-RL subclass expression");
                        let ok2 = is_rl_superclass_expression(super_class);
                        push_viol(out, ok2, "SubClassOf axiom has non-RL superclass expression");
                    },
                    ClassAxiom::EquivalentClasses { classes } => {
                        rl_equiv_list_viols(
                            classes,
                            "EquivalentClasses axiom has non-RL class expression",
                            out,
                        );
                    },
                    ClassAxiom::DisjointClasses { classes } => {
                        rl_list_viols(
                            classes,
                            "DisjointClasses axiom has non-RL class expression",
                            out,
                        );
                    },
                    ClassAxiom::DisjointUnion { class: _, disjoint_classes: _ } => {
                        push_viol(out, false, "DisjointUnion axiom is not allowed in RL profile");
                    },
                },
                Axiom::ObjectProperty(oa) => match oa {
                    ObjectPropertyAxiom::ReflexiveObjectProperty { property: _ } => {
                        push_viol(
                            out,
                            false,
                            "ReflexiveObjectProperty axiom is not allowed in RL profile",
                        );
                    },
                    _ => {
                        proof {
                            assert(spec_string_seq(final(out)@) =~= base + spec_profile_axiom_viols(
                                profile@,
                                (*a)@,
                            ));
                        }
                    },
                },
                Axiom::DataProperty(da) => match da {
                    DataPropertyAxiom::DataPropertyRange { property: _, range } => {
                        let ok1 = match range {
                            DataRange::Datatype(d) => {
                                let banned_a = String::from_str(
                                    "http://www.w3.org/2002/07/owl#real",
                                );
                                let banned_b = String::from_str(
                                    "http://www.w3.org/2002/07/owl#rational",
                                );
                                !(d.0 .0 == banned_a) && !(d.0 .0 == banned_b)
                            },
                            _ => true,
                        };
                        proof {
                            lemma_dr_variants(*range);
                        }
                        push_viol(
                            out,
                            ok1,
                            "DataPropertyRange axiom uses a datatype not allowed in RL profile",
                        );
                    },
                    _ => {
                        proof {
                            assert(spec_string_seq(final(out)@) =~= base + spec_profile_axiom_viols(
                                profile@,
                                (*a)@,
                            ));
                        }
                    },
                },
                Axiom::Assertion(asr) => match asr {
                    Assertion::ClassAssertion { class, individual: _ } => {
                        let ok1 = is_rl_superclass_expression(class);
                        push_viol(out, ok1, "ClassAssertion has non-RL class expression");
                    },
                    _ => {
                        proof {
                            assert(spec_string_seq(final(out)@) =~= base + spec_profile_axiom_viols(
                                profile@,
                                (*a)@,
                            ));
                        }
                    },
                },
            }
        },
    }
}

/// A data range and its value agree on being a plain datatype.
pub proof fn lemma_dr_variants(r: DataRange)
    ensures
        ((r)@ is Datatype) <==> (r is Datatype),
{
    match r {
        DataRange::Datatype(_) => {},
        DataRange::DataIntersectionOf(_) => {},
        DataRange::DataUnionOf(_) => {},
        DataRange::DataComplementOf(_) => {},
        DataRange::DataOneOf(_) => {},
        DataRange::DatatypeRestriction { datatype: _, restrictions: _ } => {},
    }
}

/// Checks whether an ontology lies within a profile: the violation list is
/// computed axiom by axiom, and the ontology conforms exactly when the list
/// is empty.
pub fn check_profile_compliance(ontology: &Ontology, profile: OwlProfile) -> (r: ProfileCheckResult)
    ensures
        r.profile@ == profile@,
        spec_string_seq(r.violations@) == spec_profile_violations(profile@, ontology@.axioms),
        r.conforms == (spec_profile_violations(profile@, ontology@.axioms).len() == 0),
{
    let ghost axs = ontology@.axioms;
    let mut violations: Vec<String> = Vec::new();
    proof {
        assert(spec_string_seq(violations@) =~= spec_profile_violations(
            profile@,
            axs.subrange(0, 0),
        ));
    }
    let mut i: usize = 0;
    while i < ontology.axioms.len()
        invariant
            axs == ontology@.axioms,
            axs.len() == ontology.axioms@.len(),
            i <= axs.len(),
            spec_string_seq(violations@) == spec_profile_violations(
                profile@,
                axs.subrange(0, i as int),
            ),
        decreases axs.len() - i,
    {
        profile_axiom_viols(&profile, &ontology.axioms[i], &mut violations);
        proof {
            assert(axs.subrange(0, i as int + 1).drop_last() =~= axs.subrange(0, i as int));
            assert(axs.subrange(0, i as int + 1).last() == axs[i as int]);
        }
        i = i + 1;
    }
    proof {
        assert(axs.subrange(0, axs.len() as int) =~= axs);
    }
    let conforms = violations.len() == 0;
    ProfileCheckResult { profile, conforms, violations }
}


/// One message per list element outside the corresponding fragment,
/// following [`spec_el_list_viols`].
fn el_list_viols(cs: &Vec<ClassExpression>, msg: &str, out: &mut Vec<String>)
    ensures
        spec_string_seq(final(out)@) == spec_string_seq(old(out)@) + spec_el_list_viols(
            spec_ce_seq(cs@),
            msg@,
        ),
{
    let ghost csv = spec_ce_seq(cs@);
    let ghost base = spec_string_seq(out@);
    proof {
        lemma_spec_ce_seq(cs@);
        assert(spec_string_seq(out@) =~= base + spec_el_list_viols(csv.subrange(0, 0), msg@));
    }
    for i in 0..cs.len()
        invariant
            csv == spec_ce_seq(cs@),
            csv.len() == cs@.len(),
            spec_string_seq(out@) == base + spec_el_list_viols(csv.subrange(0, i as int), msg@),
    {
        proof {
            lemma_spec_ce_seq(cs@);
        }
        let ok = is_el_class_expression(&cs[i]);
        push_viol(out, ok, msg);
        proof {
            assert(csv.subrange(0, i as int + 1).drop_last() =~= csv.subrange(0, i as int));
            assert(csv.subrange(0, i as int + 1).last() == csv[i as int]);
        }
    }
    proof {
        assert(csv.subrange(0, csv.len() as int) =~= csv);
    }
}

/// One message per list element outside the corresponding fragment,
/// following [`spec_ql_list_viols`].
fn ql_list_viols(cs: &Vec<ClassExpression>, msg: &str, out: &mut Vec<String>)
    ensures
        spec_string_seq(final(out)@) == spec_string_seq(old(out)@) + spec_ql_list_viols(
            spec_ce_seq(cs@),
            msg@,
        ),
{
    let ghost csv = spec_ce_seq(cs@);
    let ghost base = spec_string_seq(out@);
    proof {
        lemma_spec_ce_seq(cs@);
        assert(spec_string_seq(out@) =~= base + spec_ql_list_viols(csv.subrange(0, 0), msg@));
    }
    for i in 0..cs.len()
        invariant
            csv == spec_ce_seq(cs@),
            csv.len() == cs@.len(),
            spec_string_seq(out@) == base + spec_ql_list_viols(csv.subrange(0, i as int), msg@),
    {
        proof {
            lemma_spec_ce_seq(cs@);
        }
        let ok = is_ql_valid_class_expression(&cs[i]);
        push_viol(out, ok, msg);
        proof {
            assert(csv.subrange(0, i as int + 1).drop_last() =~= csv.subrange(0, i as int));
            assert(csv.subrange(0, i as int + 1).last() == csv[i as int]);
        }
    }
    proof {
        assert(csv.subrange(0, csv.len() as int) =~= csv);
    }
}

/// One message per list element outside the corresponding fragment,
/// following [`spec_rl_list_viols`].
fn rl_list_viols(cs: &Vec<ClassExpression>, msg: &str, out: &mut Vec<String>)
    ensures
        spec_string_seq(final(out)@) == spec_string_seq(old(out)@) + spec_rl_list_viols(
            spec_ce_seq(cs@),
            msg@,
        ),
{
    let ghost csv = spec_ce_seq(cs@);
    let ghost base = spec_string_seq(out@);
    proof {
        lemma_spec_ce_seq(cs@);
        assert(spec_string_seq(out@) =~= base + spec_rl_list_viols(csv.subrange(0, 0), msg@));
    }
    for i in 0..cs.len()
        invariant
            csv == spec_ce_seq(cs@),
            csv.len() == cs@.len(),
            spec_string_seq(out@) == base + spec_rl_list_viols(csv.subrange(0, i as int), msg@),
    {
        proof {
            lemma_spec_ce_seq(cs@);
        }
        let ok = is_rl_class_expression(&cs[i]);
        push_viol(out, ok, msg);
        proof {
            assert(csv.subrange(0, i as int + 1).drop_last() =~= csv.subrange(0, i as int));
            assert(csv.subrange(0, i as int + 1).last() == csv[i as int]);
        }
    }
    proof {
        assert(csv.subrange(0, csv.len() as int) =~= csv);
    }
}

/// One message per list element outside the corresponding fragment,
/// following [`spec_rl_equiv_list_viols`].
fn rl_equiv_list_viols(cs: &Vec<ClassExpression>, msg: &str, out: &mut Vec<String>)
    ensures
        spec_string_seq(final(out)@) == spec_string_seq(old(out)@) + spec_rl_equiv_list_viols(
            spec_ce_seq(cs@),
            msg@,
        ),
{
    let ghost csv = spec_ce_seq(cs@);
    let ghost base = spec_string_seq(out@);
    proof {
        lemma_spec_ce_seq(cs@);
        assert(spec_string_seq(out@) =~= base + spec_rl_equiv_list_viols(csv.subrange(0, 0), msg@));
    }
    for i in 0..cs.len()
        invariant
            csv == spec_ce_seq(cs@),
            csv.len() == cs@.len(),
            spec_string_seq(out@) == base + spec_rl_equiv_list_viols(csv.subrange(0, i as int), msg@),
    {
        proof {
            lemma_spec_ce_seq(cs@);
        }
        let ok = is_rl_equivalent_expression(&cs[i]);
        push_viol(out, ok, msg);
        proof {
            assert(csv.subrange(0, i as int + 1).drop_last() =~= csv.subrange(0, i as int));
            assert(csv.subrange(0, i as int + 1).last() == csv[i as int]);
        }
    }
    proof {
        assert(csv.subrange(0, csv.len() as int) =~= csv);
    }
}

} // verus!
