//! Core data model for OWL 2 ontologies in functional-style syntax:
//! entities, class expressions, axioms, and the ontology container.
//!
//! Every type carries a mathematical view (`@`) built from sequences of
//! characters, over which all contracts in this crate are stated.

use vstd::prelude::*;

pub mod parser;
pub mod reasoner;
pub mod owl2_profile;
pub mod api;
pub mod incremental;
pub mod sparql;
pub mod laws;

verus! {

/// An Internationalized Resource Identifier, the name of every entity.
#[derive(Debug, PartialEq, Eq, Hash, PartialOrd, Ord)]
pub struct IRI(pub String);

impl View for IRI {
    type V = Seq<char>;

    open spec fn view(&self) -> Seq<char> {
        self.0@
    }
}

impl Clone for IRI {
    fn clone(&self) -> (r: Self)
        ensures
            r@ == self@,
    {
        IRI(self.0.clone())
    }
}

/// Returns whether two IRIs denote the same name.
pub fn iri_eq(a: &IRI, b: &IRI) -> (r: bool)
    ensures
        r == (a@ == b@),
{
    a.0 == b.0
}

/// A node identifier for an anonymous individual, of the form `_:name`.
#[derive(Debug, PartialEq, Eq, Hash, PartialOrd, Ord)]
pub struct NodeID(pub String);

impl View for NodeID {
    type V = Seq<char>;

    open spec fn view(&self) -> Seq<char> {
        self.0@
    }
}

impl Clone for NodeID {
    fn clone(&self) -> (r: Self)
        ensures
            r@ == self@,
    {
        NodeID(self.0.clone())
    }
}

/// A class, denoting a set of individuals.
#[derive(Debug, PartialEq, Eq, Hash, PartialOrd, Ord)]
pub struct Class(pub IRI);

impl View for Class {
    type V = Seq<char>;

    open spec fn view(&self) -> Seq<char> {
        self.0@
    }
}

impl Clone for Class {
    fn clone(&self) -> (r: Self)
        ensures
            r@ == self@,
    {
        Class(self.0.clone())
    }
}

/// Returns whether two classes have the same name.
pub fn class_eq(a: &Class, b: &Class) -> (r: bool)
    ensures
        r == (a@ == b@),
{
    iri_eq(&a.0, &b.0)
}

/// A datatype, denoting a set of data values.
#[derive(Debug, PartialEq, Eq, Hash, PartialOrd, Ord)]
pub struct Datatype(pub IRI);

impl View for Datatype {
    type V = Seq<char>;

    open spec fn view(&self) -> Seq<char> {
        self.0@
    }
}

impl Clone for Datatype {
    fn clone(&self) -> (r: Self)
        ensures
            r@ == self@,
    {
        Datatype(self.0.clone())
    }
}

/// Returns whether two datatypes have the same name.
pub fn datatype_eq(a: &Datatype, b: &Datatype) -> (r: bool)
    ensures
        r == (a@ == b@),
{
    iri_eq(&a.0, &b.0)
}

/// An object property, denoting a relation between individuals.
#[derive(Debug, PartialEq, Eq, Hash, PartialOrd, Ord)]
pub struct ObjectProperty(pub IRI);

impl View for ObjectProperty {
    type V = Seq<char>;

    open spec fn view(&self) -> Seq<char> {
        self.0@
    }
}

impl Clone for ObjectProperty {
    fn clone(&self) -> (r: Self)
        ensures
            r@ == self@,
    {
        ObjectProperty(self.0.clone())
    }
}

/// A data property, denoting a relation between individuals and data values.
#[derive(Debug, PartialEq, Eq, Hash, PartialOrd, Ord)]
pub struct DataProperty(pub IRI);

impl View for DataProperty {
    type V = Seq<char>;

    open spec fn view(&self) -> Seq<char> {
        self.0@
    }
}

impl Clone for DataProperty {
    fn clone(&self) -> (r: Self)
        ensures
            r@ == self@,
    {
        DataProperty(self.0.clone())
    }
}

/// Returns whether two data properties have the same name.
pub fn data_property_eq(a: &DataProperty, b: &DataProperty) -> (r: bool)
    ensures
        r == (a@ == b@),
{
    iri_eq(&a.0, &b.0)
}

/// Mathematical value of an [`Individual`].
pub enum SpecIndividual {
    Named(Seq<char>),
    Anonymous(Seq<char>),
}

/// An individual: either named by an IRI or anonymous with a node identifier.
#[derive(Debug, PartialEq, Eq, Hash, PartialOrd, Ord)]
pub enum Individual {
    Named(IRI),
    Anonymous(NodeID),
}

impl View for Individual {
    type V = SpecIndividual;

    open spec fn view(&self) -> SpecIndividual {
        match self {
            Individual::Named(i) => SpecIndividual::Named(i@),
            Individual::Anonymous(n) => SpecIndividual::Anonymous(n@),
        }
    }
}

impl Clone for Individual {
    fn clone(&self) -> (r: Self)
        ensures
            r@ == self@,
    {
        match self {
            Individual::Named(i) => Individual::Named(i.clone()),
            Individual::Anonymous(n) => Individual::Anonymous(n.clone()),
        }
    }
}

/// Returns whether two individuals are the same term.
pub fn individual_eq(a: &Individual, b: &Individual) -> (r: bool)
    ensures
        r == (a@ == b@),
{
    match (a, b) {
        (Individual::Named(x), Individual::Named(y)) => iri_eq(x, y),
        (Individual::Anonymous(x), Individual::Anonymous(y)) => x.0 == y.0,
        _ => false,
    }
}

/// Mathematical value of an [`Entity`].
pub enum SpecEntity {
    Class(Seq<char>),
    Datatype(Seq<char>),
    ObjectProperty(Seq<char>),
    DataProperty(Seq<char>),
    AnnotationProperty(Seq<char>),
    NamedIndividual(Seq<char>),
}

/// The basic building blocks of an ontology, each wrapping an IRI.
#[derive(Debug, PartialEq, Eq, Hash)]
pub enum Entity {
    Class(Class),
    Datatype(Datatype),
    ObjectProperty(ObjectProperty),
    DataProperty(DataProperty),
    AnnotationProperty(IRI),
    NamedIndividual(IRI),
}

impl View for Entity {
    type V = SpecEntity;

    open spec fn view(&self) -> SpecEntity {
        match self {
            Entity::Class(c) => SpecEntity::Class(c@),
            Entity::Datatype(d) => SpecEntity::Datatype(d@),
            Entity::ObjectProperty(p) => SpecEntity::ObjectProperty(p@),
            Entity::DataProperty(p) => SpecEntity::DataProperty(p@),
            Entity::AnnotationProperty(i) => SpecEntity::AnnotationProperty(i@),
            Entity::NamedIndividual(i) => SpecEntity::NamedIndividual(i@),
        }
    }
}

impl Clone for Entity {
    fn clone(&self) -> (r: Self)
        ensures
            r@ == self@,
    {
        match self {
            Entity::Class(c) => Entity::Class(c.clone()),
            Entity::Datatype(d) => Entity::Datatype(d.clone()),
            Entity::ObjectProperty(p) => Entity::ObjectProperty(p.clone()),
            Entity::DataProperty(p) => Entity::DataProperty(p.clone()),
            Entity::AnnotationProperty(i) => Entity::AnnotationProperty(i.clone()),
            Entity::NamedIndividual(i) => Entity::NamedIndividual(i.clone()),
        }
    }
}

/// Mathematical value of a [`Literal`].
#[verifier::ext_equal]
pub struct SpecLiteral {
    pub value: Seq<char>,
    pub datatype: Seq<char>,
    pub lang: Option<Seq<char>>,
}

/// A literal data value with its datatype and an optional language tag.
#[derive(Debug, PartialEq, Eq, Hash)]
pub struct Literal {
    pub value: String,
    pub datatype: Datatype,
    pub lang: Option<String>,
}

impl View for Literal {
    type V = SpecLiteral;

    open spec fn view(&self) -> SpecLiteral {
        SpecLiteral {
            value: self.value@,
            datatype: self.datatype@,
            lang: match self.lang {
                Option::None => Option::None,
                Option::Some(l) => Option::Some(l@),
            },
        }
    }
}

impl Clone for Literal {
    fn clone(&self) -> (r: Self)
        ensures
            r@ == self@,
    {
        Literal {
            value: self.value.clone(),
            datatype: self.datatype.clone(),
            lang: match &self.lang {
                Option::None => Option::None,
                Option::Some(l) => Option::Some(l.clone()),
            },
        }
    }
}

/// Returns whether two literals have the same value, datatype, and language tag.
pub fn literal_eq(a: &Literal, b: &Literal) -> (r: bool)
    ensures
        r == (a@ == b@),
{
    let lang_same = match (&a.lang, &b.lang) {
        (Option::None, Option::None) => true,
        (Option::Some(x), Option::Some(y)) => *x == *y,
        _ => false,
    };
    a.value == b.value && datatype_eq(&a.datatype, &b.datatype) && lang_same
}

/// Mathematical value of an [`ObjectPropertyExpression`].
#[verifier::ext_equal]
pub enum SpecObjectPropertyExpr {
    ObjectProperty(Seq<char>),
    InverseObjectProperty(Seq<char>),
    ObjectPropertyChain(Seq<SpecObjectPropertyExpr>),
}

/// An object property expression: a property, its inverse, or a chain.
///
/// Chains appear only as the sub-property of a `SubObjectPropertyOf` axiom.
#[derive(Debug, PartialEq, Eq, Hash)]
pub enum ObjectPropertyExpression {
    ObjectProperty(ObjectProperty),
    InverseObjectProperty(ObjectProperty),
    ObjectPropertyChain(Vec<ObjectPropertyExpression>),
}

impl ObjectPropertyExpression {
    /// Mathematical value of this expression.
    pub open spec fn spec_view(self) -> SpecObjectPropertyExpr
        decreases self,
    {
        match self {
            ObjectPropertyExpression::ObjectProperty(p) => SpecObjectPropertyExpr::ObjectProperty(
                p@,
            ),
            ObjectPropertyExpression::InverseObjectProperty(
                p,
            ) => SpecObjectPropertyExpr::InverseObjectProperty(p@),
            ObjectPropertyExpression::ObjectPropertyChain(
                ps,
            ) => SpecObjectPropertyExpr::ObjectPropertyChain(spec_ope_seq(ps@)),
        }
    }
}

/// Mathematical values of a sequence of object property expressions.
pub open spec fn spec_ope_seq(s: Seq<ObjectPropertyExpression>) -> Seq<SpecObjectPropertyExpr>
    decreases s,
{
    if s.len() == 0 {
        Seq::empty()
    } else {
        spec_ope_seq(s.drop_last()).push(s.last().spec_view())
    }
}

/// The element-wise reading of [`spec_ope_seq`].
pub proof fn lemma_spec_ope_seq(s: Seq<ObjectPropertyExpression>)
    ensures
        spec_ope_seq(s).len() == s.len(),
        forall|i: int| 0 <= i < s.len() ==> spec_ope_seq(s)[i] == s[i].spec_view(),
    decreases s,
{
    if s.len() > 0 {
        lemma_spec_ope_seq(s.drop_last());
    }
}

impl View for ObjectPropertyExpression {
    type V = SpecObjectPropertyExpr;

    open spec fn view(&self) -> SpecObjectPropertyExpr {
        self.spec_view()
    }
}

impl Clone for ObjectPropertyExpression {
    fn clone(&self) -> (r: Self)
        ensures
            r@ == self@,
    {
        clone_ope(self)
    }
}

/// Returns a copy of an object property expression with the same value.
pub fn clone_ope(x: &ObjectPropertyExpression) -> (r: ObjectPropertyExpression)
    ensures
        r@ == x@,
    decreases *x,
{
    match x {
        ObjectPropertyExpression::ObjectProperty(p) => ObjectPropertyExpression::ObjectProperty(
            p.clone(),
        ),
        ObjectPropertyExpression::InverseObjectProperty(
            p,
        ) => ObjectPropertyExpression::InverseObjectProperty(p.clone()),
        ObjectPropertyExpression::ObjectPropertyChain(ps) => {
            let mut v: Vec<ObjectPropertyExpression> = Vec::new();
            let ghost orig = ps@;
            for i in 0..ps.len()
                invariant
                    v@.len() == i,
                    ps@ == orig,
                    *x == ObjectPropertyExpression::ObjectPropertyChain(*ps),
                    forall|j: int| 0 <= j < i ==> v@[j]@ == ps@[j]@,
            {
                proof {
                    assert(decreases_to!(*x => x->ObjectPropertyChain_0));
                    vstd::std_specs::vec::axiom_vec_index_decreases::<ObjectPropertyExpression>(
                        *ps,
                        i as int,
                    );
                    assert(decreases_to!(*x => ps@[i as int]));
                }
                v.push(clone_ope(&ps[i]));
            }
            proof {
                lemma_spec_ope_seq(v@);
                lemma_spec_ope_seq(ps@);
                assert(spec_ope_seq(v@) =~= spec_ope_seq(ps@));
            }
            ObjectPropertyExpression::ObjectPropertyChain(v)
        },
    }
}

/// Returns whether two object property expressions are structurally equal.
pub fn ope_eq(a: &ObjectPropertyExpression, b: &ObjectPropertyExpression) -> (r: bool)
    ensures
        r == (a@ == b@),
    decreases *a,
{
    match (a, b) {
        (
            ObjectPropertyExpression::ObjectProperty(x),
            ObjectPropertyExpression::ObjectProperty(y),
        ) => iri_eq(&x.0, &y.0),
        (
            ObjectPropertyExpression::InverseObjectProperty(x),
            ObjectPropertyExpression::InverseObjectProperty(y),
        ) => iri_eq(&x.0, &y.0),
        (
            ObjectPropertyExpression::ObjectPropertyChain(xs),
            ObjectPropertyExpression::ObjectPropertyChain(ys),
        ) => {
            proof {
                lemma_spec_ope_seq(xs@);
                lemma_spec_ope_seq(ys@);
            }
            proof {
                assert(*a == ObjectPropertyExpression::ObjectPropertyChain(*xs));
                assert(*b == ObjectPropertyExpression::ObjectPropertyChain(*ys));
            }
            if xs.len() != ys.len() {
                assert(spec_ope_seq(xs@).len() != spec_ope_seq(ys@).len());
                false
            } else {
                for i in 0..xs.len()
                    invariant
                        xs@.len() == ys@.len(),
                        *a == ObjectPropertyExpression::ObjectPropertyChain(*xs),
                        *b == ObjectPropertyExpression::ObjectPropertyChain(*ys),
                        forall|j: int| 0 <= j < i ==> xs@[j]@ == ys@[j]@,
                {
                    proof {
                        assert(decreases_to!(*a => a->ObjectPropertyChain_0));
                        vstd::std_specs::vec::axiom_vec_index_decreases::<
                            ObjectPropertyExpression,
                        >(*xs, i as int);
                        assert(decreases_to!(*a => xs@[i as int]));
                    }
                    if !ope_eq(&xs[i], &ys[i]) {
                        proof {
                            lemma_spec_ope_seq(xs@);
                            lemma_spec_ope_seq(ys@);
                            assert(spec_ope_seq(xs@)[i as int] != spec_ope_seq(ys@)[i as int]);
                        }
                        return false;
                    }
                }
                proof {
                    lemma_spec_ope_seq(xs@);
                    lemma_spec_ope_seq(ys@);
                    assert(spec_ope_seq(xs@) =~= spec_ope_seq(ys@));
                }
                true
            }
        },
        _ => false,
    }
}

/// Mathematical values of a sequence of individuals.
pub open spec fn spec_individual_seq(s: Seq<Individual>) -> Seq<SpecIndividual> {
    s.map_values(|x: Individual| x@)
}

/// Mathematical values of a sequence of IRIs.
pub open spec fn spec_iri_seq(s: Seq<IRI>) -> Seq<Seq<char>> {
    s.map_values(|x: IRI| x@)
}

/// Mathematical value of a [`ClassExpression`].
#[verifier::ext_equal]
pub enum SpecClassExpr {
    Class(Seq<char>),
    ObjectIntersectionOf(Seq<SpecClassExpr>),
    ObjectUnionOf(Seq<SpecClassExpr>),
    ObjectComplementOf(Box<SpecClassExpr>),
    ObjectOneOf(Seq<SpecIndividual>),
    ObjectSomeValuesFrom { property: SpecObjectPropertyExpr, filler: Box<SpecClassExpr> },
    ObjectAllValuesFrom { property: SpecObjectPropertyExpr, filler: Box<SpecClassExpr> },
    ObjectHasValue { property: SpecObjectPropertyExpr, value: SpecIndividual },
    ObjectHasSelf(SpecObjectPropertyExpr),
    ObjectMinCardinality {
        min: u32,
        property: SpecObjectPropertyExpr,
        filler: Option<Box<SpecClassExpr>>,
    },
    ObjectMaxCardinality {
        max: u32,
        property: SpecObjectPropertyExpr,
        filler: Option<Box<SpecClassExpr>>,
    },
    ObjectExactCardinality {
        cardinality: u32,
        property: SpecObjectPropertyExpr,
        filler: Option<Box<SpecClassExpr>>,
    },
}

/// A class expression: a class or a compound concept built from constructors.
#[derive(Debug, PartialEq, Eq, Hash)]
pub enum ClassExpression {
    Class(Class),
    ObjectIntersectionOf(Vec<ClassExpression>),
    ObjectUnionOf(Vec<ClassExpression>),
    ObjectComplementOf(Box<ClassExpression>),
    ObjectOneOf(Vec<Individual>),
    ObjectSomeValuesFrom { property: ObjectPropertyExpression, filler: Box<ClassExpression> },
    ObjectAllValuesFrom { property: ObjectPropertyExpression, filler: Box<ClassExpression> },
    ObjectHasValue { property: ObjectPropertyExpression, value: Individual },
    ObjectHasSelf(ObjectPropertyExpression),
    ObjectMinCardinality {
        min: u32,
        property: ObjectPropertyExpression,
        filler: Option<Box<ClassExpression>>,
    },
    ObjectMaxCardinality {
        max: u32,
        property: ObjectPropertyExpression,
        filler: Option<Box<ClassExpression>>,
    },
    ObjectExactCardinality {
        cardinality: u32,
        property: ObjectPropertyExpression,
        filler: Option<Box<ClassExpression>>,
    },
}

impl ClassExpression {
    /// Mathematical value of this class expression.
    pub open spec fn spec_view(self) -> SpecClassExpr
        decreases self,
    {
        match self {
            ClassExpression::Class(c) => SpecClassExpr::Class(c@),
            ClassExpression::ObjectIntersectionOf(es) => SpecClassExpr::ObjectIntersectionOf(
                spec_ce_seq(es@),
            ),
            ClassExpression::ObjectUnionOf(es) => SpecClassExpr::ObjectUnionOf(spec_ce_seq(es@)),
            ClassExpression::ObjectComplementOf(e) => SpecClassExpr::ObjectComplementOf(
                Box::new((*e).spec_view()),
            ),
            ClassExpression::ObjectOneOf(is) => SpecClassExpr::ObjectOneOf(spec_individual_seq(is@)),
            ClassExpression::ObjectSomeValuesFrom {
                property,
                filler,
            } => SpecClassExpr::ObjectSomeValuesFrom {
                property: property.spec_view(),
                filler: Box::new((*filler).spec_view()),
            },
            ClassExpression::ObjectAllValuesFrom {
                property,
                filler,
            } => SpecClassExpr::ObjectAllValuesFrom {
                property: property.spec_view(),
                filler: Box::new((*filler).spec_view()),
            },
            ClassExpression::ObjectHasValue { property, value } => SpecClassExpr::ObjectHasValue {
                property: property.spec_view(),
                value: value@,
            },
            ClassExpression::ObjectHasSelf(p) => SpecClassExpr::ObjectHasSelf(p.spec_view()),
            ClassExpression::ObjectMinCardinality {
                min,
                property,
                filler,
            } => SpecClassExpr::ObjectMinCardinality {
                min,
                property: property.spec_view(),
                filler: match filler {
                    Option::None => Option::None,
                    Option::Some(f) => Option::Some(Box::new((*f).spec_view())),
                },
            },
            ClassExpression::ObjectMaxCardinality {
                max,
                property,
                filler,
            } => SpecClassExpr::ObjectMaxCardinality {
                max,
                property: property.spec_view(),
                filler: match filler {
                    Option::None => Option::None,
                    Option::Some(f) => Option::Some(Box::new((*f).spec_view())),
                },
            },
            ClassExpression::ObjectExactCardinality {
                cardinality,
                property,
                filler,
            } => SpecClassExpr::ObjectExactCardinality {
                cardinality,
                property: property.spec_view(),
                filler: match filler {
                    Option::None => Option::None,
                    Option::Some(f) => Option::Some(Box::new((*f).spec_view())),
                },
            },
        }
    }
}

/// Mathematical values of a sequence of class expressions.
pub open spec fn spec_ce_seq(s: Seq<ClassExpression>) -> Seq<SpecClassExpr>
    decreases s,
{
    if s.len() == 0 {
        Seq::empty()
    } else {
        spec_ce_seq(s.drop_last()).push(s.last().spec_view())
    }
}

/// The element-wise reading of [`spec_ce_seq`].
pub proof fn lemma_spec_ce_seq(s: Seq<ClassExpression>)
    ensures
        spec_ce_seq(s).len() == s.len(),
        forall|i: int| 0 <= i < s.len() ==> spec_ce_seq(s)[i] == s[i].spec_view(),
    decreases s,
{
    if s.len() > 0 {
        lemma_spec_ce_seq(s.drop_last());
    }
}

impl View for ClassExpression {
    type V = SpecClassExpr;

    open spec fn view(&self) -> SpecClassExpr {
        self.spec_view()
    }
}

impl Clone for ClassExpression {
    fn clone(&self) -> (r: Self)
        ensures
            r@ == self@,
    {
        clone_ce(self)
    }
}

/// Returns a copy of a vector of class expressions with the same values.
fn clone_ce_vec_rec(x: &ClassExpression, ps: &Vec<ClassExpression>) -> (r: Vec<ClassExpression>)
    requires
        decreases_to!(*x => *ps),
    ensures
        spec_ce_seq(r@) == spec_ce_seq(ps@),
        r@.len() == ps@.len(),
    decreases *x, 0int,
{
    let mut v: Vec<ClassExpression> = Vec::new();
    for i in 0..ps.len()
        invariant
            v@.len() == i,
            decreases_to!(*x => *ps),
            forall|j: int| 0 <= j < i ==> v@[j]@ == ps@[j]@,
    {
        proof {
            assert(decreases_to!(*ps => ps@));
            vstd::std_specs::vec::axiom_vec_index_decreases::<ClassExpression>(*ps, i as int);
            assert(decreases_to!(*x => ps@[i as int]));
        }
        v.push(clone_ce(&ps[i]));
    }
    proof {
        lemma_spec_ce_seq(v@);
        lemma_spec_ce_seq(ps@);
        assert(spec_ce_seq(v@) =~= spec_ce_seq(ps@));
    }
    v
}

/// Returns a copy of a class expression with the same value.
pub fn clone_ce(x: &ClassExpression) -> (r: ClassExpression)
    ensures
        r@ == x@,
    decreases *x, 1int,
{
    match x {
        ClassExpression::Class(c) => ClassExpression::Class(c.clone()),
        ClassExpression::ObjectIntersectionOf(es) => {
            proof {
                assert(decreases_to!(*x => x->ObjectIntersectionOf_0));
            }
            ClassExpression::ObjectIntersectionOf(clone_ce_vec_rec(x, es))
        },
        ClassExpression::ObjectUnionOf(es) => {
            proof {
                assert(decreases_to!(*x => x->ObjectUnionOf_0));
            }
            ClassExpression::ObjectUnionOf(clone_ce_vec_rec(x, es))
        },
        ClassExpression::ObjectComplementOf(e) => {
            proof {
                assert(decreases_to!(*x => x->ObjectComplementOf_0));
            }
            ClassExpression::ObjectComplementOf(Box::new(clone_ce(&*e)))
        },
        ClassExpression::ObjectOneOf(is) => {
            ClassExpression::ObjectOneOf(clone_individual_vec(is))
        },
        ClassExpression::ObjectSomeValuesFrom { property, filler } => {
            proof {
                assert(decreases_to!(*x => x->ObjectSomeValuesFrom_filler));
            }
            ClassExpression::ObjectSomeValuesFrom {
                property: clone_ope(property),
                filler: Box::new(clone_ce(&*filler)),
            }
        },
        ClassExpression::ObjectAllValuesFrom { property, filler } => {
            proof {
                assert(decreases_to!(*x => x->ObjectAllValuesFrom_filler));
            }
            ClassExpression::ObjectAllValuesFrom {
                property: clone_ope(property),
                filler: Box::new(clone_ce(&*filler)),
            }
        },
        ClassExpression::ObjectHasValue { property, value } => ClassExpression::ObjectHasValue {
            property: clone_ope(property),
            value: value.clone(),
        },
        ClassExpression::ObjectHasSelf(p) => ClassExpression::ObjectHasSelf(clone_ope(p)),
        ClassExpression::ObjectMinCardinality { min, property, filler } => {
            let f = match filler {
                Option::None => Option::None,
                Option::Some(b) => {
                    proof {
                        assert(decreases_to!(*x => x->ObjectMinCardinality_filler));
                        assert(decreases_to!(
                            x->ObjectMinCardinality_filler => x->ObjectMinCardinality_filler->0));
                    }
                    Option::Some(Box::new(clone_ce(&*b)))
                },
            };
            ClassExpression::ObjectMinCardinality {
                min: *min,
                property: clone_ope(property),
                filler: f,
            }
        },
        ClassExpression::ObjectMaxCardinality { max, property, filler } => {
            let f = match filler {
                Option::None => Option::None,
                Option::Some(b) => {
                    proof {
                        assert(decreases_to!(*x => x->ObjectMaxCardinality_filler));
                        assert(decreases_to!(
                            x->ObjectMaxCardinality_filler => x->ObjectMaxCardinality_filler->0));
                    }
                    Option::Some(Box::new(clone_ce(&*b)))
                },
            };
            ClassExpression::ObjectMaxCardinality {
                max: *max,
                property: clone_ope(property),
                filler: f,
            }
        },
        ClassExpression::ObjectExactCardinality { cardinality, property, filler } => {
            let f = match filler {
                Option::None => Option::None,
                Option::Some(b) => {
                    proof {
                        assert(decreases_to!(*x => x->ObjectExactCardinality_filler));
                        assert(decreases_to!(
                            x->ObjectExactCardinality_filler
                                => x->ObjectExactCardinality_filler->0));
                    }
                    Option::Some(Box::new(clone_ce(&*b)))
                },
            };
            ClassExpression::ObjectExactCardinality {
                cardinality: *cardinality,
                property: clone_ope(property),
                filler: f,
            }
        },
    }
}

/// Returns a copy of a vector of individuals with the same values.
pub fn clone_individual_vec(v: &Vec<Individual>) -> (r: Vec<Individual>)
    ensures
        spec_individual_seq(r@) =~= spec_individual_seq(v@),
        r@.len() == v@.len(),
{
    let mut out: Vec<Individual> = Vec::new();
    for i in 0..v.len()
        invariant
            out@.len() == i,
            forall|j: int| 0 <= j < i ==> out@[j]@ == v@[j]@,
    {
        out.push(v[i].clone());
    }
    out
}

/// Returns whether two vectors of individuals hold the same terms in order.
pub fn individual_vec_eq(a: &Vec<Individual>, b: &Vec<Individual>) -> (r: bool)
    ensures
        r == (spec_individual_seq(a@) == spec_individual_seq(b@)),
{
    if a.len() != b.len() {
        assert(spec_individual_seq(a@).len() != spec_individual_seq(b@).len());
        return false;
    }
    for i in 0..a.len()
        invariant
            a@.len() == b@.len(),
            forall|j: int| 0 <= j < i ==> a@[j]@ == b@[j]@,
    {
        if !individual_eq(&a[i], &b[i]) {
            assert(spec_individual_seq(a@)[i as int] != spec_individual_seq(b@)[i as int]);
            return false;
        }
    }
    proof {
        assert(spec_individual_seq(a@) =~= spec_individual_seq(b@));
    }
    true
}


/// Returns whether two vectors of class expressions hold equal values in order.
fn ce_vec_eq_rec(
    x: &ClassExpression,
    xs: &Vec<ClassExpression>,
    ys: &Vec<ClassExpression>,
) -> (r: bool)
    requires
        decreases_to!(*x => *xs),
    ensures
        r == (spec_ce_seq(xs@) == spec_ce_seq(ys@)),
    decreases *x, 0int,
{
    proof {
        lemma_spec_ce_seq(xs@);
        lemma_spec_ce_seq(ys@);
    }
    if xs.len() != ys.len() {
        assert(spec_ce_seq(xs@).len() != spec_ce_seq(ys@).len());
        return false;
    }
    for i in 0..xs.len()
        invariant
            xs@.len() == ys@.len(),
            decreases_to!(*x => *xs),
            forall|j: int| 0 <= j < i ==> xs@[j]@ == ys@[j]@,
    {
        proof {
            assert(decreases_to!(*xs => xs@));
            vstd::std_specs::vec::axiom_vec_index_decreases::<ClassExpression>(*xs, i as int);
            assert(decreases_to!(*x => xs@[i as int]));
        }
        if !ce_eq(&xs[i], &ys[i]) {
            proof {
                lemma_spec_ce_seq(xs@);
                lemma_spec_ce_seq(ys@);
                assert(spec_ce_seq(xs@)[i as int] != spec_ce_seq(ys@)[i as int]);
            }
            return false;
        }
    }
    proof {
        lemma_spec_ce_seq(xs@);
        lemma_spec_ce_seq(ys@);
        assert(spec_ce_seq(xs@) =~= spec_ce_seq(ys@));
    }
    true
}

/// Returns whether two class expressions are structurally equal.
pub fn ce_eq(a: &ClassExpression, b: &ClassExpression) -> (r: bool)
    ensures
        r == (a@ == b@),
    decreases *a, 1int,
{
    match (a, b) {
        (ClassExpression::Class(x), ClassExpression::Class(y)) => class_eq(x, y),
        (
            ClassExpression::ObjectIntersectionOf(xs),
            ClassExpression::ObjectIntersectionOf(ys),
        ) => {
            proof {
                assert(decreases_to!(*a => a->ObjectIntersectionOf_0));
            }
            ce_vec_eq_rec(a, xs, ys)
        },
        (ClassExpression::ObjectUnionOf(xs), ClassExpression::ObjectUnionOf(ys)) => {
            proof {
                assert(decreases_to!(*a => a->ObjectUnionOf_0));
            }
            ce_vec_eq_rec(a, xs, ys)
        },
        (ClassExpression::ObjectComplementOf(x), ClassExpression::ObjectComplementOf(y)) => {
            proof {
                assert(decreases_to!(*a => a->ObjectComplementOf_0));
            }
            ce_eq(&*x, &*y)
        },
        (ClassExpression::ObjectOneOf(xs), ClassExpression::ObjectOneOf(ys)) => {
            individual_vec_eq(xs, ys)
        },
        (
            ClassExpression::ObjectSomeValuesFrom { property: p1, filler: f1 },
            ClassExpression::ObjectSomeValuesFrom { property: p2, filler: f2 },
        ) => {
            proof {
                assert(decreases_to!(*a => a->ObjectSomeValuesFrom_filler));
            }
            ope_eq(p1, p2) && ce_eq(&*f1, &*f2)
        },
        (
            ClassExpression::ObjectAllValuesFrom { property: p1, filler: f1 },
            ClassExpression::ObjectAllValuesFrom { property: p2, filler: f2 },
        ) => {
            proof {
                assert(decreases_to!(*a => a->ObjectAllValuesFrom_filler));
            }
            ope_eq(p1, p2) && ce_eq(&*f1, &*f2)
        },
        (
            ClassExpression::ObjectHasValue { property: p1, value: v1 },
            ClassExpression::ObjectHasValue { property: p2, value: v2 },
        ) => ope_eq(p1, p2) && individual_eq(v1, v2),
        (ClassExpression::ObjectHasSelf(p1), ClassExpression::ObjectHasSelf(p2)) => ope_eq(
            p1,
            p2,
        ),
        (
            ClassExpression::ObjectMinCardinality { min: n1, property: p1, filler: f1 },
            ClassExpression::ObjectMinCardinality { min: n2, property: p2, filler: f2 },
        ) => {
            let fe = match (f1, f2) {
                (Option::None, Option::None) => true,
                (Option::Some(x), Option::Some(y)) => {
                    proof {
                        assert(decreases_to!(*a => a->ObjectMinCardinality_filler));
                        assert(decreases_to!(
                            a->ObjectMinCardinality_filler => a->ObjectMinCardinality_filler->0));
                    }
                    ce_eq(&*x, &*y)
                },
                _ => false,
            };
            *n1 == *n2 && ope_eq(p1, p2) && fe
        },
        (
            ClassExpression::ObjectMaxCardinality { max: n1, property: p1, filler: f1 },
            ClassExpression::ObjectMaxCardinality { max: n2, property: p2, filler: f2 },
        ) => {
            let fe = match (f1, f2) {
                (Option::None, Option::None) => true,
                (Option::Some(x), Option::Some(y)) => {
                    proof {
                        assert(decreases_to!(*a => a->ObjectMaxCardinality_filler));
                        assert(decreases_to!(
                            a->ObjectMaxCardinality_filler => a->ObjectMaxCardinality_filler->0));
                    }
                    ce_eq(&*x, &*y)
                },
                _ => false,
            };
            *n1 == *n2 && ope_eq(p1, p2) && fe
        },
        (
            ClassExpression::ObjectExactCardinality { cardinality: n1, property: p1, filler: f1 },
            ClassExpression::ObjectExactCardinality { cardinality: n2, property: p2, filler: f2 },
        ) => {
            let fe = match (f1, f2) {
                (Option::None, Option::None) => true,
                (Option::Some(x), Option::Some(y)) => {
                    proof {
                        assert(decreases_to!(*a => a->ObjectExactCardinality_filler));
                        assert(decreases_to!(
                            a->ObjectExactCardinality_filler
                                => a->ObjectExactCardinality_filler->0));
                    }
                    ce_eq(&*x, &*y)
                },
                _ => false,
            };
            *n1 == *n2 && ope_eq(p1, p2) && fe
        },
        _ => false,
    }
}


/// Mathematical values of a sequence of literals.
pub open spec fn spec_literal_seq(s: Seq<Literal>) -> Seq<SpecLiteral> {
    s.map_values(|x: Literal| x@)
}

/// Mathematical values of a sequence of facet restrictions.
pub open spec fn spec_restriction_seq(s: Seq<(IRI, Literal)>) -> Seq<(Seq<char>, SpecLiteral)> {
    s.map_values(|x: (IRI, Literal)| (x.0@, x.1@))
}

/// Mathematical value of a [`DataRange`].
#[verifier::ext_equal]
pub enum SpecDataRange {
    Datatype(Seq<char>),
    DataIntersectionOf(Seq<SpecDataRange>),
    DataUnionOf(Seq<SpecDataRange>),
    DataComplementOf(Box<SpecDataRange>),
    DataOneOf(Seq<SpecLiteral>),
    DatatypeRestriction { datatype: Seq<char>, restrictions: Seq<(Seq<char>, SpecLiteral)> },
}

/// A data range: a datatype or a combination of datatypes and literals.
#[derive(Debug, PartialEq, Eq, Hash)]
pub enum DataRange {
    Datatype(Datatype),
    DataIntersectionOf(Vec<DataRange>),
    DataUnionOf(Vec<DataRange>),
    DataComplementOf(Box<DataRange>),
    DataOneOf(Vec<Literal>),
    DatatypeRestriction { datatype: Datatype, restrictions: Vec<(IRI, Literal)> },
}

impl DataRange {
    /// Mathematical value of this data range.
    pub open spec fn spec_view(self) -> SpecDataRange
        decreases self,
    {
        match self {
            DataRange::Datatype(d) => SpecDataRange::Datatype(d@),
            DataRange::DataIntersectionOf(rs) => SpecDataRange::DataIntersectionOf(
                spec_dr_seq(rs@),
            ),
            DataRange::DataUnionOf(rs) => SpecDataRange::DataUnionOf(spec_dr_seq(rs@)),
            DataRange::DataComplementOf(r) => SpecDataRange::DataComplementOf(
                Box::new((*r).spec_view()),
            ),
            DataRange::DataOneOf(ls) => SpecDataRange::DataOneOf(spec_literal_seq(ls@)),
            DataRange::DatatypeRestriction {
                datatype,
                restrictions,
            } => SpecDataRange::DatatypeRestriction {
                datatype: datatype@,
                restrictions: spec_restriction_seq(restrictions@),
            },
        }
    }
}

/// Mathematical values of a sequence of data ranges.
pub open spec fn spec_dr_seq(s: Seq<DataRange>) -> Seq<SpecDataRange>
    decreases s,
{
    if s.len() == 0 {
        Seq::empty()
    } else {
        spec_dr_seq(s.drop_last()).push(s.last().spec_view())
    }
}

/// The element-wise reading of [`spec_dr_seq`].
pub proof fn lemma_spec_dr_seq(s: Seq<DataRange>)
    ensures
        spec_dr_seq(s).len() == s.len(),
        forall|i: int| 0 <= i < s.len() ==> spec_dr_seq(s)[i] == s[i].spec_view(),
    decreases s,
{
    if s.len() > 0 {
        lemma_spec_dr_seq(s.drop_last());
    }
}

impl View for DataRange {
    type V = SpecDataRange;

    open spec fn view(&self) -> SpecDataRange {
        self.spec_view()
    }
}

/// Returns a copy of a vector of literals with the same values.
pub fn clone_literal_vec(v: &Vec<Literal>) -> (r: Vec<Literal>)
    ensures
        spec_literal_seq(r@) =~= spec_literal_seq(v@),
        r@.len() == v@.len(),
{
    let mut out: Vec<Literal> = Vec::new();
    for i in 0..v.len()
        invariant
            out@.len() == i,
            forall|j: int| 0 <= j < i ==> out@[j]@ == v@[j]@,
    {
        out.push(v[i].clone());
    }
    out
}

/// Returns whether two vectors of literals hold equal values in order.
pub fn literal_vec_eq(a: &Vec<Literal>, b: &Vec<Literal>) -> (r: bool)
    ensures
        r == (spec_literal_seq(a@) == spec_literal_seq(b@)),
{
    if a.len() != b.len() {
        assert(spec_literal_seq(a@).len() != spec_literal_seq(b@).len());
        return false;
    }
    for i in 0..a.len()
        invariant
            a@.len() == b@.len(),
            forall|j: int| 0 <= j < i ==> a@[j]@ == b@[j]@,
    {
        if !literal_eq(&a[i], &b[i]) {
            assert(spec_literal_seq(a@)[i as int] != spec_literal_seq(b@)[i as int]);
            return false;
        }
    }
    proof {
        assert(spec_literal_seq(a@) =~= spec_literal_seq(b@));
    }
    true
}

/// Returns a copy of a vector of facet restrictions with the same values.
pub fn clone_restriction_vec(v: &Vec<(IRI, Literal)>) -> (r: Vec<(IRI, Literal)>)
    ensures
        spec_restriction_seq(r@) =~= spec_restriction_seq(v@),
        r@.len() == v@.len(),
{
    let mut out: Vec<(IRI, Literal)> = Vec::new();
    for i in 0..v.len()
        invariant
            out@.len() == i,
            forall|j: int|
                0 <= j < i ==> out@[j].0@ == v@[j].0@ && out@[j].1@ == v@[j].1@,
    {
        let (f, l) = &v[i];
        out.push((f.clone(), l.clone()));
    }
    out
}

/// Returns whether two vectors of facet restrictions hold equal values in order.
pub fn restriction_vec_eq(a: &Vec<(IRI, Literal)>, b: &Vec<(IRI, Literal)>) -> (r: bool)
    ensures
        r == (spec_restriction_seq(a@) == spec_restriction_seq(b@)),
{
    if a.len() != b.len() {
        assert(spec_restriction_seq(a@).len() != spec_restriction_seq(b@).len());
        return false;
    }
    for i in 0..a.len()
        invariant
            a@.len() == b@.len(),
            forall|j: int|
                0 <= j < i ==> a@[j].0@ == b@[j].0@ && a@[j].1@ == b@[j].1@,
    {
        let (f1, l1) = &a[i];
        let (f2, l2) = &b[i];
        if !(iri_eq(f1, f2) && literal_eq(l1, l2)) {
            assert(spec_restriction_seq(a@)[i as int] != spec_restriction_seq(b@)[i as int]);
            return false;
        }
    }
    proof {
        assert(spec_restriction_seq(a@) =~= spec_restriction_seq(b@));
    }
    true
}

/// Returns a copy of a vector of data ranges with the same values.
fn clone_dr_vec_rec(x: &DataRange, ps: &Vec<DataRange>) -> (r: Vec<DataRange>)
    requires
        decreases_to!(*x => *ps),
    ensures
        spec_dr_seq(r@) == spec_dr_seq(ps@),
        r@.len() == ps@.len(),
    decreases *x, 0int,
{
    let mut v: Vec<DataRange> = Vec::new();
    for i in 0..ps.len()
        invariant
            v@.len() == i,
            decreases_to!(*x => *ps),
            forall|j: int| 0 <= j < i ==> v@[j]@ == ps@[j]@,
    {
        proof {
            assert(decreases_to!(*ps => ps@));
            vstd::std_specs::vec::axiom_vec_index_decreases::<DataRange>(*ps, i as int);
            assert(decreases_to!(*x => ps@[i as int]));
        }
        v.push(clone_dr(&ps[i]));
    }
    proof {
        lemma_spec_dr_seq(v@);
        lemma_spec_dr_seq(ps@);
        assert(spec_dr_seq(v@) =~= spec_dr_seq(ps@));
    }
    v
}

/// Returns a copy of a data range with the same value.
pub fn clone_dr(x: &DataRange) -> (r: DataRange)
    ensures
        r@ == x@,
    decreases *x, 1int,
{
    match x {
        DataRange::Datatype(d) => DataRange::Datatype(d.clone()),
        DataRange::DataIntersectionOf(rs) => {
            proof {
                assert(decreases_to!(*x => x->DataIntersectionOf_0));
            }
            DataRange::DataIntersectionOf(clone_dr_vec_rec(x, rs))
        },
        DataRange::DataUnionOf(rs) => {
            proof {
                assert(decreases_to!(*x => x->DataUnionOf_0));
            }
            DataRange::DataUnionOf(clone_dr_vec_rec(x, rs))
        },
        DataRange::DataComplementOf(r) => {
            proof {
                assert(decreases_to!(*x => x->DataComplementOf_0));
            }
            DataRange::DataComplementOf(Box::new(clone_dr(&*r)))
        },
        DataRange::DataOneOf(ls) => DataRange::DataOneOf(clone_literal_vec(ls)),
        DataRange::DatatypeRestriction { datatype, restrictions } => {
            DataRange::DatatypeRestriction {
                datatype: datatype.clone(),
                restrictions: clone_restriction_vec(restrictions),
            }
        },
    }
}

impl Clone for DataRange {
    fn clone(&self) -> (r: Self)
        ensures
            r@ == self@,
    {
        clone_dr(self)
    }
}

/// Returns whether two vectors of data ranges hold equal values in order.
fn dr_vec_eq_rec(x: &DataRange, xs: &Vec<DataRange>, ys: &Vec<DataRange>) -> (r: bool)
    requires
        decreases_to!(*x => *xs),
    ensures
        r == (spec_dr_seq(xs@) == spec_dr_seq(ys@)),
    decreases *x, 0int,
{
    proof {
        lemma_spec_dr_seq(xs@);
        lemma_spec_dr_seq(ys@);
    }
    if xs.len() != ys.len() {
        assert(spec_dr_seq(xs@).len() != spec_dr_seq(ys@).len());
        return false;
    }
    for i in 0..xs.len()
        invariant
            xs@.len() == ys@.len(),
            decreases_to!(*x => *xs),
            forall|j: int| 0 <= j < i ==> xs@[j]@ == ys@[j]@,
    {
        proof {
            assert(decreases_to!(*xs => xs@));
            vstd::std_specs::vec::axiom_vec_index_decreases::<DataRange>(*xs, i as int);
            assert(decreases_to!(*x => xs@[i as int]));
        }
        if !dr_eq(&xs[i], &ys[i]) {
            proof {
                lemma_spec_dr_seq(xs@);
                lemma_spec_dr_seq(ys@);
                assert(spec_dr_seq(xs@)[i as int] != spec_dr_seq(ys@)[i as int]);
            }
            return false;
        }
    }
    proof {
        lemma_spec_dr_seq(xs@);
        lemma_spec_dr_seq(ys@);
        assert(spec_dr_seq(xs@) =~= spec_dr_seq(ys@));
    }
    true
}

/// Returns whether two data ranges are structurally equal.
pub fn dr_eq(a: &DataRange, b: &DataRange) -> (r: bool)
    ensures
        r == (a@ == b@),
    decreases *a, 1int,
{
    match (a, b) {
        (DataRange::Datatype(x), DataRange::Datatype(y)) => datatype_eq(x, y),
        (DataRange::DataIntersectionOf(xs), DataRange::DataIntersectionOf(ys)) => {
            proof {
                assert(decreases_to!(*a => a->DataIntersectionOf_0));
            }
            dr_vec_eq_rec(a, xs, ys)
        },
        (DataRange::DataUnionOf(xs), DataRange::DataUnionOf(ys)) => {
            proof {
                assert(decreases_to!(*a => a->DataUnionOf_0));
            }
            dr_vec_eq_rec(a, xs, ys)
        },
        (DataRange::DataComplementOf(x), DataRange::DataComplementOf(y)) => {
            proof {
                assert(decreases_to!(*a => a->DataComplementOf_0));
            }
            dr_eq(&*x, &*y)
        },
        (DataRange::DataOneOf(xs), DataRange::DataOneOf(ys)) => literal_vec_eq(xs, ys),
        (
            DataRange::DatatypeRestriction { datatype: d1, restrictions: r1 },
            DataRange::DatatypeRestriction { datatype: d2, restrictions: r2 },
        ) => datatype_eq(d1, d2) && restriction_vec_eq(r1, r2),
        _ => false,
    }
}


/// Returns a copy of a vector of class expressions with the same values.
pub fn clone_ce_vec(v: &Vec<ClassExpression>) -> (r: Vec<ClassExpression>)
    ensures
        spec_ce_seq(r@) == spec_ce_seq(v@),
        r@.len() == v@.len(),
{
    let mut out: Vec<ClassExpression> = Vec::new();
    for i in 0..v.len()
        invariant
            out@.len() == i,
            forall|j: int| 0 <= j < i ==> out@[j]@ == v@[j]@,
    {
        out.push(clone_ce(&v[i]));
    }
    proof {
        lemma_spec_ce_seq(out@);
        lemma_spec_ce_seq(v@);
        assert(spec_ce_seq(out@) =~= spec_ce_seq(v@));
    }
    out
}

/// Returns whether two vectors of class expressions hold equal values in order.
pub fn ce_vec_eq(a: &Vec<ClassExpression>, b: &Vec<ClassExpression>) -> (r: bool)
    ensures
        r == (spec_ce_seq(a@) == spec_ce_seq(b@)),
{
    proof {
        lemma_spec_ce_seq(a@);
        lemma_spec_ce_seq(b@);
    }
    if a.len() != b.len() {
        assert(spec_ce_seq(a@).len() != spec_ce_seq(b@).len());
        return false;
    }
    for i in 0..a.len()
        invariant
            a@.len() == b@.len(),
            forall|j: int| 0 <= j < i ==> a@[j]@ == b@[j]@,
    {
        if !ce_eq(&a[i], &b[i]) {
            proof {
                lemma_spec_ce_seq(a@);
                lemma_spec_ce_seq(b@);
                assert(spec_ce_seq(a@)[i as int] != spec_ce_seq(b@)[i as int]);
            }
            return false;
        }
    }
    proof {
        lemma_spec_ce_seq(a@);
        lemma_spec_ce_seq(b@);
        assert(spec_ce_seq(a@) =~= spec_ce_seq(b@));
    }
    true
}

/// Returns a copy of a vector of object property expressions with the same values.
pub fn clone_ope_vec(v: &Vec<ObjectPropertyExpression>) -> (r: Vec<ObjectPropertyExpression>)
    ensures
        spec_ope_seq(r@) == spec_ope_seq(v@),
        r@.len() == v@.len(),
{
    let mut out: Vec<ObjectPropertyExpression> = Vec::new();
    for i in 0..v.len()
        invariant
            out@.len() == i,
            forall|j: int| 0 <= j < i ==> out@[j]@ == v@[j]@,
    {
        out.push(clone_ope(&v[i]));
    }
    proof {
        lemma_spec_ope_seq(out@);
        lemma_spec_ope_seq(v@);
        assert(spec_ope_seq(out@) =~= spec_ope_seq(v@));
    }
    out
}

/// Returns whether two vectors of object property expressions hold equal values in order.
pub fn ope_vec_eq(a: &Vec<ObjectPropertyExpression>, b: &Vec<ObjectPropertyExpression>) -> (r:
    bool)
    ensures
        r == (spec_ope_seq(a@) == spec_ope_seq(b@)),
{
    proof {
        lemma_spec_ope_seq(a@);
        lemma_spec_ope_seq(b@);
    }
    if a.len() != b.len() {
        assert(spec_ope_seq(a@).len() != spec_ope_seq(b@).len());
        return false;
    }
    for i in 0..a.len()
        invariant
            a@.len() == b@.len(),
            forall|j: int| 0 <= j < i ==> a@[j]@ == b@[j]@,
    {
        if !ope_eq(&a[i], &b[i]) {
            proof {
                lemma_spec_ope_seq(a@);
                lemma_spec_ope_seq(b@);
                assert(spec_ope_seq(a@)[i as int] != spec_ope_seq(b@)[i as int]);
            }
            return false;
        }
    }
    proof {
        lemma_spec_ope_seq(a@);
        lemma_spec_ope_seq(b@);
        assert(spec_ope_seq(a@) =~= spec_ope_seq(b@));
    }
    true
}

/// Mathematical values of a sequence of data properties.
pub open spec fn spec_dp_seq(s: Seq<DataProperty>) -> Seq<Seq<char>> {
    s.map_values(|x: DataProperty| x@)
}

/// Returns a copy of a vector of data properties with the same values.
pub fn clone_dp_vec(v: &Vec<DataProperty>) -> (r: Vec<DataProperty>)
    ensures
        spec_dp_seq(r@) =~= spec_dp_seq(v@),
        r@.len() == v@.len(),
{
    let mut out: Vec<DataProperty> = Vec::new();
    for i in 0..v.len()
        invariant
            out@.len() == i,
            forall|j: int| 0 <= j < i ==> out@[j]@ == v@[j]@,
    {
        out.push(v[i].clone());
    }
    out
}

/// Returns whether two vectors of data properties hold the same names in order.
pub fn dp_vec_eq(a: &Vec<DataProperty>, b: &Vec<DataProperty>) -> (r: bool)
    ensures
        r == (spec_dp_seq(a@) == spec_dp_seq(b@)),
{
    if a.len() != b.len() {
        assert(spec_dp_seq(a@).len() != spec_dp_seq(b@).len());
        return false;
    }
    for i in 0..a.len()
        invariant
            a@.len() == b@.len(),
            forall|j: int| 0 <= j < i ==> a@[j]@ == b@[j]@,
    {
        if !data_property_eq(&a[i], &b[i]) {
            assert(spec_dp_seq(a@)[i as int] != spec_dp_seq(b@)[i as int]);
            return false;
        }
    }
    proof {
        assert(spec_dp_seq(a@) =~= spec_dp_seq(b@));
    }
    true
}

/// Returns a copy of a vector of IRIs with the same values.
pub fn clone_iri_vec(v: &Vec<IRI>) -> (r: Vec<IRI>)
    ensures
        spec_iri_seq(r@) =~= spec_iri_seq(v@),
        r@.len() == v@.len(),
{
    let mut out: Vec<IRI> = Vec::new();
    for i in 0..v.len()
        invariant
            out@.len() == i,
            forall|j: int| 0 <= j < i ==> out@[j]@ == v@[j]@,
    {
        out.push(v[i].clone());
    }
    out
}

/// Returns whether two vectors of IRIs hold the same names in order.
pub fn iri_vec_eq(a: &Vec<IRI>, b: &Vec<IRI>) -> (r: bool)
    ensures
        r == (spec_iri_seq(a@) == spec_iri_seq(b@)),
{
    if a.len() != b.len() {
        assert(spec_iri_seq(a@).len() != spec_iri_seq(b@).len());
        return false;
    }
    for i in 0..a.len()
        invariant
            a@.len() == b@.len(),
            forall|j: int| 0 <= j < i ==> a@[j]@ == b@[j]@,
    {
        if !iri_eq(&a[i], &b[i]) {
            assert(spec_iri_seq(a@)[i as int] != spec_iri_seq(b@)[i as int]);
            return false;
        }
    }
    proof {
        assert(spec_iri_seq(a@) =~= spec_iri_seq(b@));
    }
    true
}


/// Mathematical value of a [`ClassAxiom`].
#[verifier::ext_equal]
pub enum SpecClassAxiom {
    SubClassOf { sub_class: SpecClassExpr, super_class: SpecClassExpr },
    EquivalentClasses { classes: Seq<SpecClassExpr> },
    DisjointClasses { classes: Seq<SpecClassExpr> },
    DisjointUnion { class: Seq<char>, disjoint_classes: Seq<SpecClassExpr> },
}

/// An axiom about classes.
#[derive(Debug, PartialEq, Eq, Hash)]
pub enum ClassAxiom {
    SubClassOf { sub_class: ClassExpression, super_class: ClassExpression },
    EquivalentClasses { classes: Vec<ClassExpression> },
    DisjointClasses { classes: Vec<ClassExpression> },
    DisjointUnion { class: Class, disjoint_classes: Vec<ClassExpression> },
}

impl View for ClassAxiom {
    type V = SpecClassAxiom;

    open spec fn view(&self) -> SpecClassAxiom {
        match self {
            ClassAxiom::SubClassOf { sub_class, super_class } => SpecClassAxiom::SubClassOf {
                sub_class: sub_class@,
                super_class: super_class@,
            },
            ClassAxiom::EquivalentClasses { classes } => SpecClassAxiom::EquivalentClasses {
                classes: spec_ce_seq(classes@),
            },
            ClassAxiom::DisjointClasses { classes } => SpecClassAxiom::DisjointClasses {
                classes: spec_ce_seq(classes@),
            },
            ClassAxiom::DisjointUnion { class, disjoint_classes } => SpecClassAxiom::DisjointUnion {
                class: class@,
                disjoint_classes: spec_ce_seq(disjoint_classes@),
            },
        }
    }
}

impl Clone for ClassAxiom {
    fn clone(&self) -> (r: Self)
        ensures
            r@ == self@,
    {
        match self {
            ClassAxiom::SubClassOf { sub_class, super_class } => ClassAxiom::SubClassOf {
                sub_class: clone_ce(sub_class),
                super_class: clone_ce(super_class),
            },
            ClassAxiom::EquivalentClasses { classes } => ClassAxiom::EquivalentClasses {
                classes: clone_ce_vec(classes),
            },
            ClassAxiom::DisjointClasses { classes } => ClassAxiom::DisjointClasses {
                classes: clone_ce_vec(classes),
            },
            ClassAxiom::DisjointUnion { class, disjoint_classes } => ClassAxiom::DisjointUnion {
                class: class.clone(),
                disjoint_classes: clone_ce_vec(disjoint_classes),
            },
        }
    }
}

/// Returns whether two class axioms are structurally equal.
pub fn class_axiom_eq(a: &ClassAxiom, b: &ClassAxiom) -> (r: bool)
    ensures
        r == (a@ == b@),
{
    match (a, b) {
        (
            ClassAxiom::SubClassOf { sub_class: s1, super_class: p1 },
            ClassAxiom::SubClassOf { sub_class: s2, super_class: p2 },
        ) => ce_eq(s1, s2) && ce_eq(p1, p2),
        (
            ClassAxiom::EquivalentClasses { classes: c1 },
            ClassAxiom::EquivalentClasses { classes: c2 },
        ) => ce_vec_eq(c1, c2),
        (
            ClassAxiom::DisjointClasses { classes: c1 },
            ClassAxiom::DisjointClasses { classes: c2 },
        ) => ce_vec_eq(c1, c2),
        (
            ClassAxiom::DisjointUnion { class: k1, disjoint_classes: c1 },
            ClassAxiom::DisjointUnion { class: k2, disjoint_classes: c2 },
        ) => class_eq(k1, k2) && ce_vec_eq(c1, c2),
        _ => false,
    }
}

/// Mathematical value of an [`ObjectPropertyAxiom`].
#[verifier::ext_equal]
pub enum SpecObjectPropertyAxiom {
    SubObjectPropertyOf {
        sub_property: SpecObjectPropertyExpr,
        super_property: SpecObjectPropertyExpr,
    },
    EquivalentObjectProperties { properties: Seq<SpecObjectPropertyExpr> },
    DisjointObjectProperties { properties: Seq<SpecObjectPropertyExpr> },
    InverseObjectProperties { prop1: SpecObjectPropertyExpr, prop2: SpecObjectPropertyExpr },
    ObjectPropertyDomain { property: SpecObjectPropertyExpr, domain: SpecClassExpr },
    ObjectPropertyRange { property: SpecObjectPropertyExpr, range: SpecClassExpr },
    FunctionalObjectProperty { property: SpecObjectPropertyExpr },
    InverseFunctionalObjectProperty { property: SpecObjectPropertyExpr },
    ReflexiveObjectProperty { property: SpecObjectPropertyExpr },
    IrreflexiveObjectProperty { property: SpecObjectPropertyExpr },
    SymmetricObjectProperty { property: SpecObjectPropertyExpr },
    AsymmetricObjectProperty { property: SpecObjectPropertyExpr },
    TransitiveObjectProperty { property: SpecObjectPropertyExpr },
}

/// An axiom about object properties.
#[derive(Debug, PartialEq, Eq, Hash)]
pub enum ObjectPropertyAxiom {
    SubObjectPropertyOf {
        sub_property: ObjectPropertyExpression,
        super_property: ObjectPropertyExpression,
    },
    EquivalentObjectProperties { properties: Vec<ObjectPropertyExpression> },
    DisjointObjectProperties { properties: Vec<ObjectPropertyExpression> },
    InverseObjectProperties { prop1: ObjectPropertyExpression, prop2: ObjectPropertyExpression },
    ObjectPropertyDomain { property: ObjectPropertyExpression, domain: ClassExpression },
    ObjectPropertyRange { property: ObjectPropertyExpression, range: ClassExpression },
    FunctionalObjectProperty { property: ObjectPropertyExpression },
    InverseFunctionalObjectProperty { property: ObjectPropertyExpression },
    ReflexiveObjectProperty { property: ObjectPropertyExpression },
    IrreflexiveObjectProperty { property: ObjectPropertyExpression },
    SymmetricObjectProperty { property: ObjectPropertyExpression },
    AsymmetricObjectProperty { property: ObjectPropertyExpression },
    TransitiveObjectProperty { property: ObjectPropertyExpression },
}

impl View for ObjectPropertyAxiom {
    type V = SpecObjectPropertyAxiom;

    open spec fn view(&self) -> SpecObjectPropertyAxiom {
        match self {
            ObjectPropertyAxiom::SubObjectPropertyOf {
                sub_property,
                super_property,
            } => SpecObjectPropertyAxiom::SubObjectPropertyOf {
                sub_property: sub_property@,
                super_property: super_property@,
            },
            ObjectPropertyAxiom::EquivalentObjectProperties {
                properties,
            } => SpecObjectPropertyAxiom::EquivalentObjectProperties {
                properties: spec_ope_seq(properties@),
            },
            ObjectPropertyAxiom::DisjointObjectProperties {
                properties,
            } => SpecObjectPropertyAxiom::DisjointObjectProperties {
                properties: spec_ope_seq(properties@),
            },
            ObjectPropertyAxiom::InverseObjectProperties {
                prop1,
                prop2,
            } => SpecObjectPropertyAxiom::InverseObjectProperties {
                prop1: prop1@,
                prop2: prop2@,
            },
            ObjectPropertyAxiom::ObjectPropertyDomain {
                property,
                domain,
            } => SpecObjectPropertyAxiom::ObjectPropertyDomain {
                property: property@,
                domain: domain@,
            },
            ObjectPropertyAxiom::ObjectPropertyRange {
                property,
                range,
            } => SpecObjectPropertyAxiom::ObjectPropertyRange {
                property: property@,
                range: range@,
            },
            ObjectPropertyAxiom::FunctionalObjectProperty {
                property,
            } => SpecObjectPropertyAxiom::FunctionalObjectProperty { property: property@ },
            ObjectPropertyAxiom::InverseFunctionalObjectProperty {
                property,
            } => SpecObjectPropertyAxiom::InverseFunctionalObjectProperty { property: property@ },
            ObjectPropertyAxiom::ReflexiveObjectProperty {
                property,
            } => SpecObjectPropertyAxiom::ReflexiveObjectProperty { property: property@ },
            ObjectPropertyAxiom::IrreflexiveObjectProperty {
                property,
            } => SpecObjectPropertyAxiom::IrreflexiveObjectProperty { property: property@ },
            ObjectPropertyAxiom::SymmetricObjectProperty {
                property,
            } => SpecObjectPropertyAxiom::SymmetricObjectProperty { property: property@ },
            ObjectPropertyAxiom::AsymmetricObjectProperty {
                property,
            } => SpecObjectPropertyAxiom::AsymmetricObjectProperty { property: property@ },
            ObjectPropertyAxiom::TransitiveObjectProperty {
                property,
            } => SpecObjectPropertyAxiom::TransitiveObjectProperty { property: property@ },
        }
    }
}

impl Clone for ObjectPropertyAxiom {
    fn clone(&self) -> (r: Self)
        ensures
            r@ == self@,
    {
        match self {
            ObjectPropertyAxiom::SubObjectPropertyOf {
                sub_property,
                super_property,
            } => ObjectPropertyAxiom::SubObjectPropertyOf {
                sub_property: clone_ope(sub_property),
                super_property: clone_ope(super_property),
            },
            ObjectPropertyAxiom::EquivalentObjectProperties {
                properties,
            } => ObjectPropertyAxiom::EquivalentObjectProperties {
                properties: clone_ope_vec(properties),
            },
            ObjectPropertyAxiom::DisjointObjectProperties {
                properties,
            } => ObjectPropertyAxiom::DisjointObjectProperties {
                properties: clone_ope_vec(properties),
            },
            ObjectPropertyAxiom::InverseObjectProperties {
                prop1,
                prop2,
            } => ObjectPropertyAxiom::InverseObjectProperties {
                prop1: clone_ope(prop1),
                prop2: clone_ope(prop2),
            },
            ObjectPropertyAxiom::ObjectPropertyDomain {
                property,
                domain,
            } => ObjectPropertyAxiom::ObjectPropertyDomain {
                property: clone_ope(property),
                domain: clone_ce(domain),
            },
            ObjectPropertyAxiom::ObjectPropertyRange {
                property,
                range,
            } => ObjectPropertyAxiom::ObjectPropertyRange {
                property: clone_ope(property),
                range: clone_ce(range),
            },
            ObjectPropertyAxiom::FunctionalObjectProperty {
                property,
            } => ObjectPropertyAxiom::FunctionalObjectProperty { property: clone_ope(property) },
            ObjectPropertyAxiom::InverseFunctionalObjectProperty {
                property,
            } => ObjectPropertyAxiom::InverseFunctionalObjectProperty {
                property: clone_ope(property),
            },
            ObjectPropertyAxiom::ReflexiveObjectProperty {
                property,
            } => ObjectPropertyAxiom::ReflexiveObjectProperty { property: clone_ope(property) },
            ObjectPropertyAxiom::IrreflexiveObjectProperty {
                property,
            } => ObjectPropertyAxiom::IrreflexiveObjectProperty { property: clone_ope(property) },
            ObjectPropertyAxiom::SymmetricObjectProperty {
                property,
            } => ObjectPropertyAxiom::SymmetricObjectProperty { property: clone_ope(property) },
            ObjectPropertyAxiom::AsymmetricObjectProperty {
                property,
            } => ObjectPropertyAxiom::AsymmetricObjectProperty { property: clone_ope(property) },
            ObjectPropertyAxiom::TransitiveObjectProperty {
                property,
            } => ObjectPropertyAxiom::TransitiveObjectProperty { property: clone_ope(property) },
        }
    }
}

/// Returns whether two object property axioms are structurally equal.
pub fn object_property_axiom_eq(a: &ObjectPropertyAxiom, b: &ObjectPropertyAxiom) -> (r: bool)
    ensures
        r == (a@ == b@),
{
    match (a, b) {
        (
            ObjectPropertyAxiom::SubObjectPropertyOf { sub_property: s1, super_property: p1 },
            ObjectPropertyAxiom::SubObjectPropertyOf { sub_property: s2, super_property: p2 },
        ) => ope_eq(s1, s2) && ope_eq(p1, p2),
        (
            ObjectPropertyAxiom::EquivalentObjectProperties { properties: p1 },
            ObjectPropertyAxiom::EquivalentObjectProperties { properties: p2 },
        ) => ope_vec_eq(p1, p2),
        (
            ObjectPropertyAxiom::DisjointObjectProperties { properties: p1 },
            ObjectPropertyAxiom::DisjointObjectProperties { properties: p2 },
        ) => ope_vec_eq(p1, p2),
        (
            ObjectPropertyAxiom::InverseObjectProperties { prop1: a1, prop2: b1 },
            ObjectPropertyAxiom::InverseObjectProperties { prop1: a2, prop2: b2 },
        ) => ope_eq(a1, a2) && ope_eq(b1, b2),
        (
            ObjectPropertyAxiom::ObjectPropertyDomain { property: p1, domain: d1 },
            ObjectPropertyAxiom::ObjectPropertyDomain { property: p2, domain: d2 },
        ) => ope_eq(p1, p2) && ce_eq(d1, d2),
        (
            ObjectPropertyAxiom::ObjectPropertyRange { property: p1, range: r1 },
            ObjectPropertyAxiom::ObjectPropertyRange { property: p2, range: r2 },
        ) => ope_eq(p1, p2) && ce_eq(r1, r2),
        (
            ObjectPropertyAxiom::FunctionalObjectProperty { property: p1 },
            ObjectPropertyAxiom::FunctionalObjectProperty { property: p2 },
        ) => ope_eq(p1, p2),
        (
            ObjectPropertyAxiom::InverseFunctionalObjectProperty { property: p1 },
            ObjectPropertyAxiom::InverseFunctionalObjectProperty { property: p2 },
        ) => ope_eq(p1, p2),
        (
            ObjectPropertyAxiom::ReflexiveObjectProperty { property: p1 },
            ObjectPropertyAxiom::ReflexiveObjectProperty { property: p2 },
        ) => ope_eq(p1, p2),
        (
            ObjectPropertyAxiom::IrreflexiveObjectProperty { property: p1 },
            ObjectPropertyAxiom::IrreflexiveObjectProperty { property: p2 },
        ) => ope_eq(p1, p2),
        (
            ObjectPropertyAxiom::SymmetricObjectProperty { property: p1 },
            ObjectPropertyAxiom::SymmetricObjectProperty { property: p2 },
        ) => ope_eq(p1, p2),
        (
            ObjectPropertyAxiom::AsymmetricObjectProperty { property: p1 },
            ObjectPropertyAxiom::AsymmetricObjectProperty { property: p2 },
        ) => ope_eq(p1, p2),
        (
            ObjectPropertyAxiom::TransitiveObjectProperty { property: p1 },
            ObjectPropertyAxiom::TransitiveObjectProperty { property: p2 },
        ) => ope_eq(p1, p2),
        _ => false,
    }
}


/// Mathematical value of a [`DataPropertyAxiom`].
#[verifier::ext_equal]
pub enum SpecDataPropertyAxiom {
    SubDataPropertyOf { sub_property: Seq<char>, super_property: Seq<char> },
    EquivalentDataProperties { properties: Seq<Seq<char>> },
    DisjointDataProperties { properties: Seq<Seq<char>> },
    DataPropertyDomain { property: Seq<char>, domain: SpecClassExpr },
    DataPropertyRange { property: Seq<char>, range: SpecDataRange },
    FunctionalDataProperty { property: Seq<char> },
}

/// An axiom about data properties.
#[derive(Debug, PartialEq, Eq, Hash)]
pub enum DataPropertyAxiom {
    SubDataPropertyOf { sub_property: DataProperty, super_property: DataProperty },
    EquivalentDataProperties { properties: Vec<DataProperty> },
    DisjointDataProperties { properties: Vec<DataProperty> },
    DataPropertyDomain { property: DataProperty, domain: ClassExpression },
    DataPropertyRange { property: DataProperty, range: DataRange },
    FunctionalDataProperty { property: DataProperty },
}

impl View for DataPropertyAxiom {
    type V = SpecDataPropertyAxiom;

    open spec fn view(&self) -> SpecDataPropertyAxiom {
        match self {
            DataPropertyAxiom::SubDataPropertyOf {
                sub_property,
                super_property,
            } => SpecDataPropertyAxiom::SubDataPropertyOf {
                sub_property: sub_property@,
                super_property: super_property@,
            },
            DataPropertyAxiom::EquivalentDataProperties {
                properties,
            } => SpecDataPropertyAxiom::EquivalentDataProperties {
                properties: spec_dp_seq(properties@),
            },
            DataPropertyAxiom::DisjointDataProperties {
                properties,
            } => SpecDataPropertyAxiom::DisjointDataProperties {
                properties: spec_dp_seq(properties@),
            },
            DataPropertyAxiom::DataPropertyDomain {
                property,
                domain,
            } => SpecDataPropertyAxiom::DataPropertyDomain {
                property: property@,
                domain: domain@,
            },
            DataPropertyAxiom::DataPropertyRange {
                property,
                range,
            } => SpecDataPropertyAxiom::DataPropertyRange { property: property@, range: range@ },
            DataPropertyAxiom::FunctionalDataProperty {
                property,
            } => SpecDataPropertyAxiom::FunctionalDataProperty { property: property@ },
        }
    }
}

impl Clone for DataPropertyAxiom {
    fn clone(&self) -> (r: Self)
        ensures
            r@ == self@,
    {
        match self {
            DataPropertyAxiom::SubDataPropertyOf {
                sub_property,
                super_property,
            } => DataPropertyAxiom::SubDataPropertyOf {
                sub_property: sub_property.clone(),
                super_property: super_property.clone(),
            },
            DataPropertyAxiom::EquivalentDataProperties {
                properties,
            } => DataPropertyAxiom::EquivalentDataProperties {
                properties: clone_dp_vec(properties),
            },
            DataPropertyAxiom::DisjointDataProperties {
                properties,
            } => DataPropertyAxiom::DisjointDataProperties { properties: clone_dp_vec(properties) },
            DataPropertyAxiom::DataPropertyDomain {
                property,
                domain,
            } => DataPropertyAxiom::DataPropertyDomain {
                property: property.clone(),
                domain: clone_ce(domain),
            },
            DataPropertyAxiom::DataPropertyRange {
                property,
                range,
            } => DataPropertyAxiom::DataPropertyRange {
                property: property.clone(),
                range: clone_dr(range),
            },
            DataPropertyAxiom::FunctionalDataProperty {
                property,
            } => DataPropertyAxiom::FunctionalDataProperty { property: property.clone() },
        }
    }
}

/// Returns whether two data property axioms are structurally equal.
pub fn data_property_axiom_eq(a: &DataPropertyAxiom, b: &DataPropertyAxiom) -> (r: bool)
    ensures
        r == (a@ == b@),
{
    match (a, b) {
        (
            DataPropertyAxiom::SubDataPropertyOf { sub_property: s1, super_property: p1 },
            DataPropertyAxiom::SubDataPropertyOf { sub_property: s2, super_property: p2 },
        ) => data_property_eq(s1, s2) && data_property_eq(p1, p2),
        (
            DataPropertyAxiom::EquivalentDataProperties { properties: p1 },
            DataPropertyAxiom::EquivalentDataProperties { properties: p2 },
        ) => dp_vec_eq(p1, p2),
        (
            DataPropertyAxiom::DisjointDataProperties { properties: p1 },
            DataPropertyAxiom::DisjointDataProperties { properties: p2 },
        ) => dp_vec_eq(p1, p2),
        (
            DataPropertyAxiom::DataPropertyDomain { property: p1, domain: d1 },
            DataPropertyAxiom::DataPropertyDomain { property: p2, domain: d2 },
        ) => data_property_eq(p1, p2) && ce_eq(d1, d2),
        (
            DataPropertyAxiom::DataPropertyRange { property: p1, range: r1 },
            DataPropertyAxiom::DataPropertyRange { property: p2, range: r2 },
        ) => data_property_eq(p1, p2) && dr_eq(r1, r2),
        (
            DataPropertyAxiom::FunctionalDataProperty { property: p1 },
            DataPropertyAxiom::FunctionalDataProperty { property: p2 },
        ) => data_property_eq(p1, p2),
        _ => false,
    }
}

/// Mathematical value of an [`Assertion`].
#[verifier::ext_equal]
pub enum SpecAssertion {
    SameIndividual { individuals: Seq<SpecIndividual> },
    DifferentIndividuals { individuals: Seq<SpecIndividual> },
    ClassAssertion { class: SpecClassExpr, individual: SpecIndividual },
    ObjectPropertyAssertion {
        property: SpecObjectPropertyExpr,
        source: SpecIndividual,
        target: SpecIndividual,
    },
    DataPropertyAssertion { property: Seq<char>, source: SpecIndividual, target: SpecLiteral },
    NegativeObjectPropertyAssertion {
        property: SpecObjectPropertyExpr,
        source: SpecIndividual,
        target: SpecIndividual,
    },
    NegativeDataPropertyAssertion {
        property: Seq<char>,
        source: SpecIndividual,
        target: SpecLiteral,
    },
    HasKey {
        class: Seq<char>,
        object_property_expression: Seq<SpecObjectPropertyExpr>,
        data_property: Seq<Seq<char>>,
    },
}

/// An assertion about individuals.
#[derive(Debug, PartialEq, Eq, Hash)]
pub enum Assertion {
    SameIndividual { individuals: Vec<Individual> },
    DifferentIndividuals { individuals: Vec<Individual> },
    ClassAssertion { class: ClassExpression, individual: Individual },
    ObjectPropertyAssertion {
        property: ObjectPropertyExpression,
        source: Individual,
        target: Individual,
    },
    DataPropertyAssertion { property: DataProperty, source: Individual, target: Literal },
    NegativeObjectPropertyAssertion {
        property: ObjectPropertyExpression,
        source: Individual,
        target: Individual,
    },
    NegativeDataPropertyAssertion { property: DataProperty, source: Individual, target: Literal },
    HasKey {
        class: Class,
        object_property_expression: Vec<ObjectPropertyExpression>,
        data_property: Vec<DataProperty>,
    },
}

impl View for Assertion {
    type V = SpecAssertion;

    open spec fn view(&self) -> SpecAssertion {
        match self {
            Assertion::SameIndividual { individuals } => SpecAssertion::SameIndividual {
                individuals: spec_individual_seq(individuals@),
            },
            Assertion::DifferentIndividuals { individuals } => SpecAssertion::DifferentIndividuals {
                individuals: spec_individual_seq(individuals@),
            },
            Assertion::ClassAssertion { class, individual } => SpecAssertion::ClassAssertion {
                class: class@,
                individual: individual@,
            },
            Assertion::ObjectPropertyAssertion {
                property,
                source,
                target,
            } => SpecAssertion::ObjectPropertyAssertion {
                property: property@,
                source: source@,
                target: target@,
            },
            Assertion::DataPropertyAssertion {
                property,
                source,
                target,
            } => SpecAssertion::DataPropertyAssertion {
                property: property@,
                source: source@,
                target: target@,
            },
            Assertion::NegativeObjectPropertyAssertion {
                property,
                source,
                target,
            } => SpecAssertion::NegativeObjectPropertyAssertion {
                property: property@,
                source: source@,
                target: target@,
            },
            Assertion::NegativeDataPropertyAssertion {
                property,
                source,
                target,
            } => SpecAssertion::NegativeDataPropertyAssertion {
                property: property@,
                source: source@,
                target: target@,
            },
            Assertion::HasKey {
                class,
                object_property_expression,
                data_property,
            } => SpecAssertion::HasKey {
                class: class@,
                object_property_expression: spec_ope_seq(object_property_expression@),
                data_property: spec_dp_seq(data_property@),
            },
        }
    }
}

impl Clone for Assertion {
    fn clone(&self) -> (r: Self)
        ensures
            r@ == self@,
    {
        match self {
            Assertion::SameIndividual { individuals } => Assertion::SameIndividual {
                individuals: clone_individual_vec(individuals),
            },
            Assertion::DifferentIndividuals { individuals } => Assertion::DifferentIndividuals {
                individuals: clone_individual_vec(individuals),
            },
            Assertion::ClassAssertion { class, individual } => Assertion::ClassAssertion {
                class: clone_ce(class),
                individual: individual.clone(),
            },
            Assertion::ObjectPropertyAssertion {
                property,
                source,
                target,
            } => Assertion::ObjectPropertyAssertion {
                property: clone_ope(property),
                source: source.clone(),
                target: target.clone(),
            },
            Assertion::DataPropertyAssertion {
                property,
                source,
                target,
            } => Assertion::DataPropertyAssertion {
                property: property.clone(),
                source: source.clone(),
                target: target.clone(),
            },
            Assertion::NegativeObjectPropertyAssertion {
                property,
                source,
                target,
            } => Assertion::NegativeObjectPropertyAssertion {
                property: clone_ope(property),
                source: source.clone(),
                target: target.clone(),
            },
            Assertion::NegativeDataPropertyAssertion {
                property,
                source,
                target,
            } => Assertion::NegativeDataPropertyAssertion {
                property: property.clone(),
                source: source.clone(),
                target: target.clone(),
            },
            Assertion::HasKey {
                class,
                object_property_expression,
                data_property,
            } => Assertion::HasKey {
                class: class.clone(),
                object_property_expression: clone_ope_vec(object_property_expression),
                data_property: clone_dp_vec(data_property),
            },
        }
    }
}

/// Returns whether two assertions are structurally equal.
pub fn assertion_eq(a: &Assertion, b: &Assertion) -> (r: bool)
    ensures
        r == (a@ == b@),
{
    match (a, b) {
        (
            Assertion::SameIndividual { individuals: i1 },
            Assertion::SameIndividual { individuals: i2 },
        ) => individual_vec_eq(i1, i2),
        (
            Assertion::DifferentIndividuals { individuals: i1 },
            Assertion::DifferentIndividuals { individuals: i2 },
        ) => individual_vec_eq(i1, i2),
        (
            Assertion::ClassAssertion { class: c1, individual: i1 },
            Assertion::ClassAssertion { class: c2, individual: i2 },
        ) => ce_eq(c1, c2) && individual_eq(i1, i2),
        (
            Assertion::ObjectPropertyAssertion { property: p1, source: s1, target: t1 },
            Assertion::ObjectPropertyAssertion { property: p2, source: s2, target: t2 },
        ) => ope_eq(p1, p2) && individual_eq(s1, s2) && individual_eq(t1, t2),
        (
            Assertion::DataPropertyAssertion { property: p1, source: s1, target: t1 },
            Assertion::DataPropertyAssertion { property: p2, source: s2, target: t2 },
        ) => data_property_eq(p1, p2) && individual_eq(s1, s2) && literal_eq(t1, t2),
        (
            Assertion::NegativeObjectPropertyAssertion { property: p1, source: s1, target: t1 },
            Assertion::NegativeObjectPropertyAssertion { property: p2, source: s2, target: t2 },
        ) => ope_eq(p1, p2) && individual_eq(s1, s2) && individual_eq(t1, t2),
        (
            Assertion::NegativeDataPropertyAssertion { property: p1, source: s1, target: t1 },
            Assertion::NegativeDataPropertyAssertion { property: p2, source: s2, target: t2 },
        ) => data_property_eq(p1, p2) && individual_eq(s1, s2) && literal_eq(t1, t2),
        (
            Assertion::HasKey { class: c1, object_property_expression: o1, data_property: d1 },
            Assertion::HasKey { class: c2, object_property_expression: o2, data_property: d2 },
        ) => class_eq(c1, c2) && ope_vec_eq(o1, o2) && dp_vec_eq(d1, d2),
        _ => false,
    }
}

/// Mathematical value of an [`Axiom`].
#[verifier::ext_equal]
pub enum SpecAxiom {
    Class(SpecClassAxiom),
    ObjectProperty(SpecObjectPropertyAxiom),
    DataProperty(SpecDataPropertyAxiom),
    Assertion(SpecAssertion),
}

/// A general axiom, encompassing all specific axiom kinds.
#[derive(Debug, PartialEq, Eq, Hash)]
pub enum Axiom {
    Class(ClassAxiom),
    ObjectProperty(ObjectPropertyAxiom),
    DataProperty(DataPropertyAxiom),
    Assertion(Assertion),
}

impl View for Axiom {
    type V = SpecAxiom;

    open spec fn view(&self) -> SpecAxiom {
        match self {
            Axiom::Class(x) => SpecAxiom::Class(x@),
            Axiom::ObjectProperty(x) => SpecAxiom::ObjectProperty(x@),
            Axiom::DataProperty(x) => SpecAxiom::DataProperty(x@),
            Axiom::Assertion(x) => SpecAxiom::Assertion(x@),
        }
    }
}

impl Clone for Axiom {
    fn clone(&self) -> (r: Self)
        ensures
            r@ == self@,
    {
        match self {
            Axiom::Class(x) => Axiom::Class(x.clone()),
            Axiom::ObjectProperty(x) => Axiom::ObjectProperty(x.clone()),
            Axiom::DataProperty(x) => Axiom::DataProperty(x.clone()),
            Axiom::Assertion(x) => Axiom::Assertion(x.clone()),
        }
    }
}

/// Returns whether two axioms are structurally equal.
pub fn axiom_eq(a: &Axiom, b: &Axiom) -> (r: bool)
    ensures
        r == (a@ == b@),
{
    match (a, b) {
        (Axiom::Class(x), Axiom::Class(y)) => class_axiom_eq(x, y),
        (Axiom::ObjectProperty(x), Axiom::ObjectProperty(y)) => object_property_axiom_eq(x, y),
        (Axiom::DataProperty(x), Axiom::DataProperty(y)) => data_property_axiom_eq(x, y),
        (Axiom::Assertion(x), Axiom::Assertion(y)) => assertion_eq(x, y),
        _ => false,
    }
}

/// Mathematical values of a sequence of axioms.
pub open spec fn spec_axiom_seq(s: Seq<Axiom>) -> Seq<SpecAxiom> {
    s.map_values(|x: Axiom| x@)
}

/// Returns a copy of a vector of axioms with the same values.
pub fn clone_axiom_vec(v: &Vec<Axiom>) -> (r: Vec<Axiom>)
    ensures
        spec_axiom_seq(r@) =~= spec_axiom_seq(v@),
        r@.len() == v@.len(),
{
    let mut out: Vec<Axiom> = Vec::new();
    for i in 0..v.len()
        invariant
            out@.len() == i,
            forall|j: int| 0 <= j < i ==> out@[j]@ == v@[j]@,
    {
        out.push(v[i].clone());
    }
    out
}

/// Returns whether two vectors of axioms hold equal values in order.
pub fn axiom_vec_eq(a: &Vec<Axiom>, b: &Vec<Axiom>) -> (r: bool)
    ensures
        r == (spec_axiom_seq(a@) == spec_axiom_seq(b@)),
{
    if a.len() != b.len() {
        assert(spec_axiom_seq(a@).len() != spec_axiom_seq(b@).len());
        return false;
    }
    for i in 0..a.len()
        invariant
            a@.len() == b@.len(),
            forall|j: int| 0 <= j < i ==> a@[j]@ == b@[j]@,
    {
        if !axiom_eq(&a[i], &b[i]) {
            assert(spec_axiom_seq(a@)[i as int] != spec_axiom_seq(b@)[i as int]);
            return false;
        }
    }
    proof {
        assert(spec_axiom_seq(a@) =~= spec_axiom_seq(b@));
    }
    true
}

/// Mathematical value of an [`Ontology`].
#[verifier::ext_equal]
pub struct SpecOntology {
    pub direct_imports: Seq<Seq<char>>,
    pub axioms: Seq<SpecAxiom>,
}

/// A complete ontology: a list of directly imported ontology IRIs and an
/// ordered sequence of axioms.  Order is kept for deterministic iteration;
/// the semantics are set-theoretic.
#[derive(Debug)]
pub struct Ontology {
    pub direct_imports: Vec<IRI>,
    pub axioms: Vec<Axiom>,
}

impl View for Ontology {
    type V = SpecOntology;

    open spec fn view(&self) -> SpecOntology {
        SpecOntology {
            direct_imports: spec_iri_seq(self.direct_imports@),
            axioms: spec_axiom_seq(self.axioms@),
        }
    }
}

impl Clone for Ontology {
    fn clone(&self) -> (r: Self)
        ensures
            r@ == self@,
    {
        let r = Ontology {
            direct_imports: clone_iri_vec(&self.direct_imports),
            axioms: clone_axiom_vec(&self.axioms),
        };
        proof {
            assert(r@ =~= self@);
        }
        r
    }
}

impl Default for Ontology {
    /// Returns the empty ontology: no imports and no axioms.
    fn default() -> (r: Self)
        ensures
            r@.direct_imports.len() == 0,
            r@.axioms.len() == 0,
    {
        Ontology { direct_imports: Vec::new(), axioms: Vec::new() }
    }
}

/// Returns whether two ontologies hold the same imports and axioms in order.
pub fn ontology_eq(a: &Ontology, b: &Ontology) -> (r: bool)
    ensures
        r == (a@ == b@),
{
    let r = iri_vec_eq(&a.direct_imports, &b.direct_imports) && axiom_vec_eq(&a.axioms, &b.axioms);
    proof {
        if r {
            assert(a@ =~= b@);
        }
    }
    r
}

} // verus!
