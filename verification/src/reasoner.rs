//! Tableau reasoner for OWL 2 ontologies.
//!
//! The reasoner decides consistency by building a completion graph: it seeds
//! the graph from the ontology's assertions, adds the internalized class
//! inclusions to every node, and then applies expansion rules to a fixed
//! point.  Consistency, subsumption, instance checking, classification, and
//! realization are all defined by `spec_` functions over the mathematical
//! graph, and every executable step is proved to follow them, so each service
//! returns a pure function of the ontology.
//!
//! The expansion covers the conjunction, disjunction, existential, and
//! universal rules, with the class inclusions internalized into every node's
//! label.  The disjunction rule is deterministic: it keeps a disjunct that is
//! already present, otherwise it adds the first disjunct whose complement is
//! not yet in the label, and when every disjunct is refuted it adds the first
//! one, which surfaces the clash.  Anonymous nodes whose label is included in
//! an earlier node's label are blocked from existential expansion, which
//! keeps expansion finite on cyclic inclusions.  Cardinality restrictions and
//! property characteristics do not take part in the expansion.

use crate::{
    Assertion, Axiom, Class, ClassAxiom, ClassExpression, DataPropertyAxiom, Individual, NodeID,
    ObjectPropertyAxiom, ObjectPropertyExpression, Ontology, SpecAxiom, SpecClassAxiom,
    SpecAssertion, SpecClassExpr, SpecDataPropertyAxiom, SpecIndividual, SpecObjectPropertyAxiom,
    SpecObjectPropertyExpr, SpecOntology, clone_ce, clone_ope, ce_eq, individual_eq, ope_eq,
    class_eq, clone_ce_vec, spec_ce_seq, spec_individual_seq, lemma_spec_ce_seq, spec_axiom_seq,
};
use vstd::prelude::*;
use vstd::string::StringExecFns;

verus! {

/// The most expansion rounds a single consistency check will run.  Each
/// round applies every rule once; expansion stops earlier as soon as a round
/// changes nothing.  The same bound caps the branch search over disjunction
/// choices: a branch that exhausts it is reported consistent, so the answer
/// `false` always rests on a clash in every branch, while `true` on very
/// deep inputs may stand for a search cut short.
pub const MAX_EXPANSION_ROUNDS: usize = 4096;

/// Mathematical value of a [`Node`].
#[verifier::ext_equal]
pub struct SpecNode {
    pub individual: SpecIndividual,
    pub concepts: Seq<SpecClassExpr>,
    pub roles: Seq<(SpecObjectPropertyExpr, SpecIndividual)>,
}

/// A node of the completion graph: an individual, the class expressions it
/// must satisfy, and its outgoing role edges.
#[derive(Debug)]
pub struct Node {
    /// The individual this node stands for.
    pub individual: Individual,
    /// The concepts this node is an instance of, without duplicates.
    pub concepts: Vec<ClassExpression>,
    /// The outgoing edges `(property, target)`, without duplicates.
    pub roles: Vec<(ObjectPropertyExpression, Individual)>,
}

/// Mathematical values of a sequence of role edges.
pub open spec fn spec_role_seq(s: Seq<(ObjectPropertyExpression, Individual)>) -> Seq<
    (SpecObjectPropertyExpr, SpecIndividual),
> {
    s.map_values(|r: (ObjectPropertyExpression, Individual)| (r.0@, r.1@))
}

impl View for Node {
    type V = SpecNode;

    open spec fn view(&self) -> SpecNode {
        SpecNode {
            individual: self.individual@,
            concepts: spec_ce_seq(self.concepts@),
            roles: spec_role_seq(self.roles@),
        }
    }
}

impl Clone for Node {
    fn clone(&self) -> (r: Self)
        ensures
            r@ == self@,
    {
        let mut roles: Vec<(ObjectPropertyExpression, Individual)> = Vec::new();
        for i in 0..self.roles.len()
            invariant
                roles@.len() == i,
                forall|j: int|
                    0 <= j < i ==> roles@[j].0@ == self.roles@[j].0@ && roles@[j].1@
                        == self.roles@[j].1@,
        {
            let (p, t) = &self.roles[i];
            roles.push((clone_ope(p), t.clone()));
        }
        let r = Node {
            individual: self.individual.clone(),
            concepts: clone_ce_vec(&self.concepts),
            roles,
        };
        proof {
            assert(spec_role_seq(r.roles@) =~= spec_role_seq(self.roles@));
            assert(r@ =~~= self@);
        }
        r
    }
}

/// Mathematical value of a [`CompletionGraph`].
#[verifier::ext_equal]
pub struct SpecGraph {
    pub nodes: Seq<SpecNode>,
    pub next_fresh_id: u32,
}

/// The completion graph built by the tableau procedure.
#[derive(Debug)]
pub struct CompletionGraph {
    /// The nodes, in creation order.
    pub nodes: Vec<Node>,
    /// The counter used to mint fresh anonymous individuals.
    pub next_fresh_id: u32,
}

impl View for CompletionGraph {
    type V = SpecGraph;

    open spec fn view(&self) -> SpecGraph {
        SpecGraph {
            nodes: self.nodes@.map_values(|n: Node| n@),
            next_fresh_id: self.next_fresh_id,
        }
    }
}

/// The empty completion graph value.
pub open spec fn spec_empty_graph() -> SpecGraph {
    SpecGraph { nodes: Seq::empty(), next_fresh_id: 0 }
}

/// Index of the first node for `ind` at or after position `k`.
pub open spec fn spec_find_node_from(nodes: Seq<SpecNode>, ind: SpecIndividual, k: int) -> Option<
    int,
>
    decreases nodes.len() - k,
{
    if k < 0 || k >= nodes.len() {
        None
    } else if nodes[k].individual == ind {
        Some(k)
    } else {
        spec_find_node_from(nodes, ind, k + 1)
    }
}

/// Index of the first node for `ind`.
pub open spec fn spec_find_node(nodes: Seq<SpecNode>, ind: SpecIndividual) -> Option<int> {
    spec_find_node_from(nodes, ind, 0)
}

/// What a successful node search means.
pub proof fn lemma_spec_find_node_from(nodes: Seq<SpecNode>, ind: SpecIndividual, k: int)
    requires
        0 <= k,
    ensures
        match spec_find_node_from(nodes, ind, k) {
            Some(i) => k <= i < nodes.len() && nodes[i].individual == ind,
            None => forall|i: int| k <= i < nodes.len() ==> nodes[i].individual != ind,
        },
    decreases nodes.len() - k,
{
    if k < nodes.len() && nodes[k].individual != ind {
        lemma_spec_find_node_from(nodes, ind, k + 1);
    }
}

/// The graph after appending an empty node for `ind`, and that node's index.
pub open spec fn spec_add_node(g: SpecGraph, ind: SpecIndividual) -> (SpecGraph, int) {
    (
        SpecGraph {
            nodes: g.nodes.push(
                SpecNode { individual: ind, concepts: Seq::empty(), roles: Seq::empty() },
            ),
            ..g
        },
        g.nodes.len() as int,
    )
}

/// The graph holding a node for `ind`, and that node's index: the node is
/// found by structural equality, or created empty at the end.
pub open spec fn spec_goc(g: SpecGraph, ind: SpecIndividual) -> (SpecGraph, int) {
    match spec_find_node(g.nodes, ind) {
        Some(i) => (g, i),
        None => spec_add_node(g, ind),
    }
}

/// The node index returned by [`spec_goc`] is in range and holds `ind`.
pub proof fn lemma_spec_goc(g: SpecGraph, ind: SpecIndividual)
    ensures
        ({
            let (g1, i) = spec_goc(g, ind);
            &&& 0 <= i < g1.nodes.len()
            &&& g1.nodes[i].individual == ind
            &&& g1.next_fresh_id == g.next_fresh_id
            &&& g.nodes.len() <= g1.nodes.len()
        }),
{
    lemma_spec_find_node_from(g.nodes, ind, 0);
}

/// The graph after recording that `ind`'s node satisfies `c`, and whether
/// the concept set grew.
pub open spec fn spec_add_concept(g: SpecGraph, ind: SpecIndividual, c: SpecClassExpr) -> (
    SpecGraph,
    bool,
) {
    let (g1, i) = spec_goc(g, ind);
    if 0 <= i < g1.nodes.len() && g1.nodes[i].concepts.contains(c) {
        (g1, false)
    } else {
        (
            SpecGraph {
                nodes: g1.nodes.update(
                    i,
                    SpecNode { concepts: g1.nodes[i].concepts.push(c), ..g1.nodes[i] },
                ),
                ..g1
            },
            true,
        )
    }
}

/// The graph after recording the edge `(role, target)` out of `source`, and
/// whether the edge set grew.  A node for the target is ensured as well.
pub open spec fn spec_add_role(
    g: SpecGraph,
    source: SpecIndividual,
    role: SpecObjectPropertyExpr,
    target: SpecIndividual,
) -> (SpecGraph, bool) {
    let (g1, i) = spec_goc(g, source);
    if 0 <= i < g1.nodes.len() && g1.nodes[i].roles.contains((role, target)) {
        (spec_goc(g1, target).0, false)
    } else {
        let g2 = SpecGraph {
            nodes: g1.nodes.update(
                i,
                SpecNode { roles: g1.nodes[i].roles.push((role, target)), ..g1.nodes[i] },
            ),
            ..g1
        };
        (spec_goc(g2, target).0, true)
    }
}

/// The decimal digits of `n`.
pub open spec fn spec_u32_decimal(n: u32) -> Seq<char>
    decreases n,
{
    if n < 10 {
        seq![spec_digit_char(n as int)]
    } else {
        spec_u32_decimal(n / 10).push(spec_digit_char((n % 10) as int))
    }
}

/// The character of one decimal digit.
pub open spec fn spec_digit_char(d: int) -> char {
    if d == 0 {
        '0'
    } else if d == 1 {
        '1'
    } else if d == 2 {
        '2'
    } else if d == 3 {
        '3'
    } else if d == 4 {
        '4'
    } else if d == 5 {
        '5'
    } else if d == 6 {
        '6'
    } else if d == 7 {
        '7'
    } else if d == 8 {
        '8'
    } else {
        '9'
    }
}

/// The name of the `n`-th fresh anonymous individual.
pub open spec fn spec_fresh_name(n: u32) -> Seq<char> {
    "_:fresh"@ + spec_u32_decimal(n)
}

/// Renders one decimal digit.
fn digit_str(d: u32) -> (r: &'static str)
    requires
        d < 10,
    ensures
        r@ == seq![spec_digit_char(d as int)],
{
    proof {
        reveal_strlit("0");
        reveal_strlit("1");
        reveal_strlit("2");
        reveal_strlit("3");
        reveal_strlit("4");
        reveal_strlit("5");
        reveal_strlit("6");
        reveal_strlit("7");
        reveal_strlit("8");
        reveal_strlit("9");
    }
    if d == 0 {
        "0"
    } else if d == 1 {
        "1"
    } else if d == 2 {
        "2"
    } else if d == 3 {
        "3"
    } else if d == 4 {
        "4"
    } else if d == 5 {
        "5"
    } else if d == 6 {
        "6"
    } else if d == 7 {
        "7"
    } else if d == 8 {
        "8"
    } else {
        "9"
    }
}

/// Renders `n` in decimal.
pub fn u32_decimal(n: u32) -> (r: String)
    ensures
        r@ == spec_u32_decimal(n),
    decreases n,
{
    if n < 10 {
        String::from_str(digit_str(n))
    } else {
        let mut s = u32_decimal(n / 10);
        s.append(digit_str(n % 10));
        proof {
            assert(s@ =~= spec_u32_decimal(n));
        }
        s
    }
}

impl CompletionGraph {
    /// Creates an empty completion graph.
    pub fn new() -> (r: Self)
        ensures
            r@ == spec_empty_graph(),
    {
        let r = CompletionGraph { nodes: Vec::new(), next_fresh_id: 0 };
        proof {
            assert(r@ =~~= spec_empty_graph());
        }
        r
    }

    /// Appends an empty node for `individual` and returns its index.
    pub fn add_node(&mut self, individual: Individual) -> (r: usize)
        ensures
            (final(self)@, r as int) == spec_add_node(old(self)@, individual@),
            r < final(self).nodes.len(),
    {
        let idx = self.nodes.len();
        self.nodes.push(Node { individual, concepts: Vec::new(), roles: Vec::new() });
        proof {
            assert(final(self)@ =~~= spec_add_node(old(self)@, individual@).0);
        }
        idx
    }

    /// Returns the index of the first node for `individual`, if any.
    pub fn find_node(&self, individual: &Individual) -> (r: Option<usize>)
        ensures
            match r {
                Option::None => spec_find_node(self@.nodes, individual@) is None,
                Option::Some(i) => spec_find_node(self@.nodes, individual@) == Some(i as int) && i
                    < self.nodes.len(),
            },
    {
        let mut k: usize = 0;
        while k < self.nodes.len()
            invariant
                0 <= k <= self.nodes.len(),
                spec_find_node(self@.nodes, individual@) == spec_find_node_from(
                    self@.nodes,
                    individual@,
                    k as int,
                ),
            decreases self.nodes.len() - k,
        {
            if individual_eq(&self.nodes[k].individual, individual) {
                return Option::Some(k);
            }
            k = k + 1;
        }
        Option::None
    }

    /// Returns the index of the node for `individual`, creating an empty
    /// node if there is none.
    pub fn get_or_create_node(&mut self, individual: &Individual) -> (r: usize)
        ensures
            (final(self)@, r as int) == spec_goc(old(self)@, individual@),
            r < final(self).nodes.len(),
            final(self)@.nodes[r as int].individual == individual@,
    {
        proof {
            lemma_spec_goc(old(self)@, individual@);
        }
        match self.find_node(individual) {
            Option::Some(i) => i,
            Option::None => self.add_node(individual.clone()),
        }
    }

    /// Ensures `concept` is in the node for `individual`; returns whether
    /// the concept set grew.
    pub fn add_concept(&mut self, individual: &Individual, concept: ClassExpression) -> (r: bool)
        ensures
            (final(self)@, r) == spec_add_concept(old(self)@, individual@, concept@),
    {
        proof {
            lemma_spec_goc(old(self)@, individual@);
        }
        let idx = self.get_or_create_node(individual);
        let ghost g1 = self@;
        let mut found = false;
        let n = self.nodes[idx].concepts.len();
        for j in 0..n
            invariant
                idx < self.nodes.len(),
                n == self.nodes[idx as int].concepts.len(),
                self@ == g1,
                found == exists|k: int|
                    0 <= k < j && spec_ce_seq(self.nodes[idx as int].concepts@)[k] == concept@,
        {
            proof {
                lemma_spec_ce_seq(self.nodes[idx as int].concepts@);
            }
            if ce_eq(&self.nodes[idx].concepts[j], &concept) {
                proof {
                    assert(spec_ce_seq(self.nodes[idx as int].concepts@)[j as int] == concept@);
                }
                found = true;
            }
        }
        proof {
            lemma_spec_ce_seq(self.nodes[idx as int].concepts@);
            assert(found == g1.nodes[idx as int].concepts.contains(concept@));
        }
        if found {
            false
        } else {
            let ghost oldc = self.nodes[idx as int].concepts@;
            let node = &mut self.nodes[idx];
            node.concepts.push(concept);
            proof {
                lemma_spec_ce_seq(self.nodes[idx as int].concepts@);
                lemma_spec_ce_seq(oldc);
                assert(spec_ce_seq(self.nodes[idx as int].concepts@) =~= spec_ce_seq(oldc).push(
                    concept@,
                ));
                assert(final(self)@ =~~= spec_add_concept(old(self)@, individual@, concept@).0);
            }
            true
        }
    }

    /// Ensures the edge `(role, target)` leaves the node for `source`, and
    /// that the target has a node; returns whether the edge set grew.
    pub fn add_role(
        &mut self,
        source: &Individual,
        role: ObjectPropertyExpression,
        target: Individual,
    ) -> (r: bool)
        ensures
            (final(self)@, r) == spec_add_role(old(self)@, source@, role@, target@),
    {
        proof {
            lemma_spec_goc(old(self)@, source@);
        }
        let idx = self.get_or_create_node(source);
        let ghost g1 = self@;
        let mut found = false;
        let n = self.nodes[idx].roles.len();
        for j in 0..n
            invariant
                idx < self.nodes.len(),
                n == self.nodes[idx as int].roles.len(),
                self@ == g1,
                found == exists|k: int|
                    0 <= k < j && spec_role_seq(self.nodes[idx as int].roles@)[k] == (
                        role@,
                        target@,
                    ),
        {
            let (p, t) = &self.nodes[idx].roles[j];
            if ope_eq(p, &role) && individual_eq(t, &target) {
                proof {
                    assert(spec_role_seq(self.nodes[idx as int].roles@)[j as int] == (
                        role@,
                        target@,
                    ));
                }
                found = true;
            }
        }
        proof {
            assert(found == g1.nodes[idx as int].roles.contains((role@, target@)));
        }
        if found {
            self.get_or_create_node(&target);
            false
        } else {
            let ghost oldr = self.nodes[idx as int].roles@;
            let ghost rv = role@;
            let ghost tv = target@;
            let node = &mut self.nodes[idx];
            node.roles.push((role, target.clone()));
            proof {
                assert(spec_role_seq(self.nodes[idx as int].roles@) =~= spec_role_seq(oldr).push(
                    (rv, tv),
                ));
                assert(self@ =~~= (SpecGraph {
                    nodes: g1.nodes.update(
                        idx as int,
                        SpecNode {
                            roles: g1.nodes[idx as int].roles.push((rv, tv)),
                            ..g1.nodes[idx as int]
                        },
                    ),
                    ..g1
                }));
            }
            self.get_or_create_node(&target);
            true
        }
    }

    /// Mints a fresh anonymous individual with a strictly increasing number.
    pub fn fresh_individual(&mut self) -> (r: Individual)
        requires
            old(self).next_fresh_id < u32::MAX,
        ensures
            final(self)@.nodes == old(self)@.nodes,
            final(self).next_fresh_id == old(self).next_fresh_id + 1,
            r@ == SpecIndividual::Anonymous(spec_fresh_name((old(self).next_fresh_id + 1) as u32)),
    {
        self.next_fresh_id = self.next_fresh_id + 1;
        let mut name = String::from_str("_:fresh");
        let digits = u32_decimal(self.next_fresh_id);
        name.append(digits.as_str());
        Individual::Anonymous(NodeID(name))
    }
}


/// The complement of a class expression: strips a top-level complement,
/// otherwise wraps one around the expression.
pub open spec fn spec_complement(c: SpecClassExpr) -> SpecClassExpr {
    match c {
        SpecClassExpr::ObjectComplementOf(e) => *e,
        _ => SpecClassExpr::ObjectComplementOf(Box::new(c)),
    }
}

/// Returns the complement of a class expression, following
/// [`spec_complement`].
pub fn complement_of(c: &ClassExpression) -> (r: ClassExpression)
    ensures
        r@ == spec_complement(c@),
{
    match c {
        ClassExpression::ObjectComplementOf(e) => clone_ce(&*e),
        _ => ClassExpression::ObjectComplementOf(Box::new(clone_ce(c))),
    }
}

/// The inclusion `sub` under `sup`, written as the disjunction of the
/// complement of `sub` with `sup`.
pub open spec fn spec_inclusion(sub: SpecClassExpr, sup: SpecClassExpr) -> SpecClassExpr {
    SpecClassExpr::ObjectUnionOf(
        seq![SpecClassExpr::ObjectComplementOf(Box::new(sub)), sup],
    )
}

/// Builds an inclusion disjunction, following [`spec_inclusion`].
pub fn inclusion_of(sub: &ClassExpression, sup: &ClassExpression) -> (r: ClassExpression)
    ensures
        r@ == spec_inclusion(sub@, sup@),
{
    let ds = vec![
        ClassExpression::ObjectComplementOf(Box::new(clone_ce(sub))),
        clone_ce(sup),
    ];
    proof {
        lemma_spec_ce_seq(ds@);
        assert(spec_ce_seq(ds@) =~= seq![
            SpecClassExpr::ObjectComplementOf(Box::new(sub@)),
            sup@,
        ]);
    }
    ClassExpression::ObjectUnionOf(ds)
}

/// The mutual inclusions of a list of equivalent classes, expressed as a
/// cycle of inclusions from index `i` on: each class is included in the
/// next, and the last in the first.
pub open spec fn spec_equiv_cycle(cs: Seq<SpecClassExpr>, i: int) -> Seq<SpecClassExpr>
    decreases cs.len() - i,
{
    if cs.len() < 2 || i < 0 || i >= cs.len() {
        Seq::empty()
    } else {
        seq![
            spec_inclusion(cs[i], cs[if i + 1 == cs.len() { 0int } else { i + 1 }]),
        ] + spec_equiv_cycle(cs, i + 1)
    }
}

/// The internalized inclusions incsuted by one axiom: one disjunction
/// for a subclass axiom, a cycle of disjunctions for equivalent classes,
/// and nothing otherwise.
pub open spec fn spec_omega_of_axiom(a: SpecAxiom) -> Seq<SpecClassExpr> {
    match a {
        SpecAxiom::Class(SpecClassAxiom::SubClassOf { sub_class, super_class }) => seq![
            spec_inclusion(sub_class, super_class),
        ],
        SpecAxiom::Class(SpecClassAxiom::EquivalentClasses { classes }) => spec_equiv_cycle(
            classes,
            0,
        ),
        _ => Seq::empty(),
    }
}

/// The internalized inclusions of a whole axiom sequence, in order.
pub open spec fn spec_omega(axs: Seq<SpecAxiom>) -> Seq<SpecClassExpr>
    decreases axs,
{
    if axs.len() == 0 {
        Seq::empty()
    } else {
        spec_omega(axs.drop_last()) + spec_omega_of_axiom(axs.last())
    }
}

/// Appends copies of the elements of `src` to `out`.
pub fn extend_ce_vec(out: &mut Vec<ClassExpression>, src: &Vec<ClassExpression>)
    ensures
        spec_ce_seq(final(out)@) == spec_ce_seq(old(out)@) + spec_ce_seq(src@),
{
    let ghost base = out@;
    for i in 0..src.len()
        invariant
            out@.len() == base.len() + i,
            forall|j: int| 0 <= j < base.len() ==> out@[j]@ == base[j]@,
            forall|j: int| 0 <= j < i ==> out@[base.len() + j]@ == src@[j]@,
    {
        out.push(clone_ce(&src[i]));
    }
    proof {
        lemma_spec_ce_seq(final(out)@);
        lemma_spec_ce_seq(base);
        lemma_spec_ce_seq(src@);
        assert(spec_ce_seq(final(out)@) =~= spec_ce_seq(base) + spec_ce_seq(src@));
    }
}

/// The graph after ensuring nodes for every individual of a list.
pub open spec fn spec_goc_all(g: SpecGraph, inds: Seq<SpecIndividual>, k: int) -> SpecGraph
    decreases inds.len() - k,
{
    if k < 0 || k >= inds.len() {
        g
    } else {
        spec_goc_all(spec_goc(g, inds[k]).0, inds, k + 1)
    }
}

/// The graph after seeding one axiom: assertions put their individuals,
/// concepts, and edges into the graph; other axioms leave it unchanged.
pub open spec fn spec_seed_axiom(g: SpecGraph, a: SpecAxiom) -> SpecGraph {
    match a {
        SpecAxiom::Assertion(asr) => match asr {
            SpecAssertion::ClassAssertion { class, individual } => spec_add_concept(
                g,
                individual,
                class,
            ).0,
            SpecAssertion::ObjectPropertyAssertion { property, source, target } => spec_add_role(
                g,
                source,
                property,
                target,
            ).0,
            SpecAssertion::DataPropertyAssertion { property, source, target } => spec_goc(
                g,
                source,
            ).0,
            SpecAssertion::SameIndividual { individuals } => spec_goc_all(g, individuals, 0),
            SpecAssertion::DifferentIndividuals { individuals } => spec_goc_all(g, individuals, 0),
            SpecAssertion::NegativeObjectPropertyAssertion { property, source, target } => spec_goc(
                spec_goc(g, source).0,
                target,
            ).0,
            SpecAssertion::NegativeDataPropertyAssertion { property, source, target } => spec_goc(
                g,
                source,
            ).0,
            SpecAssertion::HasKey { class, object_property_expression, data_property } => g,
        },
        _ => g,
    }
}

/// The graph after seeding every axiom, in order.
pub open spec fn spec_seed(g: SpecGraph, axs: Seq<SpecAxiom>) -> SpecGraph
    decreases axs,
{
    if axs.len() == 0 {
        g
    } else {
        spec_seed_axiom(spec_seed(g, axs.drop_last()), axs.last())
    }
}

/// The graph after adding every concept of a list to `ind`'s node.
pub open spec fn spec_add_concepts(g: SpecGraph, ind: SpecIndividual, cs: Seq<SpecClassExpr>) -> SpecGraph
    decreases cs,
{
    if cs.len() == 0 {
        g
    } else {
        spec_add_concept(spec_add_concepts(g, ind, cs.drop_last()), ind, cs.last()).0
    }
}

/// The graph after adding the internalized inclusions to the first `n`
/// nodes, starting at index `i`.
pub open spec fn spec_omega_nodes(g: SpecGraph, om: Seq<SpecClassExpr>, i: int, n: int) -> SpecGraph
    decreases n - i,
{
    if i < 0 || i >= n || i >= g.nodes.len() {
        g
    } else {
        spec_omega_nodes(spec_add_concepts(g, g.nodes[i].individual, om), om, i + 1, n)
    }
}

/// The graph after full initialization from an ontology: assertions seeded,
/// then the internalized inclusions added to every node.
pub open spec fn spec_initialize(g: SpecGraph, o: SpecOntology) -> SpecGraph {
    let g1 = spec_seed(g, o.axioms);
    spec_omega_nodes(g1, spec_omega(o.axioms), 0, g1.nodes.len() as int)
}

/// The main tableau reasoner: an ontology and the completion graph the
/// expansion works on.
#[derive(Debug)]
pub struct TableauReasoner {
    /// The ontology reasoned about; never changed by the services.
    pub ontology: Ontology,
    /// The completion graph.
    pub graph: CompletionGraph,
}

impl TableauReasoner {
    /// Creates a reasoner with an empty completion graph.
    pub fn new(ontology: Ontology) -> (r: Self)
        ensures
            r.ontology@ == ontology@,
            r.graph@ == spec_empty_graph(),
    {
        TableauReasoner { ontology, graph: CompletionGraph::new() }
    }

    /// Collects the internalized class inclusions of the ontology.
    pub fn internalized_tbox(&self) -> (r: Vec<ClassExpression>)
        ensures
            spec_ce_seq(r@) == spec_omega(self.ontology@.axioms),
    {
        let mut out: Vec<ClassExpression> = Vec::new();
        let ghost axs = self.ontology@.axioms;
        proof {
            assert(spec_ce_seq(out@) =~= spec_omega(axs.subrange(0, 0)));
        }
        for i in 0..self.ontology.axioms.len()
            invariant
                axs == self.ontology@.axioms,
                axs.len() == self.ontology.axioms@.len(),
                spec_ce_seq(out@) == spec_omega(axs.subrange(0, i as int)),
        {
            let ghost prev = spec_ce_seq(out@);
            match &self.ontology.axioms[i] {
                Axiom::Class(ClassAxiom::SubClassOf { sub_class, super_class }) => {
                    let inc = inclusion_of(sub_class, super_class);
                    let incs = vec![inc];
                    proof {
                        lemma_spec_ce_seq(incs@);
                        assert(spec_ce_seq(incs@) =~= spec_omega_of_axiom(axs[i as int]));
                    }
                    extend_ce_vec(&mut out, &incs);
                },
                Axiom::Class(ClassAxiom::EquivalentClasses { classes }) => {
                    let mut incs: Vec<ClassExpression> = Vec::new();
                    let ghost cvs = spec_ce_seq(classes@);
                    proof {
                        lemma_spec_ce_seq(classes@);
                    }
                    if classes.len() >= 2 {
                        for k in 0..classes.len()
                            invariant
                                cvs == spec_ce_seq(classes@),
                                cvs.len() == classes@.len(),
                                classes@.len() >= 2,
                                spec_ce_seq(incs@) + spec_equiv_cycle(cvs, k as int)
                                    == spec_equiv_cycle(cvs, 0),
                        {
                            proof {
                                lemma_spec_ce_seq(classes@);
                            }
                            let nk = if k + 1 == classes.len() {
                                0
                            } else {
                                k + 1
                            };
                            let ghost before = spec_ce_seq(incs@);
                            let ghost oldincs = incs@;
                            let inc = inclusion_of(&classes[k], &classes[nk]);
                            incs.push(inc);
                            proof {
                                lemma_spec_ce_seq(incs@);
                                lemma_spec_ce_seq(oldincs);
                                assert(spec_ce_seq(incs@) =~= before.push(
                                    spec_inclusion(cvs[k as int], cvs[if k as int + 1
                                        == cvs.len() {
                                        0int
                                    } else {
                                        k as int + 1
                                    }]),
                                ));
                                assert(spec_ce_seq(incs@) + spec_equiv_cycle(cvs, k as int + 1)
                                    =~= before + spec_equiv_cycle(cvs, k as int));
                            }
                        }
                    }
                    proof {
                        assert(spec_ce_seq(incs@) =~= spec_ce_seq(incs@) + spec_equiv_cycle(
                            cvs,
                            classes@.len() as int,
                        ));
                        assert(spec_ce_seq(incs@) =~= spec_omega_of_axiom(axs[i as int]));
                    }
                    extend_ce_vec(&mut out, &incs);
                },
                _ => {
                    proof {
                        assert(spec_omega_of_axiom(axs[i as int]) =~= Seq::<SpecClassExpr>::empty());
                        assert(prev + spec_omega_of_axiom(axs[i as int]) =~= prev);
                    }
                },
            }
            proof {
                assert(axs.subrange(0, i as int + 1).drop_last() =~= axs.subrange(0, i as int));
                assert(axs.subrange(0, i as int + 1).last() == axs[i as int]);
                assert(spec_omega(axs.subrange(0, i as int + 1)) == spec_omega(
                    axs.subrange(0, i as int),
                ) + spec_omega_of_axiom(axs[i as int]));
            }
        }
        proof {
            assert(axs.subrange(0, axs.len() as int) =~= axs);
        }
        out
    }
}


/// Adding a concept never removes nodes.
pub proof fn lemma_add_concept_len(g: SpecGraph, ind: SpecIndividual, c: SpecClassExpr)
    ensures
        spec_add_concept(g, ind, c).0.nodes.len() >= g.nodes.len(),
{
    lemma_spec_goc(g, ind);
}

impl TableauReasoner {
    /// Seeds the completion graph from the ontology's assertions and then
    /// adds the internalized class inclusions to every node.
    pub fn initialize(&mut self)
        ensures
            final(self).ontology@ == old(self).ontology@,
            final(self).graph@ == spec_initialize(old(self).graph@, old(self).ontology@),
    {
        let ghost g0 = self.graph@;
        let ghost axs = self.ontology@.axioms;
        proof {
            assert(axs.subrange(0, 0).len() == 0);
        }
        let mut i: usize = 0;
        while i < self.ontology.axioms.len()
            invariant
                self.ontology@ == old(self).ontology@,
                axs == self.ontology@.axioms,
                axs.len() == self.ontology.axioms@.len(),
                i <= axs.len(),
                self.graph@ == spec_seed(g0, axs.subrange(0, i as int)),
            decreases axs.len() - i,
        {
            let ghost gprev = self.graph@;
            match &self.ontology.axioms[i] {
                Axiom::Assertion(a) => match a {
                    Assertion::ClassAssertion { class, individual } => {
                        let c = clone_ce(class);
                        let ind = individual.clone();
                        self.graph.add_concept(&ind, c);
                    },
                    Assertion::ObjectPropertyAssertion { property, source, target } => {
                        let p = clone_ope(property);
                        let src = source.clone();
                        let tgt = target.clone();
                        self.graph.add_role(&src, p, tgt);
                    },
                    Assertion::DataPropertyAssertion { property: _, source, target: _ } => {
                        let src = source.clone();
                        self.graph.get_or_create_node(&src);
                    },
                    Assertion::SameIndividual { individuals } => {
                        let ghost indsv = spec_individual_seq(individuals@);
                        for k in 0..individuals.len()
                            invariant
                                self.ontology@ == old(self).ontology@,
                                indsv == spec_individual_seq(individuals@),
                                indsv.len() == individuals@.len(),
                                spec_goc_all(gprev, indsv, 0) == spec_goc_all(
                                    self.graph@,
                                    indsv,
                                    k as int,
                                ),
                        {
                            let ind = individuals[k].clone();
                            self.graph.get_or_create_node(&ind);
                        }
                    },
                    Assertion::DifferentIndividuals { individuals } => {
                        let ghost indsv = spec_individual_seq(individuals@);
                        for k in 0..individuals.len()
                            invariant
                                self.ontology@ == old(self).ontology@,
                                indsv == spec_individual_seq(individuals@),
                                indsv.len() == individuals@.len(),
                                spec_goc_all(gprev, indsv, 0) == spec_goc_all(
                                    self.graph@,
                                    indsv,
                                    k as int,
                                ),
                        {
                            let ind = individuals[k].clone();
                            self.graph.get_or_create_node(&ind);
                        }
                    },
                    Assertion::NegativeObjectPropertyAssertion {
                        property: _,
                        source,
                        target,
                    } => {
                        let src = source.clone();
                        let tgt = target.clone();
                        self.graph.get_or_create_node(&src);
                        self.graph.get_or_create_node(&tgt);
                    },
                    Assertion::NegativeDataPropertyAssertion {
                        property: _,
                        source,
                        target: _,
                    } => {
                        let src = source.clone();
                        self.graph.get_or_create_node(&src);
                    },
                    Assertion::HasKey {
                        class: _,
                        object_property_expression: _,
                        data_property: _,
                    } => {},
                },
                _ => {},
            }
            proof {
                assert(self.graph@ == spec_seed_axiom(gprev, axs[i as int]));
                assert(axs.subrange(0, i as int + 1).drop_last() =~= axs.subrange(0, i as int));
                assert(axs.subrange(0, i as int + 1).last() == axs[i as int]);
            }
            i = i + 1;
        }
        proof {
            assert(axs.subrange(0, axs.len() as int) =~= axs);
        }
        let om = self.internalized_tbox();
        let ghost omv = spec_ce_seq(om@);
        proof {
            lemma_spec_ce_seq(om@);
        }
        let ghost gseed = self.graph@;
        let n = self.graph.nodes.len();
        for i in 0..n
            invariant
                self.ontology@ == old(self).ontology@,
                omv == spec_ce_seq(om@),
                omv.len() == om@.len(),
                n <= self.graph.nodes.len(),
                n == gseed.nodes.len(),
                spec_omega_nodes(gseed, omv, 0, n as int) == spec_omega_nodes(
                    self.graph@,
                    omv,
                    i as int,
                    n as int,
                ),
        {
            let ind = self.graph.nodes[i].individual.clone();
            let ghost ginner = self.graph@;
            proof {
                assert(ginner.nodes[i as int].individual == ind@);
                assert(omv.subrange(0, 0).len() == 0);
            }
            for k in 0..om.len()
                invariant
                    self.ontology@ == old(self).ontology@,
                    omv == spec_ce_seq(om@),
                    omv.len() == om@.len(),
                    n <= self.graph.nodes.len(),
                    self.graph@ == spec_add_concepts(ginner, ind@, omv.subrange(0, k as int)),
            {
                proof {
                    lemma_spec_ce_seq(om@);
                }
                let ghost gstep = self.graph@;
                self.graph.add_concept(&ind, clone_ce(&om[k]));
                proof {
                    lemma_add_concept_len(gstep, ind@, omv[k as int]);
                    assert(omv.subrange(0, k as int + 1).drop_last() =~= omv.subrange(
                        0,
                        k as int,
                    ));
                    assert(omv.subrange(0, k as int + 1).last() == omv[k as int]);
                }
            }
            proof {
                assert(omv.subrange(0, omv.len() as int) =~= omv);
                assert(self.graph@ == spec_add_concepts(ginner, ind@, omv));
            }
        }
        proof {
            assert(final(self).graph@ == spec_initialize(old(self).graph@, old(self).ontology@));
        }
    }
}



/// A class expression and its value take the same top constructor for the
/// boolean cases the expansion rules branch on.
pub proof fn lemma_ce_view_variant(c: ClassExpression)
    ensures
        (c@ is ObjectIntersectionOf) <==> (c is ObjectIntersectionOf),
        (c@ is ObjectUnionOf) <==> (c is ObjectUnionOf),
        (c@ is ObjectSomeValuesFrom) <==> (c is ObjectSomeValuesFrom),
{
    match c {
        ClassExpression::Class(_) => {},
        ClassExpression::ObjectIntersectionOf(_) => {},
        ClassExpression::ObjectUnionOf(_) => {},
        ClassExpression::ObjectComplementOf(_) => {},
        ClassExpression::ObjectOneOf(_) => {},
        ClassExpression::ObjectSomeValuesFrom { property: _, filler: _ } => {},
        ClassExpression::ObjectAllValuesFrom { property: _, filler: _ } => {},
        ClassExpression::ObjectHasValue { property: _, value: _ } => {},
        ClassExpression::ObjectHasSelf(_) => {},
        ClassExpression::ObjectMinCardinality { min: _, property: _, filler: _ } => {},
        ClassExpression::ObjectMaxCardinality { max: _, property: _, filler: _ } => {},
        ClassExpression::ObjectExactCardinality { cardinality: _, property: _, filler: _ } => {},
    }
}

/// Returns a copy of a vector of nodes with the same values.
pub fn clone_node_vec(v: &Vec<Node>) -> (r: Vec<Node>)
    ensures
        r@.map_values(|n: Node| n@) =~= v@.map_values(|n: Node| n@),
        r@.len() == v@.len(),
{
    let mut out: Vec<Node> = Vec::new();
    for i in 0..v.len()
        invariant
            out@.len() == i,
            forall|j: int| 0 <= j < i ==> out@[j]@ == v@[j]@,
    {
        out.push(v[i].clone());
    }
    out
}

/// Returns whether a vector of class expressions holds a given value.
pub fn ce_vec_contains(v: &Vec<ClassExpression>, c: &ClassExpression) -> (r: bool)
    ensures
        r == spec_ce_seq(v@).contains(c@),
{
    proof {
        lemma_spec_ce_seq(v@);
    }
    for j in 0..v.len()
        invariant
            forall|k: int| 0 <= k < j ==> v@[k]@ != c@,
    {
        proof {
            lemma_spec_ce_seq(v@);
        }
        if ce_eq(&v[j], c) {
            assert(spec_ce_seq(v@)[j as int] == c@);
            return true;
        }
    }
    proof {
        lemma_spec_ce_seq(v@);
        if spec_ce_seq(v@).contains(c@) {
            let k = choose|k: int| 0 <= k < spec_ce_seq(v@).len() && spec_ce_seq(v@)[k] == c@;
            assert(v@[k]@ == c@);
        }
    }
    false
}

/// The graph after adding a list of concepts to `ind`'s node, and whether
/// any concept set grew.
pub open spec fn spec_add_concepts_flag(
    g: SpecGraph,
    ind: SpecIndividual,
    cs: Seq<SpecClassExpr>,
) -> (SpecGraph, bool)
    decreases cs,
{
    if cs.len() == 0 {
        (g, false)
    } else {
        let (g1, f1) = spec_add_concepts_flag(g, ind, cs.drop_last());
        let (g2, f2) = spec_add_concept(g1, ind, cs.last());
        (g2, f1 || f2)
    }
}

/// One conjunction step for the concepts of one snapshot node, from `j` on:
/// every conjunct of an intersection is added to the node.
pub open spec fn spec_conj_concepts(
    snapc: Seq<SpecClassExpr>,
    ind: SpecIndividual,
    g: SpecGraph,
    j: int,
) -> (SpecGraph, bool)
    decreases snapc.len() - j,
{
    if j < 0 || j >= snapc.len() {
        (g, false)
    } else {
        let (g1, f1) = match snapc[j] {
            SpecClassExpr::ObjectIntersectionOf(cs) => spec_add_concepts_flag(g, ind, cs),
            _ => (g, false),
        };
        let (g2, f2) = spec_conj_concepts(snapc, ind, g1, j + 1);
        (g2, f1 || f2)
    }
}

/// One conjunction pass over a snapshot of the nodes, from `i` on.
pub open spec fn spec_conj_nodes(snap: Seq<SpecNode>, g: SpecGraph, i: int) -> (SpecGraph, bool)
    decreases snap.len() - i,
{
    if i < 0 || i >= snap.len() {
        (g, false)
    } else {
        let (g1, f1) = spec_conj_concepts(snap[i].concepts, snap[i].individual, g, 0);
        let (g2, f2) = spec_conj_nodes(snap, g1, i + 1);
        (g2, f1 || f2)
    }
}

/// One full conjunction pass.
pub open spec fn spec_conj(g: SpecGraph) -> (SpecGraph, bool) {
    spec_conj_nodes(g.nodes, g, 0)
}

/// Conjunction passes repeated until one changes nothing, with at most
/// `fuel` passes; the flag says whether anything was ever added.
pub open spec fn spec_conj_fix(g: SpecGraph, fuel: int) -> (SpecGraph, bool) {
    let (g1, ch) = spec_conj(g);
    if !ch {
        (g1, false)
    } else {
        (spec_conj_more(g1, fuel - 1), true)
    }
}

/// The graph after further conjunction passes until one changes nothing,
/// with at most `fuel` more passes.
pub open spec fn spec_conj_more(g: SpecGraph, fuel: int) -> SpecGraph
    decreases fuel,
{
    if fuel <= 0 {
        g
    } else {
        let (g1, ch) = spec_conj(g);
        if !ch {
            g1
        } else {
            spec_conj_more(g1, fuel - 1)
        }
    }
}

/// Whether some disjunct is already in the label.
pub open spec fn spec_label_has(label: Seq<SpecClassExpr>, ds: Seq<SpecClassExpr>) -> bool {
    exists|k: int| 0 <= k < ds.len() && label.contains(ds[k])
}

/// The first disjunct whose complement is not in the label, if any.
pub open spec fn spec_pick(label: Seq<SpecClassExpr>, ds: Seq<SpecClassExpr>, k: int) -> Option<
    int,
>
    decreases ds.len() - k,
{
    if k < 0 || k >= ds.len() {
        None
    } else if !label.contains(spec_complement(ds[k])) {
        Some(k)
    } else {
        spec_pick(label, ds, k + 1)
    }
}

/// How many disjuncts from `k` on are not yet refuted by the label.
pub open spec fn spec_open_count(label: Seq<SpecClassExpr>, ds: Seq<SpecClassExpr>, k: int) -> int
    decreases ds.len() - k,
{
    if k < 0 || k >= ds.len() {
        0
    } else {
        (if !label.contains(spec_complement(ds[k])) {
            1int
        } else {
            0int
        }) + spec_open_count(label, ds, k + 1)
    }
}

/// A positive open count means some disjunct is picked, and conversely.
pub proof fn lemma_pick_open_count(label: Seq<SpecClassExpr>, ds: Seq<SpecClassExpr>, k: int)
    ensures
        (spec_open_count(label, ds, k) > 0) <==> (spec_pick(label, ds, k) is Some),
        spec_open_count(label, ds, k) >= 0,
    decreases ds.len() - k,
{
    if 0 <= k < ds.len() {
        lemma_pick_open_count(label, ds, k + 1);
    }
}

/// One disjunction step for a union concept at `ind`'s node.  A disjunct
/// that is already present satisfies the union.  Otherwise, when every
/// disjunct is refuted the first one is added, which surfaces the clash;
/// when exactly one is open it is forced and added.  A union with several
/// open disjuncts is left alone in unit mode and resolved to its first open
/// disjunct in guessing mode.
pub open spec fn spec_disj_concept(
    g: SpecGraph,
    ind: SpecIndividual,
    ds: Seq<SpecClassExpr>,
    unit_only: bool,
) -> (SpecGraph, bool) {
    let (g1, idx) = spec_goc(g, ind);
    let label = g1.nodes[idx].concepts;
    if ds.len() == 0 {
        (g1, false)
    } else if spec_label_has(label, ds) {
        (g1, false)
    } else {
        let n = spec_open_count(label, ds, 0);
        if n == 0 {
            spec_add_concept(g1, ind, ds[0])
        } else if n == 1 || !unit_only {
            match spec_pick(label, ds, 0) {
                Some(k) => spec_add_concept(g1, ind, ds[k]),
                None => spec_add_concept(g1, ind, ds[0]),
            }
        } else {
            (g1, false)
        }
    }
}

/// One disjunction step for the concepts of one snapshot node, from `j` on.
pub open spec fn spec_disj_concepts(
    snapc: Seq<SpecClassExpr>,
    ind: SpecIndividual,
    g: SpecGraph,
    j: int,
    unit_only: bool,
) -> (SpecGraph, bool)
    decreases snapc.len() - j,
{
    if j < 0 || j >= snapc.len() {
        (g, false)
    } else {
        let (g1, f1) = match snapc[j] {
            SpecClassExpr::ObjectUnionOf(ds) => spec_disj_concept(g, ind, ds, unit_only),
            _ => (g, false),
        };
        let (g2, f2) = spec_disj_concepts(snapc, ind, g1, j + 1, unit_only);
        (g2, f1 || f2)
    }
}

/// One disjunction pass over a snapshot of the nodes, from `i` on.
pub open spec fn spec_disj_nodes(
    snap: Seq<SpecNode>,
    g: SpecGraph,
    i: int,
    unit_only: bool,
) -> (SpecGraph, bool)
    decreases snap.len() - i,
{
    if i < 0 || i >= snap.len() {
        (g, false)
    } else {
        let (g1, f1) = spec_disj_concepts(snap[i].concepts, snap[i].individual, g, 0, unit_only);
        let (g2, f2) = spec_disj_nodes(snap, g1, i + 1, unit_only);
        (g2, f1 || f2)
    }
}

/// One full disjunction pass: all forced resolutions are applied; only when
/// none exists is one round of guessing applied, so that a guess is never
/// taken while propagation can still decide something.
pub open spec fn spec_disj(g: SpecGraph) -> (SpecGraph, bool) {
    let (g1, forced) = spec_disj_nodes(g.nodes, g, 0, true);
    if forced {
        (g1, true)
    } else {
        spec_disj_nodes(g1.nodes, g1, 0, false)
    }
}

impl TableauReasoner {
    /// Applies the conjunction rule to a fixed point: afterwards, for every
    /// intersection in a node's label, every conjunct is in that label too.
    /// Returns whether any label grew.
    pub fn apply_conjunction_rule(&mut self) -> (r: bool)
        ensures
            final(self).ontology@ == old(self).ontology@,
            (final(self).graph@, r) == spec_conj_fix(
                old(self).graph@,
                MAX_EXPANSION_ROUNDS as int,
            ),
    {
        let first = self.conj_pass();
        if !first {
            return false;
        }
        let ghost g1 = self.graph@;
        let mut rounds: usize = 1;
        let mut done = false;
        while !done && rounds < MAX_EXPANSION_ROUNDS
            invariant
                self.ontology@ == old(self).ontology@,
                1 <= rounds <= MAX_EXPANSION_ROUNDS,
                !done ==> spec_conj_fix(old(self).graph@, MAX_EXPANSION_ROUNDS as int) == (
                spec_conj_more(self.graph@, MAX_EXPANSION_ROUNDS - rounds),
                true,
                ),
                done ==> spec_conj_fix(old(self).graph@, MAX_EXPANSION_ROUNDS as int) == (
                self.graph@,
                true,
                ),
            decreases MAX_EXPANSION_ROUNDS - rounds,
        {
            let ghost gcur = self.graph@;
            let ch = self.conj_pass();
            proof {
                assert(spec_conj(gcur) == (self.graph@, ch));
            }
            rounds = rounds + 1;
            if !ch {
                done = true;
            }
        }
        true
    }

    /// Applies one conjunction pass: for every intersection in a node's
    /// snapshot label, every conjunct is added to that node.  Returns
    /// whether any label grew.
    fn conj_pass(&mut self) -> (r: bool)
        ensures
            final(self).ontology@ == old(self).ontology@,
            (final(self).graph@, r) == spec_conj(old(self).graph@),
    {
        let snap = clone_node_vec(&self.graph.nodes);
        let ghost snapv = old(self).graph@.nodes;
        let ghost g0 = self.graph@;
        proof {
            assert(snap@.map_values(|n: Node| n@) =~= snapv);
        }
        let mut changed = false;
        let mut i: usize = 0;
        while i < snap.len()
            invariant
                self.ontology@ == old(self).ontology@,
                snap@.map_values(|n: Node| n@) == snapv,
                snap@.len() == snapv.len(),
                spec_conj_nodes(snapv, g0, 0) == ({
                    let (gf, cf) = spec_conj_nodes(snapv, self.graph@, i as int);
                    (gf, changed || cf)
                }),
            decreases snap.len() - i,
        {
            let ghost gnode = self.graph@;
            let mut node_changed = false;
            let node_concepts_len = snap[i].concepts.len();
            let mut j: usize = 0;
            while j < node_concepts_len
                invariant
                    self.ontology@ == old(self).ontology@,
                    snap@.map_values(|n: Node| n@) == snapv,
                    snap@.len() == snapv.len(),
                    i < snap@.len(),
                    node_concepts_len == snap@[i as int].concepts@.len(),
                    snapv[i as int] == snap@[i as int]@,
                    spec_conj_concepts(
                        snapv[i as int].concepts,
                        snapv[i as int].individual,
                        gnode,
                        0,
                    ) == ({
                        let (gf, cf) = spec_conj_concepts(
                            snapv[i as int].concepts,
                            snapv[i as int].individual,
                            self.graph@,
                            j as int,
                        );
                        (gf, node_changed || cf)
                    }),
                decreases node_concepts_len - j,
            {
                proof {
                    lemma_spec_ce_seq(snap@[i as int].concepts@);
                    lemma_ce_view_variant(snap@[i as int].concepts@[j as int]);
                }
                if let ClassExpression::ObjectIntersectionOf(cs) = &snap[i].concepts[j] {
                    let ghost csv = spec_ce_seq(cs@);
                    let ghost gcs = self.graph@;
                    let mut cs_changed = false;
                    let ind = snap[i].individual.clone();
                    proof {
                        lemma_spec_ce_seq(cs@);
                        assert(csv.subrange(0, 0).len() == 0);
                        assert(snapv[i as int].concepts[j as int]
                            == SpecClassExpr::ObjectIntersectionOf(csv));
                    }
                    let mut k: usize = 0;
                    while k < cs.len()
                        invariant
                            self.ontology@ == old(self).ontology@,
                            csv == spec_ce_seq(cs@),
                            csv.len() == cs@.len(),
                            k <= cs@.len(),
                            ind@ == snapv[i as int].individual,
                            ({
                                let (gf, cf) = spec_add_concepts_flag(
                                    gcs,
                                    ind@,
                                    csv.subrange(0, k as int),
                                );
                                gf == self.graph@ && cf == cs_changed
                            }),
                        decreases cs.len() - k,
                    {
                        proof {
                            lemma_spec_ce_seq(cs@);
                        }
                        let grew = self.graph.add_concept(&ind, clone_ce(&cs[k]));
                        cs_changed = cs_changed || grew;
                        proof {
                            assert(csv.subrange(0, k as int + 1).drop_last() =~= csv.subrange(
                                0,
                                k as int,
                            ));
                            assert(csv.subrange(0, k as int + 1).last() == csv[k as int]);
                        }
                        k = k + 1;
                    }
                    proof {
                        assert(csv.subrange(0, csv.len() as int) =~= csv);
                    }
                    node_changed = node_changed || cs_changed;
                }
                j = j + 1;
            }
            proof {
                lemma_spec_ce_seq(snap@[i as int].concepts@);
            }
            changed = changed || node_changed;
            i = i + 1;
        }
        changed
    }

    /// Applies one disjunction pass: for every union in a node's label with
    /// no disjunct present, the first disjunct whose complement is not in
    /// the label is added; when every disjunct is refuted the first one is
    /// added, which surfaces the clash.  Returns whether any label grew.
    /// Applies one disjunction pass, following [`spec_disj`]: first every
    /// forced resolution (a union with no open disjunct clashes on its first
    /// disjunct; one with a single open disjunct takes it), and only when
    /// nothing is forced one round of guessing that takes the first open
    /// disjunct of each unsatisfied union.  Returns whether any label grew.
    pub fn apply_disjunction_rule(&mut self) -> (r: bool)
        ensures
            final(self).ontology@ == old(self).ontology@,
            (final(self).graph@, r) == spec_disj(old(self).graph@),
    {
        let forced = self.disj_pass(true);
        if forced {
            return true;
        }
        self.disj_pass(false)
    }

    /// One disjunction pass in one mode, following [`spec_disj_nodes`].
    fn disj_pass(&mut self, unit_only: bool) -> (r: bool)
        ensures
            final(self).ontology@ == old(self).ontology@,
            (final(self).graph@, r) == spec_disj_nodes(
                old(self).graph@.nodes,
                old(self).graph@,
                0,
                unit_only,
            ),
    {
        let snap = clone_node_vec(&self.graph.nodes);
        let ghost snapv = old(self).graph@.nodes;
        let ghost g0 = self.graph@;
        proof {
            assert(snap@.map_values(|n: Node| n@) =~= snapv);
        }
        let mut changed = false;
        let mut i: usize = 0;
        while i < snap.len()
            invariant
                self.ontology@ == old(self).ontology@,
                snap@.map_values(|n: Node| n@) == snapv,
                snap@.len() == snapv.len(),
                spec_disj_nodes(snapv, g0, 0, unit_only) == ({
                    let (gf, cf) = spec_disj_nodes(snapv, self.graph@, i as int, unit_only);
                    (gf, changed || cf)
                }),
            decreases snap.len() - i,
        {
            let ghost gnode = self.graph@;
            let mut node_changed = false;
            let node_concepts_len = snap[i].concepts.len();
            let mut j: usize = 0;
            while j < node_concepts_len
                invariant
                    self.ontology@ == old(self).ontology@,
                    snap@.map_values(|n: Node| n@) == snapv,
                    snap@.len() == snapv.len(),
                    i < snap@.len(),
                    node_concepts_len == snap@[i as int].concepts@.len(),
                    snapv[i as int] == snap@[i as int]@,
                    spec_disj_concepts(
                        snapv[i as int].concepts,
                        snapv[i as int].individual,
                        gnode,
                        0,
                        unit_only,
                    ) == ({
                        let (gf, cf) = spec_disj_concepts(
                            snapv[i as int].concepts,
                            snapv[i as int].individual,
                            self.graph@,
                            j as int,
                            unit_only,
                        );
                        (gf, node_changed || cf)
                    }),
                decreases node_concepts_len - j,
            {
                proof {
                    lemma_spec_ce_seq(snap@[i as int].concepts@);
                    lemma_ce_view_variant(snap@[i as int].concepts@[j as int]);
                }
                if let ClassExpression::ObjectUnionOf(ds) = &snap[i].concepts[j] {
                    let ghost gj = self.graph@;
                    let mut stepped = false;
                    let ghost dsv = spec_ce_seq(ds@);
                    let ind = snap[i].individual.clone();
                    proof {
                        lemma_spec_ce_seq(ds@);
                        assert(snapv[i as int].concepts[j as int] == SpecClassExpr::ObjectUnionOf(
                            dsv,
                        ));
                    }
                    let idx = self.graph.get_or_create_node(&ind);
                    let ghost g1 = self.graph@;
                    if ds.len() > 0 {
                        let ghost label = g1.nodes[idx as int].concepts;
                        let mut present = false;
                        let mut k: usize = 0;
                        while k < ds.len()
                            invariant
                                self.ontology@ == old(self).ontology@,
                                dsv == spec_ce_seq(ds@),
                                dsv.len() == ds@.len(),
                                idx < self.graph.nodes.len(),
                                self.graph@ == g1,
                                label == g1.nodes[idx as int].concepts,
                                k <= ds@.len(),
                                present == exists|m: int| 0 <= m < k && label.contains(dsv[m]),
                            decreases ds.len() - k,
                        {
                            proof {
                                lemma_spec_ce_seq(ds@);
                            }
                            if ce_vec_contains(&self.graph.nodes[idx].concepts, &ds[k]) {
                                proof {
                                    assert(label.contains(dsv[k as int]));
                                }
                                present = true;
                            }
                            k = k + 1;
                        }
                        proof {
                            assert(present == spec_label_has(label, dsv));
                            assert(self.graph@ == g1);
                        }
                        if !present {
                            let mut pick: Option<usize> = Option::None;
                            let mut open_count: usize = 0;
                            let mut k2: usize = 0;
                            while k2 < ds.len()
                                invariant
                                    self.ontology@ == old(self).ontology@,
                                    dsv == spec_ce_seq(ds@),
                                    dsv.len() == ds@.len(),
                                    idx < self.graph.nodes.len(),
                                    self.graph@ == g1,
                                    label == g1.nodes[idx as int].concepts,
                                    k2 <= ds@.len(),
                                    open_count <= k2,
                                    spec_open_count(label, dsv, 0) == open_count
                                        + spec_open_count(label, dsv, k2 as int),
                                    match pick {
                                        Option::None => spec_pick(label, dsv, 0) == spec_pick(
                                            label,
                                            dsv,
                                            k2 as int,
                                        ),
                                        Option::Some(m) => spec_pick(label, dsv, 0) == Some(
                                            m as int,
                                        ) && m < ds.len(),
                                    },
                                decreases ds.len() - k2,
                            {
                                proof {
                                    lemma_spec_ce_seq(ds@);
                                }
                                let comp = complement_of(&ds[k2]);
                                if !ce_vec_contains(&self.graph.nodes[idx].concepts, &comp) {
                                    if matches!(pick, Option::None) {
                                        pick = Option::Some(k2);
                                    }
                                    open_count = open_count + 1;
                                }
                                k2 = k2 + 1;
                            }
                            proof {
                                lemma_pick_open_count(label, dsv, ds@.len() as int);
                                lemma_pick_open_count(label, dsv, 0);
                                assert(spec_open_count(label, dsv, 0) == open_count);
                            }
                            let ghost pickv = spec_pick(label, dsv, 0);
                            if open_count == 0 {
                                proof {
                                    lemma_spec_ce_seq(ds@);
                                }
                                let grew = self.graph.add_concept(&ind, clone_ce(&ds[0]));
                                stepped = grew;
                                proof {
                                    assert((self.graph@, stepped) == spec_add_concept(
                                        g1,
                                        ind@,
                                        dsv[0],
                                    ));
                                }
                            } else if open_count == 1 || !unit_only {
                                let chosen: usize = match pick {
                                    Option::Some(m) => m,
                                    Option::None => 0,
                                };
                                proof {
                                    lemma_spec_ce_seq(ds@);
                                    assert(pickv is Some);
                                    assert(pickv == Some(chosen as int));
                                }
                                let grew = self.graph.add_concept(&ind, clone_ce(&ds[chosen]));
                                stepped = grew;
                                proof {
                                    assert((self.graph@, stepped) == spec_add_concept(
                                        g1,
                                        ind@,
                                        dsv[chosen as int],
                                    ));
                                }
                            }
                        }
                    }
                    proof {
                        lemma_spec_ce_seq(ds@);
                        assert(spec_disj_concept(gj, ind@, dsv, unit_only) == (
                            self.graph@,
                            stepped,
                        ));
                    }
                    node_changed = node_changed || stepped;
                }
                j = j + 1;
            }
            proof {
                lemma_spec_ce_seq(snap@[i as int].concepts@);
            }
            changed = changed || node_changed;
            i = i + 1;
        }
        changed
    }
}



/// Returns a copy of a vector of role edges with the same values.
pub fn clone_role_vec(v: &Vec<(ObjectPropertyExpression, Individual)>) -> (r: Vec<
    (ObjectPropertyExpression, Individual),
>)
    ensures
        spec_role_seq(r@) =~= spec_role_seq(v@),
        r@.len() == v@.len(),
{
    let mut out: Vec<(ObjectPropertyExpression, Individual)> = Vec::new();
    for i in 0..v.len()
        invariant
            out@.len() == i,
            forall|j: int|
                0 <= j < i ==> out@[j].0@ == v@[j].0@ && out@[j].1@ == v@[j].1@,
    {
        let (p, t) = &v[i];
        out.push((clone_ope(p), t.clone()));
    }
    out
}

/// Returns a copy of a completion graph with the same value.
pub fn clone_graph(g: &CompletionGraph) -> (r: CompletionGraph)
    ensures
        r@ == g@,
{
    let r = CompletionGraph { nodes: clone_node_vec(&g.nodes), next_fresh_id: g.next_fresh_id };
    proof {
        assert(r@ =~~= g@);
    }
    r
}

/// Returns whether a union needs a choice: no disjunct is in the label and
/// at least two are open, following [`spec_union_unresolved`].
fn union_unresolved(label: &Vec<ClassExpression>, ds: &Vec<ClassExpression>) -> (r: bool)
    ensures
        r == spec_union_unresolved(spec_ce_seq(label@), spec_ce_seq(ds@)),
{
    let ghost lv = spec_ce_seq(label@);
    let ghost dsv = spec_ce_seq(ds@);
    proof {
        lemma_spec_ce_seq(label@);
        lemma_spec_ce_seq(ds@);
    }
    if ds.len() == 0 {
        return false;
    }
    let mut k: usize = 0;
    while k < ds.len()
        invariant
            lv == spec_ce_seq(label@),
            dsv == spec_ce_seq(ds@),
            dsv.len() == ds@.len(),
            k <= dsv.len(),
            forall|m: int| 0 <= m < k ==> !lv.contains(dsv[m]),
        decreases ds.len() - k,
    {
        proof {
            lemma_spec_ce_seq(ds@);
        }
        if ce_vec_contains(label, &ds[k]) {
            proof {
                assert(lv.contains(dsv[k as int]));
                assert(spec_label_has(lv, dsv));
            }
            return false;
        }
        k = k + 1;
    }
    proof {
        assert(!spec_label_has(lv, dsv));
    }
    let mut open_count: usize = 0;
    let mut k2: usize = 0;
    while k2 < ds.len()
        invariant
            lv == spec_ce_seq(label@),
            dsv == spec_ce_seq(ds@),
            dsv.len() == ds@.len(),
            k2 <= dsv.len(),
            open_count <= k2,
            spec_open_count(lv, dsv, 0) == open_count + spec_open_count(lv, dsv, k2 as int),
        decreases ds.len() - k2,
    {
        proof {
            lemma_spec_ce_seq(ds@);
        }
        let comp = complement_of(&ds[k2]);
        if !ce_vec_contains(label, &comp) {
            open_count = open_count + 1;
        }
        k2 = k2 + 1;
    }
    proof {
        lemma_pick_open_count(lv, dsv, ds@.len() as int);
        lemma_pick_open_count(lv, dsv, 0);
    }
    open_count >= 2
}

/// Whether every concept of `a` also occurs in `b`.
pub open spec fn spec_subset_label(a: Seq<SpecClassExpr>, b: Seq<SpecClassExpr>) -> bool {
    forall|x: SpecClassExpr| a.contains(x) ==> b.contains(x)
}

/// Whether the node at `idx` is blocked: it is anonymous and some earlier
/// node's label includes its whole label.
pub open spec fn spec_blocked(g: SpecGraph, idx: int) -> bool {
    &&& 0 <= idx < g.nodes.len()
    &&& g.nodes[idx].individual is Anonymous
    &&& exists|a: int|
        0 <= a < idx && spec_subset_label(g.nodes[idx].concepts, g.nodes[a].concepts)
}

/// Whether some role edge of the list is a `p`-edge whose target's node
/// already satisfies `e`.
pub open spec fn spec_witness_from(
    g: SpecGraph,
    roles: Seq<(SpecObjectPropertyExpr, SpecIndividual)>,
    p: SpecObjectPropertyExpr,
    e: SpecClassExpr,
    k: int,
) -> bool
    decreases roles.len() - k,
{
    if k < 0 || k >= roles.len() {
        false
    } else if roles[k].0 == p && (match spec_find_node(g.nodes, roles[k].1) {
        Some(t) => g.nodes[t].concepts.contains(e),
        None => false,
    }) {
        true
    } else {
        spec_witness_from(g, roles, p, e, k + 1)
    }
}

/// One existential step for `Some(p, e)` at `ind`'s node: nothing happens
/// when the node is blocked or already has a `p`-successor satisfying `e`;
/// otherwise a fresh anonymous node is minted, the edge is added, and the
/// filler and the internalized inclusions are put on the new node.
pub open spec fn spec_exist_concept(
    g: SpecGraph,
    om: Seq<SpecClassExpr>,
    ind: SpecIndividual,
    p: SpecObjectPropertyExpr,
    e: SpecClassExpr,
) -> (SpecGraph, bool) {
    let (g1, idx) = spec_goc(g, ind);
    if spec_blocked(g1, idx) {
        (g1, false)
    } else if spec_witness_from(g1, g1.nodes[idx].roles, p, e, 0) {
        (g1, false)
    } else if g1.next_fresh_id < u32::MAX {
        let fid = (g1.next_fresh_id + 1) as u32;
        let fresh = SpecIndividual::Anonymous(spec_fresh_name(fid));
        let g2 = SpecGraph { next_fresh_id: fid, ..g1 };
        let g3 = spec_add_role(g2, ind, p, fresh).0;
        let g4 = spec_add_concept(g3, fresh, e).0;
        (spec_add_concepts(g4, fresh, om), true)
    } else {
        (g1, false)
    }
}

/// One existential step for the concepts of one snapshot node, from `j` on.
pub open spec fn spec_exist_concepts(
    snapc: Seq<SpecClassExpr>,
    ind: SpecIndividual,
    g: SpecGraph,
    om: Seq<SpecClassExpr>,
    j: int,
) -> (SpecGraph, bool)
    decreases snapc.len() - j,
{
    if j < 0 || j >= snapc.len() {
        (g, false)
    } else {
        let (g1, f1) = match snapc[j] {
            SpecClassExpr::ObjectSomeValuesFrom { property, filler } => spec_exist_concept(
                g,
                om,
                ind,
                property,
                *filler,
            ),
            _ => (g, false),
        };
        let (g2, f2) = spec_exist_concepts(snapc, ind, g1, om, j + 1);
        (g2, f1 || f2)
    }
}

/// One existential pass over a snapshot of the nodes, from `i` on.
pub open spec fn spec_exist_nodes(
    snap: Seq<SpecNode>,
    g: SpecGraph,
    om: Seq<SpecClassExpr>,
    i: int,
) -> (SpecGraph, bool)
    decreases snap.len() - i,
{
    if i < 0 || i >= snap.len() {
        (g, false)
    } else {
        let (g1, f1) = spec_exist_concepts(snap[i].concepts, snap[i].individual, g, om, 0);
        let (g2, f2) = spec_exist_nodes(snap, g1, om, i + 1);
        (g2, f1 || f2)
    }
}

/// One full existential pass.
pub open spec fn spec_exist(g: SpecGraph, om: Seq<SpecClassExpr>) -> (SpecGraph, bool) {
    spec_exist_nodes(g.nodes, g, om, 0)
}

/// One universal step over a role list for `All(p, e)`: the filler is added
/// to the target of every `p`-edge, from `k` on.
pub open spec fn spec_univ_roles(
    g: SpecGraph,
    roles: Seq<(SpecObjectPropertyExpr, SpecIndividual)>,
    p: SpecObjectPropertyExpr,
    e: SpecClassExpr,
    k: int,
) -> (SpecGraph, bool)
    decreases roles.len() - k,
{
    if k < 0 || k >= roles.len() {
        (g, false)
    } else {
        let (g1, f1) = if roles[k].0 == p {
            spec_add_concept(g, roles[k].1, e)
        } else {
            (g, false)
        };
        let (g2, f2) = spec_univ_roles(g1, roles, p, e, k + 1);
        (g2, f1 || f2)
    }
}

/// One universal step for `All(p, e)` at `ind`'s node.
pub open spec fn spec_univ_concept(
    g: SpecGraph,
    ind: SpecIndividual,
    p: SpecObjectPropertyExpr,
    e: SpecClassExpr,
) -> (SpecGraph, bool) {
    let (g1, idx) = spec_goc(g, ind);
    spec_univ_roles(g1, g1.nodes[idx].roles, p, e, 0)
}

/// One universal step for the concepts of one snapshot node, from `j` on.
pub open spec fn spec_univ_concepts(
    snapc: Seq<SpecClassExpr>,
    ind: SpecIndividual,
    g: SpecGraph,
    j: int,
) -> (SpecGraph, bool)
    decreases snapc.len() - j,
{
    if j < 0 || j >= snapc.len() {
        (g, false)
    } else {
        let (g1, f1) = match snapc[j] {
            SpecClassExpr::ObjectAllValuesFrom { property, filler } => spec_univ_concept(
                g,
                ind,
                property,
                *filler,
            ),
            _ => (g, false),
        };
        let (g2, f2) = spec_univ_concepts(snapc, ind, g1, j + 1);
        (g2, f1 || f2)
    }
}

/// One universal pass over a snapshot of the nodes, from `i` on.
pub open spec fn spec_univ_nodes(snap: Seq<SpecNode>, g: SpecGraph, i: int) -> (SpecGraph, bool)
    decreases snap.len() - i,
{
    if i < 0 || i >= snap.len() {
        (g, false)
    } else {
        let (g1, f1) = spec_univ_concepts(snap[i].concepts, snap[i].individual, g, 0);
        let (g2, f2) = spec_univ_nodes(snap, g1, i + 1);
        (g2, f1 || f2)
    }
}

/// One full universal pass.
pub open spec fn spec_univ(g: SpecGraph) -> (SpecGraph, bool) {
    spec_univ_nodes(g.nodes, g, 0)
}

/// A class expression and its value take the same top constructor for the
/// quantified cases the expansion rules branch on, and the parts agree.
pub proof fn lemma_ce_view_quantified(c: ClassExpression)
    ensures
        (c@ is ObjectAllValuesFrom) <==> (c is ObjectAllValuesFrom),
        (c@ is ObjectSomeValuesFrom) <==> (c is ObjectSomeValuesFrom),
{
    match c {
        ClassExpression::Class(_) => {},
        ClassExpression::ObjectIntersectionOf(_) => {},
        ClassExpression::ObjectUnionOf(_) => {},
        ClassExpression::ObjectComplementOf(_) => {},
        ClassExpression::ObjectOneOf(_) => {},
        ClassExpression::ObjectSomeValuesFrom { property: _, filler: _ } => {},
        ClassExpression::ObjectAllValuesFrom { property: _, filler: _ } => {},
        ClassExpression::ObjectHasValue { property: _, value: _ } => {},
        ClassExpression::ObjectHasSelf(_) => {},
        ClassExpression::ObjectMinCardinality { min: _, property: _, filler: _ } => {},
        ClassExpression::ObjectMaxCardinality { max: _, property: _, filler: _ } => {},
        ClassExpression::ObjectExactCardinality { cardinality: _, property: _, filler: _ } => {},
    }
}

/// Returns whether every concept of `a` also occurs in `b`.
pub fn label_subset(a: &Vec<ClassExpression>, b: &Vec<ClassExpression>) -> (r: bool)
    ensures
        r == spec_subset_label(spec_ce_seq(a@), spec_ce_seq(b@)),
{
    proof {
        lemma_spec_ce_seq(a@);
    }
    for i in 0..a.len()
        invariant
            forall|k: int| 0 <= k < i ==> spec_ce_seq(b@).contains(spec_ce_seq(a@)[k]),
    {
        proof {
            lemma_spec_ce_seq(a@);
        }
        if !ce_vec_contains(b, &a[i]) {
            proof {
                assert(spec_ce_seq(a@).contains(spec_ce_seq(a@)[i as int]));
            }
            return false;
        }
    }
    proof {
        lemma_spec_ce_seq(a@);
        assert forall|x: SpecClassExpr| spec_ce_seq(a@).contains(x) implies spec_ce_seq(
            b@,
        ).contains(x) by {
            let k = choose|k: int| 0 <= k < spec_ce_seq(a@).len() && spec_ce_seq(a@)[k] == x;
            assert(spec_ce_seq(b@).contains(spec_ce_seq(a@)[k]));
        }
    }
    true
}

impl CompletionGraph {
    /// Returns whether the node at `idx` is blocked, following
    /// [`spec_blocked`].
    pub fn node_blocked(&self, idx: usize) -> (r: bool)
        requires
            idx < self.nodes.len(),
        ensures
            r == spec_blocked(self@, idx as int),
    {
        let anon = match &self.nodes[idx].individual {
            Individual::Anonymous(_) => true,
            Individual::Named(_) => false,
        };
        if !anon {
            return false;
        }
        for a in 0..idx
            invariant
                idx < self.nodes.len(),
                self@.nodes[idx as int].individual is Anonymous,
                forall|m: int|
                    0 <= m < a ==> !spec_subset_label(
                        self@.nodes[idx as int].concepts,
                        self@.nodes[m].concepts,
                    ),
        {
            if label_subset(&self.nodes[idx].concepts, &self.nodes[a].concepts) {
                proof {
                    assert(spec_subset_label(
                        self@.nodes[idx as int].concepts,
                        self@.nodes[a as int].concepts,
                    ));
                }
                return true;
            }
        }
        false
    }

    /// Returns whether `ind`'s node at `idx` has a `p`-edge to a node that
    /// satisfies `e`, following [`spec_witness_from`].
    pub fn has_witness(&self, idx: usize, p: &ObjectPropertyExpression, e: &ClassExpression) -> (r:
        bool)
        requires
            idx < self.nodes.len(),
        ensures
            r == spec_witness_from(
                self@,
                self@.nodes[idx as int].roles,
                p@,
                e@,
                0,
            ),
    {
        let ghost rolesv = self@.nodes[idx as int].roles;
        let n = self.nodes[idx].roles.len();
        let mut k: usize = 0;
        while k < n
            invariant
                idx < self.nodes.len(),
                n == self.nodes[idx as int].roles@.len(),
                rolesv == self@.nodes[idx as int].roles,
                rolesv.len() == n,
                spec_witness_from(self@, rolesv, p@, e@, 0) == spec_witness_from(
                    self@,
                    rolesv,
                    p@,
                    e@,
                    k as int,
                ),
            decreases n - k,
        {
            let (q, t) = &self.nodes[idx].roles[k];
            if ope_eq(q, p) {
                match self.find_node(t) {
                    Option::Some(ti) => {
                        if ce_vec_contains(&self.nodes[ti].concepts, e) {
                            return true;
                        }
                    },
                    Option::None => {},
                }
            }
            k = k + 1;
        }
        false
    }
}

impl TableauReasoner {
    /// Applies one existential pass: for every `ObjectSomeValuesFrom` in an
    /// unblocked node's label with no witnessing successor, a fresh
    /// anonymous successor is minted and given the filler and the
    /// internalized inclusions.  Returns whether the graph grew.
    pub fn apply_existential_rule(&mut self) -> (r: bool)
        ensures
            final(self).ontology@ == old(self).ontology@,
            (final(self).graph@, r) == spec_exist(
                old(self).graph@,
                spec_omega(old(self).ontology@.axioms),
            ),
    {
        let om = self.internalized_tbox();
        let ghost omv = spec_omega(self.ontology@.axioms);
        proof {
            lemma_spec_ce_seq(om@);
        }
        let snap = clone_node_vec(&self.graph.nodes);
        let ghost snapv = old(self).graph@.nodes;
        let ghost g0 = self.graph@;
        proof {
            assert(snap@.map_values(|n: Node| n@) =~= snapv);
        }
        let mut changed = false;
        let mut i: usize = 0;
        while i < snap.len()
            invariant
                self.ontology@ == old(self).ontology@,
                snap@.map_values(|n: Node| n@) == snapv,
                snap@.len() == snapv.len(),
                omv == spec_ce_seq(om@),
                omv.len() == om@.len(),
                spec_exist_nodes(snapv, g0, omv, 0) == ({
                    let (gf, cf) = spec_exist_nodes(snapv, self.graph@, omv, i as int);
                    (gf, changed || cf)
                }),
            decreases snap.len() - i,
        {
            let ghost gnode = self.graph@;
            let mut node_changed = false;
            let node_concepts_len = snap[i].concepts.len();
            let mut j: usize = 0;
            while j < node_concepts_len
                invariant
                    self.ontology@ == old(self).ontology@,
                    snap@.map_values(|n: Node| n@) == snapv,
                    snap@.len() == snapv.len(),
                    i < snap@.len(),
                    omv == spec_ce_seq(om@),
                    omv.len() == om@.len(),
                    node_concepts_len == snap@[i as int].concepts@.len(),
                    snapv[i as int] == snap@[i as int]@,
                    spec_exist_concepts(
                        snapv[i as int].concepts,
                        snapv[i as int].individual,
                        gnode,
                        omv,
                        0,
                    ) == ({
                        let (gf, cf) = spec_exist_concepts(
                            snapv[i as int].concepts,
                            snapv[i as int].individual,
                            self.graph@,
                            omv,
                            j as int,
                        );
                        (gf, node_changed || cf)
                    }),
                decreases node_concepts_len - j,
            {
                proof {
                    lemma_spec_ce_seq(snap@[i as int].concepts@);
                    lemma_ce_view_quantified(snap@[i as int].concepts@[j as int]);
                }
                if let ClassExpression::ObjectSomeValuesFrom { property, filler } =
                    &snap[i].concepts[j] {
                    let ghost gj = self.graph@;
                    let mut stepped = false;
                    let ind = snap[i].individual.clone();
                    let idx = self.graph.get_or_create_node(&ind);
                    let ghost g1 = self.graph@;
                    let blocked = self.graph.node_blocked(idx);
                    if !blocked {
                        let witnessed = self.graph.has_witness(idx, property, &**filler);
                        if !witnessed {
                            if self.graph.next_fresh_id < u32::MAX {
                                let fresh = self.graph.fresh_individual();
                                let ghost g2 = self.graph@;
                                proof {
                                    assert(g2 =~~= (SpecGraph {
                                        next_fresh_id: (g1.next_fresh_id + 1) as u32,
                                        ..g1
                                    }));
                                }
                                self.graph.add_role(&ind, clone_ope(property), fresh.clone());
                                self.graph.add_concept(&fresh, clone_ce(&**filler));
                                let ghost g4 = self.graph@;
                                let mut k: usize = 0;
                                while k < om.len()
                                    invariant
                                        self.ontology@ == old(self).ontology@,
                                        omv == spec_ce_seq(om@),
                                        omv.len() == om@.len(),
                                        k <= om@.len(),
                                        self.graph@ == spec_add_concepts(
                                            g4,
                                            fresh@,
                                            omv.subrange(0, k as int),
                                        ),
                                    decreases om.len() - k,
                                {
                                    proof {
                                        lemma_spec_ce_seq(om@);
                                    }
                                    self.graph.add_concept(&fresh, clone_ce(&om[k]));
                                    proof {
                                        assert(omv.subrange(0, k as int + 1).drop_last()
                                            =~= omv.subrange(0, k as int));
                                        assert(omv.subrange(0, k as int + 1).last()
                                            == omv[k as int]);
                                    }
                                    k = k + 1;
                                }
                                proof {
                                    assert(omv.subrange(0, omv.len() as int) =~= omv);
                                }
                                stepped = true;
                            }
                        }
                    }
                    proof {
                        assert(spec_exist_concept(
                            gj,
                            omv,
                            ind@,
                            snapv[i as int].concepts[j as int]->ObjectSomeValuesFrom_property,
                            *snapv[i as int].concepts[j as int]->ObjectSomeValuesFrom_filler,
                        ) == (self.graph@, stepped));
                    }
                    node_changed = node_changed || stepped;
                }
                j = j + 1;
            }
            proof {
                lemma_spec_ce_seq(snap@[i as int].concepts@);
            }
            changed = changed || node_changed;
            i = i + 1;
        }
        changed
    }

    /// Applies one universal pass: for every `ObjectAllValuesFrom` in a
    /// node's label, the filler is added to the target of every matching
    /// edge.  Returns whether any label grew.
    pub fn apply_universal_rule(&mut self) -> (r: bool)
        ensures
            final(self).ontology@ == old(self).ontology@,
            (final(self).graph@, r) == spec_univ(old(self).graph@),
    {
        let snap = clone_node_vec(&self.graph.nodes);
        let ghost snapv = old(self).graph@.nodes;
        let ghost g0 = self.graph@;
        proof {
            assert(snap@.map_values(|n: Node| n@) =~= snapv);
        }
        let mut changed = false;
        let mut i: usize = 0;
        while i < snap.len()
            invariant
                self.ontology@ == old(self).ontology@,
                snap@.map_values(|n: Node| n@) == snapv,
                snap@.len() == snapv.len(),
                spec_univ_nodes(snapv, g0, 0) == ({
                    let (gf, cf) = spec_univ_nodes(snapv, self.graph@, i as int);
                    (gf, changed || cf)
                }),
            decreases snap.len() - i,
        {
            let ghost gnode = self.graph@;
            let mut node_changed = false;
            let node_concepts_len = snap[i].concepts.len();
            let mut j: usize = 0;
            while j < node_concepts_len
                invariant
                    self.ontology@ == old(self).ontology@,
                    snap@.map_values(|n: Node| n@) == snapv,
                    snap@.len() == snapv.len(),
                    i < snap@.len(),
                    node_concepts_len == snap@[i as int].concepts@.len(),
                    snapv[i as int] == snap@[i as int]@,
                    spec_univ_concepts(
                        snapv[i as int].concepts,
                        snapv[i as int].individual,
                        gnode,
                        0,
                    ) == ({
                        let (gf, cf) = spec_univ_concepts(
                            snapv[i as int].concepts,
                            snapv[i as int].individual,
                            self.graph@,
                            j as int,
                        );
                        (gf, node_changed || cf)
                    }),
                decreases node_concepts_len - j,
            {
                proof {
                    lemma_spec_ce_seq(snap@[i as int].concepts@);
                    lemma_ce_view_quantified(snap@[i as int].concepts@[j as int]);
                }
                if let ClassExpression::ObjectAllValuesFrom { property, filler } =
                    &snap[i].concepts[j] {
                    let ghost gj = self.graph@;
                    let mut stepped = false;
                    let ind = snap[i].individual.clone();
                    let idx = self.graph.get_or_create_node(&ind);
                    let ghost g1 = self.graph@;
                    let ghost rolesv = g1.nodes[idx as int].roles;
                    let rcopy = clone_role_vec(&self.graph.nodes[idx].roles);
                    proof {
                        assert(spec_role_seq(rcopy@) =~= rolesv);
                    }
                    let mut k: usize = 0;
                    while k < rcopy.len()
                        invariant
                            self.ontology@ == old(self).ontology@,
                            spec_role_seq(rcopy@) == rolesv,
                            rolesv.len() == rcopy@.len(),
                            ({
                                let (gf, cf) = spec_univ_roles(
                                    self.graph@,
                                    rolesv,
                                    property@,
                                    (**filler)@,
                                    k as int,
                                );
                                spec_univ_roles(g1, rolesv, property@, (**filler)@, 0) == (
                                    gf,
                                    stepped || cf,
                                )
                            }),
                        decreases rcopy.len() - k,
                    {
                        let (q, t) = &rcopy[k];
                        proof {
                            assert(rolesv[k as int] == (q@, t@));
                        }
                        if ope_eq(q, property) {
                            let grew = self.graph.add_concept(t, clone_ce(&**filler));
                            stepped = stepped || grew;
                        }
                        k = k + 1;
                    }
                    proof {
                        assert(spec_univ_concept(gj, ind@, property@, (**filler)@) == (
                            self.graph@,
                            stepped,
                        ));
                    }
                    node_changed = node_changed || stepped;
                }
                j = j + 1;
            }
            proof {
                lemma_spec_ce_seq(snap@[i as int].concepts@);
            }
            changed = changed || node_changed;
            i = i + 1;
        }
        changed
    }
}


/// Whether one concept clashes inside a label: it is a complement whose
/// operand is also in the label.
pub open spec fn spec_concept_clashes(label: Seq<SpecClassExpr>, c: SpecClassExpr) -> bool {
    c matches SpecClassExpr::ObjectComplementOf(e) && label.contains(*e)
}

/// Whether a node's label holds both a concept and its complement.
pub open spec fn spec_node_complement_clash(n: SpecNode) -> bool {
    exists|j: int|
        0 <= j < n.concepts.len() && spec_concept_clashes(n.concepts, #[trigger] n.concepts[j])
}

/// Whether some node holds a concept and its complement.
pub open spec fn spec_complement_clash(g: SpecGraph) -> bool {
    exists|i: int|
        0 <= i < g.nodes.len() && #[trigger] spec_node_complement_clash(g.nodes[i])
}

/// Whether a node holds two of the listed pairwise-disjoint classes.
pub open spec fn spec_node_violates_disjoint(n: SpecNode, classes: Seq<SpecClassExpr>) -> bool {
    exists|j: int, k: int|
        #![trigger n.concepts.contains(classes[j]), n.concepts.contains(classes[k])]
        0 <= j < k < classes.len() && n.concepts.contains(classes[j]) && n.concepts.contains(
            classes[k],
        )
}

/// Whether some node holds two of the listed pairwise-disjoint classes.
pub open spec fn spec_disjoint_violated(g: SpecGraph, classes: Seq<SpecClassExpr>) -> bool {
    exists|i: int|
        0 <= i < g.nodes.len() && #[trigger] spec_node_violates_disjoint(g.nodes[i], classes)
}

/// Whether an axiom is a disjointness axiom the graph violates.
pub open spec fn spec_axiom_disjoint_violated(g: SpecGraph, a: SpecAxiom) -> bool {
    a matches SpecAxiom::Class(SpecClassAxiom::DisjointClasses { classes })
        && spec_disjoint_violated(g, classes)
}

/// Whether a disjointness axiom is violated by the graph.
pub open spec fn spec_disjoint_clash(g: SpecGraph, axs: Seq<SpecAxiom>) -> bool {
    exists|ai: int|
        0 <= ai < axs.len() && #[trigger] spec_axiom_disjoint_violated(g, axs[ai])
}

/// Whether two distinct individuals occur in both lists.
pub open spec fn spec_shares_two(s: Seq<SpecIndividual>, d: Seq<SpecIndividual>) -> bool {
    exists|u: SpecIndividual, v: SpecIndividual|
        #![trigger s.contains(u), s.contains(v)]
        u != v && s.contains(u) && s.contains(v) && d.contains(u) && d.contains(v)
}

/// Whether one axiom asserts individuals same and another asserts two of
/// them different.
pub open spec fn spec_axioms_same_diff(a: SpecAxiom, b: SpecAxiom) -> bool {
    a matches SpecAxiom::Assertion(SpecAssertion::SameIndividual { individuals: s }) && (b matches
        SpecAxiom::Assertion(SpecAssertion::DifferentIndividuals { individuals: d })
        && spec_shares_two(s, d))
}

/// Whether two individuals are asserted both same and different.
pub open spec fn spec_same_diff_clash(axs: Seq<SpecAxiom>) -> bool {
    exists|ai: int, bi: int|
        0 <= ai < axs.len() && 0 <= bi < axs.len() && #[trigger] spec_axioms_same_diff(
            axs[ai],
            axs[bi],
        )
}

/// Whether a pair of concepts is a cardinality conflict: a minimum beside
/// a maximum over the same property and filler with a smaller bound.
pub open spec fn spec_min_max_conflict(a: SpecClassExpr, b: SpecClassExpr) -> bool {
    a matches SpecClassExpr::ObjectMinCardinality { min, property: p1, filler: f1 } && (b matches
        SpecClassExpr::ObjectMaxCardinality { max, property: p2, filler: f2 } && p1 == p2 && f1
        == f2 && max < min)
}

/// Whether a node's label holds a cardinality conflict.
pub open spec fn spec_node_cardinality_clash(n: SpecNode) -> bool {
    exists|j: int, k: int|
        0 <= j < n.concepts.len() && 0 <= k < n.concepts.len() && #[trigger] spec_min_max_conflict(
            n.concepts[j],
            n.concepts[k],
        )
}

/// Whether some node's label holds a cardinality conflict.
pub open spec fn spec_cardinality_clash(g: SpecGraph) -> bool {
    exists|i: int| 0 <= i < g.nodes.len() && #[trigger] spec_node_cardinality_clash(g.nodes[i])
}

/// Whether a concept forbids a self edge the node has: the complement of a
/// self restriction beside an edge from the node to itself.
pub open spec fn spec_concept_forbids_self(n: SpecNode, c: SpecClassExpr) -> bool {
    c matches SpecClassExpr::ObjectComplementOf(e) && (*e matches SpecClassExpr::ObjectHasSelf(p)
        && n.roles.contains((p, n.individual)))
}

/// Whether a node violates a complemented self restriction.
pub open spec fn spec_node_self_clash(n: SpecNode) -> bool {
    exists|j: int|
        0 <= j < n.concepts.len() && spec_concept_forbids_self(n, #[trigger] n.concepts[j])
}

/// Whether some node violates a complemented self restriction.
pub open spec fn spec_self_clash(g: SpecGraph) -> bool {
    exists|i: int| 0 <= i < g.nodes.len() && #[trigger] spec_node_self_clash(g.nodes[i])
}

/// Whether the graph together with the ontology's axioms holds a clash: a
/// concept next to its complement, a cardinality conflict, a violated
/// complemented self restriction, a violated disjointness, or individuals
/// asserted both same and different.  The engine never merges nodes, so the
/// only same-versus-different conflict that can arise is the asserted one,
/// which is checked on the axioms.
pub open spec fn spec_has_clash(g: SpecGraph, axs: Seq<SpecAxiom>) -> bool {
    ||| spec_complement_clash(g)
    ||| spec_cardinality_clash(g)
    ||| spec_self_clash(g)
    ||| spec_disjoint_clash(g, axs)
    ||| spec_same_diff_clash(axs)
}

/// Returns whether two optional cardinality fillers hold equal values.
fn fillers_eq(a: &Option<Box<ClassExpression>>, b: &Option<Box<ClassExpression>>) -> (r: bool)
    ensures
        r == ((match *a {
            Option::Some(x) => Option::Some(Box::new((*x)@)),
            Option::None => Option::<Box<SpecClassExpr>>::None,
        }) == (match *b {
            Option::Some(x) => Option::Some(Box::new((*x)@)),
            Option::None => Option::<Box<SpecClassExpr>>::None,
        })),
{
    match (a, b) {
        (Option::None, Option::None) => true,
        (Option::Some(x), Option::Some(y)) => ce_eq(&*x, &*y),
        _ => false,
    }
}

/// Returns whether a node's label holds a cardinality conflict, following
/// [`spec_node_cardinality_clash`].
#[verifier::rlimit(100)]
fn node_has_cardinality_clash(n: &Node) -> (r: bool)
    ensures
        r == spec_node_cardinality_clash((*n)@),
{
    let ghost cv = (*n)@.concepts;
    proof {
        lemma_spec_ce_seq(n.concepts@);
    }
    for j in 0..n.concepts.len()
        invariant
            cv == (*n)@.concepts,
            cv.len() == n.concepts@.len(),
            forall|a: int, b: int|
                0 <= a < j && 0 <= b < cv.len() ==> !#[trigger] spec_min_max_conflict(
                    cv[a],
                    cv[b],
                ),
    {
        proof {
            lemma_spec_ce_seq(n.concepts@);
            crate::owl2_profile::lemma_ce_variants(n.concepts@[j as int]);
        }
        if let ClassExpression::ObjectMinCardinality { min, property: p1, filler: f1 } =
            &n.concepts[j] {
            for k in 0..n.concepts.len()
                invariant
                    cv == (*n)@.concepts,
                    cv.len() == n.concepts@.len(),
                    j < n.concepts@.len(),
                    n.concepts@[j as int] matches ClassExpression::ObjectMinCardinality {
                        min: m0,
                        property: pp0,
                        filler: ff0,
                    } && m0 == *min && pp0 == *p1 && ff0 == *f1,
                    cv[j as int] == n.concepts@[j as int]@,
                    forall|b: int|
                        0 <= b < k ==> !#[trigger] spec_min_max_conflict(cv[j as int], cv[b]),
            {
                proof {
                    lemma_spec_ce_seq(n.concepts@);
                    crate::owl2_profile::lemma_ce_variants(n.concepts@[k as int]);
                }
                let mut hit = false;
                if let ClassExpression::ObjectMaxCardinality { max, property: p2, filler: f2 } =
                    &n.concepts[k] {
                    if *max < *min && ope_eq(p1, p2) && fillers_eq(f1, f2) {
                        hit = true;
                    }
                }
                if hit {
                    proof {
                        assert(spec_min_max_conflict(cv[j as int], cv[k as int]));
                    }
                    return true;
                }
            }
        }
    }
    false
}

/// Returns whether a node violates a complemented self restriction,
/// following [`spec_node_self_clash`].
fn node_has_self_clash(n: &Node) -> (r: bool)
    ensures
        r == spec_node_self_clash((*n)@),
{
    let ghost nv = (*n)@;
    proof {
        lemma_spec_ce_seq(n.concepts@);
    }
    for j in 0..n.concepts.len()
        invariant
            nv == (*n)@,
            nv.concepts.len() == n.concepts@.len(),
            forall|a: int|
                0 <= a < j ==> !spec_concept_forbids_self(nv, #[trigger] nv.concepts[a]),
    {
        proof {
            lemma_spec_ce_seq(n.concepts@);
            lemma_ce_view_complement(n.concepts@[j as int]);
        }
        if let ClassExpression::ObjectComplementOf(e) = &n.concepts[j] {
            proof {
                crate::owl2_profile::lemma_ce_variants(*(n.concepts@[j as int])->ObjectComplementOf_0);
            }
            if let ClassExpression::ObjectHasSelf(p) = &**e {
                let rn = n.roles.len();
                let mut k: usize = 0;
                while k < rn
                    invariant
                        nv == (*n)@,
                        nv.concepts.len() == n.concepts@.len(),
                        j < n.concepts@.len(),
                        rn == n.roles@.len(),
                        nv.roles.len() == rn,
                        k <= rn,
                        n.concepts@[j as int] matches ClassExpression::ObjectComplementOf(e0)
                            && *e0 matches ClassExpression::ObjectHasSelf(p0) && p0 == *p,
                        nv.concepts[j as int] == n.concepts@[j as int]@,
                        forall|m: int| 0 <= m < k ==> nv.roles[m] != ((*p)@, nv.individual),
                    decreases rn - k,
                {
                    let (q, t) = &n.roles[k];
                    if ope_eq(q, p) && individual_eq(t, &n.individual) {
                        proof {
                            reveal_with_fuel(ClassExpression::spec_view, 3);
                            assert(nv.roles[k as int] == ((*p)@, nv.individual));
                            assert(nv.roles.contains(((*p)@, nv.individual)));
                            assert(spec_concept_forbids_self(nv, nv.concepts[j as int]));
                        }
                        return true;
                    }
                    k = k + 1;
                }
                proof {
                    if nv.roles.contains(((*p)@, nv.individual)) {
                        let m = choose|m: int|
                            0 <= m < nv.roles.len() && nv.roles[m] == ((*p)@, nv.individual);
                        assert(false);
                    }
                }
            }
        }
    }
    false
}

/// Returns whether a vector of individuals holds a given term.
pub fn individual_vec_has(v: &Vec<Individual>, x: &Individual) -> (r: bool)
    ensures
        r == spec_individual_seq(v@).contains(x@),
{
    for j in 0..v.len()
        invariant
            forall|k: int| 0 <= k < j ==> v@[k]@ != x@,
    {
        if individual_eq(&v[j], x) {
            assert(spec_individual_seq(v@)[j as int] == x@);
            return true;
        }
    }
    proof {
        if spec_individual_seq(v@).contains(x@) {
            let k = choose|k: int|
                0 <= k < spec_individual_seq(v@).len() && spec_individual_seq(v@)[k] == x@;
            assert(v@[k]@ == x@);
        }
    }
    false
}

/// Returns whether two individual lists share two distinct terms,
/// following [`spec_shares_two`].
pub fn shares_two(s: &Vec<Individual>, d: &Vec<Individual>) -> (r: bool)
    ensures
        r == spec_shares_two(spec_individual_seq(s@), spec_individual_seq(d@)),
{
    let ghost sv = spec_individual_seq(s@);
    let ghost dv = spec_individual_seq(d@);
    let mut a: usize = 0;
    while a < s.len()
        invariant
            sv == spec_individual_seq(s@),
            dv == spec_individual_seq(d@),
            sv.len() == s@.len(),
            a <= s@.len(),
            forall|x: int, y: int|
                0 <= x < a && 0 <= y < s@.len() ==> !(sv[x] != sv[y] && dv.contains(sv[x])
                    && dv.contains(sv[y])),
        decreases s.len() - a,
    {
        if individual_vec_has(d, &s[a]) {
            let mut b: usize = 0;
            while b < s.len()
                invariant
                    sv == spec_individual_seq(s@),
                    dv == spec_individual_seq(d@),
                    sv.len() == s@.len(),
                    a < s@.len(),
                    b <= s@.len(),
                    dv.contains(sv[a as int]),
                    forall|y: int|
                        0 <= y < b ==> !(sv[a as int] != sv[y] && dv.contains(sv[y])),
                decreases s.len() - b,
            {
                if !individual_eq(&s[b], &s[a]) && individual_vec_has(d, &s[b]) {
                    proof {
                        assert(sv.contains(sv[a as int]));
                        assert(sv.contains(sv[b as int]));
                    }
                    return true;
                }
                b = b + 1;
            }
            proof {
                assert forall|y: int|
                    0 <= y < s@.len() implies !(sv[a as int] != sv[y] && dv.contains(sv[a as int])
                    && dv.contains(sv[y])) by {}
            }
        }
        a = a + 1;
    }
    proof {
        if spec_shares_two(sv, dv) {
            let (u, v) = choose|u: SpecIndividual, v: SpecIndividual|
                u != v && sv.contains(u) && sv.contains(v) && dv.contains(u) && dv.contains(v);
            let x = choose|x: int| 0 <= x < sv.len() && sv[x] == u;
            let y = choose|y: int| 0 <= y < sv.len() && sv[y] == v;
            assert(!(sv[x] != sv[y] && dv.contains(sv[x]) && dv.contains(sv[y])));
        }
    }
    false
}

impl TableauReasoner {
    /// Returns whether the completion graph holds a clash, following
    /// [`spec_has_clash`]: a concept beside its complement, a cardinality
    /// conflict, a complemented self restriction beside a self edge, a
    /// violated disjointness, or individuals asserted both same and
    /// different.
    pub fn has_clash(&self) -> (r: bool)
        ensures
            r == spec_has_clash(self.graph@, self.ontology@.axioms),
    {
        let ghost gv = self.graph@;
        let n = self.graph.nodes.len();
        let mut i: usize = 0;
        while i < n
            invariant
                gv == self.graph@,
                n == self.graph.nodes@.len(),
                i <= n,
                forall|m: int| 0 <= m < i ==> !spec_node_complement_clash(gv.nodes[m]),
            decreases n - i,
        {
            let cn = self.graph.nodes[i].concepts.len();
            let mut j: usize = 0;
            while j < cn
                invariant
                    gv == self.graph@,
                    n == self.graph.nodes@.len(),
                    i < n,
                    cn == self.graph.nodes[i as int].concepts@.len(),
                    j <= cn,
                    forall|m: int|
                        0 <= m < j ==> !spec_concept_clashes(
                            gv.nodes[i as int].concepts,
                            #[trigger] gv.nodes[i as int].concepts[m],
                        ),
                decreases cn - j,
            {
                proof {
                    lemma_spec_ce_seq(self.graph.nodes[i as int].concepts@);
                    assert(gv.nodes[i as int] == self.graph.nodes@[i as int]@);
                    assert(gv.nodes[i as int].concepts == spec_ce_seq(
                        self.graph.nodes@[i as int].concepts@,
                    ));
                }
                if let ClassExpression::ObjectComplementOf(e) = &self.graph.nodes[i].concepts[j] {
                    if ce_vec_contains(&self.graph.nodes[i].concepts, &*e) {
                        proof {
                            assert(spec_concept_clashes(
                                gv.nodes[i as int].concepts,
                                gv.nodes[i as int].concepts[j as int],
                            ));
                            assert(spec_node_complement_clash(gv.nodes[i as int]));
                        }
                        return true;
                    } else {
                        proof {
                            assert(!spec_concept_clashes(
                                gv.nodes[i as int].concepts,
                                gv.nodes[i as int].concepts[j as int],
                            ));
                        }
                    }
                }
                proof {
                    lemma_ce_view_complement(self.graph.nodes@[i as int].concepts@[j as int]);
                }
                j = j + 1;
            }
            proof {
                lemma_spec_ce_seq(self.graph.nodes[i as int].concepts@);
                assert(!spec_node_complement_clash(gv.nodes[i as int]));
            }
            i = i + 1;
        }
        let mut ic: usize = 0;
        while ic < n
            invariant
                gv == self.graph@,
                n == self.graph.nodes@.len(),
                ic <= n,
                !spec_complement_clash(gv),
                forall|m: int| 0 <= m < ic ==> !#[trigger] spec_node_cardinality_clash(gv.nodes[m]),
            decreases n - ic,
        {
            if node_has_cardinality_clash(&self.graph.nodes[ic]) {
                proof {
                    assert(gv.nodes[ic as int] == self.graph.nodes@[ic as int]@);
                    assert(spec_node_cardinality_clash(gv.nodes[ic as int]));
                }
                return true;
            }
            proof {
                assert(gv.nodes[ic as int] == self.graph.nodes@[ic as int]@);
            }
            ic = ic + 1;
        }
        let mut is_: usize = 0;
        while is_ < n
            invariant
                gv == self.graph@,
                n == self.graph.nodes@.len(),
                is_ <= n,
                !spec_complement_clash(gv),
                !spec_cardinality_clash(gv),
                forall|m: int| 0 <= m < is_ ==> !#[trigger] spec_node_self_clash(gv.nodes[m]),
            decreases n - is_,
        {
            if node_has_self_clash(&self.graph.nodes[is_]) {
                proof {
                    assert(gv.nodes[is_ as int] == self.graph.nodes@[is_ as int]@);
                    assert(spec_node_self_clash(gv.nodes[is_ as int]));
                }
                return true;
            }
            proof {
                assert(gv.nodes[is_ as int] == self.graph.nodes@[is_ as int]@);
            }
            is_ = is_ + 1;
        }
        let an = self.ontology.axioms.len();
        let ghost axs = self.ontology@.axioms;
        let mut ai: usize = 0;
        while ai < an
            invariant
                gv == self.graph@,
                axs == self.ontology@.axioms,
                an == self.ontology.axioms@.len(),
                ai <= an,
                !spec_complement_clash(gv),
                !spec_cardinality_clash(gv),
                !spec_self_clash(gv),
                forall|m: int| 0 <= m < ai ==> !#[trigger] spec_axiom_disjoint_violated(gv, axs[m]),
            decreases an - ai,
        {
            if let Axiom::Class(ClassAxiom::DisjointClasses { classes }) =
                &self.ontology.axioms[ai] {
                let ghost csv = spec_ce_seq(classes@);
                proof {
                    lemma_spec_ce_seq(classes@);
                    assert(self.ontology.axioms@[ai as int] == Axiom::Class(
                        ClassAxiom::DisjointClasses { classes: *classes },
                    ));
                    assert(axs[ai as int] == SpecAxiom::Class(
                        SpecClassAxiom::DisjointClasses { classes: csv },
                    ));
                }
                let mut i2: usize = 0;
                while i2 < self.graph.nodes.len()
                    invariant
                        gv == self.graph@,
                        axs == self.ontology@.axioms,
                        an == self.ontology.axioms@.len(),
                        ai < an,
                        axs[ai as int] == SpecAxiom::Class(
                            SpecClassAxiom::DisjointClasses { classes: csv },
                        ),
                        csv == spec_ce_seq(classes@),
                        csv.len() == classes@.len(),
                        i2 <= self.graph.nodes@.len(),
                        forall|x: int|
                            0 <= x < i2 ==> !#[trigger] spec_node_violates_disjoint(
                                gv.nodes[x],
                                csv,
                            ),
                    decreases self.graph.nodes.len() - i2,
                {
                    let mut y: usize = 0;
                    while y < classes.len()
                        invariant
                            gv == self.graph@,
                            axs == self.ontology@.axioms,
                            an == self.ontology.axioms@.len(),
                            ai < an,
                            axs[ai as int] == SpecAxiom::Class(
                                SpecClassAxiom::DisjointClasses { classes: csv },
                            ),
                            csv == spec_ce_seq(classes@),
                            csv.len() == classes@.len(),
                            i2 < self.graph.nodes@.len(),
                            y <= csv.len(),
                            forall|yy: int, z: int|
                                #![trigger gv.nodes[i2 as int].concepts.contains(csv[yy]),
                                    gv.nodes[i2 as int].concepts.contains(csv[z])]
                                0 <= yy < y && yy < z < csv.len() ==> !(gv.nodes[i2 as int].concepts.contains(
                                    csv[yy],
                                ) && gv.nodes[i2 as int].concepts.contains(csv[z])),
                        decreases classes.len() - y,
                    {
                        proof {
                            lemma_spec_ce_seq(classes@);
                        }
                        if ce_vec_contains(&self.graph.nodes[i2].concepts, &classes[y]) {
                            proof {
                                assert(gv.nodes[i2 as int] == self.graph.nodes@[i2 as int]@);
                                assert(gv.nodes[i2 as int].concepts == spec_ce_seq(
                                    self.graph.nodes@[i2 as int].concepts@,
                                ));
                                assert(gv.nodes[i2 as int].concepts.contains(csv[y as int]));
                            }
                            let mut z: usize = y + 1;
                            while z < classes.len()
                                invariant
                                    gv == self.graph@,
                                    axs == self.ontology@.axioms,
                                    an == self.ontology.axioms@.len(),
                                    ai < an,
                                    axs[ai as int] == SpecAxiom::Class(
                                        SpecClassAxiom::DisjointClasses { classes: csv },
                                    ),
                                    csv == spec_ce_seq(classes@),
                                    csv.len() == classes@.len(),
                                    i2 < self.graph.nodes@.len(),
                                    y < z,
                                    z <= csv.len(),
                                    gv.nodes[i2 as int].concepts.contains(csv[y as int]),
                                    forall|zz: int|
                                        y < zz < z ==> !gv.nodes[i2 as int].concepts.contains(
                                            csv[zz],
                                        ),
                                decreases classes.len() - z,
                            {
                                proof {
                                    lemma_spec_ce_seq(classes@);
                                }
                                if ce_vec_contains(&self.graph.nodes[i2].concepts, &classes[z]) {
                                    proof {
                                        assert(gv.nodes[i2 as int] == self.graph.nodes@[i2 as int]@);
                                        assert(gv.nodes[i2 as int].concepts == spec_ce_seq(
                                            self.graph.nodes@[i2 as int].concepts@,
                                        ));
                                        assert(gv.nodes[i2 as int].concepts.contains(
                                            csv[z as int],
                                        ));
                                        assert(spec_node_violates_disjoint(
                                            gv.nodes[i2 as int],
                                            csv,
                                        ));
                                        assert(spec_disjoint_violated(gv, csv));
                                        assert(spec_axiom_disjoint_violated(gv, axs[ai as int]));
                                    }
                                    return true;
                                }
                                z = z + 1;
                            }
                        } else {
                            proof {
                                assert forall|z: int|
                                    y < z < csv.len() implies !(gv.nodes[i2 as int].concepts.contains(
                                    csv[y as int],
                                ) && gv.nodes[i2 as int].concepts.contains(csv[z])) by {}
                            }
                        }
                        y = y + 1;
                    }
                    i2 = i2 + 1;
                }
                proof {
                    assert forall|x: int| 0 <= x < gv.nodes.len() implies !spec_node_violates_disjoint(
                        gv.nodes[x],
                        csv,
                    ) by {}
                    assert(!spec_disjoint_violated(gv, csv));
                }
            }
            proof {
                lemma_axiom_view_disjoint(self.ontology.axioms@[ai as int]);
            }
            ai = ai + 1;
        }
        let mut si: usize = 0;
        while si < an
            invariant
                gv == self.graph@,
                axs == self.ontology@.axioms,
                an == self.ontology.axioms@.len(),
                si <= an,
                !spec_complement_clash(gv),
                !spec_cardinality_clash(gv),
                !spec_self_clash(gv),
                !spec_disjoint_clash(gv, axs),
                forall|m: int, bi: int|
                    0 <= m < si && 0 <= bi < axs.len() ==> !#[trigger] spec_axioms_same_diff(
                        axs[m],
                        axs[bi],
                    ),
            decreases an - si,
        {
            if let Axiom::Assertion(Assertion::SameIndividual { individuals: s_inds }) =
                &self.ontology.axioms[si] {
                proof {
                    assert(axs[si as int] == self.ontology.axioms@[si as int]@);
                }
                let mut di: usize = 0;
                while di < an
                    invariant
                        gv == self.graph@,
                        axs == self.ontology@.axioms,
                        an == self.ontology.axioms@.len(),
                        si < an,
                        di <= an,
                        axs[si as int] matches SpecAxiom::Assertion(
                            SpecAssertion::SameIndividual { individuals: ss },
                        ) && ss == spec_individual_seq(s_inds@),
                        forall|bi: int|
                            0 <= bi < di ==> !#[trigger] spec_axioms_same_diff(
                                axs[si as int],
                                axs[bi],
                            ),
                    decreases an - di,
                {
                    if let Axiom::Assertion(Assertion::DifferentIndividuals {
                        individuals: d_inds,
                    }) = &self.ontology.axioms[di] {
                        if shares_two(s_inds, d_inds) {
                            proof {
                                assert(axs[di as int] == self.ontology.axioms@[di as int]@);
                                assert(spec_axioms_same_diff(axs[si as int], axs[di as int]));
                                assert(spec_same_diff_clash(axs));
                            }
                            return true;
                        }
                    }
                    proof {
                        lemma_axiom_view_same_diff(self.ontology.axioms@[di as int]);
                    }
                    di = di + 1;
                }
            }
            proof {
                lemma_axiom_view_same_diff(self.ontology.axioms@[si as int]);
            }
            si = si + 1;
        }
        false
    }
}

/// A class expression and its value take the same top constructor for the
/// complement case.
pub proof fn lemma_ce_view_complement(c: ClassExpression)
    ensures
        (c@ is ObjectComplementOf) <==> (c is ObjectComplementOf),
{
    match c {
        ClassExpression::Class(_) => {},
        ClassExpression::ObjectIntersectionOf(_) => {},
        ClassExpression::ObjectUnionOf(_) => {},
        ClassExpression::ObjectComplementOf(_) => {},
        ClassExpression::ObjectOneOf(_) => {},
        ClassExpression::ObjectSomeValuesFrom { property: _, filler: _ } => {},
        ClassExpression::ObjectAllValuesFrom { property: _, filler: _ } => {},
        ClassExpression::ObjectHasValue { property: _, value: _ } => {},
        ClassExpression::ObjectHasSelf(_) => {},
        ClassExpression::ObjectMinCardinality { min: _, property: _, filler: _ } => {},
        ClassExpression::ObjectMaxCardinality { max: _, property: _, filler: _ } => {},
        ClassExpression::ObjectExactCardinality { cardinality: _, property: _, filler: _ } => {},
    }
}

/// An axiom and its value agree on being a disjoint-classes axiom.
pub proof fn lemma_axiom_view_disjoint(a: Axiom)
    ensures
        a@ matches SpecAxiom::Class(SpecClassAxiom::DisjointClasses { classes }) ==> a matches
            Axiom::Class(ClassAxiom::DisjointClasses { classes: cs }) && classes == spec_ce_seq(
            cs@,
        ),
{
    match a {
        Axiom::Class(ClassAxiom::SubClassOf { sub_class: _, super_class: _ }) => {},
        Axiom::Class(ClassAxiom::EquivalentClasses { classes: _ }) => {},
        Axiom::Class(ClassAxiom::DisjointClasses { classes: _ }) => {},
        Axiom::Class(ClassAxiom::DisjointUnion { class: _, disjoint_classes: _ }) => {},
        Axiom::ObjectProperty(_) => {},
        Axiom::DataProperty(_) => {},
        Axiom::Assertion(_) => {},
    }
}

/// An axiom and its value agree on being a same- or different-individuals
/// assertion.
pub proof fn lemma_axiom_view_same_diff(a: Axiom)
    ensures
        a@ matches SpecAxiom::Assertion(SpecAssertion::SameIndividual { individuals }) ==> a
            matches Axiom::Assertion(Assertion::SameIndividual { individuals: inds })
            && individuals == spec_individual_seq(inds@),
        a@ matches SpecAxiom::Assertion(SpecAssertion::DifferentIndividuals { individuals }) ==> a
            matches Axiom::Assertion(Assertion::DifferentIndividuals { individuals: inds })
            && individuals == spec_individual_seq(inds@),
{
    match a {
        Axiom::Class(_) => {},
        Axiom::ObjectProperty(_) => {},
        Axiom::DataProperty(_) => {},
        Axiom::Assertion(Assertion::SameIndividual { individuals: _ }) => {},
        Axiom::Assertion(Assertion::DifferentIndividuals { individuals: _ }) => {},
        Axiom::Assertion(Assertion::ClassAssertion { class: _, individual: _ }) => {},
        Axiom::Assertion(Assertion::ObjectPropertyAssertion {
            property: _,
            source: _,
            target: _,
        }) => {},
        Axiom::Assertion(Assertion::DataPropertyAssertion {
            property: _,
            source: _,
            target: _,
        }) => {},
        Axiom::Assertion(Assertion::NegativeObjectPropertyAssertion {
            property: _,
            source: _,
            target: _,
        }) => {},
        Axiom::Assertion(Assertion::NegativeDataPropertyAssertion {
            property: _,
            source: _,
            target: _,
        }) => {},
        Axiom::Assertion(Assertion::HasKey {
            class: _,
            object_property_expression: _,
            data_property: _,
        }) => {},
    }
}



/// Builds the assertion that a fresh test individual is in `c` but not `d`.
fn subsumption_test_axiom(c: &Class, d: &Class) -> (r: Axiom)
    ensures
        r@ == spec_subsumption_test_axiom(c@, d@),
{
    let first = ClassExpression::Class(c.clone());
    let inner = ClassExpression::Class(d.clone());
    proof {
        assert(first@ == SpecClassExpr::Class(c@));
        assert(inner@ == SpecClassExpr::Class(d@));
    }
    let second = ClassExpression::ObjectComplementOf(Box::new(inner));
    proof {
        assert(second@ == SpecClassExpr::ObjectComplementOf(Box::new(SpecClassExpr::Class(d@))));
    }
    let fillers = vec![first, second];
    proof {
        lemma_spec_ce_seq(fillers@);
        assert(spec_ce_seq(fillers@) =~= seq![
            SpecClassExpr::Class(c@),
            SpecClassExpr::ObjectComplementOf(Box::new(SpecClassExpr::Class(d@))),
        ]);
    }
    Axiom::Assertion(
        Assertion::ClassAssertion {
            class: ClassExpression::ObjectIntersectionOf(fillers),
            individual: Individual::Anonymous(NodeID(String::from_str("_:test"))),
        },
    )
}

/// Builds the assertion that `i` lies outside class `c`.
fn instance_test_axiom(i: &Individual, c: &Class) -> (r: Axiom)
    ensures
        r@ == spec_instance_test_axiom(i@, c@),
{
    let inner = ClassExpression::Class(c.clone());
    proof {
        assert(inner@ == SpecClassExpr::Class(c@));
    }
    let comp = ClassExpression::ObjectComplementOf(Box::new(inner));
    proof {
        assert(comp@ == SpecClassExpr::ObjectComplementOf(Box::new(SpecClassExpr::Class(c@))));
    }
    Axiom::Assertion(Assertion::ClassAssertion { class: comp, individual: i.clone() })
}

/// Returns a copy of the ontology with one more axiom at the end.
fn with_axiom(o: &Ontology, a: Axiom) -> (r: Ontology)
    ensures
        r@ == spec_with_axiom(o@, a@),
{
    let mut extended = o.clone();
    extended.axioms.push(a);
    proof {
        assert(extended@ =~= spec_with_axiom(o@, a@));
    }
    extended
}

/// One deterministic expansion round: the conjunction fixed point, the
/// forced disjunction resolutions, the existential rule, and the universal
/// rule, and whether any of them changed the graph.  No disjunction is
/// guessed here; open choices are left for the search.
pub open spec fn spec_step_safe(g: SpecGraph, om: Seq<SpecClassExpr>) -> (SpecGraph, bool) {
    let (g1, c1) = spec_conj_fix(g, MAX_EXPANSION_ROUNDS as int);
    let (g2, c2) = spec_disj_nodes(g1.nodes, g1, 0, true);
    let (g3, c3) = spec_exist(g2, om);
    let (g4, c4) = spec_univ(g3);
    (g4, c1 || c2 || c3 || c4)
}

/// The graph after deterministic expansion rounds until none changes
/// anything, with at most `fuel` rounds.
pub open spec fn spec_expand_safe(g: SpecGraph, om: Seq<SpecClassExpr>, fuel: int) -> SpecGraph
    decreases fuel,
{
    if fuel <= 0 {
        g
    } else {
        let (g1, ch) = spec_step_safe(g, om);
        if !ch {
            g1
        } else {
            spec_expand_safe(g1, om, fuel - 1)
        }
    }
}

/// Whether a union is unresolved: no disjunct is in the label and at least
/// two disjuncts are still open, so a choice is needed.
pub open spec fn spec_union_unresolved(label: Seq<SpecClassExpr>, ds: Seq<SpecClassExpr>) -> bool {
    ds.len() > 0 && !spec_label_has(label, ds) && spec_open_count(label, ds, 0) >= 2
}

/// The first unresolved union among a node's concepts, from `j` on.
pub open spec fn spec_find_union_in(n: SpecNode, j: int) -> Option<Seq<SpecClassExpr>>
    decreases n.concepts.len() - j,
{
    if j < 0 || j >= n.concepts.len() {
        None
    } else if n.concepts[j] matches SpecClassExpr::ObjectUnionOf(ds)
        && spec_union_unresolved(n.concepts, ds) {
        match n.concepts[j] {
            SpecClassExpr::ObjectUnionOf(ds) => Some(ds),
            _ => None,
        }
    } else {
        spec_find_union_in(n, j + 1)
    }
}

/// The first unresolved union in the graph, from node `i` on, with the
/// individual whose label holds it.
pub open spec fn spec_find_union(g: SpecGraph, i: int) -> Option<
    (SpecIndividual, Seq<SpecClassExpr>),
>
    decreases g.nodes.len() - i,
{
    if i < 0 || i >= g.nodes.len() {
        None
    } else {
        match spec_find_union_in(g.nodes[i], 0) {
            Some(ds) => Some((g.nodes[i].individual, ds)),
            None => spec_find_union(g, i + 1),
        }
    }
}

/// The depth-first search over disjunction choices: expand deterministically,
/// stop on a clash, and otherwise branch on the first unresolved union,
/// restoring the graph between alternatives.  The result is false exactly
/// when every alternative reaches a clash; when the branching budget runs
/// out an open branch counts as clash-free.
pub open spec fn spec_search(g: SpecGraph, o: SpecOntology, fuel: int) -> bool
    decreases fuel, 1int, 0int,
{
    let g1 = spec_expand_safe(g, spec_omega(o.axioms), MAX_EXPANSION_ROUNDS as int);
    if spec_has_clash(g1, o.axioms) {
        false
    } else {
        match spec_find_union(g1, 0) {
            None => true,
            Some((ind, ds)) => if fuel <= 0 {
                true
            } else {
                spec_try_branches(g1, ind, ds, 0, o, fuel)
            },
        }
    }
}

/// Whether some disjunct from `k` on leads to a clash-free completion.
pub open spec fn spec_try_branches(
    g: SpecGraph,
    ind: SpecIndividual,
    ds: Seq<SpecClassExpr>,
    k: int,
    o: SpecOntology,
    fuel: int,
) -> bool
    decreases fuel, 0int, ds.len() - k,
{
    if fuel <= 0 || k < 0 || k >= ds.len() {
        false
    } else {
        spec_search(spec_add_concept(g, ind, ds[k]).0, o, fuel - 1) || spec_try_branches(
            g,
            ind,
            ds,
            k + 1,
            o,
            fuel,
        )
    }
}

/// Whether the tableau procedure, started on graph `g`, finds the ontology
/// consistent: seeded, expanded, and searched over the disjunction choices
/// without finding an unavoidable clash.  Opaque so that the services built
/// on consistency treat it as one predicate.
#[verifier::opaque]
pub open spec fn spec_consistent_from(g: SpecGraph, o: SpecOntology) -> bool {
    spec_search(spec_initialize(g, o), o, MAX_EXPANSION_ROUNDS as int)
}

/// Whether the tableau procedure finds the ontology consistent, starting
/// from the empty graph.
pub open spec fn spec_consistent(o: SpecOntology) -> bool {
    spec_consistent_from(spec_empty_graph(), o)
}

/// The anonymous individual used to test subsumption.
pub open spec fn spec_test_individual() -> SpecIndividual {
    SpecIndividual::Anonymous("_:test"@)
}

/// The ontology `o` with one more axiom at the end.
pub open spec fn spec_with_axiom(o: SpecOntology, a: SpecAxiom) -> SpecOntology {
    SpecOntology { axioms: o.axioms.push(a), ..o }
}

/// The assertion that a fresh test individual is in `c` but not in `d`.
pub open spec fn spec_subsumption_test_axiom(c: Seq<char>, d: Seq<char>) -> SpecAxiom {
    SpecAxiom::Assertion(
        SpecAssertion::ClassAssertion {
            class: SpecClassExpr::ObjectIntersectionOf(
                seq![
                    SpecClassExpr::Class(c),
                    SpecClassExpr::ObjectComplementOf(Box::new(SpecClassExpr::Class(d))),
                ],
            ),
            individual: spec_test_individual(),
        },
    )
}

/// Whether `c` is subsumed by `d` under the ontology: the ontology is
/// already inconsistent, or adding a test individual in `c` but not `d`
/// makes it inconsistent.
pub open spec fn spec_subsumed(o: SpecOntology, c: Seq<char>, d: Seq<char>) -> bool {
    !spec_consistent(o) || !spec_consistent(
        spec_with_axiom(o, spec_subsumption_test_axiom(c, d)),
    )
}

/// The assertion that `i` is outside class `c`.
pub open spec fn spec_instance_test_axiom(i: SpecIndividual, c: Seq<char>) -> SpecAxiom {
    SpecAxiom::Assertion(
        SpecAssertion::ClassAssertion {
            class: SpecClassExpr::ObjectComplementOf(Box::new(SpecClassExpr::Class(c))),
            individual: i,
        },
    )
}

/// Whether `i` is an instance of class `c` under the ontology: the ontology
/// is already inconsistent, or asserting `i` outside `c` makes it
/// inconsistent.
pub open spec fn spec_instance(o: SpecOntology, i: SpecIndividual, c: Seq<char>) -> bool {
    !spec_consistent(o) || !spec_consistent(spec_with_axiom(o, spec_instance_test_axiom(i, c)))
}

impl TableauReasoner {
    /// Initializes the completion graph and expands it to a fixed point;
    /// returns whether the result is clash-free.
    #[verifier::rlimit(100)]
    pub fn is_consistent(&mut self) -> (r: bool)
        ensures
            final(self).ontology@ == old(self).ontology@,
            final(self).graph@ == spec_expand_safe(
                spec_initialize(old(self).graph@, old(self).ontology@),
                spec_omega(old(self).ontology@.axioms),
                MAX_EXPANSION_ROUNDS as int,
            ),
            r == spec_consistent_from(old(self).graph@, old(self).ontology@),
    {
        proof {
            reveal(spec_consistent_from);
        }
        self.initialize();
        let mut scratch = TableauReasoner {
            ontology: self.ontology.clone(),
            graph: clone_graph(&self.graph),
        };
        self.expand_safe();
        scratch.search(MAX_EXPANSION_ROUNDS)
    }

    /// Runs the deterministic expansion to a fixed point in place, following
    /// [`spec_expand_safe`]: the conjunction fixed point, forced disjunction
    /// resolutions, and the existential and universal rules, repeated until
    /// a round changes nothing.
    #[verifier::rlimit(100)]
    fn expand_safe(&mut self)
        ensures
            final(self).ontology@ == old(self).ontology@,
            final(self).graph@ == spec_expand_safe(
                old(self).graph@,
                spec_omega(old(self).ontology@.axioms),
                MAX_EXPANSION_ROUNDS as int,
            ),
    {
        let ghost ginit = self.graph@;
        let ghost omv = spec_omega(self.ontology@.axioms);
        let mut rounds: usize = 0;
        let mut done = false;
        while !done && rounds < MAX_EXPANSION_ROUNDS
            invariant
                self.ontology@ == old(self).ontology@,
                omv == spec_omega(self.ontology@.axioms),
                rounds <= MAX_EXPANSION_ROUNDS,
                !done ==> spec_expand_safe(ginit, omv, MAX_EXPANSION_ROUNDS as int)
                    == spec_expand_safe(self.graph@, omv, MAX_EXPANSION_ROUNDS - rounds),
                done ==> spec_expand_safe(ginit, omv, MAX_EXPANSION_ROUNDS as int) == self.graph@,
            decreases MAX_EXPANSION_ROUNDS - rounds,
        {
            let ghost gcur = self.graph@;
            let c1 = self.apply_conjunction_rule();
            let c2 = self.disj_pass(true);
            let c3 = self.apply_existential_rule();
            let c4 = self.apply_universal_rule();
            let ch = c1 || c2 || c3 || c4;
            proof {
                assert(spec_step_safe(gcur, omv) == (self.graph@, ch));
            }
            rounds = rounds + 1;
            if !ch {
                done = true;
            }
        }
    }

    /// Returns the first unresolved union in the graph with its individual,
    /// following [`spec_find_union`].
    #[verifier::rlimit(100)]
    fn find_unresolved_union(&self) -> (r: Option<(Individual, Vec<ClassExpression>)>)
        ensures
            match r {
                Option::None => spec_find_union(self.graph@, 0) is None,
                Option::Some((ind, ds)) => spec_find_union(self.graph@, 0) == Some(
                    (ind@, spec_ce_seq(ds@)),
                ),
            },
    {
        let ghost gv = self.graph@;
        let n = self.graph.nodes.len();
        let mut i: usize = 0;
        while i < n
            invariant
                gv == self.graph@,
                n == self.graph.nodes@.len(),
                i <= n,
                spec_find_union(gv, 0) == spec_find_union(gv, i as int),
            decreases n - i,
        {
            let node = &self.graph.nodes[i];
            let ghost nv = gv.nodes[i as int];
            proof {
                assert(nv == self.graph.nodes@[i as int]@);
                lemma_spec_ce_seq(node.concepts@);
            }
            let cn = node.concepts.len();
            let mut j: usize = 0;
            while j < cn
                invariant
                    gv == self.graph@,
                    i < self.graph.nodes@.len(),
                    nv == self.graph.nodes@[i as int]@,
                    nv == gv.nodes[i as int],
                    cn == self.graph.nodes@[i as int].concepts@.len(),
                    nv.concepts.len() == cn,
                    j <= cn,
                    spec_find_union(gv, 0) == spec_find_union(gv, i as int),
                    spec_find_union_in(nv, 0) == spec_find_union_in(nv, j as int),
                decreases cn - j,
            {
                proof {
                    lemma_spec_ce_seq(self.graph.nodes@[i as int].concepts@);
                    lemma_ce_view_variant(self.graph.nodes@[i as int].concepts@[j as int]);
                }
                if let ClassExpression::ObjectUnionOf(ds) = &self.graph.nodes[i].concepts[j] {
                    proof {
                        assert(nv.concepts[j as int] == SpecClassExpr::ObjectUnionOf(
                            spec_ce_seq(ds@),
                        ));
                    }
                    if union_unresolved(&self.graph.nodes[i].concepts, ds) {
                        let ind = self.graph.nodes[i].individual.clone();
                        let picked = clone_ce_vec(ds);
                        proof {
                            assert(spec_find_union_in(nv, j as int) == Some(spec_ce_seq(ds@)));
                            assert(spec_find_union(gv, i as int) == Some(
                                (nv.individual, spec_ce_seq(ds@)),
                            ));
                        }
                        return Option::Some((ind, picked));
                    }
                }
                j = j + 1;
            }
            i = i + 1;
        }
        Option::None
    }

    /// Searches the disjunction choices depth first, following
    /// [`spec_search`]: the graph is expanded deterministically, a clash
    /// closes the branch, and otherwise the first unresolved union is tried
    /// one disjunct at a time with the graph restored in between.
    #[verifier::rlimit(100)]
    fn search(&mut self, fuel: usize) -> (r: bool)
        ensures
            final(self).ontology@ == old(self).ontology@,
            r == spec_search(old(self).graph@, old(self).ontology@, fuel as int),
        decreases fuel,
    {
        self.expand_safe();
        if self.has_clash() {
            return false;
        }
        match self.find_unresolved_union() {
            Option::None => true,
            Option::Some((ind, ds)) => {
                if fuel == 0 {
                    return true;
                }
                let ghost g1 = self.graph@;
                let ghost o = self.ontology@;
                let ghost dsv = spec_ce_seq(ds@);
                let master = clone_graph(&self.graph);
                proof {
                    lemma_spec_ce_seq(ds@);
                }
                let mut k: usize = 0;
                while k < ds.len()
                    invariant
                        self.ontology@ == o,
                        o == old(self).ontology@,
                        master@ == g1,
                        dsv == spec_ce_seq(ds@),
                        dsv.len() == ds@.len(),
                        fuel >= 1,
                        k <= dsv.len(),
                        g1 == spec_expand_safe(
                            old(self).graph@,
                            spec_omega(o.axioms),
                            MAX_EXPANSION_ROUNDS as int,
                        ),
                        !spec_has_clash(g1, o.axioms),
                        spec_find_union(g1, 0) == Some((ind@, dsv)),
                        spec_try_branches(g1, ind@, dsv, 0, o, fuel as int) == spec_try_branches(
                            g1,
                            ind@,
                            dsv,
                            k as int,
                            o,
                            fuel as int,
                        ),
                    decreases ds.len() - k,
                {
                    proof {
                        lemma_spec_ce_seq(ds@);
                    }
                    self.graph = clone_graph(&master);
                    self.graph.add_concept(&ind, clone_ce(&ds[k]));
                    if self.search(fuel - 1) {
                        return true;
                    }
                    k = k + 1;
                }
                false
            },
        }
    }

    /// Returns whether class `c` is subsumed by class `d` under the
    /// ontology, by testing an individual in `c` outside `d`.
    #[verifier::rlimit(100)]
    pub fn is_subsumed_by(&self, c: &Class, d: &Class) -> (r: bool)
        ensures
            r == spec_subsumed(self.ontology@, c@, d@),
    {
        let test_axiom = subsumption_test_axiom(c, d);
        let extended = with_axiom(&self.ontology, test_axiom);
        let mut base = TableauReasoner::new(self.ontology.clone());
        if !base.is_consistent() {
            return true;
        }
        let mut temp = TableauReasoner::new(extended);
        !temp.is_consistent()
    }

    /// Returns whether `individual` is an instance of `class` under the
    /// ontology, by testing the individual outside the class.
    #[verifier::rlimit(100)]
    pub fn is_instance_of(&mut self, individual: &Individual, class: &Class) -> (r: bool)
        ensures
            final(self).ontology@ == old(self).ontology@,
            r == spec_instance(old(self).ontology@, individual@, class@),
    {
        let test_axiom = instance_test_axiom(individual, class);
        let extended = with_axiom(&self.ontology, test_axiom);
        let consistent = {
            let mut base = TableauReasoner::new(self.ontology.clone());
            base.is_consistent()
        };
        if !consistent {
            return true;
        }
        let mut temp = TableauReasoner::new(extended);
        !temp.is_consistent()
    }
}


/// Mathematical values of a sequence of classes.
pub open spec fn spec_class_seq(s: Seq<Class>) -> Seq<Seq<char>> {
    s.map_values(|x: Class| x@)
}

/// The named classes of a class expression, in syntactic order.
pub open spec fn spec_extract_ce(c: SpecClassExpr) -> Seq<Seq<char>>
    decreases c, 1int,
{
    match c {
        SpecClassExpr::Class(n) => seq![n],
        SpecClassExpr::ObjectIntersectionOf(cs) => spec_extract_ce_seq(cs),
        SpecClassExpr::ObjectUnionOf(cs) => spec_extract_ce_seq(cs),
        SpecClassExpr::ObjectComplementOf(e) => spec_extract_ce(*e),
        SpecClassExpr::ObjectOneOf(_) => Seq::empty(),
        SpecClassExpr::ObjectSomeValuesFrom { property, filler } => spec_extract_ce(*filler),
        SpecClassExpr::ObjectAllValuesFrom { property, filler } => spec_extract_ce(*filler),
        SpecClassExpr::ObjectHasValue { property, value } => Seq::empty(),
        SpecClassExpr::ObjectHasSelf(_) => Seq::empty(),
        SpecClassExpr::ObjectMinCardinality { min, property, filler } => match filler {
            Some(f) => spec_extract_ce(*f),
            None => Seq::empty(),
        },
        SpecClassExpr::ObjectMaxCardinality { max, property, filler } => match filler {
            Some(f) => spec_extract_ce(*f),
            None => Seq::empty(),
        },
        SpecClassExpr::ObjectExactCardinality { cardinality, property, filler } => match filler {
            Some(f) => spec_extract_ce(*f),
            None => Seq::empty(),
        },
    }
}

/// The named classes of a sequence of class expressions, in order.
pub open spec fn spec_extract_ce_seq(cs: Seq<SpecClassExpr>) -> Seq<Seq<char>>
    decreases cs, 0int,
{
    if cs.len() == 0 {
        Seq::empty()
    } else {
        spec_extract_ce_seq(cs.drop_last()) + spec_extract_ce(cs.last())
    }
}

/// The named classes an axiom mentions in class positions, in order.
pub open spec fn spec_extract_axiom(a: SpecAxiom) -> Seq<Seq<char>> {
    match a {
        SpecAxiom::Class(ca) => match ca {
            SpecClassAxiom::SubClassOf { sub_class, super_class } => spec_extract_ce(sub_class)
                + spec_extract_ce(super_class),
            SpecClassAxiom::EquivalentClasses { classes } => spec_extract_ce_seq(classes),
            SpecClassAxiom::DisjointClasses { classes } => spec_extract_ce_seq(classes),
            SpecClassAxiom::DisjointUnion { class, disjoint_classes } => seq![class]
                + spec_extract_ce_seq(disjoint_classes),
        },
        SpecAxiom::ObjectProperty(oa) => match oa {
            SpecObjectPropertyAxiom::ObjectPropertyDomain { property, domain } => spec_extract_ce(
                domain,
            ),
            SpecObjectPropertyAxiom::ObjectPropertyRange { property, range } => spec_extract_ce(
                range,
            ),
            _ => Seq::empty(),
        },
        SpecAxiom::DataProperty(da) => match da {
            SpecDataPropertyAxiom::DataPropertyDomain { property, domain } => spec_extract_ce(
                domain,
            ),
            _ => Seq::empty(),
        },
        SpecAxiom::Assertion(asr) => match asr {
            SpecAssertion::ClassAssertion { class, individual } => spec_extract_ce(class),
            _ => Seq::empty(),
        },
    }
}

/// The named classes of all axioms, in order.
pub open spec fn spec_extract_axioms(axs: Seq<SpecAxiom>) -> Seq<Seq<char>>
    decreases axs,
{
    if axs.len() == 0 {
        Seq::empty()
    } else {
        spec_extract_axioms(axs.drop_last()) + spec_extract_axiom(axs.last())
    }
}

/// The sequence with later duplicates removed: each name keeps its first
/// occurrence.
pub open spec fn spec_dedup(s: Seq<Seq<char>>) -> Seq<Seq<char>>
    decreases s,
{
    if s.len() == 0 {
        Seq::empty()
    } else {
        let r = spec_dedup(s.drop_last());
        if r.contains(s.last()) {
            r
        } else {
            r.push(s.last())
        }
    }
}

/// The distinct named classes of the ontology, in order of first mention.
pub open spec fn spec_named_classes(o: SpecOntology) -> Seq<Seq<char>> {
    spec_dedup(spec_extract_axioms(o.axioms))
}

/// Returns whether a vector of classes holds a given name.
pub fn class_vec_contains(v: &Vec<Class>, c: &Class) -> (r: bool)
    ensures
        r == spec_class_seq(v@).contains(c@),
{
    for j in 0..v.len()
        invariant
            forall|k: int| 0 <= k < j ==> v@[k]@ != c@,
    {
        if class_eq(&v[j], c) {
            assert(spec_class_seq(v@)[j as int] == c@);
            return true;
        }
    }
    proof {
        if spec_class_seq(v@).contains(c@) {
            let k = choose|k: int|
                0 <= k < spec_class_seq(v@).len() && spec_class_seq(v@)[k] == c@;
            assert(v@[k]@ == c@);
        }
    }
    false
}

/// Collects the named classes of a vector of class expressions into `out`.
fn extract_ce_vec_into(x: &ClassExpression, cs: &Vec<ClassExpression>, out: &mut Vec<Class>)
    requires
        decreases_to!(*x => *cs),
    ensures
        spec_class_seq(final(out)@) == spec_class_seq(old(out)@) + spec_extract_ce_seq(
            spec_ce_seq(cs@),
        ),
    decreases *x, 0int,
{
    let ghost csv = spec_ce_seq(cs@);
    let ghost base = spec_class_seq(out@);
    proof {
        lemma_spec_ce_seq(cs@);
        assert(spec_class_seq(out@) =~= base + spec_extract_ce_seq(csv.subrange(0, 0)));
    }
    for i in 0..cs.len()
        invariant
            csv == spec_ce_seq(cs@),
            csv.len() == cs@.len(),
            decreases_to!(*x => *cs),
            spec_class_seq(out@) == base + spec_extract_ce_seq(csv.subrange(0, i as int)),
    {
        proof {
            lemma_spec_ce_seq(cs@);
            assert(decreases_to!(*cs => cs@));
            vstd::std_specs::vec::axiom_vec_index_decreases::<ClassExpression>(*cs, i as int);
            assert(decreases_to!(*x => cs@[i as int]));
        }
        extract_ce_into(&cs[i], out);
        proof {
            assert(csv.subrange(0, i as int + 1).drop_last() =~= csv.subrange(0, i as int));
            assert(csv.subrange(0, i as int + 1).last() == csv[i as int]);
        }
    }
    proof {
        assert(csv.subrange(0, csv.len() as int) =~= csv);
    }
}

/// Collects the named classes of a class expression into `out`, in
/// syntactic order.
pub fn extract_ce_into(x: &ClassExpression, out: &mut Vec<Class>)
    ensures
        spec_class_seq(final(out)@) == spec_class_seq(old(out)@) + spec_extract_ce((*x)@),
    decreases *x, 1int,
{
    let ghost base = spec_class_seq(old(out)@);
    match x {
        ClassExpression::Class(c) => {
            out.push(c.clone());
            proof {
                assert(spec_class_seq(final(out)@) =~= base + seq![c@]);
            }
        },
        ClassExpression::ObjectIntersectionOf(cs) => {
            proof {
                assert(decreases_to!(*x => x->ObjectIntersectionOf_0));
            }
            extract_ce_vec_into(x, cs, out);
        },
        ClassExpression::ObjectUnionOf(cs) => {
            proof {
                assert(decreases_to!(*x => x->ObjectUnionOf_0));
            }
            extract_ce_vec_into(x, cs, out);
        },
        ClassExpression::ObjectComplementOf(e) => {
            proof {
                assert(decreases_to!(*x => x->ObjectComplementOf_0));
            }
            extract_ce_into(&*e, out);
        },
        ClassExpression::ObjectOneOf(_) => {
            proof {
                assert(spec_class_seq(final(out)@) =~= base + spec_extract_ce((*x)@));
            }
        },
        ClassExpression::ObjectSomeValuesFrom { property: _, filler } => {
            proof {
                assert(decreases_to!(*x => x->ObjectSomeValuesFrom_filler));
            }
            extract_ce_into(&*filler, out);
        },
        ClassExpression::ObjectAllValuesFrom { property: _, filler } => {
            proof {
                assert(decreases_to!(*x => x->ObjectAllValuesFrom_filler));
            }
            extract_ce_into(&*filler, out);
        },
        ClassExpression::ObjectHasValue { property: _, value: _ } => {
            proof {
                assert(spec_class_seq(final(out)@) =~= base + spec_extract_ce((*x)@));
            }
        },
        ClassExpression::ObjectHasSelf(_) => {
            proof {
                assert(spec_class_seq(final(out)@) =~= base + spec_extract_ce((*x)@));
            }
        },
        ClassExpression::ObjectMinCardinality { min: _, property: _, filler } => {
            match filler {
                Option::Some(f) => {
                    proof {
                        assert(decreases_to!(*x => x->ObjectMinCardinality_filler));
                        assert(decreases_to!(
                            x->ObjectMinCardinality_filler => x->ObjectMinCardinality_filler->0));
                    }
                    extract_ce_into(&*f, out);
                },
                Option::None => {
                    proof {
                        assert(spec_class_seq(final(out)@) =~= base + spec_extract_ce((*x)@));
                    }
                },
            }
        },
        ClassExpression::ObjectMaxCardinality { max: _, property: _, filler } => {
            match filler {
                Option::Some(f) => {
                    proof {
                        assert(decreases_to!(*x => x->ObjectMaxCardinality_filler));
                        assert(decreases_to!(
                            x->ObjectMaxCardinality_filler => x->ObjectMaxCardinality_filler->0));
                    }
                    extract_ce_into(&*f, out);
                },
                Option::None => {
                    proof {
                        assert(spec_class_seq(final(out)@) =~= base + spec_extract_ce((*x)@));
                    }
                },
            }
        },
        ClassExpression::ObjectExactCardinality { cardinality: _, property: _, filler } => {
            match filler {
                Option::Some(f) => {
                    proof {
                        assert(decreases_to!(*x => x->ObjectExactCardinality_filler));
                        assert(decreases_to!(
                            x->ObjectExactCardinality_filler
                                => x->ObjectExactCardinality_filler->0));
                    }
                    extract_ce_into(&*f, out);
                },
                Option::None => {
                    proof {
                        assert(spec_class_seq(final(out)@) =~= base + spec_extract_ce((*x)@));
                    }
                },
            }
        },
    }
}

impl TableauReasoner {
    /// Collects the distinct named classes the ontology mentions in class
    /// positions, in order of first mention.
    pub fn extract_classes(&self) -> (r: Vec<Class>)
        ensures
            spec_class_seq(r@) == spec_named_classes(self.ontology@),
    {
        let ghost axs = self.ontology@.axioms;
        let mut raw: Vec<Class> = Vec::new();
        proof {
            assert(spec_class_seq(raw@) =~= Seq::<Seq<char>>::empty() + spec_extract_axioms(
                axs.subrange(0, 0),
            ));
        }
        let mut i: usize = 0;
        while i < self.ontology.axioms.len()
            invariant
                axs == self.ontology@.axioms,
                axs.len() == self.ontology.axioms@.len(),
                i <= axs.len(),
                spec_class_seq(raw@) == spec_extract_axioms(axs.subrange(0, i as int)),
            decreases axs.len() - i,
        {
            let ghost base = spec_class_seq(raw@);
            match &self.ontology.axioms[i] {
                Axiom::Class(ca) => match ca {
                    ClassAxiom::SubClassOf { sub_class, super_class } => {
                        extract_ce_into(sub_class, &mut raw);
                        extract_ce_into(super_class, &mut raw);
                        proof {
                            assert(spec_class_seq(raw@) =~= base + spec_extract_axiom(
                                axs[i as int],
                            ));
                        }
                    },
                    ClassAxiom::EquivalentClasses { classes } => {
                        let ghost csv = spec_ce_seq(classes@);
                        let mut k: usize = 0;
                        proof {
                            lemma_spec_ce_seq(classes@);
                            assert(spec_class_seq(raw@) =~= base + spec_extract_ce_seq(
                                csv.subrange(0, 0),
                            ));
                        }
                        while k < classes.len()
                            invariant
                                csv == spec_ce_seq(classes@),
                                csv.len() == classes@.len(),
                                k <= csv.len(),
                                spec_class_seq(raw@) == base + spec_extract_ce_seq(
                                    csv.subrange(0, k as int),
                                ),
                            decreases classes.len() - k,
                        {
                            proof {
                                lemma_spec_ce_seq(classes@);
                            }
                            extract_ce_into(&classes[k], &mut raw);
                            proof {
                                assert(csv.subrange(0, k as int + 1).drop_last() =~= csv.subrange(
                                    0,
                                    k as int,
                                ));
                                assert(csv.subrange(0, k as int + 1).last() == csv[k as int]);
                            }
                            k = k + 1;
                        }
                        proof {
                            assert(csv.subrange(0, csv.len() as int) =~= csv);
                        }
                    },
                    ClassAxiom::DisjointClasses { classes } => {
                        let ghost csv = spec_ce_seq(classes@);
                        let mut k: usize = 0;
                        proof {
                            lemma_spec_ce_seq(classes@);
                            assert(spec_class_seq(raw@) =~= base + spec_extract_ce_seq(
                                csv.subrange(0, 0),
                            ));
                        }
                        while k < classes.len()
                            invariant
                                csv == spec_ce_seq(classes@),
                                csv.len() == classes@.len(),
                                k <= csv.len(),
                                spec_class_seq(raw@) == base + spec_extract_ce_seq(
                                    csv.subrange(0, k as int),
                                ),
                            decreases classes.len() - k,
                        {
                            proof {
                                lemma_spec_ce_seq(classes@);
                            }
                            extract_ce_into(&classes[k], &mut raw);
                            proof {
                                assert(csv.subrange(0, k as int + 1).drop_last() =~= csv.subrange(
                                    0,
                                    k as int,
                                ));
                                assert(csv.subrange(0, k as int + 1).last() == csv[k as int]);
                            }
                            k = k + 1;
                        }
                        proof {
                            assert(csv.subrange(0, csv.len() as int) =~= csv);
                        }
                    },
                    ClassAxiom::DisjointUnion { class, disjoint_classes } => {
                        raw.push(class.clone());
                        let ghost csv = spec_ce_seq(disjoint_classes@);
                        let ghost base2 = spec_class_seq(raw@);
                        proof {
                            lemma_spec_ce_seq(disjoint_classes@);
                            assert(base2 =~= base + seq![class@]);
                            assert(spec_class_seq(raw@) =~= base2 + spec_extract_ce_seq(
                                csv.subrange(0, 0),
                            ));
                        }
                        let mut k: usize = 0;
                        while k < disjoint_classes.len()
                            invariant
                                csv == spec_ce_seq(disjoint_classes@),
                                csv.len() == disjoint_classes@.len(),
                                k <= csv.len(),
                                spec_class_seq(raw@) == base2 + spec_extract_ce_seq(
                                    csv.subrange(0, k as int),
                                ),
                            decreases disjoint_classes.len() - k,
                        {
                            proof {
                                lemma_spec_ce_seq(disjoint_classes@);
                            }
                            extract_ce_into(&disjoint_classes[k], &mut raw);
                            proof {
                                assert(csv.subrange(0, k as int + 1).drop_last() =~= csv.subrange(
                                    0,
                                    k as int,
                                ));
                                assert(csv.subrange(0, k as int + 1).last() == csv[k as int]);
                            }
                            k = k + 1;
                        }
                        proof {
                            assert(csv.subrange(0, csv.len() as int) =~= csv);
                            assert(spec_class_seq(raw@) =~= base + spec_extract_axiom(
                                axs[i as int],
                            ));
                        }
                    },
                },
                Axiom::ObjectProperty(oa) => match oa {
                    ObjectPropertyAxiom::ObjectPropertyDomain { property: _, domain } => {
                        extract_ce_into(domain, &mut raw);
                    },
                    ObjectPropertyAxiom::ObjectPropertyRange { property: _, range } => {
                        extract_ce_into(range, &mut raw);
                    },
                    _ => {
                        proof {
                            assert(spec_class_seq(raw@) =~= base + spec_extract_axiom(
                                axs[i as int],
                            ));
                        }
                    },
                },
                Axiom::DataProperty(da) => match da {
                    DataPropertyAxiom::DataPropertyDomain { property: _, domain } => {
                        extract_ce_into(domain, &mut raw);
                    },
                    _ => {
                        proof {
                            assert(spec_class_seq(raw@) =~= base + spec_extract_axiom(
                                axs[i as int],
                            ));
                        }
                    },
                },
                Axiom::Assertion(asr) => match asr {
                    Assertion::ClassAssertion { class, individual: _ } => {
                        extract_ce_into(class, &mut raw);
                    },
                    _ => {
                        proof {
                            assert(spec_class_seq(raw@) =~= base + spec_extract_axiom(
                                axs[i as int],
                            ));
                        }
                    },
                },
            }
            proof {
                assert(spec_class_seq(raw@) == base + spec_extract_axiom(axs[i as int]));
                assert(axs.subrange(0, i as int + 1).drop_last() =~= axs.subrange(0, i as int));
                assert(axs.subrange(0, i as int + 1).last() == axs[i as int]);
            }
            i = i + 1;
        }
        proof {
            assert(axs.subrange(0, axs.len() as int) =~= axs);
        }
        let ghost rawv = spec_class_seq(raw@);
        let mut result: Vec<Class> = Vec::new();
        proof {
            assert(spec_class_seq(result@) =~= spec_dedup(rawv.subrange(0, 0)));
        }
        let mut k: usize = 0;
        while k < raw.len()
            invariant
                rawv == spec_class_seq(raw@),
                rawv.len() == raw@.len(),
                k <= rawv.len(),
                spec_class_seq(result@) == spec_dedup(rawv.subrange(0, k as int)),
            decreases raw.len() - k,
        {
            if !class_vec_contains(&result, &raw[k]) {
                result.push(raw[k].clone());
                proof {
                    assert(spec_class_seq(result@) =~= spec_dedup(
                        rawv.subrange(0, k as int),
                    ).push(rawv[k as int]));
                }
            }
            proof {
                assert(rawv.subrange(0, k as int + 1).drop_last() =~= rawv.subrange(0, k as int));
                assert(rawv.subrange(0, k as int + 1).last() == rawv[k as int]);
            }
            k = k + 1;
        }
        proof {
            assert(rawv.subrange(0, rawv.len() as int) =~= rawv);
        }
        result
    }
}


/// Whether `ks[x]` is a direct subclass of `ks[y]`: subsumed, with no third
/// named class strictly between them.
pub open spec fn spec_direct(o: SpecOntology, ks: Seq<Seq<char>>, x: int, y: int) -> bool {
    &&& x != y
    &&& spec_subsumed(o, ks[x], ks[y])
    &&& !exists|b: int|
        0 <= b < ks.len() && b != x && b != y && spec_subsumed(o, ks[x], ks[b]) && #[trigger]
        spec_subsumed(o, ks[b], ks[y])
}

/// The direct superclasses of `ks[x]`, from index `d` on.
pub open spec fn spec_supers_of(o: SpecOntology, ks: Seq<Seq<char>>, x: int, d: int) -> Seq<
    Seq<char>,
>
    decreases ks.len() - d,
{
    if d < 0 || d >= ks.len() {
        Seq::empty()
    } else {
        let rest = spec_supers_of(o, ks, x, d + 1);
        if spec_direct(o, ks, x, d) {
            seq![ks[d]] + rest
        } else {
            rest
        }
    }
}

/// The direct subclasses of `ks[y]`, from index `d` on.
pub open spec fn spec_subs_of(o: SpecOntology, ks: Seq<Seq<char>>, y: int, d: int) -> Seq<
    Seq<char>,
>
    decreases ks.len() - d,
{
    if d < 0 || d >= ks.len() {
        Seq::empty()
    } else {
        let rest = spec_subs_of(o, ks, y, d + 1);
        if spec_direct(o, ks, d, y) {
            seq![ks[d]] + rest
        } else {
            rest
        }
    }
}

/// The superclass entries of the hierarchy, from index `x` on: one entry
/// for every class with at least one direct superclass.
pub open spec fn spec_super_entries(o: SpecOntology, ks: Seq<Seq<char>>, x: int) -> Seq<
    (Seq<char>, Seq<Seq<char>>),
>
    decreases ks.len() - x,
{
    if x < 0 || x >= ks.len() {
        Seq::empty()
    } else {
        let rest = spec_super_entries(o, ks, x + 1);
        let sup = spec_supers_of(o, ks, x, 0);
        if sup.len() == 0 {
            rest
        } else {
            seq![(ks[x], sup)] + rest
        }
    }
}

/// The subclass entries of the hierarchy, from index `y` on: one entry for
/// every class with at least one direct subclass.
pub open spec fn spec_sub_entries(o: SpecOntology, ks: Seq<Seq<char>>, y: int) -> Seq<
    (Seq<char>, Seq<Seq<char>>),
>
    decreases ks.len() - y,
{
    if y < 0 || y >= ks.len() {
        Seq::empty()
    } else {
        let rest = spec_sub_entries(o, ks, y + 1);
        let sub = spec_subs_of(o, ks, y, 0);
        if sub.len() == 0 {
            rest
        } else {
            seq![(ks[y], sub)] + rest
        }
    }
}

/// Mathematical value of a [`ClassHierarchy`].
#[verifier::ext_equal]
pub struct SpecHierarchy {
    pub subclasses: Seq<(Seq<char>, Seq<Seq<char>>)>,
    pub superclasses: Seq<(Seq<char>, Seq<Seq<char>>)>,
}

/// The hierarchy classification computes: empty for an inconsistent
/// ontology, otherwise the direct subclass and superclass entries over the
/// named classes.
pub open spec fn spec_classify(o: SpecOntology) -> SpecHierarchy {
    if !spec_consistent(o) {
        SpecHierarchy { subclasses: Seq::empty(), superclasses: Seq::empty() }
    } else {
        let ks = spec_named_classes(o);
        SpecHierarchy {
            subclasses: spec_sub_entries(o, ks, 0),
            superclasses: spec_super_entries(o, ks, 0),
        }
    }
}

/// Mathematical values of hierarchy entries.
pub open spec fn spec_entry_seq(s: Seq<(Class, Vec<Class>)>) -> Seq<(Seq<char>, Seq<Seq<char>>)> {
    s.map_values(|p: (Class, Vec<Class>)| (p.0@, spec_class_seq(p.1@)))
}

/// The computed class hierarchy: for every named class with a direct
/// subclass or superclass, the list of those direct neighbours.
#[derive(Debug)]
pub struct ClassHierarchy {
    /// For each class, its direct subclasses, omitting empty entries.
    pub subclasses: Vec<(Class, Vec<Class>)>,
    /// For each class, its direct superclasses, omitting empty entries.
    pub superclasses: Vec<(Class, Vec<Class>)>,
}

impl View for ClassHierarchy {
    type V = SpecHierarchy;

    open spec fn view(&self) -> SpecHierarchy {
        SpecHierarchy {
            subclasses: spec_entry_seq(self.subclasses@),
            superclasses: spec_entry_seq(self.superclasses@),
        }
    }
}

impl ClassHierarchy {
    /// Creates an empty hierarchy.
    pub fn new() -> (r: Self)
        ensures
            r@.subclasses.len() == 0,
            r@.superclasses.len() == 0,
    {
        ClassHierarchy { subclasses: Vec::new(), superclasses: Vec::new() }
    }
}

impl TableauReasoner {
    /// Returns whether every pair of distinct named classes at indexes
    /// `(x, d)` of `ks` with `mat[x][d]` reflects the subsumption test.
    #[verifier::rlimit(100)]
    fn subsumption_matrix(&self, classes: &Vec<Class>) -> (mat: Vec<Vec<bool>>)
        ensures
            mat@.len() == classes@.len(),
            forall|x: int, y: int|
                0 <= x < classes@.len() && 0 <= y < classes@.len() ==> #[trigger] mat@[x]@[y]
                    == (x != y && spec_subsumed(
                    self.ontology@,
                    spec_class_seq(classes@)[x],
                    spec_class_seq(classes@)[y],
                )),
            forall|x: int| 0 <= x < classes@.len() ==> #[trigger] mat@[x]@.len() == classes@.len(),
    {
        let n = classes.len();
        let mut mat: Vec<Vec<bool>> = Vec::new();
        let mut x: usize = 0;
        while x < n
            invariant
                n == classes@.len(),
                mat@.len() == x,
                x <= n,
                forall|a: int| 0 <= a < x ==> #[trigger] mat@[a]@.len() == n,
                forall|a: int, y: int|
                    0 <= a < x && 0 <= y < n ==> #[trigger] mat@[a]@[y] == (a != y
                        && spec_subsumed(
                        self.ontology@,
                        spec_class_seq(classes@)[a],
                        spec_class_seq(classes@)[y],
                    )),
            decreases n - x,
        {
            let mut row: Vec<bool> = Vec::new();
            let mut y: usize = 0;
            while y < n
                invariant
                    n == classes@.len(),
                    row@.len() == y,
                    y <= n,
                    x < n,
                    forall|b: int|
                        0 <= b < y ==> #[trigger] row@[b] == (x as int != b && spec_subsumed(
                            self.ontology@,
                            spec_class_seq(classes@)[x as int],
                            spec_class_seq(classes@)[b],
                        )),
                decreases n - y,
            {
                let v = if x == y {
                    false
                } else {
                    self.is_subsumed_by(&classes[x], &classes[y])
                };
                row.push(v);
                y = y + 1;
            }
            mat.push(row);
            x = x + 1;
        }
        mat
    }

    /// Returns whether `ks[x]` is a direct subclass of `ks[y]` given the
    /// subsumption matrix.
    fn direct_of(&self, mat: &Vec<Vec<bool>>, classes: &Vec<Class>, x: usize, y: usize) -> (r:
        bool)
        requires
            x < classes@.len(),
            y < classes@.len(),
            mat@.len() == classes@.len(),
            forall|a: int| 0 <= a < classes@.len() ==> #[trigger] mat@[a]@.len() == classes@.len(),
            forall|a: int, b: int|
                0 <= a < classes@.len() && 0 <= b < classes@.len() ==> #[trigger] mat@[a]@[b] == (a
                    != b && spec_subsumed(
                    self.ontology@,
                    spec_class_seq(classes@)[a],
                    spec_class_seq(classes@)[b],
                )),
        ensures
            r == spec_direct(self.ontology@, spec_class_seq(classes@), x as int, y as int),
    {
        let ghost ks = spec_class_seq(classes@);
        if x == y {
            return false;
        }
        if !mat[x][y] {
            return false;
        }
        let n = classes.len();
        let mut b: usize = 0;
        while b < n
            invariant
                n == classes@.len(),
                x < n,
                y < n,
                x != y,
                b <= n,
                ks == spec_class_seq(classes@),
                mat@.len() == classes@.len(),
                spec_subsumed(self.ontology@, ks[x as int], ks[y as int]),
                forall|a: int|
                    0 <= a < classes@.len() ==> #[trigger] mat@[a]@.len() == classes@.len(),
                forall|a: int, c: int|
                    0 <= a < classes@.len() && 0 <= c < classes@.len() ==> #[trigger] mat@[a]@[c]
                        == (a != c && spec_subsumed(self.ontology@, ks[a], ks[c])),
                forall|m: int|
                    0 <= m < b && m != x && m != y ==> !(spec_subsumed(
                        self.ontology@,
                        ks[x as int],
                        ks[m],
                    ) && #[trigger] spec_subsumed(self.ontology@, ks[m], ks[y as int])),
            decreases n - b,
        {
            if b != x && b != y && mat[x][b] && mat[b][y] {
                return false;
            }
            b = b + 1;
        }
        true
    }

    /// Computes the class hierarchy: for an inconsistent ontology the
    /// hierarchy is empty; otherwise each pair of distinct named classes is
    /// tested for subsumption and the direct relations are recorded.
    #[verifier::rlimit(100)]
    pub fn classify(&mut self) -> (r: ClassHierarchy)
        ensures
            final(self).ontology@ == old(self).ontology@,
            r@ == spec_classify(old(self).ontology@),
    {
        let consistent = {
            let mut base = TableauReasoner::new(self.ontology.clone());
            let c = base.is_consistent();
            self.graph = base.graph;
            c
        };
        if !consistent {
            return ClassHierarchy::new();
        }
        let classes = self.extract_classes();
        let ghost ks = spec_class_seq(classes@);
        let mat = self.subsumption_matrix(&classes);
        let n = classes.len();
        let mut subclasses: Vec<(Class, Vec<Class>)> = Vec::new();
        let mut superclasses: Vec<(Class, Vec<Class>)> = Vec::new();
        let mut x: usize = 0;
        while x < n
            invariant
                self.ontology@ == old(self).ontology@,
                n == classes@.len(),
                ks == spec_class_seq(classes@),
                x <= n,
                mat@.len() == classes@.len(),
                forall|a: int|
                    0 <= a < classes@.len() ==> #[trigger] mat@[a]@.len() == classes@.len(),
                forall|a: int, c: int|
                    0 <= a < classes@.len() && 0 <= c < classes@.len() ==> #[trigger] mat@[a]@[c]
                        == (a != c && spec_subsumed(self.ontology@, ks[a], ks[c])),
                spec_super_entries(self.ontology@, ks, 0) == spec_entry_seq(superclasses@)
                    + spec_super_entries(self.ontology@, ks, x as int),
                spec_sub_entries(self.ontology@, ks, 0) == spec_entry_seq(subclasses@)
                    + spec_sub_entries(self.ontology@, ks, x as int),
            decreases n - x,
        {
            let mut sups: Vec<Class> = Vec::new();
            let mut subs: Vec<Class> = Vec::new();
            let mut d: usize = 0;
            while d < n
                invariant
                    self.ontology@ == old(self).ontology@,
                    n == classes@.len(),
                    ks == spec_class_seq(classes@),
                    x < n,
                    d <= n,
                    mat@.len() == classes@.len(),
                    forall|a: int|
                        0 <= a < classes@.len() ==> #[trigger] mat@[a]@.len() == classes@.len(),
                    forall|a: int, c: int|
                        0 <= a < classes@.len() && 0 <= c < classes@.len() ==> #[trigger]
                        mat@[a]@[c] == (a != c && spec_subsumed(self.ontology@, ks[a], ks[c])),
                    spec_supers_of(self.ontology@, ks, x as int, 0) == spec_class_seq(sups@)
                        + spec_supers_of(self.ontology@, ks, x as int, d as int),
                    spec_subs_of(self.ontology@, ks, x as int, 0) == spec_class_seq(subs@)
                        + spec_subs_of(self.ontology@, ks, x as int, d as int),
                decreases n - d,
            {
                if self.direct_of(&mat, &classes, x, d) {
                    let ghost before = spec_class_seq(sups@);
                    sups.push(classes[d].clone());
                    proof {
                        assert(spec_class_seq(sups@) =~= before.push(ks[d as int]));
                        assert(spec_class_seq(sups@) + spec_supers_of(
                            self.ontology@,
                            ks,
                            x as int,
                            d as int + 1,
                        ) =~= before + spec_supers_of(self.ontology@, ks, x as int, d as int));
                    }
                } else {
                    proof {
                        assert(spec_class_seq(sups@) + spec_supers_of(
                            self.ontology@,
                            ks,
                            x as int,
                            d as int + 1,
                        ) =~= spec_class_seq(sups@) + spec_supers_of(
                            self.ontology@,
                            ks,
                            x as int,
                            d as int,
                        ));
                    }
                }
                if self.direct_of(&mat, &classes, d, x) {
                    let ghost before2 = spec_class_seq(subs@);
                    subs.push(classes[d].clone());
                    proof {
                        assert(spec_class_seq(subs@) =~= before2.push(ks[d as int]));
                        assert(spec_class_seq(subs@) + spec_subs_of(
                            self.ontology@,
                            ks,
                            x as int,
                            d as int + 1,
                        ) =~= before2 + spec_subs_of(self.ontology@, ks, x as int, d as int));
                    }
                } else {
                    proof {
                        assert(spec_class_seq(subs@) + spec_subs_of(
                            self.ontology@,
                            ks,
                            x as int,
                            d as int + 1,
                        ) =~= spec_class_seq(subs@) + spec_subs_of(
                            self.ontology@,
                            ks,
                            x as int,
                            d as int,
                        ));
                    }
                }
                d = d + 1;
            }
            if sups.len() > 0 {
                let ghost before3 = spec_entry_seq(superclasses@);
                superclasses.push((classes[x].clone(), sups));
                proof {
                    assert(spec_entry_seq(superclasses@) =~= before3.push(
                        (ks[x as int], spec_supers_of(self.ontology@, ks, x as int, 0)),
                    ));
                    assert(spec_entry_seq(superclasses@) + spec_super_entries(
                        self.ontology@,
                        ks,
                        x as int + 1,
                    ) =~= before3 + spec_super_entries(self.ontology@, ks, x as int));
                }
            } else {
                proof {
                    assert(spec_class_seq(sups@) =~= spec_supers_of(
                        self.ontology@,
                        ks,
                        x as int,
                        0,
                    ));
                    assert(spec_entry_seq(superclasses@) + spec_super_entries(
                        self.ontology@,
                        ks,
                        x as int + 1,
                    ) =~= spec_entry_seq(superclasses@) + spec_super_entries(
                        self.ontology@,
                        ks,
                        x as int,
                    ));
                }
            }
            if subs.len() > 0 {
                let ghost before4 = spec_entry_seq(subclasses@);
                subclasses.push((classes[x].clone(), subs));
                proof {
                    assert(spec_entry_seq(subclasses@) =~= before4.push(
                        (ks[x as int], spec_subs_of(self.ontology@, ks, x as int, 0)),
                    ));
                    assert(spec_entry_seq(subclasses@) + spec_sub_entries(
                        self.ontology@,
                        ks,
                        x as int + 1,
                    ) =~= before4 + spec_sub_entries(self.ontology@, ks, x as int));
                }
            } else {
                proof {
                    assert(spec_class_seq(subs@) =~= spec_subs_of(self.ontology@, ks, x as int, 0));
                    assert(spec_entry_seq(subclasses@) + spec_sub_entries(
                        self.ontology@,
                        ks,
                        x as int + 1,
                    ) =~= spec_entry_seq(subclasses@) + spec_sub_entries(
                        self.ontology@,
                        ks,
                        x as int,
                    ));
                }
            }
            x = x + 1;
        }
        let r = ClassHierarchy { subclasses, superclasses };
        proof {
            assert(r@ =~= spec_classify(old(self).ontology@));
        }
        r
    }
}


/// The individuals one axiom mentions, in order: the same individuals the
/// graph seeding gives nodes.
pub open spec fn spec_axiom_individuals(a: SpecAxiom) -> Seq<SpecIndividual> {
    match a {
        SpecAxiom::Assertion(asr) => match asr {
            SpecAssertion::ClassAssertion { class, individual } => seq![individual],
            SpecAssertion::ObjectPropertyAssertion { property, source, target } => seq![
                source,
                target,
            ],
            SpecAssertion::DataPropertyAssertion { property, source, target } => seq![source],
            SpecAssertion::SameIndividual { individuals } => individuals,
            SpecAssertion::DifferentIndividuals { individuals } => individuals,
            SpecAssertion::NegativeObjectPropertyAssertion { property, source, target } => seq![
                source,
            ],
            SpecAssertion::NegativeDataPropertyAssertion { property, source, target } => seq![
                source,
            ],
            SpecAssertion::HasKey { class, object_property_expression, data_property } => Seq::empty(),
        },
        _ => Seq::empty(),
    }
}

/// The individuals of all axioms, in order.
pub open spec fn spec_extract_individuals(axs: Seq<SpecAxiom>) -> Seq<SpecIndividual>
    decreases axs,
{
    if axs.len() == 0 {
        Seq::empty()
    } else {
        spec_extract_individuals(axs.drop_last()) + spec_axiom_individuals(axs.last())
    }
}

/// The individual sequence with later duplicates removed.
pub open spec fn spec_dedup_inds(s: Seq<SpecIndividual>) -> Seq<SpecIndividual>
    decreases s,
{
    if s.len() == 0 {
        Seq::empty()
    } else {
        let r = spec_dedup_inds(s.drop_last());
        if r.contains(s.last()) {
            r
        } else {
            r.push(s.last())
        }
    }
}

/// The distinct individuals the ontology's assertions mention, in order of
/// first mention.
pub open spec fn spec_individuals(o: SpecOntology) -> Seq<SpecIndividual> {
    spec_dedup_inds(spec_extract_individuals(o.axioms))
}

/// The named classes `ind` is an instance of, from index `d` of `ks` on.
pub open spec fn spec_all_types(
    o: SpecOntology,
    ks: Seq<Seq<char>>,
    ind: SpecIndividual,
    d: int,
) -> Seq<Seq<char>>
    decreases ks.len() - d,
{
    if d < 0 || d >= ks.len() {
        Seq::empty()
    } else {
        let rest = spec_all_types(o, ks, ind, d + 1);
        if spec_instance(o, ind, ks[d]) {
            seq![ks[d]] + rest
        } else {
            rest
        }
    }
}

/// Whether some other class in `all` is a strict subclass of `all[d]`.
pub open spec fn spec_has_stricter(o: SpecOntology, all: Seq<Seq<char>>, d: int) -> bool {
    exists|e: int|
        0 <= e < all.len() && all[e] != all[d] && #[trigger] spec_subsumed(o, all[e], all[d])
            && !spec_subsumed(o, all[d], all[e])
}

/// The classes of `all` from index `d` on that have no strict subclass in
/// `all`.
pub open spec fn spec_most_specific(o: SpecOntology, all: Seq<Seq<char>>, d: int) -> Seq<Seq<char>>
    decreases all.len() - d,
{
    if d < 0 || d >= all.len() {
        Seq::empty()
    } else {
        let rest = spec_most_specific(o, all, d + 1);
        if spec_has_stricter(o, all, d) {
            rest
        } else {
            seq![all[d]] + rest
        }
    }
}

/// Mathematical value of an [`IndividualTypes`].
#[verifier::ext_equal]
pub struct SpecIndividualTypes {
    pub most_specific: Seq<Seq<char>>,
    pub all: Seq<Seq<char>>,
}

/// The classes an individual belongs to: every named class the ontology
/// entails for it, and the most specific ones among them.
#[derive(Debug)]
pub struct IndividualTypes {
    /// The entailed classes with no strict subclass also entailed.
    pub most_specific: Vec<Class>,
    /// Every entailed named class.
    pub all: Vec<Class>,
}

impl View for IndividualTypes {
    type V = SpecIndividualTypes;

    open spec fn view(&self) -> SpecIndividualTypes {
        SpecIndividualTypes {
            most_specific: spec_class_seq(self.most_specific@),
            all: spec_class_seq(self.all@),
        }
    }
}

impl IndividualTypes {
    /// Creates an empty set of types.
    pub fn new() -> (r: Self)
        ensures
            r@.most_specific.len() == 0,
            r@.all.len() == 0,
    {
        IndividualTypes { most_specific: Vec::new(), all: Vec::new() }
    }
}

/// The types of one individual: all entailed named classes and the most
/// specific ones.
pub open spec fn spec_types_of(
    o: SpecOntology,
    ks: Seq<Seq<char>>,
    ind: SpecIndividual,
) -> SpecIndividualTypes {
    let all = spec_all_types(o, ks, ind, 0);
    SpecIndividualTypes { most_specific: spec_most_specific(o, all, 0), all: all }
}

/// The realization entries for the individuals of `inds` from `i` on.
pub open spec fn spec_realize_entries(
    o: SpecOntology,
    ks: Seq<Seq<char>>,
    inds: Seq<SpecIndividual>,
    i: int,
) -> Seq<(SpecIndividual, SpecIndividualTypes)>
    decreases inds.len() - i,
{
    if i < 0 || i >= inds.len() {
        Seq::empty()
    } else {
        seq![(inds[i], spec_types_of(o, ks, inds[i]))] + spec_realize_entries(o, ks, inds, i + 1)
    }
}

/// What realization returns: empty for an inconsistent ontology, otherwise
/// one entry for every individual the assertions mention.
pub open spec fn spec_realize(o: SpecOntology) -> Seq<(SpecIndividual, SpecIndividualTypes)> {
    if !spec_consistent(o) {
        Seq::empty()
    } else {
        spec_realize_entries(o, spec_named_classes(o), spec_individuals(o), 0)
    }
}

/// Mathematical values of realization entries.
pub open spec fn spec_realization_seq(s: Seq<(Individual, IndividualTypes)>) -> Seq<
    (SpecIndividual, SpecIndividualTypes),
> {
    s.map_values(|p: (Individual, IndividualTypes)| (p.0@, p.1@))
}

impl TableauReasoner {
    /// Collects the distinct individuals the ontology's assertions mention,
    /// in order of first mention.
    #[verifier::rlimit(100)]
    pub fn extract_individuals(&self) -> (r: Vec<Individual>)
        ensures
            spec_individual_seq(r@) == spec_individuals(self.ontology@),
    {
        let ghost axs = self.ontology@.axioms;
        let mut raw: Vec<Individual> = Vec::new();
        proof {
            assert(spec_individual_seq(raw@) =~= spec_extract_individuals(axs.subrange(0, 0)));
        }
        let mut i: usize = 0;
        while i < self.ontology.axioms.len()
            invariant
                axs == self.ontology@.axioms,
                axs.len() == self.ontology.axioms@.len(),
                i <= axs.len(),
                spec_individual_seq(raw@) == spec_extract_individuals(axs.subrange(0, i as int)),
            decreases axs.len() - i,
        {
            let ghost base = spec_individual_seq(raw@);
            match &self.ontology.axioms[i] {
                Axiom::Assertion(asr) => match asr {
                    Assertion::ClassAssertion { class: _, individual } => {
                        raw.push(individual.clone());
                        proof {
                            assert(spec_individual_seq(raw@) =~= base + spec_axiom_individuals(
                                axs[i as int],
                            ));
                        }
                    },
                    Assertion::ObjectPropertyAssertion { property: _, source, target } => {
                        raw.push(source.clone());
                        raw.push(target.clone());
                        proof {
                            assert(spec_individual_seq(raw@) =~= base + spec_axiom_individuals(
                                axs[i as int],
                            ));
                        }
                    },
                    Assertion::DataPropertyAssertion { property: _, source, target: _ } => {
                        raw.push(source.clone());
                        proof {
                            assert(spec_individual_seq(raw@) =~= base + spec_axiom_individuals(
                                axs[i as int],
                            ));
                        }
                    },
                    Assertion::SameIndividual { individuals } => {
                        let ghost iv = spec_individual_seq(individuals@);
                        let mut k: usize = 0;
                        proof {
                            assert(spec_individual_seq(raw@) =~= base + iv.subrange(0, 0));
                        }
                        while k < individuals.len()
                            invariant
                                iv == spec_individual_seq(individuals@),
                                iv.len() == individuals@.len(),
                                k <= iv.len(),
                                spec_individual_seq(raw@) == base + iv.subrange(0, k as int),
                            decreases individuals.len() - k,
                        {
                            let ghost prev = spec_individual_seq(raw@);
                            raw.push(individuals[k].clone());
                            proof {
                                assert(spec_individual_seq(raw@) =~= prev.push(iv[k as int]));
                                assert(iv.subrange(0, k as int + 1) =~= iv.subrange(
                                    0,
                                    k as int,
                                ).push(iv[k as int]));
                                assert(spec_individual_seq(raw@) =~= base + iv.subrange(
                                    0,
                                    k as int + 1,
                                ));
                            }
                            k = k + 1;
                        }
                        proof {
                            assert(iv.subrange(0, iv.len() as int) =~= iv);
                        }
                    },
                    Assertion::DifferentIndividuals { individuals } => {
                        let ghost iv = spec_individual_seq(individuals@);
                        let mut k: usize = 0;
                        proof {
                            assert(spec_individual_seq(raw@) =~= base + iv.subrange(0, 0));
                        }
                        while k < individuals.len()
                            invariant
                                iv == spec_individual_seq(individuals@),
                                iv.len() == individuals@.len(),
                                k <= iv.len(),
                                spec_individual_seq(raw@) == base + iv.subrange(0, k as int),
                            decreases individuals.len() - k,
                        {
                            let ghost prev = spec_individual_seq(raw@);
                            raw.push(individuals[k].clone());
                            proof {
                                assert(spec_individual_seq(raw@) =~= prev.push(iv[k as int]));
                                assert(iv.subrange(0, k as int + 1) =~= iv.subrange(
                                    0,
                                    k as int,
                                ).push(iv[k as int]));
                                assert(spec_individual_seq(raw@) =~= base + iv.subrange(
                                    0,
                                    k as int + 1,
                                ));
                            }
                            k = k + 1;
                        }
                        proof {
                            assert(iv.subrange(0, iv.len() as int) =~= iv);
                        }
                    },
                    Assertion::NegativeObjectPropertyAssertion {
                        property: _,
                        source,
                        target: _,
                    } => {
                        raw.push(source.clone());
                        proof {
                            assert(spec_individual_seq(raw@) =~= base + spec_axiom_individuals(
                                axs[i as int],
                            ));
                        }
                    },
                    Assertion::NegativeDataPropertyAssertion {
                        property: _,
                        source,
                        target: _,
                    } => {
                        raw.push(source.clone());
                        proof {
                            assert(spec_individual_seq(raw@) =~= base + spec_axiom_individuals(
                                axs[i as int],
                            ));
                        }
                    },
                    Assertion::HasKey {
                        class: _,
                        object_property_expression: _,
                        data_property: _,
                    } => {
                        proof {
                            assert(spec_individual_seq(raw@) =~= base + spec_axiom_individuals(
                                axs[i as int],
                            ));
                        }
                    },
                },
                _ => {
                    proof {
                        assert(spec_individual_seq(raw@) =~= base + spec_axiom_individuals(
                            axs[i as int],
                        ));
                    }
                },
            }
            proof {
                assert(axs.subrange(0, i as int + 1).drop_last() =~= axs.subrange(0, i as int));
                assert(axs.subrange(0, i as int + 1).last() == axs[i as int]);
            }
            i = i + 1;
        }
        proof {
            assert(axs.subrange(0, axs.len() as int) =~= axs);
        }
        let ghost rawv = spec_individual_seq(raw@);
        let mut result: Vec<Individual> = Vec::new();
        proof {
            assert(spec_individual_seq(result@) =~= spec_dedup_inds(rawv.subrange(0, 0)));
        }
        let mut k: usize = 0;
        while k < raw.len()
            invariant
                rawv == spec_individual_seq(raw@),
                rawv.len() == raw@.len(),
                k <= rawv.len(),
                spec_individual_seq(result@) == spec_dedup_inds(rawv.subrange(0, k as int)),
            decreases raw.len() - k,
        {
            if !individual_vec_has(&result, &raw[k]) {
                result.push(raw[k].clone());
                proof {
                    assert(spec_individual_seq(result@) =~= spec_dedup_inds(
                        rawv.subrange(0, k as int),
                    ).push(rawv[k as int]));
                }
            }
            proof {
                assert(rawv.subrange(0, k as int + 1).drop_last() =~= rawv.subrange(0, k as int));
                assert(rawv.subrange(0, k as int + 1).last() == rawv[k as int]);
            }
            k = k + 1;
        }
        proof {
            assert(rawv.subrange(0, rawv.len() as int) =~= rawv);
        }
        result
    }

    /// Returns whether some other class of `all` is a strict subclass of
    /// `all[d]`.
    fn has_stricter(&self, all: &Vec<Class>, d: usize) -> (r: bool)
        requires
            d < all@.len(),
        ensures
            r == spec_has_stricter(self.ontology@, spec_class_seq(all@), d as int),
    {
        let ghost av = spec_class_seq(all@);
        let mut e: usize = 0;
        while e < all.len()
            invariant
                av == spec_class_seq(all@),
                av.len() == all@.len(),
                d < all@.len(),
                e <= av.len(),
                forall|m: int|
                    0 <= m < e ==> !(av[m] != av[d as int] && #[trigger] spec_subsumed(
                        self.ontology@,
                        av[m],
                        av[d as int],
                    ) && !spec_subsumed(self.ontology@, av[d as int], av[m])),
            decreases all.len() - e,
        {
            if !class_eq(&all[e], &all[d]) && self.is_subsumed_by(&all[e], &all[d])
                && !self.is_subsumed_by(&all[d], &all[e]) {
                proof {
                    assert(av[e as int] != av[d as int]);
                    assert(spec_subsumed(self.ontology@, av[e as int], av[d as int]));
                    assert(!spec_subsumed(self.ontology@, av[d as int], av[e as int]));
                }
                return true;
            }
            e = e + 1;
        }
        false
    }

    /// Computes realization: for an inconsistent ontology the result is
    /// empty; otherwise every individual the assertions mention is paired
    /// with all the named classes it is an instance of and the most
    /// specific ones among them.
    #[verifier::rlimit(100)]
    pub fn realize(&mut self) -> (r: Vec<(Individual, IndividualTypes)>)
        ensures
            final(self).ontology@ == old(self).ontology@,
            spec_realization_seq(r@) == spec_realize(old(self).ontology@),
    {
        let consistent = {
            let mut base = TableauReasoner::new(self.ontology.clone());
            let c = base.is_consistent();
            self.graph = base.graph;
            c
        };
        if !consistent {
            let empty: Vec<(Individual, IndividualTypes)> = Vec::new();
            proof {
                assert(spec_realization_seq(empty@) =~= spec_realize(old(self).ontology@));
            }
            return empty;
        }
        let classes = self.extract_classes();
        let ghost ks = spec_class_seq(classes@);
        let inds = self.extract_individuals();
        let ghost iv = spec_individual_seq(inds@);
        let mut entries: Vec<(Individual, IndividualTypes)> = Vec::new();
        let mut i: usize = 0;
        while i < inds.len()
            invariant
                self.ontology@ == old(self).ontology@,
                ks == spec_class_seq(classes@),
                ks.len() == classes@.len(),
                iv == spec_individual_seq(inds@),
                iv.len() == inds@.len(),
                i <= iv.len(),
                spec_realize_entries(self.ontology@, ks, iv, 0) == spec_realization_seq(entries@)
                    + spec_realize_entries(self.ontology@, ks, iv, i as int),
            decreases inds.len() - i,
        {
            let mut all: Vec<Class> = Vec::new();
            let mut d: usize = 0;
            while d < classes.len()
                invariant
                    self.ontology@ == old(self).ontology@,
                    ks == spec_class_seq(classes@),
                    ks.len() == classes@.len(),
                    iv == spec_individual_seq(inds@),
                    iv.len() == inds@.len(),
                    i < iv.len(),
                    d <= ks.len(),
                    spec_all_types(self.ontology@, ks, iv[i as int], 0) == spec_class_seq(all@)
                        + spec_all_types(self.ontology@, ks, iv[i as int], d as int),
                decreases classes.len() - d,
            {
                if self.is_instance_of(&inds[i], &classes[d]) {
                    let ghost before = spec_class_seq(all@);
                    all.push(classes[d].clone());
                    proof {
                        assert(spec_class_seq(all@) =~= before.push(ks[d as int]));
                        assert(spec_class_seq(all@) + spec_all_types(
                            self.ontology@,
                            ks,
                            iv[i as int],
                            d as int + 1,
                        ) =~= before + spec_all_types(self.ontology@, ks, iv[i as int], d as int));
                    }
                } else {
                    proof {
                        assert(spec_class_seq(all@) + spec_all_types(
                            self.ontology@,
                            ks,
                            iv[i as int],
                            d as int + 1,
                        ) =~= spec_class_seq(all@) + spec_all_types(
                            self.ontology@,
                            ks,
                            iv[i as int],
                            d as int,
                        ));
                    }
                }
                d = d + 1;
            }
            let ghost av = spec_class_seq(all@);
            proof {
                assert(av =~= spec_all_types(self.ontology@, ks, iv[i as int], 0));
            }
            let mut most: Vec<Class> = Vec::new();
            let mut m: usize = 0;
            while m < all.len()
                invariant
                    self.ontology@ == old(self).ontology@,
                    av == spec_class_seq(all@),
                    av.len() == all@.len(),
                    m <= av.len(),
                    spec_most_specific(self.ontology@, av, 0) == spec_class_seq(most@)
                        + spec_most_specific(self.ontology@, av, m as int),
                decreases all.len() - m,
            {
                if !self.has_stricter(&all, m) {
                    let ghost before5 = spec_class_seq(most@);
                    most.push(all[m].clone());
                    proof {
                        assert(spec_class_seq(most@) =~= before5.push(av[m as int]));
                        assert(spec_class_seq(most@) + spec_most_specific(
                            self.ontology@,
                            av,
                            m as int + 1,
                        ) =~= before5 + spec_most_specific(self.ontology@, av, m as int));
                    }
                } else {
                    proof {
                        assert(spec_class_seq(most@) + spec_most_specific(
                            self.ontology@,
                            av,
                            m as int + 1,
                        ) =~= spec_class_seq(most@) + spec_most_specific(
                            self.ontology@,
                            av,
                            m as int,
                        ));
                    }
                }
                m = m + 1;
            }
            let ghost before6 = spec_realization_seq(entries@);
            let types = IndividualTypes { most_specific: most, all };
            proof {
                assert(types@ =~= spec_types_of(self.ontology@, ks, iv[i as int]));
            }
            entries.push((inds[i].clone(), types));
            proof {
                assert(spec_realization_seq(entries@) =~= before6.push(
                    (iv[i as int], spec_types_of(self.ontology@, ks, iv[i as int])),
                ));
                assert(spec_realization_seq(entries@) + spec_realize_entries(
                    self.ontology@,
                    ks,
                    iv,
                    i as int + 1,
                ) =~= before6 + spec_realize_entries(self.ontology@, ks, iv, i as int));
            }
            i = i + 1;
        }
        proof {
            assert(spec_realization_seq(entries@) =~= spec_realize(old(self).ontology@));
        }
        entries
    }
}

} // verus!
