//! The laws the reasoning services obey, stated and proved over the same
//! specification functions their contracts use.

use crate::owl2_profile::{spec_profile_violations, SpecOwlProfile};
use crate::reasoner::{
    spec_all_types, spec_classify, spec_consistent, spec_direct, spec_has_stricter, spec_instance,
    spec_most_specific, spec_named_classes, spec_realize, spec_realize_entries, spec_sub_entries,
    spec_subs_of, spec_subsumed, spec_super_entries, spec_supers_of, spec_types_of,
};
use crate::SpecOntology;
use vstd::prelude::*;

verus! {

/// Consistency is deterministic across repeated calls: any two results that
/// satisfy the consistency service's contract for the same ontology are
/// equal, because the contract ties each result to a function of the
/// ontology value alone.
pub proof fn lemma_consistency_deterministic(o: SpecOntology, r1: bool, r2: bool)
    requires
        r1 == spec_consistent(o),
        r2 == spec_consistent(o),
    ensures
        r1 == r2,
{
}

/// The profile check is purely structural: its outcome is a function of the
/// axiom tree alone, so two ontologies with equal axiom sequences get the
/// same violations and verdict, whatever else differs between them.
pub proof fn lemma_profile_check_structural(
    p: SpecOwlProfile,
    o1: SpecOntology,
    o2: SpecOntology,
)
    requires
        o1.axioms == o2.axioms,
    ensures
        spec_profile_violations(p, o1.axioms) == spec_profile_violations(p, o2.axioms),
        (spec_profile_violations(p, o1.axioms).len() == 0) == (spec_profile_violations(
            p,
            o2.axioms,
        ).len() == 0),
{
}

/// Every class collected into an individual's type list passes the instance
/// test.
pub proof fn lemma_all_types_sound(
    o: SpecOntology,
    ks: Seq<Seq<char>>,
    ind: crate::SpecIndividual,
    d: int,
)
    ensures
        forall|c: int|
            0 <= c < spec_all_types(o, ks, ind, d).len() ==> spec_instance(
                o,
                ind,
                #[trigger] spec_all_types(o, ks, ind, d)[c],
            ),
    decreases ks.len() - d,
{
    if 0 <= d < ks.len() {
        lemma_all_types_sound(o, ks, ind, d + 1);
        let cur = spec_all_types(o, ks, ind, d);
        let rest = spec_all_types(o, ks, ind, d + 1);
        assert forall|c: int| 0 <= c < cur.len() implies spec_instance(o, ind, cur[c]) by {
            if spec_instance(o, ind, ks[d]) {
                if c > 0 {
                    assert(cur[c] == rest[c - 1]);
                }
            } else {
                assert(cur[c] == rest[c]);
            }
        }
    }
}

/// Every class kept as most specific occurs among the reported types, and
/// no other reported type is a strict subclass of it.
pub proof fn lemma_most_specific_sound(o: SpecOntology, all: Seq<Seq<char>>, d: int)
    ensures
        forall|c: int|
            0 <= c < spec_most_specific(o, all, d).len() ==> all.contains(
                #[trigger] spec_most_specific(o, all, d)[c],
            ),
        forall|c: int|
            0 <= c < spec_most_specific(o, all, d).len() ==> !exists|e: int|
                0 <= e < all.len() && all[e] != spec_most_specific(o, all, d)[c] && #[trigger]
                spec_subsumed(o, all[e], #[trigger] spec_most_specific(o, all, d)[c])
                    && !spec_subsumed(o, spec_most_specific(o, all, d)[c], all[e]),
    decreases all.len() - d,
{
    if 0 <= d < all.len() {
        lemma_most_specific_sound(o, all, d + 1);
        let cur = spec_most_specific(o, all, d);
        let rest = spec_most_specific(o, all, d + 1);
        assert forall|c: int| 0 <= c < cur.len() implies all.contains(cur[c]) && !exists|e: int|
            0 <= e < all.len() && all[e] != cur[c] && #[trigger] spec_subsumed(o, all[e], cur[c])
                && !spec_subsumed(o, cur[c], all[e]) by {
            if spec_has_stricter(o, all, d) {
                assert(cur[c] == rest[c]);
            } else {
                if c == 0 {
                    assert(cur[0] == all[d]);
                    assert(all.contains(all[d]));
                } else {
                    assert(cur[c] == rest[c - 1]);
                }
            }
        }
    }
}

/// Realization soundness for the entries from index `i` on.
pub proof fn lemma_realize_entries_sound(
    o: SpecOntology,
    ks: Seq<Seq<char>>,
    inds: Seq<crate::SpecIndividual>,
    i: int,
)
    ensures
        forall|e: int, c: int|
            0 <= e < spec_realize_entries(o, ks, inds, i).len() && 0 <= c
                < spec_realize_entries(o, ks, inds, i)[e].1.all.len() ==> spec_instance(
                o,
                spec_realize_entries(o, ks, inds, i)[e].0,
                #[trigger] spec_realize_entries(o, ks, inds, i)[e].1.all[c],
            ),
        forall|e: int, c: int|
            0 <= e < spec_realize_entries(o, ks, inds, i).len() && 0 <= c
                < spec_realize_entries(o, ks, inds, i)[e].1.most_specific.len()
                ==> spec_realize_entries(o, ks, inds, i)[e].1.all.contains(
                #[trigger] spec_realize_entries(o, ks, inds, i)[e].1.most_specific[c],
            ),
    decreases inds.len() - i,
{
    if 0 <= i < inds.len() {
        lemma_realize_entries_sound(o, ks, inds, i + 1);
        lemma_all_types_sound(o, ks, inds[i], 0);
        lemma_most_specific_sound(o, spec_all_types(o, ks, inds[i], 0), 0);
        let cur = spec_realize_entries(o, ks, inds, i);
        let rest = spec_realize_entries(o, ks, inds, i + 1);
        assert(cur[0] == (inds[i], spec_types_of(o, ks, inds[i])));
        assert forall|e: int, c: int|
            0 <= e < cur.len() && 0 <= c < cur[e].1.all.len() implies spec_instance(
            o,
            cur[e].0,
            cur[e].1.all[c],
        ) by {
            if e > 0 {
                assert(cur[e] == rest[e - 1]);
            }
        }
        assert forall|e: int, c: int|
            0 <= e < cur.len() && 0 <= c < cur[e].1.most_specific.len() implies cur[e].1.all.contains(
            cur[e].1.most_specific[c],
        ) by {
            if e > 0 {
                assert(cur[e] == rest[e - 1]);
            }
        }
    }
}

/// Realization soundness: every class reported among an individual's types
/// passes the instance test, and every most specific class is itself one of
/// the reported types.
pub proof fn lemma_realization_sound(o: SpecOntology)
    ensures
        forall|e: int, c: int|
            0 <= e < spec_realize(o).len() && 0 <= c < spec_realize(o)[e].1.all.len()
                ==> spec_instance(
                o,
                spec_realize(o)[e].0,
                #[trigger] spec_realize(o)[e].1.all[c],
            ),
        forall|e: int, c: int|
            0 <= e < spec_realize(o).len() && 0 <= c < spec_realize(o)[e].1.most_specific.len()
                ==> spec_realize(o)[e].1.all.contains(
                #[trigger] spec_realize(o)[e].1.most_specific[c],
            ),
{
    if spec_consistent(o) {
        lemma_realize_entries_sound(o, spec_named_classes(o), crate::reasoner::spec_individuals(o), 0);
    }
}

/// Every class listed among the direct superclasses of `ks[x]` passes the
/// subsumption test against `ks[x]`.
pub proof fn lemma_supers_of_sound(o: SpecOntology, ks: Seq<Seq<char>>, x: int, d: int)
    requires
        0 <= x < ks.len(),
    ensures
        forall|c: int|
            0 <= c < spec_supers_of(o, ks, x, d).len() ==> spec_subsumed(
                o,
                ks[x],
                #[trigger] spec_supers_of(o, ks, x, d)[c],
            ),
    decreases ks.len() - d,
{
    if 0 <= d < ks.len() {
        lemma_supers_of_sound(o, ks, x, d + 1);
        let cur = spec_supers_of(o, ks, x, d);
        let rest = spec_supers_of(o, ks, x, d + 1);
        assert forall|c: int| 0 <= c < cur.len() implies spec_subsumed(o, ks[x], cur[c]) by {
            if spec_direct(o, ks, x, d) {
                if c > 0 {
                    assert(cur[c] == rest[c - 1]);
                }
            } else {
                assert(cur[c] == rest[c]);
            }
        }
    }
}

/// Every class listed among the direct subclasses of `ks[y]` passes the
/// subsumption test toward `ks[y]`.
pub proof fn lemma_subs_of_sound(o: SpecOntology, ks: Seq<Seq<char>>, y: int, d: int)
    requires
        0 <= y < ks.len(),
    ensures
        forall|c: int|
            0 <= c < spec_subs_of(o, ks, y, d).len() ==> spec_subsumed(
                o,
                #[trigger] spec_subs_of(o, ks, y, d)[c],
                ks[y],
            ),
    decreases ks.len() - d,
{
    if 0 <= d < ks.len() {
        lemma_subs_of_sound(o, ks, y, d + 1);
        let cur = spec_subs_of(o, ks, y, d);
        let rest = spec_subs_of(o, ks, y, d + 1);
        assert forall|c: int| 0 <= c < cur.len() implies spec_subsumed(o, cur[c], ks[y]) by {
            if spec_direct(o, ks, d, y) {
                if c > 0 {
                    assert(cur[c] == rest[c - 1]);
                }
            } else {
                assert(cur[c] == rest[c]);
            }
        }
    }
}

/// Soundness of the superclass entries from index `x` on.
pub proof fn lemma_super_entries_sound(o: SpecOntology, ks: Seq<Seq<char>>, x: int)
    ensures
        forall|e: int, c: int|
            0 <= e < spec_super_entries(o, ks, x).len() && 0 <= c < spec_super_entries(
                o,
                ks,
                x,
            )[e].1.len() ==> spec_subsumed(
                o,
                spec_super_entries(o, ks, x)[e].0,
                #[trigger] spec_super_entries(o, ks, x)[e].1[c],
            ),
    decreases ks.len() - x,
{
    if 0 <= x < ks.len() {
        lemma_super_entries_sound(o, ks, x + 1);
        lemma_supers_of_sound(o, ks, x, 0);
        let cur = spec_super_entries(o, ks, x);
        let rest = spec_super_entries(o, ks, x + 1);
        assert forall|e: int, c: int|
            0 <= e < cur.len() && 0 <= c < cur[e].1.len() implies spec_subsumed(
            o,
            cur[e].0,
            cur[e].1[c],
        ) by {
            if spec_supers_of(o, ks, x, 0).len() == 0 {
                assert(cur[e] == rest[e]);
            } else {
                if e == 0 {
                    assert(cur[0] == (ks[x], spec_supers_of(o, ks, x, 0)));
                } else {
                    assert(cur[e] == rest[e - 1]);
                }
            }
        }
    }
}

/// Soundness of the subclass entries from index `y` on.
pub proof fn lemma_sub_entries_sound(o: SpecOntology, ks: Seq<Seq<char>>, y: int)
    ensures
        forall|e: int, c: int|
            0 <= e < spec_sub_entries(o, ks, y).len() && 0 <= c < spec_sub_entries(
                o,
                ks,
                y,
            )[e].1.len() ==> spec_subsumed(
                o,
                #[trigger] spec_sub_entries(o, ks, y)[e].1[c],
                spec_sub_entries(o, ks, y)[e].0,
            ),
    decreases ks.len() - y,
{
    if 0 <= y < ks.len() {
        lemma_sub_entries_sound(o, ks, y + 1);
        lemma_subs_of_sound(o, ks, y, 0);
        let cur = spec_sub_entries(o, ks, y);
        let rest = spec_sub_entries(o, ks, y + 1);
        assert forall|e: int, c: int|
            0 <= e < cur.len() && 0 <= c < cur[e].1.len() implies spec_subsumed(
            o,
            cur[e].1[c],
            cur[e].0,
        ) by {
            if spec_subs_of(o, ks, y, 0).len() == 0 {
                assert(cur[e] == rest[e]);
            } else {
                if e == 0 {
                    assert(cur[0] == (ks[y], spec_subs_of(o, ks, y, 0)));
                } else {
                    assert(cur[e] == rest[e - 1]);
                }
            }
        }
    }
}

/// Classification soundness: every direct edge the hierarchy records passes
/// the subsumption test, in both maps.  A chain of recorded edges is
/// therefore a chain of subsumption-test successes.
pub proof fn lemma_classification_edges_subsumed(o: SpecOntology)
    ensures
        forall|e: int, c: int|
            0 <= e < spec_classify(o).superclasses.len() && 0 <= c < spec_classify(
                o,
            ).superclasses[e].1.len() ==> spec_subsumed(
                o,
                spec_classify(o).superclasses[e].0,
                #[trigger] spec_classify(o).superclasses[e].1[c],
            ),
        forall|e: int, c: int|
            0 <= e < spec_classify(o).subclasses.len() && 0 <= c < spec_classify(
                o,
            ).subclasses[e].1.len() ==> spec_subsumed(
                o,
                #[trigger] spec_classify(o).subclasses[e].1[c],
                spec_classify(o).subclasses[e].0,
            ),
{
    if spec_consistent(o) {
        lemma_super_entries_sound(o, spec_named_classes(o), 0);
        lemma_sub_entries_sound(o, spec_named_classes(o), 0);
    }
}

/// A recorded direct edge is in particular an entailed subsumption between
/// two distinct named classes with no third named class strictly between.
pub proof fn lemma_direct_is_subsumed(o: SpecOntology, ks: Seq<Seq<char>>, x: int, y: int)
    requires
        0 <= x < ks.len(),
        0 <= y < ks.len(),
        spec_direct(o, ks, x, y),
    ensures
        spec_subsumed(o, ks[x], ks[y]),
        x != y,
{
}

} // verus!
