//! Laws of the store, of the hierarchy and of the constraint language:
//! what holds of every store and of every expression, proved from the
//! contracts of the functions that they speak of.

use vstd::prelude::*;
use crate::sctid::SctId;
use crate::index::lemma_picked_members;
use crate::hierarchy::{
    ancestors_of, connected, lemma_ancestor_descendant, lemma_connected_unfold,
    lemma_edge_is_ancestor, step,
};
use crate::closure::TransitiveClosure;
use crate::concept::Rf2Concept;

use crate::store::with_concepts;
use crate::store_model::{
    by_component, by_concept, by_description, by_destination, by_refset, by_source,
    lemma_children_in, lemma_parents_in, marks_preferred, StoreView,
};
use crate::queryable::EclQueryable;
use crate::ecl::ast::EclExpression;
use crate::ecl::executor::{eval, known_self, EclExecutor, QueryResult};

verus! {

/// A loaded concept is found under its identifier, unless a concept of the
/// same identifier was loaded after it.
pub proof fn lemma_loaded_concept_is_found(
    concepts: Map<SctId, Rf2Concept>,
    added: Seq<Rf2Concept>,
    i: int,
)
    requires
        0 <= i < added.len(),
        forall|j: int| i < j < added.len() ==> added[j].id != added[i].id,
    ensures
        with_concepts(concepts, added).contains_key(added[i].id),
        with_concepts(concepts, added)[added[i].id] == added[i],
    decreases added.len(),
{
    if i < added.len() - 1 {
        assert(added.drop_last()[i] == added[i]);
        assert forall|j: int| i < j < added.drop_last().len() implies added.drop_last()[j].id
            != added.drop_last()[i].id by {
            assert(added.drop_last()[j] == added[j]);
        }
        lemma_loaded_concept_is_found(concepts, added.drop_last(), i);
        assert(added.last().id != added[i].id);
    }
}

impl StoreView {
    /// Every loaded relationship stands among the outgoing relationships of
    /// its source and among the incoming relationships of its destination.
    pub proof fn lemma_relationship_in_both_indexes(self, i: int)
        requires
            0 <= i < self.relationships.len(),
        ensures
            self.outgoing(self.relationships[i].source_id).contains(self.relationships[i]),
            self.incoming(self.relationships[i].destination_id).contains(self.relationships[i]),
    {
        let r = self.relationships[i];
        lemma_picked_members(by_source(self.relationships), r.source_id);
        lemma_picked_members(by_destination(self.relationships), r.destination_id);
        assert(by_source(self.relationships)[i] == (r.source_id, r));
        assert(by_source(self.relationships).contains((r.source_id, r)));
        assert(by_destination(self.relationships)[i] == (r.destination_id, r));
        assert(by_destination(self.relationships).contains((r.destination_id, r)));
    }

    /// Every parent of a concept is the destination of an active IS-A
    /// relationship among its outgoing relationships, and every child the
    /// source of one among its incoming relationships.
    pub proof fn lemma_parents_come_from_relationships(self, concept_id: SctId, other: SctId)
        ensures
            self.parents(concept_id).contains(other) ==> exists|j: int|
                0 <= j < self.outgoing(concept_id).len() && (#[trigger] self.outgoing(
                    concept_id,
                )[j]).is_is_a() && self.outgoing(concept_id)[j].active && self.outgoing(
                    concept_id,
                )[j].destination_id == other,
            self.children(concept_id).contains(other) ==> exists|j: int|
                0 <= j < self.incoming(concept_id).len() && (#[trigger] self.incoming(
                    concept_id,
                )[j]).is_is_a() && self.incoming(concept_id)[j].active && self.incoming(
                    concept_id,
                )[j].source_id == other,
    {
        lemma_parents_in(self.outgoing(concept_id), other);
        lemma_children_in(self.incoming(concept_id), other);
    }

    /// Once the closure is built on the hierarchy of the store, the
    /// ancestors that the store gives for a loaded concept are the transitive
    /// closure of its parents, the concept itself left out: a concept is
    /// among them exactly where it is another concept and is a parent of the
    /// concept or an ancestor of one of its parents.
    pub proof fn lemma_ancestors_are_closure_of_parents(self, concept_id: SctId, other: SctId)
        requires
            self.closure matches Some(closure) && closure.basis() == self.edges()
                && closure.covered() == self.concepts.dom(),
            self.concepts.contains_key(concept_id),
        ensures
            self.ancestors(concept_id) == ancestors_of(self.edges(), concept_id),
            self.ancestors(concept_id).contains(other) <==> other != concept_id && (self.parents(
                concept_id,
            ).contains(other) || exists|p: SctId|
                self.parents(concept_id).contains(p) && #[trigger] connected(
                    self.edges(),
                    true,
                    p,
                    other,
                )),
    {
        lemma_connected_unfold(self.edges(), true, concept_id, other);
        self.lemma_parents_are_edges(concept_id, other);
        if exists|m: SctId|
            step(self.edges(), true, concept_id, m) && #[trigger] connected(
                self.edges(),
                true,
                m,
                other,
            ) {
            let m = choose|m: SctId|
                step(self.edges(), true, concept_id, m) && #[trigger] connected(
                    self.edges(),
                    true,
                    m,
                    other,
                );
            self.lemma_parents_are_edges(concept_id, m);
        }
        if exists|p: SctId|
            self.parents(concept_id).contains(p) && #[trigger] connected(
                self.edges(),
                true,
                p,
                other,
            ) {
            let p = choose|p: SctId|
                self.parents(concept_id).contains(p) && #[trigger] connected(
                    self.edges(),
                    true,
                    p,
                    other,
                );
            self.lemma_parents_are_edges(concept_id, p);
            assert(step(self.edges(), true, concept_id, p));
        }
    }

    /// No concept is its own ancestor or its own descendant, with or
    /// without a closure.
    pub proof fn lemma_no_concept_is_its_own_ancestor(self, concept_id: SctId)
        ensures
            !self.ancestors(concept_id).contains(concept_id),
            !self.descendants(concept_id).contains(concept_id),
    {
    }

    /// The child of an edge of the hierarchy is a descendant of its parent,
    /// and the parent an ancestor of the child: without a closure; and with a
    /// closure that was built on the hierarchy of the store where it covers
    /// both. An edge from a concept to itself is left out.
    pub proof fn lemma_edge_gives_descendant(self, child: SctId, parent: SctId)
        requires
            self.edges().contains((child, parent)),
            child != parent,
            self.closure matches Some(closure) ==> closure.basis() == self.edges()
                && closure.covered().contains(child) && closure.covered().contains(parent),
        ensures
            self.ancestors(child).contains(parent),
            self.descendants(parent).contains(child),
    {
        lemma_edge_is_ancestor(self.edges(), child, parent);
    }

    /// One concept is among the ancestors of another exactly where the other
    /// is among its descendants: without a closure; and with a closure where
    /// it covers both.
    pub proof fn lemma_ancestors_mirror_descendants(self, a: SctId, b: SctId)
        requires
            self.closure matches Some(closure) ==> closure.covered().contains(a)
                && closure.covered().contains(b),
        ensures
            self.ancestors(a).contains(b) <==> self.descendants(b).contains(a),
    {
        match self.closure {
            Some(closure) => {
                lemma_ancestor_descendant(closure.basis(), a, b);
            },
            None => {
                lemma_ancestor_descendant(self.edges(), a, b);
            },
        }
    }

    /// Every loaded membership of a simple reference set stands among the
    /// members of its reference set, and its reference set among the
    /// reference sets of its component.
    pub proof fn lemma_membership_in_both_indexes(self, i: int)
        requires
            0 <= i < self.refset_members.len(),
        ensures
            self.members_of(self.refset_members[i].0).contains(self.refset_members[i].1),
            self.refsets_of(self.refset_members[i].1).contains(self.refset_members[i].0),
    {
        let m = self.refset_members[i];
        lemma_picked_members(by_refset(self.refset_members), m.0);
        lemma_picked_members(by_component(self.refset_members), m.1);
        assert(by_refset(self.refset_members)[i] == (m.0, m.1));
        assert(by_refset(self.refset_members).contains((m.0, m.1)));
        assert(by_component(self.refset_members)[i] == (m.1, m.0));
        assert(by_component(self.refset_members).contains((m.1, m.0)));
    }

    /// Where a loaded language member marks a loaded description as
    /// preferred in a language reference set, the concept of the description
    /// has a preferred term in that reference set, and it is the term of a
    /// description that is so marked: of that description or of another of
    /// the concept that stands before it.
    pub proof fn lemma_preferred_description_is_found(self, d: int, m: int)
        requires
            0 <= d < self.descriptions.len(),
            0 <= m < self.language_members.len(),
            self.language_members[m].referenced_component_id == self.descriptions[d].id,
            self.language_members[m].is_preferred(),
        ensures
            ({
                let concept_id = self.descriptions[d].concept_id;
                let language = self.language_members[m].refset_id;
                let rows = self.descriptions_of(concept_id);
                let found = self.preferred_in_language(concept_id, language, 0);
                &&& 0 <= found < rows.len()
                &&& marks_preferred(self.language_members_of(rows[found].id), language)
            }),
    {
        let description = self.descriptions[d];
        let member = self.language_members[m];
        let concept_id = description.concept_id;
        let language = member.refset_id;
        let rows = self.descriptions_of(concept_id);
        lemma_picked_members(by_concept(self.descriptions), concept_id);
        assert(by_concept(self.descriptions)[d] == (concept_id, description));
        assert(by_concept(self.descriptions).contains((concept_id, description)));
        assert(rows.contains(description));
        let at = choose|at: int| 0 <= at < rows.len() && rows[at] == description;
        lemma_picked_members(by_description(self.language_members), description.id);
        assert(by_description(self.language_members)[m] == (description.id, member));
        assert(by_description(self.language_members).contains((description.id, member)));
        let members = self.language_members_of(description.id);
        assert(members.contains(member));
        let k = choose|k: int| 0 <= k < members.len() && members[k] == member;
        assert(members[k].refset_id == language && members[k].is_preferred());
        assert(marks_preferred(members, language));
        self.lemma_preferred_search(concept_id, language, 0, at);
    }

    /// The search for a preferred description from a position on finds one
    /// at or before any position behind it that holds one.
    pub proof fn lemma_preferred_search(
        self,
        concept_id: SctId,
        language: SctId,
        from: int,
        at: int,
    )
        requires
            0 <= from <= at < self.descriptions_of(concept_id).len(),
            marks_preferred(
                self.language_members_of(self.descriptions_of(concept_id)[at].id),
                language,
            ),
        ensures
            ({
                let rows = self.descriptions_of(concept_id);
                let found = self.preferred_in_language(concept_id, language, from);
                &&& from <= found <= at
                &&& marks_preferred(self.language_members_of(rows[found].id), language)
            }),
        decreases at - from,
    {
        let rows = self.descriptions_of(concept_id);
        if !marks_preferred(self.language_members_of(rows[from].id), language) {
            self.lemma_preferred_search(concept_id, language, from + 1, at);
        }
    }
}

/// Two closures that were built on the same hierarchy, with the same
/// concepts known, give the same ancestors and the same descendants for
/// every concept: building the closure twice changes nothing.
pub proof fn lemma_closure_is_determined(first: TransitiveClosure, second: TransitiveClosure, id: SctId)
    requires
        first.basis() == second.basis(),
        first.covered() == second.covered(),
    ensures
        first.spec_ancestors(id) == second.spec_ancestors(id),
        first.spec_descendants(id) == second.spec_descendants(id),
{
}

/// A concept matches an expression exactly where the result of executing
/// the expression holds it, for a result that the cap did not cut.
pub proof fn lemma_matches_is_membership<Q: EclQueryable>(
    executor: EclExecutor<Q>,
    result: QueryResult,
    e: EclExpression,
    concept_id: SctId,
)
    requires
        executor.answers(result, e),
        !result.spec_truncated(),
    ensures
        result.set().contains(concept_id) <==> eval(executor.store(), e).contains(concept_id),
{
}

/// A concept and its descendants are its strict descendants and, where the
/// store knows it, the concept itself; likewise for its ancestors.
pub proof fn lemma_or_self_adds_known_self<Q: EclQueryable>(store: &Q, id: SctId)
    ensures
        eval(store, EclExpression::DescendantOrSelfOf(id)) == eval(
            store,
            EclExpression::DescendantOf(id),
        ).union(known_self(store, id)),
        eval(store, EclExpression::AncestorOrSelfOf(id)) == eval(
            store,
            EclExpression::AncestorOf(id),
        ).union(known_self(store, id)),
{
}

/// Intersection and union do not depend on the order of their sides.
pub proof fn lemma_and_or_commute<Q: EclQueryable>(store: &Q, a: EclExpression, b: EclExpression)
    ensures
        eval(store, EclExpression::And(Box::new(a), Box::new(b))) == eval(
            store,
            EclExpression::And(Box::new(b), Box::new(a)),
        ),
        eval(store, EclExpression::Or(Box::new(a), Box::new(b))) == eval(
            store,
            EclExpression::Or(Box::new(b), Box::new(a)),
        ),
{
    assert(eval(store, a).intersect(eval(store, b)) =~= eval(store, b).intersect(eval(store, a)));
    assert(eval(store, a).union(eval(store, b)) =~= eval(store, b).union(eval(store, a)));
}

} // verus!
