//! Mathematical model of the store: the records it holds, in the order of
//! loading, and what each query answers over them.

use vstd::prelude::*;
use crate::sctid::SctId;
use crate::index::picked;
use crate::hierarchy::{ancestors_of, descendants_of, endpoints, Edges};
use crate::concept::Rf2Concept;
use crate::description::Rf2Description;
use crate::relationship::Rf2Relationship;
use crate::concrete_relationship::Rf2ConcreteRelationship;
use crate::owl_expression::Rf2OwlExpression;
use crate::refset::{Rf2AssociationRefsetMember, Rf2LanguageRefsetMember};
use crate::enums::DescriptionType;
use crate::mrcm_store::MrcmStore;
use crate::closure::TransitiveClosure;

verus! {

/// Descriptions, each under the concept that it belongs to.
pub open spec fn by_concept(items: Seq<Rf2Description>) -> Seq<(SctId, Rf2Description)> {
    Seq::new(items.len(), |i: int| (items[i].concept_id, items[i]))
}

/// Relationships, each under its source.
pub open spec fn by_source(items: Seq<Rf2Relationship>) -> Seq<(SctId, Rf2Relationship)> {
    Seq::new(items.len(), |i: int| (items[i].source_id, items[i]))
}

/// Relationships, each under its destination.
pub open spec fn by_destination(items: Seq<Rf2Relationship>) -> Seq<(SctId, Rf2Relationship)> {
    Seq::new(items.len(), |i: int| (items[i].destination_id, items[i]))
}

/// Memberships, given as pairs of a reference set and a component, each
/// component under its reference set.
pub open spec fn by_refset(items: Seq<(SctId, SctId)>) -> Seq<(SctId, SctId)> {
    items
}

/// Memberships, given as pairs of a reference set and a component, each
/// reference set under its component.
pub open spec fn by_component(items: Seq<(SctId, SctId)>) -> Seq<(SctId, SctId)> {
    Seq::new(items.len(), |i: int| (items[i].1, items[i].0))
}

/// OWL expressions, each under the concept that it is about.
pub open spec fn by_owl_concept(items: Seq<Rf2OwlExpression>) -> Seq<(SctId, Rf2OwlExpression)> {
    Seq::new(items.len(), |i: int| (items[i].referenced_component_id, items[i]))
}

/// Concrete relationships, each under its source.
pub open spec fn by_concrete_source(items: Seq<Rf2ConcreteRelationship>) -> Seq<
    (SctId, Rf2ConcreteRelationship),
> {
    Seq::new(items.len(), |i: int| (items[i].source_id, items[i]))
}

/// Language members, each under its description.
pub open spec fn by_description(items: Seq<Rf2LanguageRefsetMember>) -> Seq<
    (SctId, Rf2LanguageRefsetMember),
> {
    Seq::new(items.len(), |i: int| (items[i].referenced_component_id, items[i]))
}

/// Association members, each under its source component.
pub open spec fn by_association_source(items: Seq<Rf2AssociationRefsetMember>) -> Seq<
    (SctId, Rf2AssociationRefsetMember),
> {
    Seq::new(items.len(), |i: int| (items[i].referenced_component_id, items[i]))
}

/// The destinations of the active IS-A relationships among `rows`, in
/// order.
pub open spec fn parents_in(rows: Seq<Rf2Relationship>) -> Seq<SctId>
    decreases rows.len(),
{
    if rows.len() == 0 {
        Seq::empty()
    } else if rows.last().is_is_a() && rows.last().active {
        parents_in(rows.drop_last()).push(rows.last().destination_id)
    } else {
        parents_in(rows.drop_last())
    }
}

/// The sources of the active IS-A relationships among `rows`, in order.
pub open spec fn children_in(rows: Seq<Rf2Relationship>) -> Seq<SctId>
    decreases rows.len(),
{
    if rows.len() == 0 {
        Seq::empty()
    } else if rows.last().is_is_a() && rows.last().active {
        children_in(rows.drop_last()).push(rows.last().source_id)
    } else {
        children_in(rows.drop_last())
    }
}

/// The edges of the hierarchy that relationships give: a pair of child and
/// parent for every active IS-A relationship.
pub open spec fn edges_of(rels: Seq<Rf2Relationship>) -> Edges {
    Set::new(
        |e: (SctId, SctId)|
            exists|i: int|
                0 <= i < rels.len() && (#[trigger] rels[i]).is_is_a() && rels[i].active
                    && rels[i].source_id == e.0 && rels[i].destination_id == e.1,
    )
}

/// The position of the first description of the given type at or after
/// `from`, or -1.
pub open spec fn first_of_type(rows: Seq<Rf2Description>, type_id: SctId, from: int) -> int
    decreases rows.len() - from,
{
    if from < 0 || from >= rows.len() {
        -1
    } else if rows[from].type_id == type_id {
        from
    } else {
        first_of_type(rows, type_id, from + 1)
    }
}

/// Whether a language member marks its description as preferred in the
/// language reference set `refset_id`.
pub open spec fn marks_preferred(members: Seq<Rf2LanguageRefsetMember>, refset_id: SctId) -> bool {
    exists|i: int|
        0 <= i < members.len() && (#[trigger] members[i]).refset_id == refset_id
            && members[i].is_preferred()
}

/// The position of the first REPLACED BY association at or after `from`, or
/// -1.
pub open spec fn first_replacement(rows: Seq<Rf2AssociationRefsetMember>, from: int) -> int
    decreases rows.len() - from,
{
    if from < 0 || from >= rows.len() {
        -1
    } else if rows[from].is_replaced_by_association() {
        from
    } else {
        first_replacement(rows, from + 1)
    }
}

/// Mathematical model of the store.
pub struct StoreView {
    /// The concepts, by identifier. A concept loaded later replaces one of
    /// the same identifier.
    pub concepts: Map<SctId, Rf2Concept>,
    /// The identifiers of the concepts, each once, in the order in which
    /// they were first loaded.
    pub concept_ids: Seq<SctId>,
    /// The descriptions, in the order of loading.
    pub descriptions: Seq<Rf2Description>,
    /// The relationships, in the order of loading.
    pub relationships: Seq<Rf2Relationship>,
    /// The memberships of simple reference sets, each a pair of reference
    /// set and component, in the order of loading.
    pub refset_members: Seq<(SctId, SctId)>,
    /// The OWL expressions, in the order of loading.
    pub owl_expressions: Seq<Rf2OwlExpression>,
    /// The concrete relationships, in the order of loading.
    pub concrete_relationships: Seq<Rf2ConcreteRelationship>,
    /// The language members, in the order of loading.
    pub language_members: Seq<Rf2LanguageRefsetMember>,
    /// The association members, in the order of loading.
    pub associations: Seq<Rf2AssociationRefsetMember>,
    /// The MRCM data, once loaded.
    pub mrcm: Option<MrcmStore>,
    /// The transitive closure, once built.
    pub closure: Option<TransitiveClosure>,
}

impl StoreView {
    /// The descriptions of a concept.
    pub open spec fn descriptions_of(self, concept_id: SctId) -> Seq<Rf2Description> {
        picked(by_concept(self.descriptions), concept_id)
    }

    /// The relationships whose source is the concept.
    pub open spec fn outgoing(self, concept_id: SctId) -> Seq<Rf2Relationship> {
        picked(by_source(self.relationships), concept_id)
    }

    /// The relationships whose destination is the concept.
    pub open spec fn incoming(self, concept_id: SctId) -> Seq<Rf2Relationship> {
        picked(by_destination(self.relationships), concept_id)
    }

    /// The direct parents of a concept: the destinations of its active IS-A
    /// relationships.
    pub open spec fn parents(self, concept_id: SctId) -> Seq<SctId> {
        parents_in(self.outgoing(concept_id))
    }

    /// The direct children of a concept: the sources of the active IS-A
    /// relationships that lead to it.
    pub open spec fn children(self, concept_id: SctId) -> Seq<SctId> {
        children_in(self.incoming(concept_id))
    }

    /// The edges of the hierarchy of the store as it is now.
    pub open spec fn edges(self) -> Edges {
        edges_of(self.relationships)
    }

    /// The members of a reference set.
    pub open spec fn members_of(self, refset_id: SctId) -> Seq<SctId> {
        picked(by_refset(self.refset_members), refset_id)
    }

    /// The reference sets that hold a component.
    pub open spec fn refsets_of(self, component_id: SctId) -> Seq<SctId> {
        picked(by_component(self.refset_members), component_id)
    }

    /// The OWL expressions about a concept.
    pub open spec fn owl_expressions_of(self, concept_id: SctId) -> Seq<Rf2OwlExpression> {
        picked(by_owl_concept(self.owl_expressions), concept_id)
    }

    /// The concrete relationships whose source is the concept.
    pub open spec fn concrete_relationships_of(self, source_id: SctId) -> Seq<
        Rf2ConcreteRelationship,
    > {
        picked(by_concrete_source(self.concrete_relationships), source_id)
    }

    /// The language members of a description.
    pub open spec fn language_members_of(self, description_id: SctId) -> Seq<
        Rf2LanguageRefsetMember,
    > {
        picked(by_description(self.language_members), description_id)
    }

    /// The association members whose source is the component.
    pub open spec fn associations_of(self, component_id: SctId) -> Seq<Rf2AssociationRefsetMember> {
        picked(by_association_source(self.associations), component_id)
    }

    /// The strict ancestors of a concept as the store gives them: those that
    /// the closure holds, once it is built; else those in the hierarchy of
    /// the store as it is now.
    pub open spec fn ancestors(self, concept_id: SctId) -> Set<SctId> {
        match self.closure {
            Some(closure) => closure.spec_ancestors(concept_id),
            None => ancestors_of(self.edges(), concept_id),
        }
    }

    /// The strict descendants of a concept as the store gives them: those
    /// that the closure holds, once it is built; else those in the hierarchy
    /// of the store as it is now.
    pub open spec fn descendants(self, concept_id: SctId) -> Set<SctId> {
        match self.closure {
            Some(closure) => closure.spec_descendants(concept_id),
            None => descendants_of(self.edges(), concept_id),
        }
    }

    /// The position, among the descriptions of a concept, of its fully
    /// specified name: the first description of that type; -1 where there is
    /// none.
    pub open spec fn fsn_position(self, concept_id: SctId) -> int {
        first_of_type(self.descriptions_of(concept_id), DescriptionType::FSN_ID, 0)
    }

    /// The position, among the descriptions of a concept, of its preferred
    /// term: the first synonym, else the first fully specified name; -1
    /// where there is neither.
    pub open spec fn preferred_position(self, concept_id: SctId) -> int {
        let rows = self.descriptions_of(concept_id);
        let synonym = first_of_type(rows, DescriptionType::SYNONYM_ID, 0);
        if synonym >= 0 {
            synonym
        } else {
            first_of_type(rows, DescriptionType::FSN_ID, 0)
        }
    }

    /// The position, among the descriptions of a concept, of the first at or
    /// after `from` that a language member marks as preferred in the language
    /// reference set; -1 where there is none.
    pub open spec fn preferred_in_language(
        self,
        concept_id: SctId,
        language_refset_id: SctId,
        from: int,
    ) -> int
        decreases self.descriptions_of(concept_id).len() - from,
    {
        let rows = self.descriptions_of(concept_id);
        if from < 0 || from >= rows.len() {
            -1
        } else if marks_preferred(self.language_members_of(rows[from].id), language_refset_id) {
            from
        } else {
            self.preferred_in_language(concept_id, language_refset_id, from + 1)
        }
    }
}

/// A concept is among the parents that rows give exactly where a row is an
/// active IS-A relationship to it.
pub proof fn lemma_parents_in(rows: Seq<Rf2Relationship>, p: SctId)
    ensures
        parents_in(rows).contains(p) <==> exists|j: int|
            0 <= j < rows.len() && (#[trigger] rows[j]).is_is_a() && rows[j].active
                && rows[j].destination_id == p,
    decreases rows.len(),
{
    if rows.len() > 0 {
        let rest = rows.drop_last();
        let last = rows.last();
        lemma_parents_in(rest, p);
        let all = parents_in(rows);
        let before = parents_in(rest);
        if all.contains(p) {
            let i = choose|i: int| 0 <= i < all.len() && all[i] == p;
            if i < before.len() {
                assert(before[i] == p);
                assert(before.contains(p));
                let j = choose|j: int|
                    0 <= j < rest.len() && (#[trigger] rest[j]).is_is_a() && rest[j].active
                        && rest[j].destination_id == p;
                assert(rows[j] == rest[j]);
            } else {
                assert(rows[rows.len() - 1] == last);
            }
        }
        if exists|j: int|
            0 <= j < rows.len() && (#[trigger] rows[j]).is_is_a() && rows[j].active
                && rows[j].destination_id == p {
            let j = choose|j: int|
                0 <= j < rows.len() && (#[trigger] rows[j]).is_is_a() && rows[j].active
                    && rows[j].destination_id == p;
            if j < rest.len() {
                assert(rest[j] == rows[j]);
                assert(before.contains(p));
                let i = choose|i: int| 0 <= i < before.len() && before[i] == p;
                assert(all[i] == p);
            } else {
                assert(all[before.len() as int] == p);
            }
        }
    }
}

/// A concept is among the children that rows give exactly where a row is
/// an active IS-A relationship from it.
pub proof fn lemma_children_in(rows: Seq<Rf2Relationship>, c: SctId)
    ensures
        children_in(rows).contains(c) <==> exists|j: int|
            0 <= j < rows.len() && (#[trigger] rows[j]).is_is_a() && rows[j].active
                && rows[j].source_id == c,
    decreases rows.len(),
{
    if rows.len() > 0 {
        let rest = rows.drop_last();
        let last = rows.last();
        lemma_children_in(rest, c);
        let all = children_in(rows);
        let before = children_in(rest);
        if all.contains(c) {
            let i = choose|i: int| 0 <= i < all.len() && all[i] == c;
            if i < before.len() {
                assert(before[i] == c);
                assert(before.contains(c));
                let j = choose|j: int|
                    0 <= j < rest.len() && (#[trigger] rest[j]).is_is_a() && rest[j].active
                        && rest[j].source_id == c;
                assert(rows[j] == rest[j]);
            } else {
                assert(rows[rows.len() - 1] == last);
            }
        }
        if exists|j: int|
            0 <= j < rows.len() && (#[trigger] rows[j]).is_is_a() && rows[j].active
                && rows[j].source_id == c {
            let j = choose|j: int|
                0 <= j < rows.len() && (#[trigger] rows[j]).is_is_a() && rows[j].active
                    && rows[j].source_id == c;
            if j < rest.len() {
                assert(rest[j] == rows[j]);
                assert(before.contains(c));
                let i = choose|i: int| 0 <= i < before.len() && before[i] == c;
                assert(all[i] == c);
            } else {
                assert(all[before.len() as int] == c);
            }
        }
    }
}

impl StoreView {
    /// The direct parents of a concept are the parents of its edges: what
    /// `parents` lists is what the hierarchy holds, one for one.
    pub proof fn lemma_parents_are_edges(self, concept_id: SctId, p: SctId)
        ensures
            self.parents(concept_id).contains(p) <==> self.edges().contains((concept_id, p)),
    {
        let rels = self.relationships;
        let rows = self.outgoing(concept_id);
        lemma_parents_in(rows, p);
        crate::index::lemma_picked_members(by_source(rels), concept_id);
        if self.parents(concept_id).contains(p) {
            let j = choose|j: int|
                0 <= j < rows.len() && (#[trigger] rows[j]).is_is_a() && rows[j].active
                    && rows[j].destination_id == p;
            assert(rows.contains(rows[j]));
            assert(by_source(rels).contains((concept_id, rows[j])));
            let i = choose|i: int|
                0 <= i < by_source(rels).len() && by_source(rels)[i] == (concept_id, rows[j]);
            assert(rels[i] == rows[j]);
            assert(rels[i].is_is_a());
        }
        if self.edges().contains((concept_id, p)) {
            let i = choose|i: int|
                0 <= i < rels.len() && (#[trigger] rels[i]).is_is_a() && rels[i].active
                    && rels[i].source_id == concept_id && rels[i].destination_id == p;
            assert(by_source(rels)[i] == (concept_id, rels[i]));
            assert(by_source(rels).contains((concept_id, rels[i])));
            assert(rows.contains(rels[i]));
            let j = choose|j: int| 0 <= j < rows.len() && rows[j] == rels[i];
            assert(rows[j].is_is_a());
        }
    }

    /// The direct children of a concept are the children of its edges.
    pub proof fn lemma_children_are_edges(self, concept_id: SctId, c: SctId)
        ensures
            self.children(concept_id).contains(c) <==> self.edges().contains((c, concept_id)),
    {
        let rels = self.relationships;
        let rows = self.incoming(concept_id);
        lemma_children_in(rows, c);
        crate::index::lemma_picked_members(by_destination(rels), concept_id);
        if self.children(concept_id).contains(c) {
            let j = choose|j: int|
                0 <= j < rows.len() && (#[trigger] rows[j]).is_is_a() && rows[j].active
                    && rows[j].source_id == c;
            assert(rows.contains(rows[j]));
            assert(by_destination(rels).contains((concept_id, rows[j])));
            let i = choose|i: int|
                0 <= i < by_destination(rels).len() && by_destination(rels)[i] == (
                    concept_id,
                    rows[j],
                );
            assert(rels[i] == rows[j]);
            assert(rels[i].is_is_a());
        }
        if self.edges().contains((c, concept_id)) {
            let i = choose|i: int|
                0 <= i < rels.len() && (#[trigger] rels[i]).is_is_a() && rels[i].active
                    && rels[i].source_id == c && rels[i].destination_id == concept_id;
            assert(by_destination(rels)[i] == (concept_id, rels[i]));
            assert(by_destination(rels).contains((concept_id, rels[i])));
            assert(rows.contains(rels[i]));
            let j = choose|j: int| 0 <= j < rows.len() && rows[j] == rels[i];
            assert(rows[j].is_is_a());
        }
    }

    /// The hierarchy of a store has finitely many concepts.
    pub proof fn lemma_edges_finite(self)
        ensures
            endpoints(self.edges()).finite(),
    {
        let rels = self.relationships;
        let sources = Seq::new(rels.len(), |i: int| rels[i].source_id);
        let destinations = Seq::new(rels.len(), |i: int| rels[i].destination_id);
        let all = sources.to_set().union(destinations.to_set());
        vstd::seq_lib::seq_to_set_is_finite(sources);
        vstd::seq_lib::seq_to_set_is_finite(destinations);
        assert(all.finite());
        assert forall|x: SctId| endpoints(self.edges()).contains(x) implies all.contains(x) by {
            let y = choose|y: SctId|
                self.edges().contains((x, y)) || self.edges().contains((y, x));
            if self.edges().contains((x, y)) {
                let i = choose|i: int|
                    0 <= i < rels.len() && (#[trigger] rels[i]).is_is_a() && rels[i].active
                        && rels[i].source_id == x && rels[i].destination_id == y;
                assert(sources[i] == x);
                assert(sources.contains(x));
            } else {
                let i = choose|i: int|
                    0 <= i < rels.len() && (#[trigger] rels[i]).is_is_a() && rels[i].active
                        && rels[i].source_id == y && rels[i].destination_id == x;
                assert(destinations[i] == x);
                assert(destinations.contains(x));
            }
        }
        vstd::set_lib::lemma_set_subset_finite(all, endpoints(self.edges()));
    }
}

} // verus!
