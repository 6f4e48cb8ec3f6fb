//! In-memory store of SNOMED CT data: the concepts by identifier, and an
//! index for each way in which the query layer looks records up.

use vstd::prelude::*;
use std::collections::HashMap;
use crate::sctid::SctId;
use crate::index::{counted, first_keys, Index};
use crate::mrcm_store::{items_of, MrcmStore};
use crate::closure::TransitiveClosure;
use crate::hierarchy::{ancestors_of, descendants_of, reachable, without};

use crate::concept::Rf2Concept;
use crate::description::Rf2Description;
use crate::relationship::Rf2Relationship;
use crate::concrete_relationship::Rf2ConcreteRelationship;
use crate::owl_expression::Rf2OwlExpression;
use crate::refset::{Rf2AssociationRefsetMember, Rf2LanguageRefsetMember, Rf2SimpleRefsetMember};
use crate::enums::DescriptionType;
use crate::store_model::{
    by_association_source, by_component, by_concept, by_concrete_source, by_description,
    by_destination, by_owl_concept, by_refset, by_source, children_in, first_of_type,
    first_replacement, marks_preferred, parents_in, StoreView,
};

verus! {

/// The concepts by identifier after `added` were put in, one by one: a
/// concept replaces an earlier one of the same identifier.
pub open spec fn with_concepts(concepts: Map<SctId, Rf2Concept>, added: Seq<Rf2Concept>) -> Map<
    SctId,
    Rf2Concept,
>
    decreases added.len(),
{
    if added.len() == 0 {
        concepts
    } else {
        with_concepts(concepts, added.drop_last()).insert(added.last().id, added.last())
    }
}

/// The identifiers of the concepts after `added` were put in, one by one:
/// an identifier that is new goes to the end.
pub open spec fn with_concept_ids(ids: Seq<SctId>, added: Seq<Rf2Concept>) -> Seq<SctId>
    decreases added.len(),
{
    if added.len() == 0 {
        ids
    } else {
        let before = with_concept_ids(ids, added.drop_last());
        if before.contains(added.last().id) {
            before
        } else {
            before.push(added.last().id)
        }
    }
}

/// The memberships that simple reference set members state, each as a pair
/// of reference set and component.
pub open spec fn memberships(members: Seq<Rf2SimpleRefsetMember>) -> Seq<(SctId, SctId)> {
    Seq::new(members.len(), |i: int| (members[i].refset_id, members[i].referenced_component_id))
}

/// In-memory store of SNOMED CT data. It is created empty, filled by loads
/// that only add, and then queried.
pub struct SnomedStore {
    concepts: HashMap<SctId, Rf2Concept>,
    concept_order: Vec<SctId>,
    descriptions_by_concept: Index<Rf2Description>,
    relationships_by_source: Index<Rf2Relationship>,
    relationships_by_destination: Index<Rf2Relationship>,
    refsets_by_id: Index<SctId>,
    refsets_containing_component: Index<SctId>,
    owl_expressions_by_concept: Index<Rf2OwlExpression>,
    concrete_relationships_by_source: Index<Rf2ConcreteRelationship>,
    language_members_by_description: Index<Rf2LanguageRefsetMember>,
    associations_by_source: Index<Rf2AssociationRefsetMember>,
    mrcm: Option<MrcmStore>,
    transitive_closure: Option<TransitiveClosure>,
}

impl View for SnomedStore {
    type V = StoreView;

    closed spec fn view(&self) -> StoreView {
        StoreView {
            concepts: self.concepts@,
            concept_ids: self.concept_order@,
            descriptions: items_of(self.descriptions_by_concept.entries()),
            relationships: items_of(self.relationships_by_source.entries()),
            refset_members: self.refsets_by_id.entries(),
            owl_expressions: items_of(self.owl_expressions_by_concept.entries()),
            concrete_relationships: items_of(self.concrete_relationships_by_source.entries()),
            language_members: items_of(self.language_members_by_description.entries()),
            associations: items_of(self.associations_by_source.entries()),
            mrcm: self.mrcm,
            closure: self.transitive_closure,
        }
    }
}

impl SnomedStore {
    /// The invariant of the store: every index holds the records of the
    /// model under the keys of the model, so that a record that stands in two
    /// indexes stands in both or in neither.
    pub closed spec fn wf(&self) -> bool {
        &&& self.descriptions_by_concept.wf()
        &&& self.relationships_by_source.wf()
        &&& self.relationships_by_destination.wf()
        &&& self.refsets_by_id.wf()
        &&& self.refsets_containing_component.wf()
        &&& self.owl_expressions_by_concept.wf()
        &&& self.concrete_relationships_by_source.wf()
        &&& self.language_members_by_description.wf()
        &&& self.associations_by_source.wf()
        &&& self.concept_order@.no_duplicates()
        &&& self.concept_order@.to_set() == self.concepts@.dom()
        &&& forall|id: SctId| #[trigger]
            self.concepts@.contains_key(id) ==> self.concepts@[id].id == id
        &&& self.descriptions_by_concept.entries() == by_concept(self@.descriptions)
        &&& self.relationships_by_source.entries() == by_source(self@.relationships)
        &&& self.relationships_by_destination.entries() == by_destination(self@.relationships)
        &&& self.refsets_by_id.entries() == by_refset(self@.refset_members)
        &&& self.refsets_containing_component.entries() == by_component(self@.refset_members)
        &&& self.owl_expressions_by_concept.entries() == by_owl_concept(self@.owl_expressions)
        &&& self.concrete_relationships_by_source.entries() == by_concrete_source(
            self@.concrete_relationships,
        )
        &&& self.language_members_by_description.entries() == by_description(
            self@.language_members,
        )
        &&& self.associations_by_source.entries() == by_association_source(self@.associations)
        &&& (self.mrcm matches Some(m) ==> m.wf())
        &&& (self.transitive_closure matches Some(c) ==> c.wf())
    }

    /// In a valid store every concept stands under its own identifier, the
    /// identifiers of the concepts are listed once each, and the MRCM data
    /// and the closure are valid where they are there.
    pub proof fn lemma_valid(&self)
        requires
            self.wf(),
        ensures
            self@.concept_ids.no_duplicates(),
            self@.concept_ids.to_set() == self@.concepts.dom(),
            forall|id: SctId| #[trigger]
                self@.concepts.contains_key(id) ==> self@.concepts[id].id == id,
            self@.mrcm matches Some(m) ==> m.wf(),
            self@.closure matches Some(c) ==> c.wf(),
    {
    }

    /// An empty store.
    pub fn new() -> (r: Self)
        ensures
            r.wf(),
            r@ == Self::empty_view(),
    {
        let r = SnomedStore {
            concepts: HashMap::new(),
            concept_order: Vec::new(),
            descriptions_by_concept: Index::new(),
            relationships_by_source: Index::new(),
            relationships_by_destination: Index::new(),
            refsets_by_id: Index::new(),
            refsets_containing_component: Index::new(),
            owl_expressions_by_concept: Index::new(),
            concrete_relationships_by_source: Index::new(),
            language_members_by_description: Index::new(),
            associations_by_source: Index::new(),
            mrcm: None,
            transitive_closure: None,
        };
        proof {
            r.lemma_empty();
        }
        r
    }

    /// An empty store with room for the given number of concepts.
    pub fn with_capacity(
        concept_count: usize,
        _description_count: usize,
        _relationship_count: usize,
    ) -> (r: Self)
        ensures
            r.wf(),
            r@ == Self::empty_view(),
    {
        let r = SnomedStore {
            concepts: HashMap::with_capacity(concept_count),
            concept_order: Vec::with_capacity(concept_count),
            descriptions_by_concept: Index::with_capacity(concept_count),
            relationships_by_source: Index::with_capacity(concept_count),
            relationships_by_destination: Index::with_capacity(concept_count),
            refsets_by_id: Index::new(),
            refsets_containing_component: Index::new(),
            owl_expressions_by_concept: Index::new(),
            concrete_relationships_by_source: Index::new(),
            language_members_by_description: Index::new(),
            associations_by_source: Index::new(),
            mrcm: None,
            transitive_closure: None,
        };
        proof {
            r.lemma_empty();
        }
        r
    }

    /// The model of a store that holds nothing.
    pub open spec fn empty_view() -> StoreView {
        StoreView {
            concepts: Map::empty(),
            concept_ids: Seq::empty(),
            descriptions: Seq::empty(),
            relationships: Seq::empty(),
            refset_members: Seq::empty(),
            owl_expressions: Seq::empty(),
            concrete_relationships: Seq::empty(),
            language_members: Seq::empty(),
            associations: Seq::empty(),
            mrcm: None,
            closure: None,
        }
    }

    proof fn lemma_empty(&self)
        requires
            self.concepts@ == Map::<SctId, Rf2Concept>::empty(),
            self.concept_order@ == Seq::<SctId>::empty(),
            self.descriptions_by_concept.wf(),
            self.descriptions_by_concept.entries().len() == 0,
            self.relationships_by_source.wf(),
            self.relationships_by_source.entries().len() == 0,
            self.relationships_by_destination.wf(),
            self.relationships_by_destination.entries().len() == 0,
            self.refsets_by_id.wf(),
            self.refsets_by_id.entries().len() == 0,
            self.refsets_containing_component.wf(),
            self.refsets_containing_component.entries().len() == 0,
            self.owl_expressions_by_concept.wf(),
            self.owl_expressions_by_concept.entries().len() == 0,
            self.concrete_relationships_by_source.wf(),
            self.concrete_relationships_by_source.entries().len() == 0,
            self.language_members_by_description.wf(),
            self.language_members_by_description.entries().len() == 0,
            self.associations_by_source.wf(),
            self.associations_by_source.entries().len() == 0,
            self.mrcm is None,
            self.transitive_closure is None,
        ensures
            self.wf(),
            self@ == Self::empty_view(),
    {
        assert(self.concept_order@.to_set() =~= self.concepts@.dom());
        assert(self.descriptions_by_concept.entries() =~= by_concept(self@.descriptions));
        assert(self.relationships_by_source.entries() =~= by_source(self@.relationships));
        assert(self.relationships_by_destination.entries() =~= by_destination(
            self@.relationships,
        ));
        assert(self.refsets_containing_component.entries() =~= by_component(
            self@.refset_members,
        ));
        assert(self.owl_expressions_by_concept.entries() =~= by_owl_concept(
            self@.owl_expressions,
        ));
        assert(self.concrete_relationships_by_source.entries() =~= by_concrete_source(
            self@.concrete_relationships,
        ));
        assert(self.language_members_by_description.entries() =~= by_description(
            self@.language_members,
        ));
        assert(self.associations_by_source.entries() =~= by_association_source(
            self@.associations,
        ));
        assert(self@.descriptions =~= Seq::<Rf2Description>::empty());
        assert(self@.relationships =~= Seq::<Rf2Relationship>::empty());
        assert(self@.refset_members =~= Seq::<(SctId, SctId)>::empty());
        assert(self@.owl_expressions =~= Seq::<Rf2OwlExpression>::empty());
        assert(self@.concrete_relationships =~= Seq::<Rf2ConcreteRelationship>::empty());
        assert(self@.language_members =~= Seq::<Rf2LanguageRefsetMember>::empty());
        assert(self@.associations =~= Seq::<Rf2AssociationRefsetMember>::empty());
    }

    /// Puts one concept in, under its identifier.
    pub fn insert_concept(&mut self, concept: Rf2Concept)
        requires
            old(self).wf(),
        ensures
            final(self).wf(),
            final(self)@ == (StoreView {
                concepts: old(self)@.concepts.insert(concept.id, concept),
                concept_ids: if old(self)@.concept_ids.contains(concept.id) {
                    old(self)@.concept_ids
                } else {
                    old(self)@.concept_ids.push(concept.id)
                },
                ..old(self)@
            }),
    {
        let ghost before = self.concept_order@;
        match self.concepts.insert(concept.id, concept) {
            Some(_) => {
                assert(before.to_set().contains(concept.id));
                assert(self.concept_order@.to_set() =~= self.concepts@.dom());
            },
            None => {
                assert(!before.to_set().contains(concept.id));
                self.concept_order.push(concept.id);
                proof {
                    crate::closure::lemma_push_new(before, concept.id);
                    assert(self.concept_order@.to_set() =~= self.concepts@.dom());
                }
            },
        }
    }

    /// Puts one description in, under its concept.
    pub fn insert_description(&mut self, description: Rf2Description)
        requires
            old(self).wf(),
        ensures
            final(self).wf(),
            final(self)@ == (StoreView {
                descriptions: old(self)@.descriptions.push(description),
                ..old(self)@
            }),
    {
        let key = description.concept_id;
        self.descriptions_by_concept.push(key, description);
        proof {
            assert(self@.descriptions =~= old(self)@.descriptions.push(description));
            assert(self.descriptions_by_concept.entries() =~= by_concept(self@.descriptions));
        }
    }

    /// Puts one relationship in, under its source and under its
    /// destination.
    pub fn insert_relationship(&mut self, relationship: Rf2Relationship)
        requires
            old(self).wf(),
        ensures
            final(self).wf(),
            final(self)@ == (StoreView {
                relationships: old(self)@.relationships.push(relationship),
                ..old(self)@
            }),
    {
        self.relationships_by_source.push(relationship.source_id, relationship);
        self.relationships_by_destination.push(relationship.destination_id, relationship);
        proof {
            assert(self@.relationships =~= old(self)@.relationships.push(relationship));
            assert(self.relationships_by_source.entries() =~= by_source(self@.relationships));
            assert(self.relationships_by_destination.entries() =~= by_destination(
                self@.relationships,
            ));
        }
    }

    /// Puts one membership of a simple reference set in: the component under
    /// the reference set, and the reference set under the component.
    pub fn insert_refset_member(&mut self, member: Rf2SimpleRefsetMember)
        requires
            old(self).wf(),
        ensures
            final(self).wf(),
            final(self)@ == (StoreView {
                refset_members: old(self)@.refset_members.push(
                    (member.refset_id, member.referenced_component_id),
                ),
                ..old(self)@
            }),
    {
        self.refsets_by_id.push(member.refset_id, member.referenced_component_id);
        self.refsets_containing_component.push(member.referenced_component_id, member.refset_id);
        proof {
            assert(self.refsets_containing_component.entries() =~= by_component(
                self@.refset_members,
            ));
        }
    }

    /// Puts one OWL expression in, under the concept that it is about.
    pub fn insert_owl_expression(&mut self, expression: Rf2OwlExpression)
        requires
            old(self).wf(),
        ensures
            final(self).wf(),
            final(self)@ == (StoreView {
                owl_expressions: old(self)@.owl_expressions.push(expression),
                ..old(self)@
            }),
    {
        let key = expression.referenced_component_id;
        self.owl_expressions_by_concept.push(key, expression);
        proof {
            assert(self@.owl_expressions =~= old(self)@.owl_expressions.push(expression));
            assert(self.owl_expressions_by_concept.entries() =~= by_owl_concept(
                self@.owl_expressions,
            ));
        }
    }

    /// Puts one concrete relationship in, under its source.
    pub fn insert_concrete_relationship(&mut self, relationship: Rf2ConcreteRelationship)
        requires
            old(self).wf(),
        ensures
            final(self).wf(),
            final(self)@ == (StoreView {
                concrete_relationships: old(self)@.concrete_relationships.push(relationship),
                ..old(self)@
            }),
    {
        let key = relationship.source_id;
        self.concrete_relationships_by_source.push(key, relationship);
        proof {
            assert(self@.concrete_relationships =~= old(self)@.concrete_relationships.push(
                relationship,
            ));
            assert(self.concrete_relationships_by_source.entries() =~= by_concrete_source(
                self@.concrete_relationships,
            ));
        }
    }

    /// Puts one language member in, under its description.
    pub fn insert_language_member(&mut self, member: Rf2LanguageRefsetMember)
        requires
            old(self).wf(),
        ensures
            final(self).wf(),
            final(self)@ == (StoreView {
                language_members: old(self)@.language_members.push(member),
                ..old(self)@
            }),
    {
        self.language_members_by_description.push(member.referenced_component_id, member);
        proof {
            assert(self@.language_members =~= old(self)@.language_members.push(member));
            assert(self.language_members_by_description.entries() =~= by_description(
                self@.language_members,
            ));
        }
    }

    /// Puts one association member in, under its source component.
    pub fn insert_association(&mut self, member: Rf2AssociationRefsetMember)
        requires
            old(self).wf(),
        ensures
            final(self).wf(),
            final(self)@ == (StoreView {
                associations: old(self)@.associations.push(member),
                ..old(self)@
            }),
    {
        self.associations_by_source.push(member.referenced_component_id, member);
        proof {
            assert(self@.associations =~= old(self)@.associations.push(member));
            assert(self.associations_by_source.entries() =~= by_association_source(
                self@.associations,
            ));
        }
    }

    /// Puts concepts in, in order; a concept replaces an earlier one of the
    /// same identifier.
    pub fn insert_concepts(&mut self, concepts: Vec<Rf2Concept>)
        requires
            old(self).wf(),
        ensures
            final(self).wf(),
            final(self)@ == (StoreView {
                concepts: with_concepts(old(self)@.concepts, concepts@),
                concept_ids: with_concept_ids(old(self)@.concept_ids, concepts@),
                ..old(self)@
            }),
    {
        let ghost all = concepts@;
        let ghost start = self@;
        for item in it: concepts
            invariant
                self.wf(),
                it.seq() == all,
                self@ == (StoreView {
                    concepts: with_concepts(start.concepts, all.take(it.index())),
                    concept_ids: with_concept_ids(start.concept_ids, all.take(it.index())),
                    ..start
                }),
        {
            self.insert_concept(item);
            assert(all.take(it.index() + 1).drop_last() =~= all.take(it.index()));
        }
        assert(all.take(all.len() as int) =~= all);
    }

    /// Puts descriptions in, in order.
    pub fn insert_descriptions(&mut self, descriptions: Vec<Rf2Description>)
        requires
            old(self).wf(),
        ensures
            final(self).wf(),
            final(self)@ == (StoreView {
                descriptions: old(self)@.descriptions + descriptions@,
                ..old(self)@
            }),
    {
        let ghost all = descriptions@;
        let ghost start = self@;
        assert(start.descriptions + all.take(0) =~= start.descriptions);
        for item in it: descriptions
            invariant
                self.wf(),
                it.seq() == all,
                self@ == (StoreView {
                    descriptions: start.descriptions + all.take(it.index()),
                    ..start
                }),
        {
            self.insert_description(item);
            assert(start.descriptions + all.take(it.index() + 1) =~= (start.descriptions + all.take(it.index())).push(item));
        }
        assert(all.take(all.len() as int) =~= all);
    }

    /// Puts relationships, each under its source and under its destination, in, in order.
    pub fn insert_relationships(&mut self, relationships: Vec<Rf2Relationship>)
        requires
            old(self).wf(),
        ensures
            final(self).wf(),
            final(self)@ == (StoreView {
                relationships: old(self)@.relationships + relationships@,
                ..old(self)@
            }),
    {
        let ghost all = relationships@;
        let ghost start = self@;
        assert(start.relationships + all.take(0) =~= start.relationships);
        for item in it: relationships
            invariant
                self.wf(),
                it.seq() == all,
                self@ == (StoreView {
                    relationships: start.relationships + all.take(it.index()),
                    ..start
                }),
        {
            self.insert_relationship(item);
            assert(start.relationships + all.take(it.index() + 1) =~= (start.relationships + all.take(it.index())).push(item));
        }
        assert(all.take(all.len() as int) =~= all);
    }

    /// Puts memberships of simple reference sets in, in order.
    pub fn insert_refset_members(&mut self, members: Vec<Rf2SimpleRefsetMember>)
        requires
            old(self).wf(),
        ensures
            final(self).wf(),
            final(self)@ == (StoreView {
                refset_members: old(self)@.refset_members + memberships(members@),
                ..old(self)@
            }),
    {
        let ghost all = members@;
        let ghost start = self@;
        assert(start.refset_members + memberships(all.take(0)) =~= start.refset_members);
        for item in it: members
            invariant
                self.wf(),
                it.seq() == all,
                self@ == (StoreView {
                    refset_members: start.refset_members + memberships(all.take(it.index())),
                    ..start
                }),
        {
            self.insert_refset_member(item);
            assert(start.refset_members + memberships(all.take(it.index() + 1)) =~= (start.refset_members + memberships(all.take(it.index()))).push((item.refset_id, item.referenced_component_id)));
        }
        assert(all.take(all.len() as int) =~= all);
    }

    /// Puts OWL expressions in, in order.
    pub fn insert_owl_expressions(&mut self, expressions: Vec<Rf2OwlExpression>)
        requires
            old(self).wf(),
        ensures
            final(self).wf(),
            final(self)@ == (StoreView {
                owl_expressions: old(self)@.owl_expressions + expressions@,
                ..old(self)@
            }),
    {
        let ghost all = expressions@;
        let ghost start = self@;
        assert(start.owl_expressions + all.take(0) =~= start.owl_expressions);
        for item in it: expressions
            invariant
                self.wf(),
                it.seq() == all,
                self@ == (StoreView {
                    owl_expressions: start.owl_expressions + all.take(it.index()),
                    ..start
                }),
        {
            self.insert_owl_expression(item);
            assert(start.owl_expressions + all.take(it.index() + 1) =~= (start.owl_expressions + all.take(it.index())).push(item));
        }
        assert(all.take(all.len() as int) =~= all);
    }

    /// Puts concrete relationships in, in order.
    pub fn insert_concrete_relationships(&mut self, relationships: Vec<Rf2ConcreteRelationship>)
        requires
            old(self).wf(),
        ensures
            final(self).wf(),
            final(self)@ == (StoreView {
                concrete_relationships: old(self)@.concrete_relationships + relationships@,
                ..old(self)@
            }),
    {
        let ghost all = relationships@;
        let ghost start = self@;
        assert(start.concrete_relationships + all.take(0) =~= start.concrete_relationships);
        for item in it: relationships
            invariant
                self.wf(),
                it.seq() == all,
                self@ == (StoreView {
                    concrete_relationships: start.concrete_relationships + all.take(it.index()),
                    ..start
                }),
        {
            self.insert_concrete_relationship(item);
            assert(start.concrete_relationships + all.take(it.index() + 1) =~= (start.concrete_relationships + all.take(it.index())).push(item));
        }
        assert(all.take(all.len() as int) =~= all);
    }

    /// Puts language members in, in order.
    pub fn insert_language_members(&mut self, members: Vec<Rf2LanguageRefsetMember>)
        requires
            old(self).wf(),
        ensures
            final(self).wf(),
            final(self)@ == (StoreView {
                language_members: old(self)@.language_members + members@,
                ..old(self)@
            }),
    {
        let ghost all = members@;
        let ghost start = self@;
        assert(start.language_members + all.take(0) =~= start.language_members);
        for item in it: members
            invariant
                self.wf(),
                it.seq() == all,
                self@ == (StoreView {
                    language_members: start.language_members + all.take(it.index()),
                    ..start
                }),
        {
            self.insert_language_member(item);
            assert(start.language_members + all.take(it.index() + 1) =~= (start.language_members + all.take(it.index())).push(item));
        }
        assert(all.take(all.len() as int) =~= all);
    }

    /// Puts association members in, in order.
    pub fn insert_associations(&mut self, members: Vec<Rf2AssociationRefsetMember>)
        requires
            old(self).wf(),
        ensures
            final(self).wf(),
            final(self)@ == (StoreView {
                associations: old(self)@.associations + members@,
                ..old(self)@
            }),
    {
        let ghost all = members@;
        let ghost start = self@;
        assert(start.associations + all.take(0) =~= start.associations);
        for item in it: members
            invariant
                self.wf(),
                it.seq() == all,
                self@ == (StoreView {
                    associations: start.associations + all.take(it.index()),
                    ..start
                }),
        {
            self.insert_association(item);
            assert(start.associations + all.take(it.index() + 1) =~= (start.associations + all.take(it.index())).push(item));
        }
        assert(all.take(all.len() as int) =~= all);
    }

    /// The concept of an identifier; `None` where the store holds none.
    pub fn get_concept(&self, id: SctId) -> (r: Option<&Rf2Concept>)
        requires
            self.wf(),
        ensures
            match r {
                Some(c) => self@.concepts.contains_key(id) && *c == self@.concepts[id] && c.id
                    == id,
                None => !self@.concepts.contains_key(id),
            },
    {
        self.concepts.get(&id)
    }

    /// Whether the store holds a concept of an identifier.
    pub fn has_concept(&self, id: SctId) -> (r: bool)
        requires
            self.wf(),
        ensures
            r == self@.concepts.contains_key(id),
    {
        self.concepts.contains_key(&id)
    }

    /// The descriptions of a concept, in the order of loading; `None` where
    /// it has none.
    pub fn get_descriptions(&self, concept_id: SctId) -> (r: Option<&Vec<Rf2Description>>)
        requires
            self.wf(),
        ensures
            match r {
                Some(rows) => rows@ == self@.descriptions_of(concept_id) && rows@.len() > 0,
                None => self@.descriptions_of(concept_id).len() == 0,
            },
    {
        self.descriptions_by_concept.get(concept_id)
    }

    /// The fully specified name of a concept: its first description of that
    /// type; `None` where it has none.
    pub fn get_fsn(&self, concept_id: SctId) -> (r: Option<&Rf2Description>)
        requires
            self.wf(),
        ensures
            ({
                let rows = self@.descriptions_of(concept_id);
                let i = self@.fsn_position(concept_id);
                match r {
                    Some(d) => 0 <= i < rows.len() && *d == rows[i],
                    None => i == -1,
                }
            }),
    {
        match self.descriptions_by_concept.get(concept_id) {
            Some(rows) => match find_type(rows, DescriptionType::FSN_ID) {
                Some(i) => Some(&rows[i]),
                None => None,
            },
            None => None,
        }
    }

    /// The preferred term of a concept where no language is considered: the
    /// term of its first synonym; else that of its fully specified name;
    /// `None` where it has neither.
    pub fn get_preferred_term(&self, concept_id: SctId) -> (r: Option<&str>)
        requires
            self.wf(),
        ensures
            ({
                let rows = self@.descriptions_of(concept_id);
                let i = self@.preferred_position(concept_id);
                match r {
                    Some(term) => 0 <= i < rows.len() && term@ == rows[i].term@,
                    None => i == -1,
                }
            }),
    {
        match self.descriptions_by_concept.get(concept_id) {
            Some(rows) => match find_type(rows, DescriptionType::SYNONYM_ID) {
                Some(i) => Some(rows[i].term.as_str()),
                None => match find_type(rows, DescriptionType::FSN_ID) {
                    Some(i) => Some(rows[i].term.as_str()),
                    None => None,
                },
            },
            None => None,
        }
    }

    /// The relationships whose source is the concept, in the order of
    /// loading; `None` where there is none.
    pub fn get_outgoing_relationships(&self, source_id: SctId) -> (r: Option<
        &Vec<Rf2Relationship>,
    >)
        requires
            self.wf(),
        ensures
            match r {
                Some(rows) => rows@ == self@.outgoing(source_id) && rows@.len() > 0,
                None => self@.outgoing(source_id).len() == 0,
            },
    {
        self.relationships_by_source.get(source_id)
    }

    /// The relationships whose destination is the concept, in the order of
    /// loading; `None` where there is none.
    pub fn get_incoming_relationships(&self, destination_id: SctId) -> (r: Option<
        &Vec<Rf2Relationship>,
    >)
        requires
            self.wf(),
        ensures
            match r {
                Some(rows) => rows@ == self@.incoming(destination_id) && rows@.len() > 0,
                None => self@.incoming(destination_id).len() == 0,
            },
    {
        self.relationships_by_destination.get(destination_id)
    }

    /// The direct parents of a concept: the destinations of its active IS-A
    /// relationships, in the order of loading.
    pub fn get_parents(&self, concept_id: SctId) -> (r: Vec<SctId>)
        requires
            self.wf(),
        ensures
            r@ == self@.parents(concept_id),
    {
        let mut out: Vec<SctId> = Vec::new();
        match self.relationships_by_source.get(concept_id) {
            Some(rows) => {
                let mut i: usize = 0;
                assert(rows@.take(0) =~= Seq::<Rf2Relationship>::empty());
                while i < rows.len()
                    invariant
                        i <= rows.len(),
                        out@ == parents_in(rows@.take(i as int)),
                    decreases rows.len() - i,
                {
                    assert(rows@.take(i + 1).drop_last() =~= rows@.take(i as int));
                    if rows[i].is_is_a() && rows[i].active {
                        out.push(rows[i].destination_id);
                    }
                    i = i + 1;
                }
                assert(rows@.take(rows.len() as int) =~= rows@);
            },
            None => {},
        }
        out
    }

    /// The direct children of a concept: the sources of the active IS-A
    /// relationships that lead to it, in the order of loading.
    pub fn get_children(&self, concept_id: SctId) -> (r: Vec<SctId>)
        requires
            self.wf(),
        ensures
            r@ == self@.children(concept_id),
    {
        let mut out: Vec<SctId> = Vec::new();
        match self.relationships_by_destination.get(concept_id) {
            Some(rows) => {
                let mut i: usize = 0;
                assert(rows@.take(0) =~= Seq::<Rf2Relationship>::empty());
                while i < rows.len()
                    invariant
                        i <= rows.len(),
                        out@ == children_in(rows@.take(i as int)),
                    decreases rows.len() - i,
                {
                    assert(rows@.take(i + 1).drop_last() =~= rows@.take(i as int));
                    if rows[i].is_is_a() && rows[i].active {
                        out.push(rows[i].source_id);
                    }
                    i = i + 1;
                }
                assert(rows@.take(rows.len() as int) =~= rows@);
            },
            None => {},
        }
        out
    }

    /// The members of a reference set, in the order of loading.
    pub fn get_refset_members(&self, refset_id: SctId) -> (r: Vec<SctId>)
        requires
            self.wf(),
        ensures
            r@ == self@.members_of(refset_id),
    {
        match self.refsets_by_id.get(refset_id) {
            Some(members) => members.clone(),
            None => Vec::new(),
        }
    }

    /// Whether a reference set has a member in the store.
    pub fn has_refset(&self, refset_id: SctId) -> (r: bool)
        requires
            self.wf(),
        ensures
            r == (self@.members_of(refset_id).len() > 0),
    {
        self.refsets_by_id.contains_key(refset_id)
    }

    /// The concepts that have a description, each once, in the order in
    /// which they first got one.
    pub fn described_concepts(&self) -> (r: &Vec<SctId>)
        requires
            self.wf(),
        ensures
            r@ == first_keys(by_concept(self@.descriptions)),
            r@.no_duplicates(),
    {
        self.descriptions_by_concept.key_list()
    }

    /// The number of concepts that are the source of a relationship.
    pub fn relationship_source_count(&self) -> (r: usize)
        requires
            self.wf(),
        ensures
            r == first_keys(by_source(self@.relationships)).len(),
    {
        self.relationships_by_source.key_list().len()
    }

    /// The number of reference sets with a member.
    pub fn refset_count(&self) -> (r: usize)
        requires
            self.wf(),
        ensures
            r == first_keys(by_refset(self@.refset_members)).len(),
    {
        self.refsets_by_id.key_list().len()
    }

    /// The number of memberships over all reference sets.
    pub fn refset_member_count(&self) -> (r: usize)
        requires
            self.wf(),
        ensures
            r == counted(self@.refset_members.len()),
    {
        self.refsets_by_id.total()
    }

    /// The reference sets that hold a component, in the order of loading.
    pub fn get_refsets_for_concept(&self, concept_id: SctId) -> (r: Vec<SctId>)
        requires
            self.wf(),
        ensures
            r@ == self@.refsets_of(concept_id),
    {
        match self.refsets_containing_component.get(concept_id) {
            Some(refsets) => refsets.clone(),
            None => Vec::new(),
        }
    }

    /// The OWL expressions about a concept; `None` where there is none.
    pub fn get_owl_expressions(&self, concept_id: SctId) -> (r: Option<&Vec<Rf2OwlExpression>>)
        requires
            self.wf(),
        ensures
            match r {
                Some(rows) => rows@ == self@.owl_expressions_of(concept_id) && rows@.len() > 0,
                None => self@.owl_expressions_of(concept_id).len() == 0,
            },
    {
        self.owl_expressions_by_concept.get(concept_id)
    }

    /// The number of OWL expressions.
    pub fn owl_expression_count(&self) -> (r: usize)
        requires
            self.wf(),
        ensures
            r == counted(self@.owl_expressions.len()),
    {
        self.owl_expressions_by_concept.total()
    }

    /// The concrete relationships whose source is the concept; `None` where
    /// there is none.
    pub fn get_concrete_relationships(&self, source_id: SctId) -> (r: Option<
        &Vec<Rf2ConcreteRelationship>,
    >)
        requires
            self.wf(),
        ensures
            match r {
                Some(rows) => rows@ == self@.concrete_relationships_of(source_id) && rows@.len()
                    > 0,
                None => self@.concrete_relationships_of(source_id).len() == 0,
            },
    {
        self.concrete_relationships_by_source.get(source_id)
    }

    /// The number of concrete relationships.
    pub fn concrete_relationship_count(&self) -> (r: usize)
        requires
            self.wf(),
        ensures
            r == counted(self@.concrete_relationships.len()),
    {
        self.concrete_relationships_by_source.total()
    }

    /// The language members of a description; `None` where there is none.
    pub fn get_language_members_for_description(&self, description_id: SctId) -> (r: Option<
        &Vec<Rf2LanguageRefsetMember>,
    >)
        requires
            self.wf(),
        ensures
            match r {
                Some(rows) => rows@ == self@.language_members_of(description_id) && rows@.len()
                    > 0,
                None => self@.language_members_of(description_id).len() == 0,
            },
    {
        self.language_members_by_description.get(description_id)
    }

    /// The number of language members.
    pub fn language_member_count(&self) -> (r: usize)
        requires
            self.wf(),
        ensures
            r == counted(self@.language_members.len()),
    {
        self.language_members_by_description.total()
    }

    /// The preferred term of a concept in a language reference set: the term
    /// of the first of its descriptions that a language member marks as
    /// preferred in that reference set; `None` where there is none.
    pub fn get_preferred_term_for_language(&self, concept_id: SctId, language_refset_id: SctId) -> (r:
        Option<&str>)
        requires
            self.wf(),
        ensures
            ({
                let rows = self@.descriptions_of(concept_id);
                let i = self@.preferred_in_language(concept_id, language_refset_id, 0);
                match r {
                    Some(term) => 0 <= i < rows.len() && term@ == rows[i].term@,
                    None => i == -1,
                }
            }),
    {
        match self.descriptions_by_concept.get(concept_id) {
            Some(rows) => {
                let mut i: usize = 0;
                while i < rows.len()
                    invariant
                        i <= rows.len(),
                        self.wf(),
                        rows@ == self@.descriptions_of(concept_id),
                        self@.preferred_in_language(concept_id, language_refset_id, 0)
                            == self@.preferred_in_language(
                            concept_id,
                            language_refset_id,
                            i as int,
                        ),
                    decreases rows.len() - i,
                {
                    let marked = match self.language_members_by_description.get(rows[i].id) {
                        Some(members) => preferred_in(members, language_refset_id),
                        None => false,
                    };
                    if marked {
                        return Some(rows[i].term.as_str());
                    }
                    i = i + 1;
                }
                None
            },
            None => None,
        }
    }

    /// The association members whose source is the component; `None` where
    /// there is none.
    pub fn get_associations_for_concept(&self, concept_id: SctId) -> (r: Option<
        &Vec<Rf2AssociationRefsetMember>,
    >)
        requires
            self.wf(),
        ensures
            match r {
                Some(rows) => rows@ == self@.associations_of(concept_id) && rows@.len() > 0,
                None => self@.associations_of(concept_id).len() == 0,
            },
    {
        self.associations_by_source.get(concept_id)
    }

    /// The number of association members.
    pub fn association_count(&self) -> (r: usize)
        requires
            self.wf(),
        ensures
            r == counted(self@.associations.len()),
    {
        self.associations_by_source.total()
    }

    /// The concept that replaces a concept: the target of its first REPLACED
    /// BY association; `None` where it has none.
    pub fn get_replacement_concept(&self, concept_id: SctId) -> (r: Option<SctId>)
        requires
            self.wf(),
        ensures
            ({
                let rows = self@.associations_of(concept_id);
                let i = first_replacement(rows, 0);
                match r {
                    Some(target) => 0 <= i < rows.len() && target == rows[i].target_component_id,
                    None => i == -1,
                }
            }),
    {
        match self.associations_by_source.get(concept_id) {
            Some(rows) => {
                let mut i: usize = 0;
                while i < rows.len()
                    invariant
                        i <= rows.len(),
                        rows@ == self@.associations_of(concept_id),
                        first_replacement(rows@, 0) == first_replacement(rows@, i as int),
                    decreases rows.len() - i,
                {
                    if rows[i].is_replaced_by_association() {
                        return Some(rows[i].target_component_id);
                    }
                    i = i + 1;
                }
                None
            },
            None => None,
        }
    }

    /// The number of concepts.
    pub fn concept_count(&self) -> (r: usize)
        requires
            self.wf(),
        ensures
            r == self@.concepts.dom().len(),
            r == self@.concept_ids.len(),
    {
        proof {
            self.concept_order@.unique_seq_to_set();
        }
        self.concept_order.len()
    }

    /// The number of descriptions.
    pub fn description_count(&self) -> (r: usize)
        requires
            self.wf(),
        ensures
            r == counted(self@.descriptions.len()),
    {
        self.descriptions_by_concept.total()
    }

    /// The number of relationships.
    pub fn relationship_count(&self) -> (r: usize)
        requires
            self.wf(),
        ensures
            r == counted(self@.relationships.len()),
    {
        self.relationships_by_source.total()
    }

    /// The identifiers of the concepts, each once, in the order in which
    /// they were first loaded.
    pub fn concept_ids(&self) -> (r: &Vec<SctId>)
        requires
            self.wf(),
        ensures
            r@ == self@.concept_ids,
    {
        &self.concept_order
    }

    /// The concepts, in the order in which their identifiers were first
    /// loaded.
    pub fn concepts(&self) -> (r: Vec<Rf2Concept>)
        requires
            self.wf(),
        ensures
            r@.len() == self@.concept_ids.len(),
            forall|i: int|
                0 <= i < r@.len() ==> self@.concepts.contains_key(self@.concept_ids[i]) && r@[i]
                    == self@.concepts[#[trigger] self@.concept_ids[i]],
    {
        let mut out: Vec<Rf2Concept> = Vec::new();
        let mut i: usize = 0;
        while i < self.concept_order.len()
            invariant
                i <= self.concept_order.len(),
                self.wf(),
                out@.len() == i,
                forall|k: int|
                    0 <= k < i ==> self@.concepts.contains_key(self@.concept_ids[k]) && out@[k]
                        == self@.concepts[#[trigger] self@.concept_ids[k]],
            decreases self.concept_order.len() - i,
        {
            let id = self.concept_order[i];
            assert(self.concept_order@.to_set().contains(id)) by {
                assert(self.concept_order@.contains(self.concept_order@[i as int]));
            }
            match self.concepts.get(&id) {
                Some(c) => {
                    out.push(*c);
                },
                None => {},
            }
            i = i + 1;
        }
        out
    }

    /// Builds the transitive closure of the hierarchy as it is now. From
    /// then on the hierarchy queries are answered from the closure.
    pub fn build_transitive_closure(&mut self)
        requires
            old(self).wf(),
        ensures
            final(self).wf(),
            final(self)@.closure matches Some(closure) && closure.wf() && closure.basis() == old(
                self,
            )@.edges() && closure.covered() == old(self)@.concepts.dom(),
            final(self)@ == (StoreView { closure: final(self)@.closure, ..old(self)@ }),
    {
        let closure = TransitiveClosure::build(&*self);
        self.transitive_closure = Some(closure);
    }

    /// Whether the transitive closure was built.
    pub fn has_transitive_closure(&self) -> (r: bool)
        requires
            self.wf(),
        ensures
            r == (self@.closure is Some),
    {
        self.transitive_closure.is_some()
    }

    /// The strict ancestors of a concept, each once: by a lookup where the
    /// closure is built, else by a search.
    pub fn get_all_ancestors(&self, concept_id: SctId) -> (r: Vec<SctId>)
        requires
            self.wf(),
        ensures
            r@.no_duplicates(),
            r@.to_set() == self@.ancestors(concept_id),
    {
        match &self.transitive_closure {
            Some(closure) => closure.ancestors_list(concept_id),
            None => self.compute_ancestors_bfs(concept_id),
        }
    }

    /// The concept and its strict ancestors, each once.
    pub fn get_all_ancestors_or_self(&self, concept_id: SctId) -> (r: Vec<SctId>)
        requires
            self.wf(),
        ensures
            r@.no_duplicates(),
            r@.to_set() == self@.ancestors(concept_id).insert(concept_id),
    {
        match &self.transitive_closure {
            Some(closure) => closure.get_ancestors_or_self(concept_id),
            None => {
                let mut out = self.compute_ancestors_bfs(concept_id);
                let ghost before = out@;
                out.push(concept_id);
                proof {
                    assert(!before.to_set().contains(concept_id));
                    crate::closure::lemma_push_new(before, concept_id);
                }
                out
            },
        }
    }

    /// The strict descendants of a concept, each once: by a lookup where the
    /// closure is built, else by a search.
    pub fn get_all_descendants(&self, concept_id: SctId) -> (r: Vec<SctId>)
        requires
            self.wf(),
        ensures
            r@.no_duplicates(),
            r@.to_set() == self@.descendants(concept_id),
    {
        match &self.transitive_closure {
            Some(closure) => closure.descendants_list(concept_id),
            None => self.compute_descendants_bfs(concept_id),
        }
    }

    /// The concept and its strict descendants, each once.
    pub fn get_all_descendants_or_self(&self, concept_id: SctId) -> (r: Vec<SctId>)
        requires
            self.wf(),
        ensures
            r@.no_duplicates(),
            r@.to_set() == self@.descendants(concept_id).insert(concept_id),
    {
        match &self.transitive_closure {
            Some(closure) => closure.get_descendants_or_self(concept_id),
            None => {
                let mut out = self.compute_descendants_bfs(concept_id);
                let ghost before = out@;
                out.push(concept_id);
                proof {
                    assert(!before.to_set().contains(concept_id));
                    crate::closure::lemma_push_new(before, concept_id);
                }
                out
            },
        }
    }

    /// Whether `descendant` is a strict descendant of `ancestor`. No concept
    /// is a descendant of itself.
    pub fn is_descendant_of(&self, descendant: SctId, ancestor: SctId) -> (r: bool)
        requires
            self.wf(),
        ensures
            r == self@.ancestors(descendant).contains(ancestor),
    {
        match &self.transitive_closure {
            Some(closure) => closure.is_descendant_of(descendant, ancestor),
            None => {
                let all = self.compute_ancestors_bfs(descendant);
                assert(all@.to_set().contains(ancestor) <==> all@.contains(ancestor));
                crate::types::has_id(&all, ancestor)
            },
        }
    }

    /// Whether `ancestor` is a strict ancestor of `descendant`. No concept is
    /// an ancestor of itself.
    pub fn is_ancestor_of(&self, ancestor: SctId, descendant: SctId) -> (r: bool)
        requires
            self.wf(),
        ensures
            r == self@.descendants(ancestor).contains(descendant),
    {
        match &self.transitive_closure {
            Some(closure) => closure.is_ancestor_of(ancestor, descendant),
            None => {
                let all = self.compute_descendants_bfs(ancestor);
                assert(all@.to_set().contains(descendant) <==> all@.contains(descendant));
                crate::types::has_id(&all, descendant)
            },
        }
    }

    /// The strict ancestors of a concept in the hierarchy as it is now, by a
    /// breadth-first search from its parents.
    fn compute_ancestors_bfs(&self, concept_id: SctId) -> (r: Vec<SctId>)
        requires
            self.wf(),
        ensures
            r@.no_duplicates(),
            r@.to_set() == ancestors_of(self@.edges(), concept_id),
    {
        let found = reachable(self, concept_id, true);
        let r = without(&found, concept_id);
        assert(r@.to_set() =~= ancestors_of(self@.edges(), concept_id));
        r
    }

    /// The strict descendants of a concept in the hierarchy as it is now, by
    /// a breadth-first search from its children.
    fn compute_descendants_bfs(&self, concept_id: SctId) -> (r: Vec<SctId>)
        requires
            self.wf(),
        ensures
            r@.no_duplicates(),
            r@.to_set() == descendants_of(self@.edges(), concept_id),
    {
        let found = reachable(self, concept_id, false);
        let r = without(&found, concept_id);
        assert(r@.to_set() =~= descendants_of(self@.edges(), concept_id));
        r
    }

    /// The MRCM data, where it was loaded.
    pub fn get_mrcm(&self) -> (r: Option<&MrcmStore>)
        requires
            self.wf(),
        ensures
            match r {
                Some(m) => self@.mrcm == Some(*m) && m.wf(),
                None => self@.mrcm is None,
            },
    {
        self.mrcm.as_ref()
    }

    /// Whether MRCM data was loaded.
    pub fn has_mrcm(&self) -> (r: bool)
        requires
            self.wf(),
        ensures
            r == (self@.mrcm is Some),
    {
        self.mrcm.is_some()
    }

    /// Sets the MRCM data of the store.
    pub fn set_mrcm(&mut self, mrcm: MrcmStore)
        requires
            old(self).wf(),
            mrcm.wf(),
        ensures
            final(self).wf(),
            final(self)@ == (StoreView { mrcm: Some(mrcm), ..old(self)@ }),
    {
        self.mrcm = Some(mrcm);
    }
}

/// The position of the first description of a type.
fn find_type(rows: &Vec<Rf2Description>, type_id: SctId) -> (r: Option<usize>)
    ensures
        match r {
            Some(i) => first_of_type(rows@, type_id, 0) == i && i < rows.len(),
            None => first_of_type(rows@, type_id, 0) == -1,
        },
{
    let mut i: usize = 0;
    while i < rows.len()
        invariant
            i <= rows.len(),
            first_of_type(rows@, type_id, 0) == first_of_type(rows@, type_id, i as int),
        decreases rows.len() - i,
    {
        if rows[i].type_id == type_id {
            return Some(i);
        }
        i = i + 1;
    }
    None
}

/// Whether a language member marks its description as preferred in a
/// language reference set.
fn preferred_in(members: &Vec<Rf2LanguageRefsetMember>, refset_id: SctId) -> (r: bool)
    ensures
        r == marks_preferred(members@, refset_id),
{
    let mut i: usize = 0;
    while i < members.len()
        invariant
            i <= members.len(),
            forall|k: int|
                0 <= k < i ==> !((#[trigger] members@[k]).refset_id == refset_id
                    && members@[k].is_preferred()),
        decreases members.len() - i,
    {
        if members[i].refset_id == refset_id && members[i].is_preferred() {
            return true;
        }
        i = i + 1;
    }
    false
}

} // verus!
