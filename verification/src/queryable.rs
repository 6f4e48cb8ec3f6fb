//! The capability that the expression constraint executor and the
//! transitive closure need from a store: the direct edges of the hierarchy,
//! the known concepts, the members of reference sets, and what the store
//! holds about a concept.

use vstd::prelude::*;
use crate::sctid::SctId;
use crate::hierarchy::{endpoints, Edges};
use crate::record::views_of;
use crate::concrete_relationship::{ConcreteValue, ConcreteValueView};

verus! {

/// An attribute relationship of a concept: its type, the concept at its
/// other end and its role group.
#[derive(Debug, Clone, Copy, PartialEq, Eq, Structural)]
pub struct RelationshipInfo {
    /// Relationship type.
    pub type_id: SctId,
    /// The concept at the other end: the destination of an outgoing
    /// relationship, the source of an inbound one.
    pub destination_id: SctId,
    /// Role group; 0 for an ungrouped relationship.
    pub group: u16,
}

/// A description of a concept.
#[derive(Debug, Clone, PartialEq, Eq)]
pub struct DescriptionInfo {
    /// Identifier of the description.
    pub description_id: SctId,
    /// The term.
    pub term: String,
    /// ISO language code.
    pub language_code: String,
    /// Identifier of the description type.
    pub type_id: SctId,
    /// Identifier of the case significance.
    pub case_significance_id: SctId,
    /// Whether the description is active.
    pub active: bool,
    /// Effective date as the number YYYYMMDD.
    pub effective_time: Option<u32>,
    /// Module that holds the description.
    pub module_id: SctId,
}

/// Mathematical model of a [`DescriptionInfo`].
pub struct DescriptionInfoView {
    pub description_id: SctId,
    pub term: Seq<char>,
    pub language_code: Seq<char>,
    pub type_id: SctId,
    pub case_significance_id: SctId,
    pub active: bool,
    pub effective_time: Option<u32>,
    pub module_id: SctId,
}

impl View for DescriptionInfo {
    type V = DescriptionInfoView;

    open spec fn view(&self) -> DescriptionInfoView {
        DescriptionInfoView {
            description_id: self.description_id,
            term: self.term@,
            language_code: self.language_code@,
            type_id: self.type_id,
            case_significance_id: self.case_significance_id,
            active: self.active,
            effective_time: self.effective_time,
            module_id: self.module_id,
        }
    }
}

/// A concrete value of a concept: the type of the relationship, the value
/// and the role group.
#[derive(Debug, Clone, PartialEq, Eq)]
pub struct ConcreteRelationshipInfo {
    /// Relationship type.
    pub type_id: SctId,
    /// The value.
    pub value: ConcreteValue,
    /// Role group; 0 for an ungrouped relationship.
    pub group: u16,
}

/// Mathematical model of a [`ConcreteRelationshipInfo`].
pub struct ConcreteRelationshipInfoView {
    pub type_id: SctId,
    pub value: ConcreteValueView,
    pub group: u16,
}

impl View for ConcreteRelationshipInfo {
    type V = ConcreteRelationshipInfoView;

    open spec fn view(&self) -> ConcreteRelationshipInfoView {
        ConcreteRelationshipInfoView {
            type_id: self.type_id,
            value: self.value@,
            group: self.group,
        }
    }
}

/// The model of an optional text.
pub open spec fn text_of(o: Option<String>) -> Option<Seq<char>> {
    match o {
        Some(s) => Some(s@),
        None => None,
    }
}

/// A store of concepts that can be queried by expression constraints.
pub trait EclQueryable {
    /// The invariant of the store.
    spec fn valid(&self) -> bool;

    /// The edges of the hierarchy: pairs of a child and one of its parents.
    spec fn edges(&self) -> Edges;

    /// The concepts that the store knows.
    spec fn known(&self) -> Set<SctId>;

    /// The members of a reference set, in the order of loading.
    spec fn members(&self, refset_id: SctId) -> Seq<SctId>;

    /// The attribute relationships of a concept: its active relationships
    /// other than IS-A.
    spec fn attributes(&self, concept_id: SctId) -> Seq<RelationshipInfo>;

    /// The attribute relationships that lead to a concept, each with its
    /// source as the other end.
    spec fn inbound(&self, concept_id: SctId) -> Seq<RelationshipInfo>;

    /// The descriptions of a concept.
    spec fn descriptions(&self, concept_id: SctId) -> Seq<DescriptionInfoView>;

    /// The concrete values of a concept.
    spec fn concrete_values(&self, concept_id: SctId) -> Seq<ConcreteRelationshipInfoView>;

    /// The preferred term of a concept, if it has one.
    spec fn preferred_term(&self, concept_id: SctId) -> Option<Seq<char>>;

    /// The semantic tag of a concept, if its fully specified name has one.
    spec fn semantic_tag(&self, concept_id: SctId) -> Option<Seq<char>>;

    /// Whether the store knows a concept and holds it as active.
    spec fn active(&self, concept_id: SctId) -> bool;

    /// The module of a concept that the store knows.
    spec fn module(&self, concept_id: SctId) -> Option<SctId>;

    /// The effective time of a concept that the store knows.
    spec fn effective_time(&self, concept_id: SctId) -> Option<u32>;

    /// Whether a concept that the store knows is primitive.
    spec fn primitive(&self, concept_id: SctId) -> Option<bool>;

    /// The hierarchy of a valid store has finitely many concepts.
    proof fn lemma_edges(&self)
        requires
            self.valid(),
        ensures
            endpoints(self.edges()).finite(),
    ;

    /// The direct children of a concept.
    fn get_children(&self, concept_id: SctId) -> (r: Vec<SctId>)
        requires
            self.valid(),
        ensures
            forall|c: SctId| r@.contains(c) <==> self.edges().contains((c, concept_id)),
    ;

    /// The direct parents of a concept.
    fn get_parents(&self, concept_id: SctId) -> (r: Vec<SctId>)
        requires
            self.valid(),
        ensures
            forall|p: SctId| r@.contains(p) <==> self.edges().contains((concept_id, p)),
    ;

    /// Whether the store knows a concept.
    fn has_concept(&self, concept_id: SctId) -> (r: bool)
        requires
            self.valid(),
        ensures
            r == self.known().contains(concept_id),
    ;

    /// The identifiers of the concepts that the store knows, each once.
    fn all_concept_ids(&self) -> (r: Vec<SctId>)
        requires
            self.valid(),
        ensures
            r@.no_duplicates(),
            r@.to_set() == self.known(),
    ;

    /// The members of a reference set.
    fn get_refset_members(&self, refset_id: SctId) -> (r: Vec<SctId>)
        requires
            self.valid(),
        ensures
            r@ == self.members(refset_id),
    ;

    /// The attribute relationships of a concept.
    fn get_attributes(&self, concept_id: SctId) -> (r: Vec<RelationshipInfo>)
        requires
            self.valid(),
        ensures
            r@ == self.attributes(concept_id),
    ;

    /// The descriptions of a concept.
    fn get_descriptions(&self, concept_id: SctId) -> (r: Vec<DescriptionInfo>)
        requires
            self.valid(),
        ensures
            views_of(r@) == self.descriptions(concept_id),
    ;

    /// The preferred term of a concept.
    fn get_preferred_term(&self, concept_id: SctId) -> (r: Option<String>)
        requires
            self.valid(),
        ensures
            text_of(r) == self.preferred_term(concept_id),
    ;

    /// Whether the store knows a concept and holds it as active.
    fn is_concept_active(&self, concept_id: SctId) -> (r: bool)
        requires
            self.valid(),
        ensures
            r == self.active(concept_id),
    ;

    /// The module of a concept.
    fn get_concept_module(&self, concept_id: SctId) -> (r: Option<SctId>)
        requires
            self.valid(),
        ensures
            r == self.module(concept_id),
    ;

    /// The concrete values of a concept.
    fn get_concrete_values(&self, concept_id: SctId) -> (r: Vec<ConcreteRelationshipInfo>)
        requires
            self.valid(),
        ensures
            views_of(r@) == self.concrete_values(concept_id),
    ;

    /// The attribute relationships that lead to a concept.
    fn get_inbound_relationships(&self, concept_id: SctId) -> (r: Vec<RelationshipInfo>)
        requires
            self.valid(),
        ensures
            r@ == self.inbound(concept_id),
    ;

    /// The semantic tag of a concept.
    fn get_semantic_tag(&self, concept_id: SctId) -> (r: Option<String>)
        requires
            self.valid(),
        ensures
            text_of(r) == self.semantic_tag(concept_id),
    ;

    /// The effective time of a concept.
    fn get_concept_effective_time(&self, concept_id: SctId) -> (r: Option<u32>)
        requires
            self.valid(),
        ensures
            r == self.effective_time(concept_id),
    ;

    /// Whether a concept is primitive.
    fn is_concept_primitive(&self, concept_id: SctId) -> (r: Option<bool>)
        requires
            self.valid(),
        ensures
            r == self.primitive(concept_id),
    ;
}

} // verus!
