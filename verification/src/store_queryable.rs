//! The store as a source for expression constraint queries.

use vstd::prelude::*;
use crate::sctid::SctId;
use crate::well_known::IS_A;
use crate::enums::DefinitionStatus;
use crate::text::{chars_of, last_index_of, rfind_char, slice_of};
use crate::hierarchy::Edges;
use crate::description::Rf2Description;
use crate::relationship::Rf2Relationship;
use crate::record::views_of;
use crate::queryable::{
    ConcreteRelationshipInfo, ConcreteRelationshipInfoView, DescriptionInfo,
    DescriptionInfoView, EclQueryable, RelationshipInfo,
};
use crate::store::SnomedStore;

verus! {

/// Whether a relationship is an attribute relationship: active and not
/// IS-A.
pub open spec fn is_attribute(r: Rf2Relationship) -> bool {
    r.type_id != IS_A && r.active
}

/// The attribute relationships among the outgoing relationships of a
/// concept, each with its destination as the other end, in order.
pub open spec fn attributes_of(rows: Seq<Rf2Relationship>) -> Seq<RelationshipInfo>
    decreases rows.len(),
{
    if rows.len() == 0 {
        Seq::empty()
    } else if is_attribute(rows.last()) {
        attributes_of(rows.drop_last()).push(
            RelationshipInfo {
                type_id: rows.last().type_id,
                destination_id: rows.last().destination_id,
                group: rows.last().relationship_group,
            },
        )
    } else {
        attributes_of(rows.drop_last())
    }
}

/// The attribute relationships among the incoming relationships of a
/// concept, each with its source as the other end, in order.
pub open spec fn inbound_of(rows: Seq<Rf2Relationship>) -> Seq<RelationshipInfo>
    decreases rows.len(),
{
    if rows.len() == 0 {
        Seq::empty()
    } else if is_attribute(rows.last()) {
        inbound_of(rows.drop_last()).push(
            RelationshipInfo {
                type_id: rows.last().type_id,
                destination_id: rows.last().source_id,
                group: rows.last().relationship_group,
            },
        )
    } else {
        inbound_of(rows.drop_last())
    }
}

/// A description as the query façade hands it out.
pub open spec fn info_of(d: Rf2Description) -> DescriptionInfoView {
    DescriptionInfoView {
        description_id: d.id,
        term: d.term@,
        language_code: d.language_code@,
        type_id: d.type_id,
        case_significance_id: d.case_significance_id,
        active: d.active,
        effective_time: Some(d.effective_time),
        module_id: d.module_id,
    }
}

/// The semantic tag of a fully specified name such as `Diabetes mellitus
/// (disorder)`: the text between its last opening and its last closing
/// parenthesis, where it has both and the opening one comes first.
pub open spec fn tag_of(term: Seq<char>) -> Option<Seq<char>> {
    let open = last_index_of(term, '(', term.len() as int);
    let close = last_index_of(term, ')', term.len() as int);
    if 0 <= open && open < close {
        Some(term.subrange(open + 1, close))
    } else {
        None
    }
}

/// The semantic tag of a fully specified name.
pub fn semantic_tag_of(term: &str) -> (r: Option<String>)
    ensures
        crate::queryable::text_of(r) == tag_of(term@),
{
    let chars = chars_of(term);
    let open = rfind_char(&chars, '(', chars.len());
    let close = rfind_char(&chars, ')', chars.len());
    match (open, close) {
        (Some(a), Some(b)) => if a < b {
            Some(slice_of(term, a + 1, b))
        } else {
            None
        },
        _ => None,
    }
}

impl EclQueryable for SnomedStore {
    open spec fn valid(&self) -> bool {
        self.wf()
    }

    open spec fn edges(&self) -> Edges {
        self@.edges()
    }

    open spec fn known(&self) -> Set<SctId> {
        self@.concepts.dom()
    }

    open spec fn members(&self, refset_id: SctId) -> Seq<SctId> {
        self@.members_of(refset_id)
    }

    open spec fn attributes(&self, concept_id: SctId) -> Seq<RelationshipInfo> {
        attributes_of(self@.outgoing(concept_id))
    }

    open spec fn inbound(&self, concept_id: SctId) -> Seq<RelationshipInfo> {
        inbound_of(self@.incoming(concept_id))
    }

    open spec fn descriptions(&self, concept_id: SctId) -> Seq<DescriptionInfoView> {
        let rows = self@.descriptions_of(concept_id);
        Seq::new(rows.len(), |i: int| info_of(rows[i]))
    }

    /// The executor is handed no concrete values yet.
    open spec fn concrete_values(&self, concept_id: SctId) -> Seq<ConcreteRelationshipInfoView> {
        Seq::empty()
    }

    open spec fn preferred_term(&self, concept_id: SctId) -> Option<Seq<char>> {
        let i = self@.preferred_position(concept_id);
        if i >= 0 {
            Some(self@.descriptions_of(concept_id)[i].term@)
        } else {
            None
        }
    }

    open spec fn semantic_tag(&self, concept_id: SctId) -> Option<Seq<char>> {
        let i = self@.fsn_position(concept_id);
        if i >= 0 {
            tag_of(self@.descriptions_of(concept_id)[i].term@)
        } else {
            None
        }
    }

    open spec fn active(&self, concept_id: SctId) -> bool {
        self@.concepts.contains_key(concept_id) && self@.concepts[concept_id].active
    }

    open spec fn module(&self, concept_id: SctId) -> Option<SctId> {
        if self@.concepts.contains_key(concept_id) {
            Some(self@.concepts[concept_id].module_id)
        } else {
            None
        }
    }

    open spec fn effective_time(&self, concept_id: SctId) -> Option<u32> {
        if self@.concepts.contains_key(concept_id) {
            Some(self@.concepts[concept_id].effective_time)
        } else {
            None
        }
    }

    open spec fn primitive(&self, concept_id: SctId) -> Option<bool> {
        if self@.concepts.contains_key(concept_id) {
            Some(self@.concepts[concept_id].definition_status_id == DefinitionStatus::PRIMITIVE_ID)
        } else {
            None
        }
    }

    proof fn lemma_edges(&self) {
        self@.lemma_edges_finite();
    }

    fn get_children(&self, concept_id: SctId) -> (r: Vec<SctId>) {
        proof {
            assert forall|c: SctId|
                self@.children(concept_id).contains(c) <==> self@.edges().contains(
                    (c, concept_id),
                ) by {
                self@.lemma_children_are_edges(concept_id, c);
            }
        }
        SnomedStore::get_children(self, concept_id)
    }

    fn get_parents(&self, concept_id: SctId) -> (r: Vec<SctId>) {
        proof {
            assert forall|p: SctId|
                self@.parents(concept_id).contains(p) <==> self@.edges().contains(
                    (concept_id, p),
                ) by {
                self@.lemma_parents_are_edges(concept_id, p);
            }
        }
        SnomedStore::get_parents(self, concept_id)
    }

    fn has_concept(&self, concept_id: SctId) -> (r: bool) {
        SnomedStore::has_concept(self, concept_id)
    }

    fn all_concept_ids(&self) -> (r: Vec<SctId>) {
        proof {
            self.lemma_valid();
        }
        self.concept_ids().clone()
    }

    fn get_refset_members(&self, refset_id: SctId) -> (r: Vec<SctId>) {
        SnomedStore::get_refset_members(self, refset_id)
    }

    fn get_attributes(&self, concept_id: SctId) -> (r: Vec<RelationshipInfo>) {
        let mut out: Vec<RelationshipInfo> = Vec::new();
        match self.get_outgoing_relationships(concept_id) {
            Some(rows) => {
                let mut i: usize = 0;
                assert(rows@.take(0) =~= Seq::<Rf2Relationship>::empty());
                while i < rows.len()
                    invariant
                        i <= rows.len(),
                        out@ == attributes_of(rows@.take(i as int)),
                    decreases rows.len() - i,
                {
                    assert(rows@.take(i + 1).drop_last() =~= rows@.take(i as int));
                    if rows[i].type_id != IS_A && rows[i].active {
                        out.push(
                            RelationshipInfo {
                                type_id: rows[i].type_id,
                                destination_id: rows[i].destination_id,
                                group: rows[i].relationship_group,
                            },
                        );
                    }
                    i = i + 1;
                }
                assert(rows@.take(rows.len() as int) =~= rows@);
            },
            None => {},
        }
        out
    }

    fn get_descriptions(&self, concept_id: SctId) -> (r: Vec<DescriptionInfo>) {
        let mut out: Vec<DescriptionInfo> = Vec::new();
        match SnomedStore::get_descriptions(self, concept_id) {
            Some(rows) => {
                let mut i: usize = 0;
                while i < rows.len()
                    invariant
                        i <= rows.len(),
                        out@.len() == i,
                        forall|k: int| 0 <= k < i ==> (#[trigger] out@[k])@ == info_of(rows@[k]),
                    decreases rows.len() - i,
                {
                    let d = &rows[i];
                    out.push(
                        DescriptionInfo {
                            description_id: d.id,
                            term: d.term.clone(),
                            language_code: d.language_code.clone(),
                            type_id: d.type_id,
                            case_significance_id: d.case_significance_id,
                            active: d.active,
                            effective_time: Some(d.effective_time),
                            module_id: d.module_id,
                        },
                    );
                    i = i + 1;
                }
                assert(views_of(out@) =~= self.descriptions(concept_id));
            },
            None => {
                assert(views_of(out@) =~= self.descriptions(concept_id));
            },
        }
        out
    }

    fn get_preferred_term(&self, concept_id: SctId) -> (r: Option<String>) {
        match SnomedStore::get_preferred_term(self, concept_id) {
            Some(term) => Some(term.to_owned()),
            None => None,
        }
    }

    fn is_concept_active(&self, concept_id: SctId) -> (r: bool) {
        match self.get_concept(concept_id) {
            Some(c) => c.active,
            None => false,
        }
    }

    fn get_concept_module(&self, concept_id: SctId) -> (r: Option<SctId>) {
        match self.get_concept(concept_id) {
            Some(c) => Some(c.module_id),
            None => None,
        }
    }

    fn get_concrete_values(&self, concept_id: SctId) -> (r: Vec<ConcreteRelationshipInfo>) {
        let out: Vec<ConcreteRelationshipInfo> = Vec::new();
        assert(views_of(out@) =~= Seq::<ConcreteRelationshipInfoView>::empty());
        out
    }

    fn get_inbound_relationships(&self, concept_id: SctId) -> (r: Vec<RelationshipInfo>) {
        let mut out: Vec<RelationshipInfo> = Vec::new();
        match self.get_incoming_relationships(concept_id) {
            Some(rows) => {
                let mut i: usize = 0;
                assert(rows@.take(0) =~= Seq::<Rf2Relationship>::empty());
                while i < rows.len()
                    invariant
                        i <= rows.len(),
                        out@ == inbound_of(rows@.take(i as int)),
                    decreases rows.len() - i,
                {
                    assert(rows@.take(i + 1).drop_last() =~= rows@.take(i as int));
                    if rows[i].type_id != IS_A && rows[i].active {
                        out.push(
                            RelationshipInfo {
                                type_id: rows[i].type_id,
                                destination_id: rows[i].source_id,
                                group: rows[i].relationship_group,
                            },
                        );
                    }
                    i = i + 1;
                }
                assert(rows@.take(rows.len() as int) =~= rows@);
            },
            None => {},
        }
        out
    }

    fn get_semantic_tag(&self, concept_id: SctId) -> (r: Option<String>) {
        match self.get_fsn(concept_id) {
            Some(fsn) => semantic_tag_of(fsn.term.as_str()),
            None => None,
        }
    }

    fn get_concept_effective_time(&self, concept_id: SctId) -> (r: Option<u32>) {
        match self.get_concept(concept_id) {
            Some(c) => Some(c.effective_time),
            None => None,
        }
    }

    fn is_concept_primitive(&self, concept_id: SctId) -> (r: Option<bool>) {
        match self.get_concept(concept_id) {
            Some(c) => Some(c.definition_status_id == DefinitionStatus::PRIMITIVE_ID),
            None => None,
        }
    }
}

} // verus!
