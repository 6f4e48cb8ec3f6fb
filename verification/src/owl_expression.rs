//! OWL expression reference set members.

use vstd::prelude::*;
use crate::sctid::SctId;
use crate::text::{begins_with, has_text, contains_text};

verus! {

/// A member of an OWL expression reference set: the text of one axiom in OWL
/// functional syntax, kept as it stands, for one concept.
#[derive(Debug, Clone, PartialEq, Eq, Hash)]
pub struct Rf2OwlExpression {
    /// Identifier of the member row.
    pub id: SctId,
    /// Effective date as the number YYYYMMDD.
    pub effective_time: u32,
    /// Whether the member is active.
    pub active: bool,
    /// Module that holds the member.
    pub module_id: SctId,
    /// The reference set: OWL axiom or OWL ontology.
    pub refset_id: SctId,
    /// The concept that the expression is about.
    pub referenced_component_id: SctId,
    /// The expression in OWL functional syntax.
    pub owl_expression: String,
}

/// Mathematical model of an OWL expression member.
pub struct OwlExpressionView {
    pub id: SctId,
    pub effective_time: u32,
    pub active: bool,
    pub module_id: SctId,
    pub refset_id: SctId,
    pub referenced_component_id: SctId,
    pub owl_expression: Seq<char>,
}

impl View for Rf2OwlExpression {
    type V = OwlExpressionView;

    open spec fn view(&self) -> OwlExpressionView {
        OwlExpressionView {
            id: self.id,
            effective_time: self.effective_time,
            active: self.active,
            module_id: self.module_id,
            refset_id: self.refset_id,
            referenced_component_id: self.referenced_component_id,
            owl_expression: self.owl_expression@,
        }
    }
}

impl Rf2OwlExpression {
    /// Identifier of the OWL axiom reference set.
    pub const OWL_AXIOM_REFSET_ID: SctId = 733073007;

    /// Identifier of the OWL ontology reference set.
    pub const OWL_ONTOLOGY_REFSET_ID: SctId = 762103008;

    /// Whether the member belongs to the OWL axiom reference set.
    pub fn is_axiom(&self) -> (r: bool)
        ensures
            r == (self.refset_id == Self::OWL_AXIOM_REFSET_ID),
    {
        self.refset_id == Self::OWL_AXIOM_REFSET_ID
    }

    /// Whether the member belongs to the OWL ontology reference set.
    pub fn is_ontology(&self) -> (r: bool)
        ensures
            r == (self.refset_id == Self::OWL_ONTOLOGY_REFSET_ID),
    {
        self.refset_id == Self::OWL_ONTOLOGY_REFSET_ID
    }

    /// Whether the expression begins with `SubClassOf`.
    pub fn is_subclass_axiom(&self) -> (r: bool)
        ensures
            r == "SubClassOf"@.is_prefix_of(self.owl_expression@),
    {
        begins_with(self.owl_expression.as_str(), "SubClassOf")
    }

    /// Whether the expression begins with `EquivalentClasses`.
    pub fn is_equivalent_classes_axiom(&self) -> (r: bool)
        ensures
            r == "EquivalentClasses"@.is_prefix_of(self.owl_expression@),
    {
        begins_with(self.owl_expression.as_str(), "EquivalentClasses")
    }

    /// Whether the expression holds `ObjectPropertyChain` anywhere.
    pub fn is_property_chain_axiom(&self) -> (r: bool)
        ensures
            r == contains_text(self.owl_expression@, "ObjectPropertyChain"@),
    {
        has_text(self.owl_expression.as_str(), "ObjectPropertyChain")
    }

    /// Whether the expression begins with `SubObjectPropertyOf`.
    pub fn is_sub_property_axiom(&self) -> (r: bool)
        ensures
            r == "SubObjectPropertyOf"@.is_prefix_of(self.owl_expression@),
    {
        begins_with(self.owl_expression.as_str(), "SubObjectPropertyOf")
    }

    /// Whether the expression begins with `TransitiveObjectProperty`.
    pub fn is_transitive_property_axiom(&self) -> (r: bool)
        ensures
            r == "TransitiveObjectProperty"@.is_prefix_of(self.owl_expression@),
    {
        begins_with(self.owl_expression.as_str(), "TransitiveObjectProperty")
    }

    /// Whether the expression begins with `ReflexiveObjectProperty`.
    pub fn is_reflexive_property_axiom(&self) -> (r: bool)
        ensures
            r == "ReflexiveObjectProperty"@.is_prefix_of(self.owl_expression@),
    {
        begins_with(self.owl_expression.as_str(), "ReflexiveObjectProperty")
    }
}

} // verus!
