//! Relationship records.

use vstd::prelude::*;
use crate::sctid::SctId;
use crate::enums::{CharacteristicType, ModifierType};

verus! {

/// A relationship: one row of a relationship file, a typed directed edge
/// from a source concept to a destination concept.
#[derive(Debug, Clone, Copy, PartialEq, Eq, Structural)]
pub struct Rf2Relationship {
    /// Identifier of the relationship.
    pub id: SctId,
    /// Effective date as the number YYYYMMDD.
    pub effective_time: u32,
    /// Whether the relationship is active.
    pub active: bool,
    /// Module that holds the relationship.
    pub module_id: SctId,
    /// Source concept.
    pub source_id: SctId,
    /// Destination concept.
    pub destination_id: SctId,
    /// Role group; 0 for an ungrouped relationship.
    pub relationship_group: u16,
    /// Relationship type, such as IS-A or finding site.
    pub type_id: SctId,
    /// Identifier of the characteristic type.
    pub characteristic_type_id: SctId,
    /// Identifier of the modifier.
    pub modifier_id: SctId,
}

impl View for Rf2Relationship {
    type V = Rf2Relationship;

    open spec fn view(&self) -> Rf2Relationship {
        *self
    }
}

impl Rf2Relationship {
    /// Identifier of the IS-A relationship type.
    pub const IS_A_TYPE_ID: SctId = 116680003;

    /// Whether the relationship is an IS-A edge.
    pub open spec fn spec_is_is_a(&self) -> bool {
        self.type_id == Self::IS_A_TYPE_ID
    }

    /// Whether the relationship is an IS-A edge.
    #[verifier::when_used_as_spec(spec_is_is_a)]
    pub fn is_is_a(&self) -> (r: bool)
        ensures
            r == self.spec_is_is_a(),
    {
        self.type_id == Self::IS_A_TYPE_ID
    }

    /// The characteristic type, where its identifier is a known one.
    pub fn characteristic_type(&self) -> (r: Option<CharacteristicType>)
        ensures
            r == CharacteristicType::spec_from_id(self.characteristic_type_id),
    {
        CharacteristicType::from_id(self.characteristic_type_id)
    }

    /// Whether the relationship is stated.
    pub fn is_stated(&self) -> (r: bool)
        ensures
            r == (self.characteristic_type_id == CharacteristicType::STATED_ID),
    {
        self.characteristic_type_id == CharacteristicType::STATED_ID
    }

    /// Whether the relationship is inferred.
    pub fn is_inferred(&self) -> (r: bool)
        ensures
            r == (self.characteristic_type_id == CharacteristicType::INFERRED_ID),
    {
        self.characteristic_type_id == CharacteristicType::INFERRED_ID
    }

    /// The modifier, where its identifier is a known one.
    pub fn modifier_type(&self) -> (r: Option<ModifierType>)
        ensures
            r == ModifierType::spec_from_id(self.modifier_id),
    {
        ModifierType::from_id(self.modifier_id)
    }
}

} // verus!
