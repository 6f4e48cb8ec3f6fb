//! Concept records.

use vstd::prelude::*;
use crate::sctid::SctId;
use crate::enums::DefinitionStatus;

verus! {

/// A concept: one row of a concept file.
#[derive(Debug, Clone, Copy, PartialEq, Eq, Structural)]
pub struct Rf2Concept {
    /// Identifier of the concept.
    pub id: SctId,
    /// Effective date as the number YYYYMMDD.
    pub effective_time: u32,
    /// Whether the concept is active.
    pub active: bool,
    /// Module that holds the concept.
    pub module_id: SctId,
    /// Identifier of the definition status.
    pub definition_status_id: SctId,
}

impl View for Rf2Concept {
    type V = Rf2Concept;

    open spec fn view(&self) -> Rf2Concept {
        *self
    }
}

impl Rf2Concept {
    /// The definition status, where its identifier is a known one.
    pub fn definition_status(&self) -> (r: Option<DefinitionStatus>)
        ensures
            r == DefinitionStatus::spec_from_id(self.definition_status_id),
    {
        DefinitionStatus::from_id(self.definition_status_id)
    }

    /// Whether the concept is primitively defined.
    pub fn is_primitive(&self) -> (r: bool)
        ensures
            r == (self.definition_status_id == DefinitionStatus::PRIMITIVE_ID),
    {
        self.definition_status_id == DefinitionStatus::PRIMITIVE_ID
    }

    /// Whether the concept is fully defined.
    pub fn is_fully_defined(&self) -> (r: bool)
        ensures
            r == (self.definition_status_id == DefinitionStatus::FULLY_DEFINED_ID),
    {
        self.definition_status_id == DefinitionStatus::FULLY_DEFINED_ID
    }
}

} // verus!
