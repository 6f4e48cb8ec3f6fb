//! Description records.

use vstd::prelude::*;
use crate::sctid::SctId;
use crate::enums::{CaseSignificance, DescriptionType};

verus! {

/// A description: one row of a description file.
#[derive(Debug, Clone, PartialEq, Eq)]
pub struct Rf2Description {
    /// Identifier of the description.
    pub id: SctId,
    /// Effective date as the number YYYYMMDD.
    pub effective_time: u32,
    /// Whether the description is active.
    pub active: bool,
    /// Module that holds the description.
    pub module_id: SctId,
    /// The concept that the description belongs to.
    pub concept_id: SctId,
    /// ISO language code, such as `en`.
    pub language_code: String,
    /// Identifier of the description type.
    pub type_id: SctId,
    /// The term.
    pub term: String,
    /// Identifier of the case significance.
    pub case_significance_id: SctId,
}

/// Mathematical model of a description.
pub struct DescriptionView {
    pub id: SctId,
    pub effective_time: u32,
    pub active: bool,
    pub module_id: SctId,
    pub concept_id: SctId,
    pub language_code: Seq<char>,
    pub type_id: SctId,
    pub term: Seq<char>,
    pub case_significance_id: SctId,
}

impl View for Rf2Description {
    type V = DescriptionView;

    open spec fn view(&self) -> DescriptionView {
        DescriptionView {
            id: self.id,
            effective_time: self.effective_time,
            active: self.active,
            module_id: self.module_id,
            concept_id: self.concept_id,
            language_code: self.language_code@,
            type_id: self.type_id,
            term: self.term@,
            case_significance_id: self.case_significance_id,
        }
    }
}

impl Rf2Description {
    /// The description type, where its identifier is a known one.
    pub fn description_type(&self) -> (r: Option<DescriptionType>)
        ensures
            r == DescriptionType::spec_from_id(self.type_id),
    {
        DescriptionType::from_id(self.type_id)
    }

    /// Whether this is a fully specified name.
    pub fn is_fsn(&self) -> (r: bool)
        ensures
            r == (self.type_id == DescriptionType::FSN_ID),
    {
        self.type_id == DescriptionType::FSN_ID
    }

    /// Whether this is a synonym.
    pub fn is_synonym(&self) -> (r: bool)
        ensures
            r == (self.type_id == DescriptionType::SYNONYM_ID),
    {
        self.type_id == DescriptionType::SYNONYM_ID
    }

    /// Whether this is a textual definition.
    pub fn is_definition(&self) -> (r: bool)
        ensures
            r == (self.type_id == DescriptionType::DEFINITION_ID),
    {
        self.type_id == DescriptionType::DEFINITION_ID
    }

    /// The case significance, where its identifier is a known one.
    pub fn case_significance(&self) -> (r: Option<CaseSignificance>)
        ensures
            r == CaseSignificance::spec_from_id(self.case_significance_id),
    {
        CaseSignificance::from_id(self.case_significance_id)
    }
}

} // verus!
