//! Enumerations for the coded values of SNOMED CT components, each with the
//! identifier that stands for it in release files.

use vstd::prelude::*;
use crate::sctid::SctId;

verus! {

/// Definition status of a concept.
#[derive(Debug, Clone, Copy, PartialEq, Eq, Hash, Structural)]
pub enum DefinitionStatus {
    /// Primitively defined: necessary conditions only.
    Primitive,
    /// Fully defined: necessary and sufficient conditions.
    FullyDefined,
}

impl DefinitionStatus {
    /// Identifier of the primitive definition status.
    pub const PRIMITIVE_ID: SctId = 900000000000074008;

    /// Identifier of the fully defined definition status.
    pub const FULLY_DEFINED_ID: SctId = 900000000000073002;

    /// The status that an identifier stands for, if any.
    pub open spec fn spec_from_id(id: SctId) -> Option<Self> {
        if id == Self::PRIMITIVE_ID {
            Some(Self::Primitive)
        } else if id == Self::FULLY_DEFINED_ID {
            Some(Self::FullyDefined)
        } else {
            None
        }
    }

    /// The identifier that stands for a status.
    pub open spec fn spec_to_id(self) -> SctId {
        match self {
            Self::Primitive => Self::PRIMITIVE_ID,
            Self::FullyDefined => Self::FULLY_DEFINED_ID,
        }
    }

    /// Reads a definition status from its identifier; `None` for any other
    /// identifier.
    pub fn from_id(id: SctId) -> (r: Option<Self>)
        ensures
            r == Self::spec_from_id(id),
    {
        if id == Self::PRIMITIVE_ID {
            Some(Self::Primitive)
        } else if id == Self::FULLY_DEFINED_ID {
            Some(Self::FullyDefined)
        } else {
            None
        }
    }

    /// The identifier of this definition status.
    pub fn to_id(self) -> (id: SctId)
        ensures
            id == self.spec_to_id(),
            Self::spec_from_id(id) == Some(self),
    {
        match self {
            Self::Primitive => Self::PRIMITIVE_ID,
            Self::FullyDefined => Self::FULLY_DEFINED_ID,
        }
    }
}

/// Type of a description.
#[derive(Debug, Clone, Copy, PartialEq, Eq, Hash, Structural)]
pub enum DescriptionType {
    /// Fully specified name: unambiguous, with a semantic tag.
    Fsn,
    /// Synonym: a further acceptable term.
    Synonym,
    /// Textual definition.
    Definition,
}

impl DescriptionType {
    /// Identifier of the fully specified name type.
    pub const FSN_ID: SctId = 900000000000003001;

    /// Identifier of the synonym type.
    pub const SYNONYM_ID: SctId = 900000000000013009;

    /// Identifier of the definition type.
    pub const DEFINITION_ID: SctId = 900000000000550004;

    /// The description type that an identifier stands for, if any.
    pub open spec fn spec_from_id(id: SctId) -> Option<Self> {
        if id == Self::FSN_ID {
            Some(Self::Fsn)
        } else if id == Self::SYNONYM_ID {
            Some(Self::Synonym)
        } else if id == Self::DEFINITION_ID {
            Some(Self::Definition)
        } else {
            None
        }
    }

    /// The identifier that stands for a description type.
    pub open spec fn spec_to_id(self) -> SctId {
        match self {
            Self::Fsn => Self::FSN_ID,
            Self::Synonym => Self::SYNONYM_ID,
            Self::Definition => Self::DEFINITION_ID,
        }
    }

    /// Reads a description type from its identifier; `None` for any other
    /// identifier.
    pub fn from_id(id: SctId) -> (r: Option<Self>)
        ensures
            r == Self::spec_from_id(id),
    {
        if id == Self::FSN_ID {
            Some(Self::Fsn)
        } else if id == Self::SYNONYM_ID {
            Some(Self::Synonym)
        } else if id == Self::DEFINITION_ID {
            Some(Self::Definition)
        } else {
            None
        }
    }

    /// The identifier of this description type.
    pub fn to_id(self) -> (id: SctId)
        ensures
            id == self.spec_to_id(),
            Self::spec_from_id(id) == Some(self),
    {
        match self {
            Self::Fsn => Self::FSN_ID,
            Self::Synonym => Self::SYNONYM_ID,
            Self::Definition => Self::DEFINITION_ID,
        }
    }
}

/// Case significance of a description term.
#[derive(Debug, Clone, Copy, PartialEq, Eq, Hash, Structural)]
pub enum CaseSignificance {
    /// The whole term is case insensitive.
    CaseInsensitive,
    /// The whole term is case sensitive.
    EntireTermCaseSensitive,
    /// Only the initial character is case sensitive.
    InitialCharacterCaseSensitive,
}

impl CaseSignificance {
    /// Identifier of "case insensitive".
    pub const CASE_INSENSITIVE_ID: SctId = 900000000000448009;

    /// Identifier of "entire term case sensitive".
    pub const ENTIRE_TERM_CASE_SENSITIVE_ID: SctId = 900000000000017005;

    /// Identifier of "initial character case sensitive".
    pub const INITIAL_CHAR_CASE_SENSITIVE_ID: SctId = 900000000000020002;

    /// The case significance that an identifier stands for, if any.
    pub open spec fn spec_from_id(id: SctId) -> Option<Self> {
        if id == Self::CASE_INSENSITIVE_ID {
            Some(Self::CaseInsensitive)
        } else if id == Self::ENTIRE_TERM_CASE_SENSITIVE_ID {
            Some(Self::EntireTermCaseSensitive)
        } else if id == Self::INITIAL_CHAR_CASE_SENSITIVE_ID {
            Some(Self::InitialCharacterCaseSensitive)
        } else {
            None
        }
    }

    /// The identifier that stands for a case significance.
    pub open spec fn spec_to_id(self) -> SctId {
        match self {
            Self::CaseInsensitive => Self::CASE_INSENSITIVE_ID,
            Self::EntireTermCaseSensitive => Self::ENTIRE_TERM_CASE_SENSITIVE_ID,
            Self::InitialCharacterCaseSensitive => Self::INITIAL_CHAR_CASE_SENSITIVE_ID,
        }
    }

    /// Reads a case significance from its identifier; `None` for any other
    /// identifier.
    pub fn from_id(id: SctId) -> (r: Option<Self>)
        ensures
            r == Self::spec_from_id(id),
    {
        if id == Self::CASE_INSENSITIVE_ID {
            Some(Self::CaseInsensitive)
        } else if id == Self::ENTIRE_TERM_CASE_SENSITIVE_ID {
            Some(Self::EntireTermCaseSensitive)
        } else if id == Self::INITIAL_CHAR_CASE_SENSITIVE_ID {
            Some(Self::InitialCharacterCaseSensitive)
        } else {
            None
        }
    }

    /// The identifier of this case significance.
    pub fn to_id(self) -> (id: SctId)
        ensures
            id == self.spec_to_id(),
            Self::spec_from_id(id) == Some(self),
    {
        match self {
            Self::CaseInsensitive => Self::CASE_INSENSITIVE_ID,
            Self::EntireTermCaseSensitive => Self::ENTIRE_TERM_CASE_SENSITIVE_ID,
            Self::InitialCharacterCaseSensitive => Self::INITIAL_CHAR_CASE_SENSITIVE_ID,
        }
    }
}

/// Characteristic type of a relationship.
#[derive(Debug, Clone, Copy, PartialEq, Eq, Hash, Structural)]
pub enum CharacteristicType {
    /// Stated: as authored.
    Stated,
    /// Inferred: computed by the classifier.
    Inferred,
    /// Additional relationship.
    Additional,
}

impl CharacteristicType {
    /// Identifier of the stated characteristic type.
    pub const STATED_ID: SctId = 900000000000010007;

    /// Identifier of the inferred characteristic type.
    pub const INFERRED_ID: SctId = 900000000000011006;

    /// Identifier of the additional characteristic type.
    pub const ADDITIONAL_ID: SctId = 900000000000227009;

    /// The characteristic type that an identifier stands for, if any.
    pub open spec fn spec_from_id(id: SctId) -> Option<Self> {
        if id == Self::STATED_ID {
            Some(Self::Stated)
        } else if id == Self::INFERRED_ID {
            Some(Self::Inferred)
        } else if id == Self::ADDITIONAL_ID {
            Some(Self::Additional)
        } else {
            None
        }
    }

    /// The identifier that stands for a characteristic type.
    pub open spec fn spec_to_id(self) -> SctId {
        match self {
            Self::Stated => Self::STATED_ID,
            Self::Inferred => Self::INFERRED_ID,
            Self::Additional => Self::ADDITIONAL_ID,
        }
    }

    /// Reads a characteristic type from its identifier; `None` for any other
    /// identifier.
    pub fn from_id(id: SctId) -> (r: Option<Self>)
        ensures
            r == Self::spec_from_id(id),
    {
        if id == Self::STATED_ID {
            Some(Self::Stated)
        } else if id == Self::INFERRED_ID {
            Some(Self::Inferred)
        } else if id == Self::ADDITIONAL_ID {
            Some(Self::Additional)
        } else {
            None
        }
    }

    /// The identifier of this characteristic type.
    pub fn to_id(self) -> (id: SctId)
        ensures
            id == self.spec_to_id(),
            Self::spec_from_id(id) == Some(self),
    {
        match self {
            Self::Stated => Self::STATED_ID,
            Self::Inferred => Self::INFERRED_ID,
            Self::Additional => Self::ADDITIONAL_ID,
        }
    }
}

/// Modifier of a relationship: existential (some) or universal (all).
#[derive(Debug, Clone, Copy, PartialEq, Eq, Hash, Structural)]
pub enum ModifierType {
    /// Existential modifier (some).
    Existential,
    /// Universal modifier (all).
    Universal,
}

impl ModifierType {
    /// Identifier of the existential modifier.
    pub const EXISTENTIAL_ID: SctId = 900000000000451002;

    /// Identifier of the universal modifier.
    pub const UNIVERSAL_ID: SctId = 900000000000450001;

    /// The modifier that an identifier stands for, if any.
    pub open spec fn spec_from_id(id: SctId) -> Option<Self> {
        if id == Self::EXISTENTIAL_ID {
            Some(Self::Existential)
        } else if id == Self::UNIVERSAL_ID {
            Some(Self::Universal)
        } else {
            None
        }
    }

    /// The identifier that stands for a modifier.
    pub open spec fn spec_to_id(self) -> SctId {
        match self {
            Self::Existential => Self::EXISTENTIAL_ID,
            Self::Universal => Self::UNIVERSAL_ID,
        }
    }

    /// Reads a modifier from its identifier; `None` for any other identifier.
    pub fn from_id(id: SctId) -> (r: Option<Self>)
        ensures
            r == Self::spec_from_id(id),
    {
        if id == Self::EXISTENTIAL_ID {
            Some(Self::Existential)
        } else if id == Self::UNIVERSAL_ID {
            Some(Self::Universal)
        } else {
            None
        }
    }

    /// The identifier of this modifier.
    pub fn to_id(self) -> (id: SctId)
        ensures
            id == self.spec_to_id(),
            Self::spec_from_id(id) == Some(self),
    {
        match self {
            Self::Existential => Self::EXISTENTIAL_ID,
            Self::Universal => Self::UNIVERSAL_ID,
        }
    }
}

} // verus!
