//! Well-known SNOMED CT concept identifiers: the root, the top-level
//! hierarchies, common attribute types, modules and the MRCM metadata
//! concepts.

use vstd::prelude::*;
use crate::sctid::SctId;

verus! {

/// SNOMED CT root concept.
pub const SNOMED_CT_ROOT: SctId = 138875005;

/// Clinical finding (finding).
pub const CLINICAL_FINDING: SctId = 404684003;

/// Procedure (procedure).
pub const PROCEDURE: SctId = 71388002;

/// Body structure (body structure).
pub const BODY_STRUCTURE: SctId = 123037004;

/// Organism (organism).
pub const ORGANISM: SctId = 410607006;

/// Substance (substance).
pub const SUBSTANCE: SctId = 105590001;

/// Pharmaceutical / biologic product.
pub const PHARMACEUTICAL_PRODUCT: SctId = 373873005;

/// Qualifier value.
pub const QUALIFIER_VALUE: SctId = 362981000;

/// Observable entity.
pub const OBSERVABLE_ENTITY: SctId = 363787002;

/// Event (event).
pub const EVENT: SctId = 272379006;

/// Physical object (physical object).
pub const PHYSICAL_OBJECT: SctId = 260787004;

/// Specimen (specimen).
pub const SPECIMEN: SctId = 123038009;

/// IS-A relationship type: the subsumption edge of the hierarchy.
pub const IS_A: SctId = 116680003;

/// Finding site attribute.
pub const FINDING_SITE: SctId = 363698007;

/// Associated morphology attribute.
pub const ASSOCIATED_MORPHOLOGY: SctId = 116676008;

/// Causative agent attribute.
pub const CAUSATIVE_AGENT: SctId = 246075003;

/// Severity attribute.
pub const SEVERITY: SctId = 246112005;

/// Laterality attribute.
pub const LATERALITY: SctId = 272741003;

/// Clinical course attribute.
pub const CLINICAL_COURSE: SctId = 263502005;

/// Interprets attribute.
pub const INTERPRETS: SctId = 363714003;

/// Has interpretation attribute.
pub const HAS_INTERPRETATION: SctId = 363713009;

/// SNOMED CT core module.
pub const SNOMED_CT_CORE_MODULE: SctId = 900000000000207008;

/// SNOMED CT model component module.
pub const SNOMED_CT_MODEL_COMPONENT_MODULE: SctId = 900000000000012004;

/// Mild (qualifier value).
pub const MILD: SctId = 255604002;

/// Moderate (qualifier value).
pub const MODERATE: SctId = 6736007;

/// Severe (qualifier value).
pub const SEVERE: SctId = 24484000;

/// Left (qualifier value).
pub const LEFT: SctId = 7771000;

/// Right (qualifier value).
pub const RIGHT: SctId = 24028007;

/// Bilateral (qualifier value).
pub const BILATERAL: SctId = 51440002;

/// MRCM domain reference set.
pub const MRCM_DOMAIN_REFSET: SctId = 723589008;

/// MRCM attribute domain reference set.
pub const MRCM_ATTRIBUTE_DOMAIN_REFSET: SctId = 723604009;

/// MRCM attribute range reference set.
pub const MRCM_ATTRIBUTE_RANGE_REFSET: SctId = 723592007;

/// Mandatory concept model rule.
pub const MANDATORY_CONCEPT_MODEL_RULE: SctId = 723597001;

/// Optional concept model rule.
pub const OPTIONAL_CONCEPT_MODEL_RULE: SctId = 723598006;

/// All SNOMED CT content.
pub const ALL_SNOMED_CT_CONTENT: SctId = 723596005;

/// All precoordinated content.
pub const ALL_PRECOORDINATED_CONTENT: SctId = 723594008;

/// All postcoordinated content.
pub const ALL_POSTCOORDINATED_CONTENT: SctId = 723595009;

/// All new precoordinated content.
pub const ALL_NEW_PRECOORDINATED_CONTENT: SctId = 723593002;

} // verus!
