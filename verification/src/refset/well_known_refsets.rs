//! Well-known reference set identifiers.

use vstd::prelude::*;
use crate::sctid::SctId;

verus! {

/// US English language reference set.
pub const US_ENGLISH_LANG_REFSET: SctId = 900000000000509007;

/// GB English language reference set.
pub const GB_ENGLISH_LANG_REFSET: SctId = 900000000000508004;

/// ICD-10 simple map reference set.
pub const ICD10_SIMPLE_MAP: SctId = 447562003;

/// Description format reference set.
pub const DESCRIPTION_FORMAT_REFSET: SctId = 900000000000538005;

/// REPLACED BY association reference set.
pub const REPLACED_BY_REFSET: SctId = 900000000000526001;

/// SAME AS association reference set.
pub const SAME_AS_REFSET: SctId = 900000000000527005;

/// WAS A association reference set.
pub const WAS_A_REFSET: SctId = 900000000000528000;

/// POSSIBLY EQUIVALENT TO association reference set.
pub const POSSIBLY_EQUIVALENT_TO_REFSET: SctId = 900000000000523009;

} // verus!
