//! SNOMED CT identifier type.

use vstd::prelude::*;

verus! {

/// A SNOMED CT identifier (SCTID): a 64-bit unsigned integer that names a
/// component (concept, description, relationship, reference set member).
pub type SctId = u64;

} // verus!
