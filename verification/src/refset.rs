//! Reference set member records: simple, language and association members.

use vstd::prelude::*;
use crate::sctid::SctId;

pub mod well_known_refsets;

verus! {

/// A member of a simple reference set: bare membership of a component.
#[derive(Debug, Clone, Copy, PartialEq, Eq, Hash, Structural)]
pub struct Rf2SimpleRefsetMember {
    /// Identifier of the member row.
    pub id: SctId,
    /// Effective date as the number YYYYMMDD.
    pub effective_time: u32,
    /// Whether the membership is active.
    pub active: bool,
    /// Module that holds the member.
    pub module_id: SctId,
    /// The reference set.
    pub refset_id: SctId,
    /// The component that is a member.
    pub referenced_component_id: SctId,
}

impl View for Rf2SimpleRefsetMember {
    type V = Rf2SimpleRefsetMember;

    open spec fn view(&self) -> Rf2SimpleRefsetMember {
        *self
    }
}

/// A member of a language reference set: the acceptability of a description
/// in one dialect.
#[derive(Debug, Clone, Copy, PartialEq, Eq, Hash, Structural)]
pub struct Rf2LanguageRefsetMember {
    /// Identifier of the member row.
    pub id: SctId,
    /// Effective date as the number YYYYMMDD.
    pub effective_time: u32,
    /// Whether the membership is active.
    pub active: bool,
    /// Module that holds the member.
    pub module_id: SctId,
    /// The language reference set.
    pub refset_id: SctId,
    /// The description.
    pub referenced_component_id: SctId,
    /// Identifier of the acceptability: preferred or acceptable.
    pub acceptability_id: SctId,
}

impl View for Rf2LanguageRefsetMember {
    type V = Rf2LanguageRefsetMember;

    open spec fn view(&self) -> Rf2LanguageRefsetMember {
        *self
    }
}

impl Rf2LanguageRefsetMember {
    /// Identifier of the acceptability "preferred".
    pub const PREFERRED_ID: SctId = 900000000000548007;

    /// Identifier of the acceptability "acceptable".
    pub const ACCEPTABLE_ID: SctId = 900000000000549004;

    /// Whether the description is preferred in this dialect.
    pub open spec fn spec_is_preferred(&self) -> bool {
        self.acceptability_id == Self::PREFERRED_ID
    }

    /// Whether the description is preferred in this dialect.
    #[verifier::when_used_as_spec(spec_is_preferred)]
    pub fn is_preferred(&self) -> (r: bool)
        ensures
            r == self.spec_is_preferred(),
    {
        self.acceptability_id == Self::PREFERRED_ID
    }

    /// Whether the description is acceptable, and not preferred, in this
    /// dialect.
    pub fn is_acceptable(&self) -> (r: bool)
        ensures
            r == (self.acceptability_id == Self::ACCEPTABLE_ID),
    {
        self.acceptability_id == Self::ACCEPTABLE_ID
    }
}

/// A member of an association reference set: a link from a source component
/// to a target component, of the kind that the reference set names.
#[derive(Debug, Clone, Copy, PartialEq, Eq, Hash, Structural)]
pub struct Rf2AssociationRefsetMember {
    /// Identifier of the member row.
    pub id: SctId,
    /// Effective date as the number YYYYMMDD.
    pub effective_time: u32,
    /// Whether the association is active.
    pub active: bool,
    /// Module that holds the member.
    pub module_id: SctId,
    /// The association reference set.
    pub refset_id: SctId,
    /// The source component.
    pub referenced_component_id: SctId,
    /// The target component.
    pub target_component_id: SctId,
}

impl View for Rf2AssociationRefsetMember {
    type V = Rf2AssociationRefsetMember;

    open spec fn view(&self) -> Rf2AssociationRefsetMember {
        *self
    }
}

impl Rf2AssociationRefsetMember {
    /// REPLACED BY association reference set.
    pub const REPLACED_BY_REFSET: SctId = 900000000000526001;

    /// SAME AS association reference set.
    pub const SAME_AS_REFSET: SctId = 900000000000527005;

    /// WAS A association reference set.
    pub const WAS_A_REFSET: SctId = 900000000000528000;

    /// POSSIBLY EQUIVALENT TO association reference set.
    pub const POSSIBLY_EQUIVALENT_TO_REFSET: SctId = 900000000000523009;

    /// MOVED TO association reference set.
    pub const MOVED_TO_REFSET: SctId = 900000000000524003;

    /// MOVED FROM association reference set.
    pub const MOVED_FROM_REFSET: SctId = 900000000000525002;

    /// ALTERNATIVE association reference set.
    pub const ALTERNATIVE_REFSET: SctId = 900000000000530003;

    /// REFERS TO association reference set.
    pub const REFERS_TO_REFSET: SctId = 900000000000531004;

    /// Whether this is a REPLACED BY association.
    pub open spec fn spec_is_replaced_by(&self) -> bool {
        self.refset_id == Self::REPLACED_BY_REFSET
    }

    /// Whether this is a REPLACED BY association.
    #[verifier::when_used_as_spec(spec_is_replaced_by)]
    pub fn is_replaced_by_association(&self) -> (r: bool)
        ensures
            r == self.spec_is_replaced_by(),
    {
        self.refset_id == Self::REPLACED_BY_REFSET
    }

    /// Whether this is a SAME AS association.
    pub fn is_same_as_association(&self) -> (r: bool)
        ensures
            r == (self.refset_id == Self::SAME_AS_REFSET),
    {
        self.refset_id == Self::SAME_AS_REFSET
    }

    /// Whether this is a WAS A association.
    pub fn is_was_a_association(&self) -> (r: bool)
        ensures
            r == (self.refset_id == Self::WAS_A_REFSET),
    {
        self.refset_id == Self::WAS_A_REFSET
    }

    /// Whether this is a POSSIBLY EQUIVALENT TO association.
    pub fn is_possibly_equivalent_association(&self) -> (r: bool)
        ensures
            r == (self.refset_id == Self::POSSIBLY_EQUIVALENT_TO_REFSET),
    {
        self.refset_id == Self::POSSIBLY_EQUIVALENT_TO_REFSET
    }

    /// Whether this is a MOVED TO association.
    pub fn is_moved_to_association(&self) -> (r: bool)
        ensures
            r == (self.refset_id == Self::MOVED_TO_REFSET),
    {
        self.refset_id == Self::MOVED_TO_REFSET
    }

    /// Whether this is a historical association: replaced by, same as, was a,
    /// possibly equivalent to, moved to, moved from or alternative.
    pub fn is_historical_association(&self) -> (r: bool)
        ensures
            r == (self.refset_id == Self::REPLACED_BY_REFSET || self.refset_id
                == Self::SAME_AS_REFSET || self.refset_id == Self::WAS_A_REFSET || self.refset_id
                == Self::POSSIBLY_EQUIVALENT_TO_REFSET || self.refset_id == Self::MOVED_TO_REFSET
                || self.refset_id == Self::MOVED_FROM_REFSET || self.refset_id
                == Self::ALTERNATIVE_REFSET),
    {
        self.refset_id == Self::REPLACED_BY_REFSET || self.refset_id == Self::SAME_AS_REFSET
            || self.refset_id == Self::WAS_A_REFSET || self.refset_id
            == Self::POSSIBLY_EQUIVALENT_TO_REFSET || self.refset_id == Self::MOVED_TO_REFSET
            || self.refset_id == Self::MOVED_FROM_REFSET || self.refset_id
            == Self::ALTERNATIVE_REFSET
    }
}

} // verus!
