//! In-memory SNOMED CT knowledge store: typed records of the RF2 release
//! format, their decoders, the multi-index store, the transitive closure of
//! the IS-A hierarchy and an evaluator for expression constraints.

pub mod sctid;
pub mod well_known;
pub mod enums;
pub mod text;
pub mod number;
pub mod types;
pub mod concept;
pub mod description;
pub mod relationship;
pub mod refset;
pub mod owl_expression;
pub mod mrcm;
pub mod concrete_relationship;
pub mod parse;
pub mod record;
pub mod decode;
pub mod mrcm_decode;
pub mod filter;
pub mod lines;
pub mod parser;
pub mod index;
pub mod mrcm_store;
pub mod queryable;
pub mod hierarchy;
pub mod distance;
pub mod closure;
pub mod store_model;
pub mod store;
pub mod store_queryable;
pub mod store_load;
pub mod search;
pub mod answers;
pub mod ecl;
pub mod loader;
pub mod laws;

pub use crate::sctid::SctId;
pub use crate::enums::{
    CaseSignificance, CharacteristicType, DefinitionStatus, DescriptionType, ModifierType,
};
pub use crate::concept::Rf2Concept;
pub use crate::description::Rf2Description;
pub use crate::relationship::Rf2Relationship;
pub use crate::refset::{Rf2AssociationRefsetMember, Rf2LanguageRefsetMember, Rf2SimpleRefsetMember};
pub use crate::owl_expression::Rf2OwlExpression;
pub use crate::types::{
    DescriptionConfig, ParseStats, RelationshipConfig, Rf2Config, Rf2Error, Rf2Files, Rf2Result,
};
pub use crate::mrcm::{
    Cardinality, CardinalityParseError, MrcmAttributeDomain, MrcmAttributeRange, MrcmDomain,
};
pub use crate::concrete_relationship::{ConcreteValue, Rf2ConcreteRelationship};
pub use crate::record::Rf2Record;
pub use crate::filter::{
    ConcreteRelationshipConfig, ConcreteRelationshipFilter, DescriptionFilter, RelationshipFilter,
};
pub use crate::parser::Rf2Parser;
pub use crate::mrcm_store::MrcmStore;
pub use crate::queryable::{
    ConcreteRelationshipInfo, DescriptionInfo, EclQueryable, RelationshipInfo,
};
pub use crate::store::SnomedStore;
pub use crate::closure::TransitiveClosure;
pub use crate::distance::distance_to_ancestor;
pub use crate::ecl::ast::{EclError, EclErrorKind, EclExpression};
pub use crate::ecl::executor::{EclExecutor, ExecutorConfig, QueryResult};
pub use crate::loader::{extract_release_date, format_bytes};
pub use crate::ecl::plan::{Operation, QueryPlan, QueryStep};
