//! Filters on descriptions, relationships and concrete relationships that
//! go beyond activity: by language, by type and by characteristic type.

use vstd::prelude::*;
use crate::types::{has_id, has_text_in, holds_text, DescriptionConfig, RelationshipConfig, Rf2Config};
use crate::record::kept;
use crate::description::{DescriptionView, Rf2Description};
use crate::record::views_of;
use crate::relationship::Rf2Relationship;
use crate::concrete_relationship::Rf2ConcreteRelationship;

verus! {

/// Whether an identifier passes an include-list: an empty list lets every
/// identifier pass.
pub open spec fn id_allowed(list: Seq<u64>, id: u64) -> bool {
    list.len() == 0 || list.contains(id)
}

/// Whether a text passes an include-list: an empty list lets every text
/// pass.
pub open spec fn text_allowed(list: Seq<String>, text: Seq<char>) -> bool {
    list.len() == 0 || holds_text(list, text)
}

/// Whether a description passes a description filter: it passes the base
/// filter, its language is allowed and its type is allowed.
pub open spec fn description_allowed(d: DescriptionView, config: &DescriptionConfig) -> bool {
    &&& kept(d.active, config.base.active_only)
    &&& text_allowed(config.language_codes@, d.language_code)
    &&& id_allowed(config.type_ids@, d.type_id)
}

/// Whether a relationship passes a relationship filter: it passes the base
/// filter, its type is allowed and its characteristic type is allowed.
pub open spec fn relationship_allowed(r: Rf2Relationship, config: &RelationshipConfig) -> bool {
    &&& kept(r.active, config.base.active_only)
    &&& id_allowed(config.type_ids@, r.type_id)
    &&& id_allowed(config.characteristic_type_ids@, r.characteristic_type_id)
}

/// The descriptions that pass a description filter, in order.
pub open spec fn allowed_descriptions(all: Seq<DescriptionView>, config: &DescriptionConfig) -> Seq<
    DescriptionView,
>
    decreases all.len(),
{
    if all.len() == 0 {
        Seq::empty()
    } else if description_allowed(all.last(), config) {
        allowed_descriptions(all.drop_last(), config).push(all.last())
    } else {
        allowed_descriptions(all.drop_last(), config)
    }
}

/// The relationships that pass a relationship filter, in order.
pub open spec fn allowed_relationships(all: Seq<Rf2Relationship>, config: &RelationshipConfig)
    -> Seq<Rf2Relationship>
    decreases all.len(),
{
    if all.len() == 0 {
        Seq::empty()
    } else if relationship_allowed(all.last(), config) {
        allowed_relationships(all.drop_last(), config).push(all.last())
    } else {
        allowed_relationships(all.drop_last(), config)
    }
}

/// Filter on descriptions by activity, language and type.
pub trait DescriptionFilter {
    /// Whether the description passes the filter.
    spec fn spec_passes_description_filter(&self, config: &DescriptionConfig) -> bool;

    /// Whether the description passes the filter.
    fn passes_description_filter(&self, config: &DescriptionConfig) -> (r: bool)
        ensures
            r == self.spec_passes_description_filter(config),
    ;
}

impl DescriptionFilter for Rf2Description {
    open spec fn spec_passes_description_filter(&self, config: &DescriptionConfig) -> bool {
        description_allowed(self@, config)
    }

    fn passes_description_filter(&self, config: &DescriptionConfig) -> (r: bool) {
        if config.base.active_only && !self.active {
            return false;
        }
        if config.language_codes.len() > 0 && !has_text_in(
            &config.language_codes,
            &self.language_code,
        ) {
            return false;
        }
        if config.type_ids.len() > 0 && !has_id(&config.type_ids, self.type_id) {
            return false;
        }
        true
    }
}

/// Filter on relationships by activity, type and characteristic type.
pub trait RelationshipFilter {
    /// Whether the relationship passes the filter.
    spec fn spec_passes_relationship_filter(&self, config: &RelationshipConfig) -> bool;

    /// Whether the relationship passes the filter.
    fn passes_relationship_filter(&self, config: &RelationshipConfig) -> (r: bool)
        ensures
            r == self.spec_passes_relationship_filter(config),
    ;
}

impl RelationshipFilter for Rf2Relationship {
    open spec fn spec_passes_relationship_filter(&self, config: &RelationshipConfig) -> bool {
        relationship_allowed(*self, config)
    }

    fn passes_relationship_filter(&self, config: &RelationshipConfig) -> (r: bool) {
        if config.base.active_only && !self.active {
            return false;
        }
        if config.type_ids.len() > 0 && !has_id(&config.type_ids, self.type_id) {
            return false;
        }
        if config.characteristic_type_ids.len() > 0 && !has_id(
            &config.characteristic_type_ids,
            self.characteristic_type_id,
        ) {
            return false;
        }
        true
    }
}

/// Configuration of concrete relationship loading.
#[derive(Debug, Clone)]
pub struct ConcreteRelationshipConfig {
    /// Base configuration.
    pub base: Rf2Config,
    /// Relationship type identifiers to keep; empty keeps every type.
    pub type_ids: Vec<u64>,
    /// Whether only inferred relationships are kept.
    pub inferred_only: bool,
    /// Whether only stated relationships are kept.
    pub stated_only: bool,
}

impl Default for ConcreteRelationshipConfig {
    /// Active concrete relationships of every type and characteristic type.
    fn default() -> (r: Self)
        ensures
            r.base.active_only,
            r.base.batch_size == 10_000,
            r.type_ids@.len() == 0,
            !r.inferred_only,
            !r.stated_only,
    {
        ConcreteRelationshipConfig {
            base: Rf2Config::default(),
            type_ids: Vec::new(),
            inferred_only: false,
            stated_only: false,
        }
    }
}

impl ConcreteRelationshipConfig {
    /// Active inferred concrete relationships of every type.
    pub fn inferred_only() -> (r: Self)
        ensures
            r.base.active_only,
            r.base.batch_size == 10_000,
            r.type_ids@.len() == 0,
            r.inferred_only,
            !r.stated_only,
    {
        ConcreteRelationshipConfig {
            base: Rf2Config::default(),
            type_ids: Vec::new(),
            inferred_only: true,
            stated_only: false,
        }
    }

    /// Active stated concrete relationships of every type.
    pub fn stated_only() -> (r: Self)
        ensures
            r.base.active_only,
            r.base.batch_size == 10_000,
            r.type_ids@.len() == 0,
            !r.inferred_only,
            r.stated_only,
    {
        ConcreteRelationshipConfig {
            base: Rf2Config::default(),
            type_ids: Vec::new(),
            inferred_only: false,
            stated_only: true,
        }
    }
}

/// Filter on concrete relationships by activity, type and characteristic
/// type.
pub trait ConcreteRelationshipFilter {
    /// Whether the relationship passes the filter.
    spec fn spec_passes_concrete_filter(&self, config: &ConcreteRelationshipConfig) -> bool;

    /// Whether the relationship passes the filter.
    fn passes_concrete_filter(&self, config: &ConcreteRelationshipConfig) -> (r: bool)
        ensures
            r == self.spec_passes_concrete_filter(config),
    ;
}

impl ConcreteRelationshipFilter for Rf2ConcreteRelationship {
    open spec fn spec_passes_concrete_filter(&self, config: &ConcreteRelationshipConfig) -> bool {
        &&& kept(self.active, config.base.active_only)
        &&& id_allowed(config.type_ids@, self.type_id)
        &&& (config.inferred_only ==> self.characteristic_type_id
            == Rf2ConcreteRelationship::INFERRED_CHARACTERISTIC_TYPE)
        &&& (config.stated_only ==> self.characteristic_type_id
            == Rf2ConcreteRelationship::STATED_CHARACTERISTIC_TYPE)
    }

    fn passes_concrete_filter(&self, config: &ConcreteRelationshipConfig) -> (r: bool) {
        if config.base.active_only && !self.active {
            return false;
        }
        if config.type_ids.len() > 0 && !has_id(&config.type_ids, self.type_id) {
            return false;
        }
        if config.inferred_only && !self.is_inferred() {
            return false;
        }
        if config.stated_only && !self.is_stated() {
            return false;
        }
        true
    }
}

/// The descriptions of a list that pass a description filter, in order.
pub fn keep_descriptions(all: Vec<Rf2Description>, config: &DescriptionConfig) -> (r: Vec<
    Rf2Description,
>)
    ensures
        views_of(r@) == allowed_descriptions(views_of(all@), config),
{
    let ghost items = all@;
    let mut out: Vec<Rf2Description> = Vec::new();
    assert(views_of(items.take(0)) =~= Seq::<DescriptionView>::empty());
    assert(views_of(out@) =~= Seq::<DescriptionView>::empty());
    for item in it: all
        invariant
            it.seq() == items,
            views_of(out@) == allowed_descriptions(views_of(items.take(it.index())), config),
    {
        let ghost before = views_of(out@);
        proof {
            assert(views_of(items.take(it.index() + 1)).drop_last() =~= views_of(
                items.take(it.index()),
            ));
            assert(views_of(items.take(it.index() + 1)).last() == item@);
        }
        if item.passes_description_filter(config) {
            out.push(item);
            assert(views_of(out@) =~= before.push(item@));
        }
    }
    assert(items.take(items.len() as int) =~= items);
    out
}

/// The relationships of a list that pass a relationship filter, in order.
pub fn keep_relationships(all: Vec<Rf2Relationship>, config: &RelationshipConfig) -> (r: Vec<
    Rf2Relationship,
>)
    ensures
        r@ == allowed_relationships(all@, config),
{
    let ghost items = all@;
    let mut out: Vec<Rf2Relationship> = Vec::new();
    assert(items.take(0) =~= Seq::<Rf2Relationship>::empty());
    for item in it: all
        invariant
            it.seq() == items,
            out@ == allowed_relationships(items.take(it.index()), config),
    {
        proof {
            assert(items.take(it.index() + 1).drop_last() =~= items.take(it.index()));
        }
        if item.passes_relationship_filter(config) {
            out.push(item);
        }
    }
    assert(items.take(items.len() as int) =~= items);
    out
}

} // verus!
