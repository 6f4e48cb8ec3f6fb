//! Decoders of single lines of the concept, description and relationship
//! files: a line is split at its tabs, decoded and filtered in one step, and
//! a line that does not decode is dropped without an error.

use vstd::prelude::*;
use crate::types::{DescriptionConfig, RelationshipConfig, Rf2Config};
use crate::text::{split_on, split_text};
use crate::record::{kept, Rf2Record};
use crate::filter::{
    description_allowed, relationship_allowed, DescriptionFilter, RelationshipFilter,
};
use crate::concept::Rf2Concept;
use crate::description::{DescriptionView, Rf2Description};
use crate::relationship::Rf2Relationship;

verus! {

/// The concept that a line denotes and the configuration keeps, if any.
pub open spec fn spec_concept_line(line: Seq<char>, active_only: bool) -> Option<Rf2Concept> {
    let cells = split_on(line, '\t');
    if cells.len() < 5 {
        None
    } else {
        match Rf2Concept::decode(cells) {
            Ok(c) => if kept(c.active, active_only) {
                Some(c)
            } else {
                None
            },
            Err(_) => None,
        }
    }
}

/// The description that a line denotes and the configuration keeps, if any.
pub open spec fn spec_description_line(line: Seq<char>, config: &DescriptionConfig) -> Option<
    DescriptionView,
> {
    let cells = split_on(line, '\t');
    if cells.len() < 9 {
        None
    } else {
        match Rf2Description::decode(cells) {
            Ok(d) => if description_allowed(d, config) {
                Some(d)
            } else {
                None
            },
            Err(_) => None,
        }
    }
}

/// The relationship that a line denotes and the configuration keeps, if
/// any.
pub open spec fn spec_relationship_line(line: Seq<char>, config: &RelationshipConfig) -> Option<
    Rf2Relationship,
> {
    let cells = split_on(line, '\t');
    if cells.len() < 10 {
        None
    } else {
        match Rf2Relationship::decode(cells) {
            Ok(r) => if relationship_allowed(r, config) {
                Some(r)
            } else {
                None
            },
            Err(_) => None,
        }
    }
}

/// Decodes one line of a concept file.
pub fn parse_concept_line(line: &str, config: &Rf2Config) -> (r: Option<Rf2Concept>)
    ensures
        r == spec_concept_line(line@, config.active_only),
{
    let fields = split_text(line, '\t');
    if fields.len() < 5 {
        return None;
    }
    match Rf2Concept::from_record(&fields) {
        Ok(c) => if c.passes_filter(config) {
            Some(c)
        } else {
            None
        },
        Err(_) => None,
    }
}

/// Decodes one line of a description file.
pub fn parse_description_line(line: &str, config: &DescriptionConfig) -> (r: Option<
    Rf2Description,
>)
    ensures
        match r {
            Some(d) => spec_description_line(line@, config) == Some(d@),
            None => spec_description_line(line@, config) is None,
        },
{
    let fields = split_text(line, '\t');
    if fields.len() < 9 {
        return None;
    }
    match Rf2Description::from_record(&fields) {
        Ok(d) => if d.passes_description_filter(config) {
            Some(d)
        } else {
            None
        },
        Err(_) => None,
    }
}

/// Decodes one line of a relationship file.
pub fn parse_relationship_line(line: &str, config: &RelationshipConfig) -> (r: Option<
    Rf2Relationship,
>)
    ensures
        r == spec_relationship_line(line@, config),
{
    let fields = split_text(line, '\t');
    if fields.len() < 10 {
        return None;
    }
    match Rf2Relationship::from_record(&fields) {
        Ok(rel) => if rel.passes_relationship_filter(config) {
            Some(rel)
        } else {
            None
        },
        Err(_) => None,
    }
}

} // verus!
