//! Loading release files into the store. Every load takes the bytes of a
//! file, decodes its rows, leaves out what the configuration filters out and
//! adds the rest; rows that fail to decode are passed over.

use vstd::prelude::*;

use crate::types::{DescriptionConfig, RelationshipConfig, Rf2Config, Rf2ErrorView, Rf2Result};
use crate::enums::{CharacteristicType, DescriptionType};
use crate::record::Rf2Record;
use crate::record::views_of;
use crate::parser::{
    csv_rows, files_error, files_of, kept_records, lemma_views_of_add, parse_files,
    records_of_files, Rf2Parser,
};
use crate::filter::{
    allowed_descriptions, allowed_relationships, keep_descriptions, keep_relationships,
};
use crate::concept::Rf2Concept;
use crate::description::{DescriptionView, Rf2Description};
use crate::relationship::Rf2Relationship;
use crate::concrete_relationship::Rf2ConcreteRelationship;
use crate::owl_expression::Rf2OwlExpression;
use crate::refset::{Rf2AssociationRefsetMember, Rf2LanguageRefsetMember, Rf2SimpleRefsetMember};
use crate::mrcm::{MrcmAttributeDomain, MrcmAttributeRange, MrcmDomain};
use crate::mrcm_store::{items_of, MrcmStore};
use crate::store_model::StoreView;
use crate::store::{memberships, with_concept_ids, with_concepts, SnomedStore};

verus! {

/// Records that are their own model are the models of themselves.
pub proof fn lemma_plain_views<T: View<V = T>>(records: Seq<T>)
    requires
        forall|i: int| 0 <= i < records.len() ==> (#[trigger] records[i])@ == records[i],
    ensures
        views_of(records) == records,
{
    assert(views_of(records) =~= records);
}

/// What opening a file, where there is one, fails with, if it does.
pub open spec fn open_failure<T: Rf2Record>(data: Option<&[u8]>) -> Option<Rf2ErrorView> {
    match data {
        None => None,
        Some(bytes) => Rf2Parser::<T>::open_error(bytes@),
    }
}

/// The records that a file gives, where there is one and its header is
/// accepted.
pub open spec fn file_records<T: Rf2Record>(data: Option<&[u8]>, active_only: bool) -> Seq<T::V> {
    match data {
        None => Seq::empty(),
        Some(bytes) => match Rf2Parser::<T>::open_error(bytes@) {
            Some(_) => Seq::empty(),
            None => kept_records::<T>(csv_rows(bytes@), active_only),
        },
    }
}

/// The records of a list that may be missing: none where it is.
pub open spec fn decoded<T>(records: Option<Vec<T>>) -> Seq<T> {
    match records {
        Some(list) => list@,
        None => Seq::empty(),
    }
}

/// Whether a description is an active English fully specified name or
/// synonym.
pub open spec fn is_english_term(d: DescriptionView) -> bool {
    d.active && d.language_code == "en"@ && (d.type_id == DescriptionType::FSN_ID || d.type_id
        == DescriptionType::SYNONYM_ID)
}

/// The active English fully specified names and synonyms among
/// descriptions, in order.
pub open spec fn english_terms(all: Seq<DescriptionView>) -> Seq<DescriptionView>
    decreases all.len(),
{
    if all.len() == 0 {
        Seq::empty()
    } else if is_english_term(all.last()) {
        english_terms(all.drop_last()).push(all.last())
    } else {
        english_terms(all.drop_last())
    }
}

/// The active inferred relationships among relationships, in order.
pub open spec fn inferred(all: Seq<Rf2Relationship>) -> Seq<Rf2Relationship>
    decreases all.len(),
{
    if all.len() == 0 {
        Seq::empty()
    } else if all.last().active && all.last().characteristic_type_id
        == CharacteristicType::INFERRED_ID {
        inferred(all.drop_last()).push(all.last())
    } else {
        inferred(all.drop_last())
    }
}

/// The configuration for English terms lets the English terms pass.
pub proof fn lemma_english_terms(all: Seq<DescriptionView>, config: &DescriptionConfig)
    requires
        config.base.active_only,
        config.language_codes@.len() == 1,
        config.language_codes@[0]@ == "en"@,
        config.type_ids@ == seq![DescriptionType::FSN_ID, DescriptionType::SYNONYM_ID],
    ensures
        allowed_descriptions(all, config) == english_terms(all),
    decreases all.len(),
{
    if all.len() > 0 {
        lemma_english_terms(all.drop_last(), config);
        let d = all.last();
        if crate::types::holds_text(config.language_codes@, d.language_code) {
            let i = choose|i: int|
                0 <= i < config.language_codes@.len() && (#[trigger] config.language_codes@[i])@
                    == d.language_code;
        }
        if d.language_code == "en"@ {
            assert(config.language_codes@[0]@ == d.language_code);
        }
        if config.type_ids@.contains(d.type_id) {
            let i = choose|i: int| 0 <= i < config.type_ids@.len() && config.type_ids@[i] == d.type_id;
        }
        if d.type_id == DescriptionType::FSN_ID {
            assert(config.type_ids@[0] == d.type_id);
        }
        if d.type_id == DescriptionType::SYNONYM_ID {
            assert(config.type_ids@[1] == d.type_id);
        }
    }
}

/// The configuration for inferred relationships lets the inferred
/// relationships pass.
pub proof fn lemma_inferred(all: Seq<Rf2Relationship>, config: &RelationshipConfig)
    requires
        config.base.active_only,
        config.type_ids@.len() == 0,
        config.characteristic_type_ids@ == seq![CharacteristicType::INFERRED_ID],
    ensures
        allowed_relationships(all, config) == inferred(all),
    decreases all.len(),
{
    if all.len() > 0 {
        lemma_inferred(all.drop_last(), config);
        let r = all.last();
        if config.characteristic_type_ids@.contains(r.characteristic_type_id) {
            let i = choose|i: int|
                0 <= i < config.characteristic_type_ids@.len()
                    && config.characteristic_type_ids@[i] == r.characteristic_type_id;
        }
        if r.characteristic_type_id == CharacteristicType::INFERRED_ID {
            assert(config.characteristic_type_ids@[0] == r.characteristic_type_id);
        }
    }
}

impl SnomedStore {
    /// Loads the concepts of a concept file, given as its bytes.
    pub fn load_concepts(&mut self, data: &[u8], config: Rf2Config) -> (r: Rf2Result<usize>)
        requires
            old(self).wf(),
        ensures
            final(self).wf(),
            match Rf2Parser::<Rf2Concept>::open_error(data@) {
                Some(e) => r is Err && r->Err_0@ == e && final(self)@ == old(self)@,
                None => {
                    let loaded = kept_records::<Rf2Concept>(csv_rows(data@), config.active_only);
                    &&& r is Ok
                    &&& r->Ok_0 == loaded.len()
                    &&& final(self)@ == (StoreView {
                        concepts: with_concepts(old(self)@.concepts, loaded),
                        concept_ids: with_concept_ids(old(self)@.concept_ids, loaded),
                        ..old(self)@
                    })
                },
            },
    {
        let parser = match Rf2Parser::<Rf2Concept>::from_reader(data, config) {
            Ok(parser) => parser,
            Err(e) => {
                return Err(e);
            },
        };
        let concepts = match parser.parse_all() {
            Ok(concepts) => concepts,
            Err(e) => {
                return Err(e);
            },
        };
        proof {
            lemma_plain_views(concepts@);
        }
        let count = concepts.len();
        self.insert_concepts(concepts);
        Ok(count)
    }

    /// Loads the descriptions of a description file, given as its bytes,
    /// that pass the description filter.
    pub fn load_descriptions(&mut self, data: &[u8], config: DescriptionConfig) -> (r: Rf2Result<
        usize,
    >)
        requires
            old(self).wf(),
        ensures
            final(self).wf(),
            match Rf2Parser::<Rf2Description>::open_error(data@) {
                Some(e) => r is Err && r->Err_0@ == e && final(self)@ == old(self)@,
                None => {
                    let loaded = allowed_descriptions(
                        kept_records::<Rf2Description>(csv_rows(data@), config.base.active_only),
                        &config,
                    );
                    &&& r is Ok
                    &&& r->Ok_0 == loaded.len()
                    &&& views_of(final(self)@.descriptions) == views_of(old(self)@.descriptions)
                        + loaded
                    &&& final(self)@ == (StoreView {
                        descriptions: final(self)@.descriptions,
                        ..old(self)@
                    })
                },
            },
    {
        let base = Rf2Config {
            active_only: config.base.active_only,
            batch_size: config.base.batch_size,
        };
        let parser = match Rf2Parser::<Rf2Description>::from_reader(data, base) {
            Ok(parser) => parser,
            Err(e) => {
                return Err(e);
            },
        };
        let all = match parser.parse_all() {
            Ok(all) => all,
            Err(e) => {
                return Err(e);
            },
        };
        let descriptions = keep_descriptions(all, &config);
        proof {
            lemma_views_of_add(self@.descriptions, descriptions@);
        }
        let count = descriptions.len();
        self.insert_descriptions(descriptions);
        Ok(count)
    }

    /// Loads the relationships of a relationship file, given as its bytes,
    /// that pass the relationship filter.
    pub fn load_relationships(&mut self, data: &[u8], config: RelationshipConfig) -> (r:
        Rf2Result<usize>)
        requires
            old(self).wf(),
        ensures
            final(self).wf(),
            match Rf2Parser::<Rf2Relationship>::open_error(data@) {
                Some(e) => r is Err && r->Err_0@ == e && final(self)@ == old(self)@,
                None => {
                    let loaded = allowed_relationships(
                        kept_records::<Rf2Relationship>(csv_rows(data@), config.base.active_only),
                        &config,
                    );
                    &&& r is Ok
                    &&& r->Ok_0 == loaded.len()
                    &&& final(self)@ == (StoreView {
                        relationships: old(self)@.relationships + loaded,
                        ..old(self)@
                    })
                },
            },
    {
        let base = Rf2Config {
            active_only: config.base.active_only,
            batch_size: config.base.batch_size,
        };
        let parser = match Rf2Parser::<Rf2Relationship>::from_reader(data, base) {
            Ok(parser) => parser,
            Err(e) => {
                return Err(e);
            },
        };
        let all = match parser.parse_all() {
            Ok(all) => all,
            Err(e) => {
                return Err(e);
            },
        };
        proof {
            lemma_plain_views(all@);
        }
        let relationships = keep_relationships(all, &config);
        let count = relationships.len();
        self.insert_relationships(relationships);
        Ok(count)
    }

    /// Loads the concept, description and relationship files, each given as
    /// its bytes where it is there: the active concepts, the active English
    /// fully specified names and synonyms, and the active inferred
    /// relationships. The first file whose header is refused fails the load;
    /// what the files before it gave stays loaded.
    pub fn load_all(
        &mut self,
        concepts: Option<&[u8]>,
        descriptions: Option<&[u8]>,
        relationships: Option<&[u8]>,
    ) -> (r: Rf2Result<()>)
        requires
            old(self).wf(),
        ensures
            final(self).wf(),
            ({
                let concept_failure = open_failure::<Rf2Concept>(concepts);
                let description_failure = open_failure::<Rf2Description>(descriptions);
                let relationship_failure = open_failure::<Rf2Relationship>(relationships);
                let first = concept_failure is None;
                let second = first && description_failure is None;
                let third = second && relationship_failure is None;
                let loaded_concepts = file_records::<Rf2Concept>(concepts, true);
                &&& r is Ok <==> third
                &&& !first ==> r->Err_0@ == concept_failure->0
                &&& first && !second ==> r->Err_0@ == description_failure->0
                &&& second && !third ==> r->Err_0@ == relationship_failure->0
                &&& final(self)@.concepts == with_concepts(old(self)@.concepts, loaded_concepts)
                &&& final(self)@.concept_ids == with_concept_ids(
                    old(self)@.concept_ids,
                    loaded_concepts,
                )
                &&& views_of(final(self)@.descriptions) == views_of(old(self)@.descriptions) + (
                if first {
                    english_terms(file_records::<Rf2Description>(descriptions, true))
                } else {
                    Seq::empty()
                })
                &&& final(self)@.relationships == old(self)@.relationships + (if second {
                    inferred(file_records::<Rf2Relationship>(relationships, true))
                } else {
                    Seq::empty()
                })
                &&& final(self)@ == (StoreView {
                    concepts: final(self)@.concepts,
                    concept_ids: final(self)@.concept_ids,
                    descriptions: final(self)@.descriptions,
                    relationships: final(self)@.relationships,
                    ..old(self)@
                })
            }),
    {
        proof {
            assert(views_of(self@.descriptions) + Seq::<DescriptionView>::empty() =~= views_of(
                self@.descriptions,
            ));
            assert(self@.relationships + Seq::<Rf2Relationship>::empty() =~= self@.relationships);
        }
        match concepts {
            Some(bytes) => {
                match self.load_concepts(bytes, Rf2Config::default()) {
                    Ok(_) => {},
                    Err(e) => {
                        return Err(e);
                    },
                }
            },
            None => {},
        }
        match descriptions {
            Some(bytes) => {
                let config = DescriptionConfig::english_terms();
                proof {
                    lemma_english_terms(
                        kept_records::<Rf2Description>(csv_rows(bytes@), true),
                        &config,
                    );
                }
                match self.load_descriptions(bytes, config) {
                    Ok(_) => {},
                    Err(e) => {
                        return Err(e);
                    },
                }
            },
            None => {},
        }
        match relationships {
            Some(bytes) => {
                let config = RelationshipConfig::inferred_only();
                proof {
                    lemma_inferred(
                        kept_records::<Rf2Relationship>(csv_rows(bytes@), true),
                        &config,
                    );
                }
                match self.load_relationships(bytes, config) {
                    Ok(_) => {},
                    Err(e) => {
                        return Err(e);
                    },
                }
            },
            None => {},
        }
        Ok(())
    }

    /// Merges records that were decoded away from the store, as by workers
    /// that each took the lines of one file: the concepts, then the
    /// descriptions, then the relationships, each list in its order where it
    /// is there. The counts are those of the three lists.
    pub fn merge_decoded(
        &mut self,
        concepts: Option<Vec<Rf2Concept>>,
        descriptions: Option<Vec<Rf2Description>>,
        relationships: Option<Vec<Rf2Relationship>>,
    ) -> (r: (usize, usize, usize))
        requires
            old(self).wf(),
        ensures
            final(self).wf(),
            r.0 == decoded(concepts).len(),
            r.1 == decoded(descriptions).len(),
            r.2 == decoded(relationships).len(),
            final(self)@ == (StoreView {
                concepts: with_concepts(old(self)@.concepts, decoded(concepts)),
                concept_ids: with_concept_ids(old(self)@.concept_ids, decoded(concepts)),
                descriptions: old(self)@.descriptions + decoded(descriptions),
                relationships: old(self)@.relationships + decoded(relationships),
                ..old(self)@
            }),
    {
        proof {
            assert(self@.descriptions + Seq::<Rf2Description>::empty() =~= self@.descriptions);
            assert(self@.relationships + Seq::<Rf2Relationship>::empty() =~= self@.relationships);
        }
        let concept_count = match concepts {
            Some(records) => {
                let count = records.len();
                self.insert_concepts(records);
                count
            },
            None => 0,
        };
        let description_count = match descriptions {
            Some(records) => {
                let count = records.len();
                self.insert_descriptions(records);
                count
            },
            None => 0,
        };
        let relationship_count = match relationships {
            Some(records) => {
                let count = records.len();
                self.insert_relationships(records);
                count
            },
            None => 0,
        };
        (concept_count, description_count, relationship_count)
    }

    /// Loads the members of simple reference set files, each given as its
    /// bytes. A file whose header is refused fails the load; the members of
    /// the files before it stay loaded.
    pub fn load_simple_refsets(&mut self, files: &Vec<Vec<u8>>, config: Rf2Config) -> (r:
        Rf2Result<usize>)
        requires
            old(self).wf(),
        ensures
            final(self).wf(),
            ({
                let loaded = records_of_files::<Rf2SimpleRefsetMember>(
                    files_of(files@),
                    config.active_only,
                );
                &&& final(self)@ == (StoreView {
                    refset_members: old(self)@.refset_members + memberships(loaded),
                    ..old(self)@
                })
                &&& match files_error::<Rf2SimpleRefsetMember>(files_of(files@)) {
                    Some(e) => r is Err && r->Err_0@ == e,
                    None => r is Ok && r->Ok_0 == loaded.len(),
                }
            }),
    {
        let (members, failure) = parse_files::<Rf2SimpleRefsetMember>(
            files,
            config.active_only,
            config.batch_size,
        );
        proof {
            lemma_plain_views(members@);
        }
        let count = members.len();
        self.insert_refset_members(members);
        match failure {
            Some(e) => Err(e),
            None => Ok(count),
        }
    }

    /// Loads the MRCM data of the three MRCM files, each given as its bytes
    /// where it is there. With no file at all nothing changes; a file that
    /// fails leaves the store without new MRCM data.
    pub fn load_mrcm(
        &mut self,
        domain: Option<&[u8]>,
        attribute_domain: Option<&[u8]>,
        attribute_range: Option<&[u8]>,
    ) -> (r: Rf2Result<()>)
        requires
            old(self).wf(),
        ensures
            final(self).wf(),
            ({
                let none = domain is None && attribute_domain is None && attribute_range is None;
                let failed = MrcmStore::load_error::<MrcmDomain>(domain) is Some
                    || MrcmStore::load_error::<MrcmAttributeDomain>(attribute_domain) is Some
                    || MrcmStore::load_error::<MrcmAttributeRange>(attribute_range) is Some;
                &&& r is Err <==> failed
                &&& none || failed ==> final(self)@ == old(self)@
                &&& !none && !failed ==> {
                    &&& final(self)@ == (StoreView { mrcm: final(self)@.mrcm, ..old(self)@ })
                    &&& final(self)@.mrcm matches Some(m) && m.wf() && views_of(
                        items_of(m.domain_entries()),
                    ) == MrcmStore::loaded_rows::<MrcmDomain>(domain) && views_of(
                        items_of(m.attribute_domain_entries()),
                    ) == MrcmStore::loaded_rows::<MrcmAttributeDomain>(attribute_domain)
                        && views_of(items_of(m.attribute_range_entries()))
                        == MrcmStore::loaded_rows::<MrcmAttributeRange>(attribute_range)
                }
            }),
    {
        if domain.is_none() && attribute_domain.is_none() && attribute_range.is_none() {
            return Ok(());
        }
        match MrcmStore::from_files(domain, attribute_domain, attribute_range) {
            Ok(mrcm) => {
                self.set_mrcm(mrcm);
                Ok(())
            },
            Err(e) => Err(e),
        }
    }

    /// Loads the OWL expressions of OWL expression files, each given as its
    /// bytes.
    pub fn load_owl_expressions(&mut self, files: &Vec<Vec<u8>>, config: Rf2Config) -> (r:
        Rf2Result<usize>)
        requires
            old(self).wf(),
        ensures
            final(self).wf(),
            ({
                let loaded = records_of_files::<Rf2OwlExpression>(
                    files_of(files@),
                    config.active_only,
                );
                &&& views_of(final(self)@.owl_expressions) == views_of(
                    old(self)@.owl_expressions,
                ) + loaded
                &&& final(self)@ == (StoreView {
                    owl_expressions: final(self)@.owl_expressions,
                    ..old(self)@
                })
                &&& match files_error::<Rf2OwlExpression>(files_of(files@)) {
                    Some(e) => r is Err && r->Err_0@ == e,
                    None => r is Ok && r->Ok_0 == loaded.len(),
                }
            }),
    {
        let (expressions, failure) = parse_files::<Rf2OwlExpression>(
            files,
            config.active_only,
            config.batch_size,
        );
        proof {
            lemma_views_of_add(self@.owl_expressions, expressions@);
        }
        let count = expressions.len();
        self.insert_owl_expressions(expressions);
        match failure {
            Some(e) => Err(e),
            None => Ok(count),
        }
    }

    /// Loads the concrete relationships of a concrete values file, given as
    /// its bytes where it is there; with no file nothing is loaded.
    pub fn load_concrete_relationships(&mut self, data: Option<&[u8]>, config: Rf2Config) -> (r:
        Rf2Result<usize>)
        requires
            old(self).wf(),
        ensures
            final(self).wf(),
            ({
                let loaded = file_records::<Rf2ConcreteRelationship>(data, config.active_only);
                &&& views_of(final(self)@.concrete_relationships) == views_of(
                    old(self)@.concrete_relationships,
                ) + loaded
                &&& final(self)@ == (StoreView {
                    concrete_relationships: final(self)@.concrete_relationships,
                    ..old(self)@
                })
                &&& match open_failure::<Rf2ConcreteRelationship>(data) {
                    Some(e) => r is Err && r->Err_0@ == e,
                    None => r is Ok && r->Ok_0 == loaded.len(),
                }
            }),
    {
        proof {
            assert(views_of(self@.concrete_relationships) + Seq::<
                <Rf2ConcreteRelationship as View>::V,
            >::empty() =~= views_of(self@.concrete_relationships));
        }
        let bytes = match data {
            Some(bytes) => bytes,
            None => {
                return Ok(0);
            },
        };
        let parser = match Rf2Parser::<Rf2ConcreteRelationship>::from_reader(bytes, config) {
            Ok(parser) => parser,
            Err(e) => {
                return Err(e);
            },
        };
        let relationships = match parser.parse_all() {
            Ok(relationships) => relationships,
            Err(e) => {
                return Err(e);
            },
        };
        proof {
            lemma_views_of_add(self@.concrete_relationships, relationships@);
        }
        let count = relationships.len();
        self.insert_concrete_relationships(relationships);
        Ok(count)
    }

    /// Loads the members of language reference set files, each given as its
    /// bytes.
    pub fn load_language_refsets(&mut self, files: &Vec<Vec<u8>>, config: Rf2Config) -> (r:
        Rf2Result<usize>)
        requires
            old(self).wf(),
        ensures
            final(self).wf(),
            ({
                let loaded = records_of_files::<Rf2LanguageRefsetMember>(
                    files_of(files@),
                    config.active_only,
                );
                &&& final(self)@ == (StoreView {
                    language_members: old(self)@.language_members + loaded,
                    ..old(self)@
                })
                &&& match files_error::<Rf2LanguageRefsetMember>(files_of(files@)) {
                    Some(e) => r is Err && r->Err_0@ == e,
                    None => r is Ok && r->Ok_0 == loaded.len(),
                }
            }),
    {
        let (members, failure) = parse_files::<Rf2LanguageRefsetMember>(
            files,
            config.active_only,
            config.batch_size,
        );
        proof {
            lemma_plain_views(members@);
        }
        let count = members.len();
        self.insert_language_members(members);
        match failure {
            Some(e) => Err(e),
            None => Ok(count),
        }
    }

    /// Loads the members of association reference set files, each given as
    /// its bytes.
    pub fn load_association_refsets(&mut self, files: &Vec<Vec<u8>>, config: Rf2Config) -> (r:
        Rf2Result<usize>)
        requires
            old(self).wf(),
        ensures
            final(self).wf(),
            ({
                let loaded = records_of_files::<Rf2AssociationRefsetMember>(
                    files_of(files@),
                    config.active_only,
                );
                &&& final(self)@ == (StoreView {
                    associations: old(self)@.associations + loaded,
                    ..old(self)@
                })
                &&& match files_error::<Rf2AssociationRefsetMember>(files_of(files@)) {
                    Some(e) => r is Err && r->Err_0@ == e,
                    None => r is Ok && r->Ok_0 == loaded.len(),
                }
            }),
    {
        let (members, failure) = parse_files::<Rf2AssociationRefsetMember>(
            files,
            config.active_only,
            config.batch_size,
        );
        proof {
            lemma_plain_views(members@);
        }
        let count = members.len();
        self.insert_associations(members);
        match failure {
            Some(e) => Err(e),
            None => Ok(count),
        }
    }
}

} // verus!
