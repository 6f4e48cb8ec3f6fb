//! Decoders of the terminology files and of the simple, language and
//! association reference sets.

use vstd::prelude::*;
use vstd::string::StringExecFns;
use crate::types::{Rf2Config, Rf2Error, Rf2ErrorView, Rf2Result};
use crate::text::cells_of;
use crate::number::canonical_digits;
use crate::parse::{
    boolean, boolean_text, effective_time, effective_time_text, integer, integer_text,
    lemma_boolean_text, lemma_effective_time_of_text, lemma_effective_time_text,
    lemma_integer_of_text, lemma_integer_text, lemma_sctid_of_text, lemma_sctid_text, sctid,
    sctid_text, spec_boolean, spec_effective_time, spec_integer, spec_sctid, write_boolean,
    write_effective_time, write_integer, write_sctid,
};
use crate::record::{cell, cell_at, Rf2Record};
use crate::concept::Rf2Concept;
use crate::description::{DescriptionView, Rf2Description};
use crate::relationship::Rf2Relationship;
use crate::concrete_relationship::{
    canonical_value, lemma_value_of_text, lemma_value_text, value_writable,
    ConcreteRelationshipView, ConcreteValue, ConcreteValueView, Rf2ConcreteRelationship,
};
use crate::owl_expression::{OwlExpressionView, Rf2OwlExpression};
use crate::refset::{Rf2AssociationRefsetMember, Rf2LanguageRefsetMember, Rf2SimpleRefsetMember};

verus! {

/// What a cell denotes as the value of a concrete relationship, or the
/// error that names the cell.
pub open spec fn spec_value(c: Seq<char>) -> Result<ConcreteValueView, Rf2ErrorView> {
    match ConcreteValue::spec_parse(c) {
        Some(v) => Ok(v),
        None => Err(Rf2ErrorView::Parse("Invalid concrete value: "@ + c)),
    }
}

/// Reads the value cell of a concrete relationship.
pub fn value_of(c: &str) -> (r: Rf2Result<ConcreteValue>)
    ensures
        crate::types::viewed(r) == spec_value(c@),
{
    match ConcreteValue::parse(c) {
        Some(v) => Ok(v),
        None => {
            let mut message = "Invalid concrete value: ".to_owned();
            message.append(c);
            Err(Rf2Error::Parse(message))
        },
    }
}

impl Rf2Record for Rf2Concept {
    open spec fn spec_columns() -> Seq<Seq<char>> {
        seq![
            "id"@,
            "effectiveTime"@,
            "active"@,
            "moduleId"@,
            "definitionStatusId"@,
        ]
    }

    open spec fn decode(cells: Seq<Seq<char>>) -> Result<Rf2Concept, Rf2ErrorView> {
        let id = spec_sctid(cell(cells, 0));
        let effective_time = spec_effective_time(cell(cells, 1));
        let active = spec_boolean(cell(cells, 2));
        let module_id = spec_sctid(cell(cells, 3));
        let definition_status_id = spec_sctid(cell(cells, 4));
        if id is Err {
            Err(id->Err_0)
        } else if effective_time is Err {
            Err(effective_time->Err_0)
        } else if active is Err {
            Err(active->Err_0)
        } else if module_id is Err {
            Err(module_id->Err_0)
        } else if definition_status_id is Err {
            Err(definition_status_id->Err_0)
        } else {
            Ok(
                Rf2Concept {
                    id: id->Ok_0,
                    effective_time: effective_time->Ok_0,
                    active: active->Ok_0,
                    module_id: module_id->Ok_0,
                    definition_status_id: definition_status_id->Ok_0,
                },
            )
        }
    }

    open spec fn is_active(v: Rf2Concept) -> bool {
        v.active
    }

    open spec fn encode(v: Rf2Concept) -> Seq<Seq<char>> {
        seq![
            sctid_text(v.id),
            effective_time_text(v.effective_time),
            boolean_text(v.active),
            sctid_text(v.module_id),
            sctid_text(v.definition_status_id),
        ]
    }

    open spec fn writable(v: Rf2Concept) -> bool {
        &&& v.effective_time < 100_000_000
    }

    open spec fn canonical(cells: Seq<Seq<char>>) -> bool {
        &&& cells.len() == 5
        &&& canonical_digits(cells[0])
        &&& canonical_digits(cells[3])
        &&& canonical_digits(cells[4])
    }

    fn expected_columns() -> (r: Vec<&'static str>) {
        vec![
            "id",
            "effectiveTime",
            "active",
            "moduleId",
            "definitionStatusId",
        ]
    }

    fn from_record(record: &Vec<String>) -> (r: Rf2Result<Self>) {
        let id = sctid(cell_at(record, 0))?;
        let effective_time = effective_time(cell_at(record, 1))?;
        let active = boolean(cell_at(record, 2))?;
        let module_id = sctid(cell_at(record, 3))?;
        let definition_status_id = sctid(cell_at(record, 4))?;
        Ok(Rf2Concept {
            id,
            effective_time,
            active,
            module_id,
            definition_status_id,
        })
    }

    fn passes_filter(&self, config: &Rf2Config) -> (r: bool) {
        !config.active_only || self.active
    }

    fn to_record(&self) -> (r: Vec<String>) {
        let r = vec![
            write_sctid(self.id),
            write_effective_time(self.effective_time),
            write_boolean(self.active),
            write_sctid(self.module_id),
            write_sctid(self.definition_status_id),
        ];
        assert(cells_of(r@) =~= Self::encode(self@));
        r
    }

    proof fn lemma_decode_encode(v: Rf2Concept) {
        let cells = Self::encode(v);
        lemma_sctid_text(v.id);
        lemma_effective_time_text(v.effective_time);
        lemma_boolean_text(v.active, Seq::empty());
        lemma_sctid_text(v.module_id);
        lemma_sctid_text(v.definition_status_id);
        assert(cell(cells, 0) == cells[0]);
        assert(cell(cells, 1) == cells[1]);
        assert(cell(cells, 2) == cells[2]);
        assert(cell(cells, 3) == cells[3]);
        assert(cell(cells, 4) == cells[4]);
    }

    proof fn lemma_encode_decode(cells: Seq<Seq<char>>) {
        lemma_sctid_of_text(cells[0]);
        lemma_effective_time_of_text(cells[1]);
        lemma_boolean_text(true, cells[2]);
        lemma_sctid_of_text(cells[3]);
        lemma_sctid_of_text(cells[4]);
        assert(Self::encode(Self::decode(cells)->Ok_0) =~= cells);
    }
}

impl Rf2Record for Rf2Description {
    open spec fn spec_columns() -> Seq<Seq<char>> {
        seq![
            "id"@,
            "effectiveTime"@,
            "active"@,
            "moduleId"@,
            "conceptId"@,
            "languageCode"@,
            "typeId"@,
            "term"@,
            "caseSignificanceId"@,
        ]
    }

    open spec fn decode(cells: Seq<Seq<char>>) -> Result<DescriptionView, Rf2ErrorView> {
        let id = spec_sctid(cell(cells, 0));
        let effective_time = spec_effective_time(cell(cells, 1));
        let active = spec_boolean(cell(cells, 2));
        let module_id = spec_sctid(cell(cells, 3));
        let concept_id = spec_sctid(cell(cells, 4));
        let language_code = cell(cells, 5);
        let type_id = spec_sctid(cell(cells, 6));
        let term = cell(cells, 7);
        let case_significance_id = spec_sctid(cell(cells, 8));
        if id is Err {
            Err(id->Err_0)
        } else if effective_time is Err {
            Err(effective_time->Err_0)
        } else if active is Err {
            Err(active->Err_0)
        } else if module_id is Err {
            Err(module_id->Err_0)
        } else if concept_id is Err {
            Err(concept_id->Err_0)
        } else if type_id is Err {
            Err(type_id->Err_0)
        } else if case_significance_id is Err {
            Err(case_significance_id->Err_0)
        } else {
            Ok(
                DescriptionView {
                    id: id->Ok_0,
                    effective_time: effective_time->Ok_0,
                    active: active->Ok_0,
                    module_id: module_id->Ok_0,
                    concept_id: concept_id->Ok_0,
                    language_code,
                    type_id: type_id->Ok_0,
                    term,
                    case_significance_id: case_significance_id->Ok_0,
                },
            )
        }
    }

    open spec fn is_active(v: DescriptionView) -> bool {
        v.active
    }

    open spec fn encode(v: DescriptionView) -> Seq<Seq<char>> {
        seq![
            sctid_text(v.id),
            effective_time_text(v.effective_time),
            boolean_text(v.active),
            sctid_text(v.module_id),
            sctid_text(v.concept_id),
            v.language_code,
            sctid_text(v.type_id),
            v.term,
            sctid_text(v.case_significance_id),
        ]
    }

    open spec fn writable(v: DescriptionView) -> bool {
        &&& v.effective_time < 100_000_000
    }

    open spec fn canonical(cells: Seq<Seq<char>>) -> bool {
        &&& cells.len() == 9
        &&& canonical_digits(cells[0])
        &&& canonical_digits(cells[3])
        &&& canonical_digits(cells[4])
        &&& canonical_digits(cells[6])
        &&& canonical_digits(cells[8])
    }

    fn expected_columns() -> (r: Vec<&'static str>) {
        vec![
            "id",
            "effectiveTime",
            "active",
            "moduleId",
            "conceptId",
            "languageCode",
            "typeId",
            "term",
            "caseSignificanceId",
        ]
    }

    fn from_record(record: &Vec<String>) -> (r: Rf2Result<Self>) {
        let id = sctid(cell_at(record, 0))?;
        let effective_time = effective_time(cell_at(record, 1))?;
        let active = boolean(cell_at(record, 2))?;
        let module_id = sctid(cell_at(record, 3))?;
        let concept_id = sctid(cell_at(record, 4))?;
        let language_code = cell_at(record, 5).to_owned();
        let type_id = sctid(cell_at(record, 6))?;
        let term = cell_at(record, 7).to_owned();
        let case_significance_id = sctid(cell_at(record, 8))?;
        Ok(Rf2Description {
            id,
            effective_time,
            active,
            module_id,
            concept_id,
            language_code,
            type_id,
            term,
            case_significance_id,
        })
    }

    fn passes_filter(&self, config: &Rf2Config) -> (r: bool) {
        !config.active_only || self.active
    }

    fn to_record(&self) -> (r: Vec<String>) {
        let r = vec![
            write_sctid(self.id),
            write_effective_time(self.effective_time),
            write_boolean(self.active),
            write_sctid(self.module_id),
            write_sctid(self.concept_id),
            self.language_code.clone(),
            write_sctid(self.type_id),
            self.term.clone(),
            write_sctid(self.case_significance_id),
        ];
        assert(cells_of(r@) =~= Self::encode(self@));
        r
    }

    proof fn lemma_decode_encode(v: DescriptionView) {
        let cells = Self::encode(v);
        lemma_sctid_text(v.id);
        lemma_effective_time_text(v.effective_time);
        lemma_boolean_text(v.active, Seq::empty());
        lemma_sctid_text(v.module_id);
        lemma_sctid_text(v.concept_id);
        lemma_sctid_text(v.type_id);
        lemma_sctid_text(v.case_significance_id);
        assert(cell(cells, 0) == cells[0]);
        assert(cell(cells, 1) == cells[1]);
        assert(cell(cells, 2) == cells[2]);
        assert(cell(cells, 3) == cells[3]);
        assert(cell(cells, 4) == cells[4]);
        assert(cell(cells, 5) == cells[5]);
        assert(cell(cells, 6) == cells[6]);
        assert(cell(cells, 7) == cells[7]);
        assert(cell(cells, 8) == cells[8]);
    }

    proof fn lemma_encode_decode(cells: Seq<Seq<char>>) {
        lemma_sctid_of_text(cells[0]);
        lemma_effective_time_of_text(cells[1]);
        lemma_boolean_text(true, cells[2]);
        lemma_sctid_of_text(cells[3]);
        lemma_sctid_of_text(cells[4]);
        lemma_sctid_of_text(cells[6]);
        lemma_sctid_of_text(cells[8]);
        assert(Self::encode(Self::decode(cells)->Ok_0) =~= cells);
    }
}

impl Rf2Record for Rf2Relationship {
    open spec fn spec_columns() -> Seq<Seq<char>> {
        seq![
            "id"@,
            "effectiveTime"@,
            "active"@,
            "moduleId"@,
            "sourceId"@,
            "destinationId"@,
            "relationshipGroup"@,
            "typeId"@,
            "characteristicTypeId"@,
            "modifierId"@,
        ]
    }

    open spec fn decode(cells: Seq<Seq<char>>) -> Result<Rf2Relationship, Rf2ErrorView> {
        let id = spec_sctid(cell(cells, 0));
        let effective_time = spec_effective_time(cell(cells, 1));
        let active = spec_boolean(cell(cells, 2));
        let module_id = spec_sctid(cell(cells, 3));
        let source_id = spec_sctid(cell(cells, 4));
        let destination_id = spec_sctid(cell(cells, 5));
        let relationship_group = spec_integer(cell(cells, 6));
        let type_id = spec_sctid(cell(cells, 7));
        let characteristic_type_id = spec_sctid(cell(cells, 8));
        let modifier_id = spec_sctid(cell(cells, 9));
        if id is Err {
            Err(id->Err_0)
        } else if effective_time is Err {
            Err(effective_time->Err_0)
        } else if active is Err {
            Err(active->Err_0)
        } else if module_id is Err {
            Err(module_id->Err_0)
        } else if source_id is Err {
            Err(source_id->Err_0)
        } else if destination_id is Err {
            Err(destination_id->Err_0)
        } else if relationship_group is Err {
            Err(relationship_group->Err_0)
        } else if type_id is Err {
            Err(type_id->Err_0)
        } else if characteristic_type_id is Err {
            Err(characteristic_type_id->Err_0)
        } else if modifier_id is Err {
            Err(modifier_id->Err_0)
        } else {
            Ok(
                Rf2Relationship {
                    id: id->Ok_0,
                    effective_time: effective_time->Ok_0,
                    active: active->Ok_0,
                    module_id: module_id->Ok_0,
                    source_id: source_id->Ok_0,
                    destination_id: destination_id->Ok_0,
                    relationship_group: relationship_group->Ok_0,
                    type_id: type_id->Ok_0,
                    characteristic_type_id: characteristic_type_id->Ok_0,
                    modifier_id: modifier_id->Ok_0,
                },
            )
        }
    }

    open spec fn is_active(v: Rf2Relationship) -> bool {
        v.active
    }

    open spec fn encode(v: Rf2Relationship) -> Seq<Seq<char>> {
        seq![
            sctid_text(v.id),
            effective_time_text(v.effective_time),
            boolean_text(v.active),
            sctid_text(v.module_id),
            sctid_text(v.source_id),
            sctid_text(v.destination_id),
            integer_text(v.relationship_group),
            sctid_text(v.type_id),
            sctid_text(v.characteristic_type_id),
            sctid_text(v.modifier_id),
        ]
    }

    open spec fn writable(v: Rf2Relationship) -> bool {
        &&& v.effective_time < 100_000_000
    }

    open spec fn canonical(cells: Seq<Seq<char>>) -> bool {
        &&& cells.len() == 10
        &&& canonical_digits(cells[0])
        &&& canonical_digits(cells[3])
        &&& canonical_digits(cells[4])
        &&& canonical_digits(cells[5])
        &&& canonical_digits(cells[6])
        &&& canonical_digits(cells[7])
        &&& canonical_digits(cells[8])
        &&& canonical_digits(cells[9])
    }

    fn expected_columns() -> (r: Vec<&'static str>) {
        vec![
            "id",
            "effectiveTime",
            "active",
            "moduleId",
            "sourceId",
            "destinationId",
            "relationshipGroup",
            "typeId",
            "characteristicTypeId",
            "modifierId",
        ]
    }

    fn from_record(record: &Vec<String>) -> (r: Rf2Result<Self>) {
        let id = sctid(cell_at(record, 0))?;
        let effective_time = effective_time(cell_at(record, 1))?;
        let active = boolean(cell_at(record, 2))?;
        let module_id = sctid(cell_at(record, 3))?;
        let source_id = sctid(cell_at(record, 4))?;
        let destination_id = sctid(cell_at(record, 5))?;
        let relationship_group = integer(cell_at(record, 6))?;
        let type_id = sctid(cell_at(record, 7))?;
        let characteristic_type_id = sctid(cell_at(record, 8))?;
        let modifier_id = sctid(cell_at(record, 9))?;
        Ok(Rf2Relationship {
            id,
            effective_time,
            active,
            module_id,
            source_id,
            destination_id,
            relationship_group,
            type_id,
            characteristic_type_id,
            modifier_id,
        })
    }

    fn passes_filter(&self, config: &Rf2Config) -> (r: bool) {
        !config.active_only || self.active
    }

    fn to_record(&self) -> (r: Vec<String>) {
        let r = vec![
            write_sctid(self.id),
            write_effective_time(self.effective_time),
            write_boolean(self.active),
            write_sctid(self.module_id),
            write_sctid(self.source_id),
            write_sctid(self.destination_id),
            write_integer(self.relationship_group),
            write_sctid(self.type_id),
            write_sctid(self.characteristic_type_id),
            write_sctid(self.modifier_id),
        ];
        assert(cells_of(r@) =~= Self::encode(self@));
        r
    }

    proof fn lemma_decode_encode(v: Rf2Relationship) {
        let cells = Self::encode(v);
        lemma_sctid_text(v.id);
        lemma_effective_time_text(v.effective_time);
        lemma_boolean_text(v.active, Seq::empty());
        lemma_sctid_text(v.module_id);
        lemma_sctid_text(v.source_id);
        lemma_sctid_text(v.destination_id);
        lemma_integer_text(v.relationship_group);
        lemma_sctid_text(v.type_id);
        lemma_sctid_text(v.characteristic_type_id);
        lemma_sctid_text(v.modifier_id);
        assert(cell(cells, 0) == cells[0]);
        assert(cell(cells, 1) == cells[1]);
        assert(cell(cells, 2) == cells[2]);
        assert(cell(cells, 3) == cells[3]);
        assert(cell(cells, 4) == cells[4]);
        assert(cell(cells, 5) == cells[5]);
        assert(cell(cells, 6) == cells[6]);
        assert(cell(cells, 7) == cells[7]);
        assert(cell(cells, 8) == cells[8]);
        assert(cell(cells, 9) == cells[9]);
    }

    proof fn lemma_encode_decode(cells: Seq<Seq<char>>) {
        lemma_sctid_of_text(cells[0]);
        lemma_effective_time_of_text(cells[1]);
        lemma_boolean_text(true, cells[2]);
        lemma_sctid_of_text(cells[3]);
        lemma_sctid_of_text(cells[4]);
        lemma_sctid_of_text(cells[5]);
        lemma_integer_of_text(cells[6]);
        lemma_sctid_of_text(cells[7]);
        lemma_sctid_of_text(cells[8]);
        lemma_sctid_of_text(cells[9]);
        assert(Self::encode(Self::decode(cells)->Ok_0) =~= cells);
    }
}

impl Rf2Record for Rf2ConcreteRelationship {
    open spec fn spec_columns() -> Seq<Seq<char>> {
        seq![
            "id"@,
            "effectiveTime"@,
            "active"@,
            "moduleId"@,
            "sourceId"@,
            "value"@,
            "relationshipGroup"@,
            "typeId"@,
            "characteristicTypeId"@,
            "modifierId"@,
        ]
    }

    open spec fn decode(cells: Seq<Seq<char>>) -> Result<ConcreteRelationshipView, Rf2ErrorView> {
        let value = spec_value(cell(cells, 5));
        let id = spec_sctid(cell(cells, 0));
        let effective_time = spec_effective_time(cell(cells, 1));
        let active = spec_boolean(cell(cells, 2));
        let module_id = spec_sctid(cell(cells, 3));
        let source_id = spec_sctid(cell(cells, 4));
        let relationship_group = spec_integer(cell(cells, 6));
        let type_id = spec_sctid(cell(cells, 7));
        let characteristic_type_id = spec_sctid(cell(cells, 8));
        let modifier_id = spec_sctid(cell(cells, 9));
        if value is Err {
            Err(value->Err_0)
        } else if id is Err {
            Err(id->Err_0)
        } else if effective_time is Err {
            Err(effective_time->Err_0)
        } else if active is Err {
            Err(active->Err_0)
        } else if module_id is Err {
            Err(module_id->Err_0)
        } else if source_id is Err {
            Err(source_id->Err_0)
        } else if relationship_group is Err {
            Err(relationship_group->Err_0)
        } else if type_id is Err {
            Err(type_id->Err_0)
        } else if characteristic_type_id is Err {
            Err(characteristic_type_id->Err_0)
        } else if modifier_id is Err {
            Err(modifier_id->Err_0)
        } else {
            Ok(
                ConcreteRelationshipView {
                    id: id->Ok_0,
                    effective_time: effective_time->Ok_0,
                    active: active->Ok_0,
                    module_id: module_id->Ok_0,
                    source_id: source_id->Ok_0,
                    value: value->Ok_0,
                    relationship_group: relationship_group->Ok_0,
                    type_id: type_id->Ok_0,
                    characteristic_type_id: characteristic_type_id->Ok_0,
                    modifier_id: modifier_id->Ok_0,
                },
            )
        }
    }

    open spec fn is_active(v: ConcreteRelationshipView) -> bool {
        v.active
    }

    open spec fn encode(v: ConcreteRelationshipView) -> Seq<Seq<char>> {
        seq![
            sctid_text(v.id),
            effective_time_text(v.effective_time),
            boolean_text(v.active),
            sctid_text(v.module_id),
            sctid_text(v.source_id),
            ConcreteValue::spec_text(v.value),
            integer_text(v.relationship_group),
            sctid_text(v.type_id),
            sctid_text(v.characteristic_type_id),
            sctid_text(v.modifier_id),
        ]
    }

    open spec fn writable(v: ConcreteRelationshipView) -> bool {
        &&& v.effective_time < 100_000_000
        &&& value_writable(v.value)
    }

    open spec fn canonical(cells: Seq<Seq<char>>) -> bool {
        &&& cells.len() == 10
        &&& canonical_digits(cells[0])
        &&& canonical_digits(cells[3])
        &&& canonical_digits(cells[4])
        &&& canonical_value(cells[5])
        &&& canonical_digits(cells[6])
        &&& canonical_digits(cells[7])
        &&& canonical_digits(cells[8])
        &&& canonical_digits(cells[9])
    }

    fn expected_columns() -> (r: Vec<&'static str>) {
        vec![
            "id",
            "effectiveTime",
            "active",
            "moduleId",
            "sourceId",
            "value",
            "relationshipGroup",
            "typeId",
            "characteristicTypeId",
            "modifierId",
        ]
    }

    fn from_record(record: &Vec<String>) -> (r: Rf2Result<Self>) {
        let value = value_of(cell_at(record, 5))?;
        let id = sctid(cell_at(record, 0))?;
        let effective_time = effective_time(cell_at(record, 1))?;
        let active = boolean(cell_at(record, 2))?;
        let module_id = sctid(cell_at(record, 3))?;
        let source_id = sctid(cell_at(record, 4))?;
        let relationship_group = integer(cell_at(record, 6))?;
        let type_id = sctid(cell_at(record, 7))?;
        let characteristic_type_id = sctid(cell_at(record, 8))?;
        let modifier_id = sctid(cell_at(record, 9))?;
        Ok(Rf2ConcreteRelationship {
            id,
            effective_time,
            active,
            module_id,
            source_id,
            value,
            relationship_group,
            type_id,
            characteristic_type_id,
            modifier_id,
        })
    }

    fn passes_filter(&self, config: &Rf2Config) -> (r: bool) {
        !config.active_only || self.active
    }

    fn to_record(&self) -> (r: Vec<String>) {
        let r = vec![
            write_sctid(self.id),
            write_effective_time(self.effective_time),
            write_boolean(self.active),
            write_sctid(self.module_id),
            write_sctid(self.source_id),
            self.value.to_text(),
            write_integer(self.relationship_group),
            write_sctid(self.type_id),
            write_sctid(self.characteristic_type_id),
            write_sctid(self.modifier_id),
        ];
        assert(cells_of(r@) =~= Self::encode(self@));
        r
    }

    proof fn lemma_decode_encode(v: ConcreteRelationshipView) {
        let cells = Self::encode(v);
        lemma_sctid_text(v.id);
        lemma_effective_time_text(v.effective_time);
        lemma_boolean_text(v.active, Seq::empty());
        lemma_sctid_text(v.module_id);
        lemma_sctid_text(v.source_id);
        lemma_value_text(v.value);
        lemma_integer_text(v.relationship_group);
        lemma_sctid_text(v.type_id);
        lemma_sctid_text(v.characteristic_type_id);
        lemma_sctid_text(v.modifier_id);
        assert(cell(cells, 0) == cells[0]);
        assert(cell(cells, 1) == cells[1]);
        assert(cell(cells, 2) == cells[2]);
        assert(cell(cells, 3) == cells[3]);
        assert(cell(cells, 4) == cells[4]);
        assert(cell(cells, 5) == cells[5]);
        assert(cell(cells, 6) == cells[6]);
        assert(cell(cells, 7) == cells[7]);
        assert(cell(cells, 8) == cells[8]);
        assert(cell(cells, 9) == cells[9]);
    }

    proof fn lemma_encode_decode(cells: Seq<Seq<char>>) {
        lemma_sctid_of_text(cells[0]);
        lemma_effective_time_of_text(cells[1]);
        lemma_boolean_text(true, cells[2]);
        lemma_sctid_of_text(cells[3]);
        lemma_sctid_of_text(cells[4]);
        lemma_value_of_text(cells[5]);
        lemma_integer_of_text(cells[6]);
        lemma_sctid_of_text(cells[7]);
        lemma_sctid_of_text(cells[8]);
        lemma_sctid_of_text(cells[9]);
        assert(Self::encode(Self::decode(cells)->Ok_0) =~= cells);
    }
}

impl Rf2Record for Rf2OwlExpression {
    open spec fn spec_columns() -> Seq<Seq<char>> {
        seq![
            "id"@,
            "effectiveTime"@,
            "active"@,
            "moduleId"@,
            "refsetId"@,
            "referencedComponentId"@,
            "owlExpression"@,
        ]
    }

    open spec fn decode(cells: Seq<Seq<char>>) -> Result<OwlExpressionView, Rf2ErrorView> {
        let id = spec_sctid(cell(cells, 0));
        let effective_time = spec_effective_time(cell(cells, 1));
        let active = spec_boolean(cell(cells, 2));
        let module_id = spec_sctid(cell(cells, 3));
        let refset_id = spec_sctid(cell(cells, 4));
        let referenced_component_id = spec_sctid(cell(cells, 5));
        let owl_expression = cell(cells, 6);
        if id is Err {
            Err(id->Err_0)
        } else if effective_time is Err {
            Err(effective_time->Err_0)
        } else if active is Err {
            Err(active->Err_0)
        } else if module_id is Err {
            Err(module_id->Err_0)
        } else if refset_id is Err {
            Err(refset_id->Err_0)
        } else if referenced_component_id is Err {
            Err(referenced_component_id->Err_0)
        } else {
            Ok(
                OwlExpressionView {
                    id: id->Ok_0,
                    effective_time: effective_time->Ok_0,
                    active: active->Ok_0,
                    module_id: module_id->Ok_0,
                    refset_id: refset_id->Ok_0,
                    referenced_component_id: referenced_component_id->Ok_0,
                    owl_expression,
                },
            )
        }
    }

    open spec fn is_active(v: OwlExpressionView) -> bool {
        v.active
    }

    open spec fn encode(v: OwlExpressionView) -> Seq<Seq<char>> {
        seq![
            sctid_text(v.id),
            effective_time_text(v.effective_time),
            boolean_text(v.active),
            sctid_text(v.module_id),
            sctid_text(v.refset_id),
            sctid_text(v.referenced_component_id),
            v.owl_expression,
        ]
    }

    open spec fn writable(v: OwlExpressionView) -> bool {
        &&& v.effective_time < 100_000_000
    }

    open spec fn canonical(cells: Seq<Seq<char>>) -> bool {
        &&& cells.len() == 7
        &&& canonical_digits(cells[0])
        &&& canonical_digits(cells[3])
        &&& canonical_digits(cells[4])
        &&& canonical_digits(cells[5])
    }

    fn expected_columns() -> (r: Vec<&'static str>) {
        vec![
            "id",
            "effectiveTime",
            "active",
            "moduleId",
            "refsetId",
            "referencedComponentId",
            "owlExpression",
        ]
    }

    fn from_record(record: &Vec<String>) -> (r: Rf2Result<Self>) {
        let id = sctid(cell_at(record, 0))?;
        let effective_time = effective_time(cell_at(record, 1))?;
        let active = boolean(cell_at(record, 2))?;
        let module_id = sctid(cell_at(record, 3))?;
        let refset_id = sctid(cell_at(record, 4))?;
        let referenced_component_id = sctid(cell_at(record, 5))?;
        let owl_expression = cell_at(record, 6).to_owned();
        Ok(Rf2OwlExpression {
            id,
            effective_time,
            active,
            module_id,
            refset_id,
            referenced_component_id,
            owl_expression,
        })
    }

    fn passes_filter(&self, config: &Rf2Config) -> (r: bool) {
        !config.active_only || self.active
    }

    fn to_record(&self) -> (r: Vec<String>) {
        let r = vec![
            write_sctid(self.id),
            write_effective_time(self.effective_time),
            write_boolean(self.active),
            write_sctid(self.module_id),
            write_sctid(self.refset_id),
            write_sctid(self.referenced_component_id),
            self.owl_expression.clone(),
        ];
        assert(cells_of(r@) =~= Self::encode(self@));
        r
    }

    proof fn lemma_decode_encode(v: OwlExpressionView) {
        let cells = Self::encode(v);
        lemma_sctid_text(v.id);
        lemma_effective_time_text(v.effective_time);
        lemma_boolean_text(v.active, Seq::empty());
        lemma_sctid_text(v.module_id);
        lemma_sctid_text(v.refset_id);
        lemma_sctid_text(v.referenced_component_id);
        assert(cell(cells, 0) == cells[0]);
        assert(cell(cells, 1) == cells[1]);
        assert(cell(cells, 2) == cells[2]);
        assert(cell(cells, 3) == cells[3]);
        assert(cell(cells, 4) == cells[4]);
        assert(cell(cells, 5) == cells[5]);
        assert(cell(cells, 6) == cells[6]);
    }

    proof fn lemma_encode_decode(cells: Seq<Seq<char>>) {
        lemma_sctid_of_text(cells[0]);
        lemma_effective_time_of_text(cells[1]);
        lemma_boolean_text(true, cells[2]);
        lemma_sctid_of_text(cells[3]);
        lemma_sctid_of_text(cells[4]);
        lemma_sctid_of_text(cells[5]);
        assert(Self::encode(Self::decode(cells)->Ok_0) =~= cells);
    }
}

impl Rf2Record for Rf2SimpleRefsetMember {
    open spec fn spec_columns() -> Seq<Seq<char>> {
        seq![
            "id"@,
            "effectiveTime"@,
            "active"@,
            "moduleId"@,
            "refsetId"@,
            "referencedComponentId"@,
        ]
    }

    open spec fn decode(cells: Seq<Seq<char>>) -> Result<Rf2SimpleRefsetMember, Rf2ErrorView> {
        let id = spec_sctid(cell(cells, 0));
        let effective_time = spec_effective_time(cell(cells, 1));
        let active = spec_boolean(cell(cells, 2));
        let module_id = spec_sctid(cell(cells, 3));
        let refset_id = spec_sctid(cell(cells, 4));
        let referenced_component_id = spec_sctid(cell(cells, 5));
        if id is Err {
            Err(id->Err_0)
        } else if effective_time is Err {
            Err(effective_time->Err_0)
        } else if active is Err {
            Err(active->Err_0)
        } else if module_id is Err {
            Err(module_id->Err_0)
        } else if refset_id is Err {
            Err(refset_id->Err_0)
        } else if referenced_component_id is Err {
            Err(referenced_component_id->Err_0)
        } else {
            Ok(
                Rf2SimpleRefsetMember {
                    id: id->Ok_0,
                    effective_time: effective_time->Ok_0,
                    active: active->Ok_0,
                    module_id: module_id->Ok_0,
                    refset_id: refset_id->Ok_0,
                    referenced_component_id: referenced_component_id->Ok_0,
                },
            )
        }
    }

    open spec fn is_active(v: Rf2SimpleRefsetMember) -> bool {
        v.active
    }

    open spec fn encode(v: Rf2SimpleRefsetMember) -> Seq<Seq<char>> {
        seq![
            sctid_text(v.id),
            effective_time_text(v.effective_time),
            boolean_text(v.active),
            sctid_text(v.module_id),
            sctid_text(v.refset_id),
            sctid_text(v.referenced_component_id),
        ]
    }

    open spec fn writable(v: Rf2SimpleRefsetMember) -> bool {
        &&& v.effective_time < 100_000_000
    }

    open spec fn canonical(cells: Seq<Seq<char>>) -> bool {
        &&& cells.len() == 6
        &&& canonical_digits(cells[0])
        &&& canonical_digits(cells[3])
        &&& canonical_digits(cells[4])
        &&& canonical_digits(cells[5])
    }

    fn expected_columns() -> (r: Vec<&'static str>) {
        vec![
            "id",
            "effectiveTime",
            "active",
            "moduleId",
            "refsetId",
            "referencedComponentId",
        ]
    }

    fn from_record(record: &Vec<String>) -> (r: Rf2Result<Self>) {
        let id = sctid(cell_at(record, 0))?;
        let effective_time = effective_time(cell_at(record, 1))?;
        let active = boolean(cell_at(record, 2))?;
        let module_id = sctid(cell_at(record, 3))?;
        let refset_id = sctid(cell_at(record, 4))?;
        let referenced_component_id = sctid(cell_at(record, 5))?;
        Ok(Rf2SimpleRefsetMember {
            id,
            effective_time,
            active,
            module_id,
            refset_id,
            referenced_component_id,
        })
    }

    fn passes_filter(&self, config: &Rf2Config) -> (r: bool) {
        !config.active_only || self.active
    }

    fn to_record(&self) -> (r: Vec<String>) {
        let r = vec![
            write_sctid(self.id),
            write_effective_time(self.effective_time),
            write_boolean(self.active),
            write_sctid(self.module_id),
            write_sctid(self.refset_id),
            write_sctid(self.referenced_component_id),
        ];
        assert(cells_of(r@) =~= Self::encode(self@));
        r
    }

    proof fn lemma_decode_encode(v: Rf2SimpleRefsetMember) {
        let cells = Self::encode(v);
        lemma_sctid_text(v.id);
        lemma_effective_time_text(v.effective_time);
        lemma_boolean_text(v.active, Seq::empty());
        lemma_sctid_text(v.module_id);
        lemma_sctid_text(v.refset_id);
        lemma_sctid_text(v.referenced_component_id);
        assert(cell(cells, 0) == cells[0]);
        assert(cell(cells, 1) == cells[1]);
        assert(cell(cells, 2) == cells[2]);
        assert(cell(cells, 3) == cells[3]);
        assert(cell(cells, 4) == cells[4]);
        assert(cell(cells, 5) == cells[5]);
    }

    proof fn lemma_encode_decode(cells: Seq<Seq<char>>) {
        lemma_sctid_of_text(cells[0]);
        lemma_effective_time_of_text(cells[1]);
        lemma_boolean_text(true, cells[2]);
        lemma_sctid_of_text(cells[3]);
        lemma_sctid_of_text(cells[4]);
        lemma_sctid_of_text(cells[5]);
        assert(Self::encode(Self::decode(cells)->Ok_0) =~= cells);
    }
}

impl Rf2Record for Rf2LanguageRefsetMember {
    open spec fn spec_columns() -> Seq<Seq<char>> {
        seq![
            "id"@,
            "effectiveTime"@,
            "active"@,
            "moduleId"@,
            "refsetId"@,
            "referencedComponentId"@,
            "acceptabilityId"@,
        ]
    }

    open spec fn decode(cells: Seq<Seq<char>>) -> Result<Rf2LanguageRefsetMember, Rf2ErrorView> {
        let id = spec_sctid(cell(cells, 0));
        let effective_time = spec_effective_time(cell(cells, 1));
        let active = spec_boolean(cell(cells, 2));
        let module_id = spec_sctid(cell(cells, 3));
        let refset_id = spec_sctid(cell(cells, 4));
        let referenced_component_id = spec_sctid(cell(cells, 5));
        let acceptability_id = spec_sctid(cell(cells, 6));
        if id is Err {
            Err(id->Err_0)
        } else if effective_time is Err {
            Err(effective_time->Err_0)
        } else if active is Err {
            Err(active->Err_0)
        } else if module_id is Err {
            Err(module_id->Err_0)
        } else if refset_id is Err {
            Err(refset_id->Err_0)
        } else if referenced_component_id is Err {
            Err(referenced_component_id->Err_0)
        } else if acceptability_id is Err {
            Err(acceptability_id->Err_0)
        } else {
            Ok(
                Rf2LanguageRefsetMember {
                    id: id->Ok_0,
                    effective_time: effective_time->Ok_0,
                    active: active->Ok_0,
                    module_id: module_id->Ok_0,
                    refset_id: refset_id->Ok_0,
                    referenced_component_id: referenced_component_id->Ok_0,
                    acceptability_id: acceptability_id->Ok_0,
                },
            )
        }
    }

    open spec fn is_active(v: Rf2LanguageRefsetMember) -> bool {
        v.active
    }

    open spec fn encode(v: Rf2LanguageRefsetMember) -> Seq<Seq<char>> {
        seq![
            sctid_text(v.id),
            effective_time_text(v.effective_time),
            boolean_text(v.active),
            sctid_text(v.module_id),
            sctid_text(v.refset_id),
            sctid_text(v.referenced_component_id),
            sctid_text(v.acceptability_id),
        ]
    }

    open spec fn writable(v: Rf2LanguageRefsetMember) -> bool {
        &&& v.effective_time < 100_000_000
    }

    open spec fn canonical(cells: Seq<Seq<char>>) -> bool {
        &&& cells.len() == 7
        &&& canonical_digits(cells[0])
        &&& canonical_digits(cells[3])
        &&& canonical_digits(cells[4])
        &&& canonical_digits(cells[5])
        &&& canonical_digits(cells[6])
    }

    fn expected_columns() -> (r: Vec<&'static str>) {
        vec![
            "id",
            "effectiveTime",
            "active",
            "moduleId",
            "refsetId",
            "referencedComponentId",
            "acceptabilityId",
        ]
    }

    fn from_record(record: &Vec<String>) -> (r: Rf2Result<Self>) {
        let id = sctid(cell_at(record, 0))?;
        let effective_time = effective_time(cell_at(record, 1))?;
        let active = boolean(cell_at(record, 2))?;
        let module_id = sctid(cell_at(record, 3))?;
        let refset_id = sctid(cell_at(record, 4))?;
        let referenced_component_id = sctid(cell_at(record, 5))?;
        let acceptability_id = sctid(cell_at(record, 6))?;
        Ok(Rf2LanguageRefsetMember {
            id,
            effective_time,
            active,
            module_id,
            refset_id,
            referenced_component_id,
            acceptability_id,
        })
    }

    fn passes_filter(&self, config: &Rf2Config) -> (r: bool) {
        !config.active_only || self.active
    }

    fn to_record(&self) -> (r: Vec<String>) {
        let r = vec![
            write_sctid(self.id),
            write_effective_time(self.effective_time),
            write_boolean(self.active),
            write_sctid(self.module_id),
            write_sctid(self.refset_id),
            write_sctid(self.referenced_component_id),
            write_sctid(self.acceptability_id),
        ];
        assert(cells_of(r@) =~= Self::encode(self@));
        r
    }

    proof fn lemma_decode_encode(v: Rf2LanguageRefsetMember) {
        let cells = Self::encode(v);
        lemma_sctid_text(v.id);
        lemma_effective_time_text(v.effective_time);
        lemma_boolean_text(v.active, Seq::empty());
        lemma_sctid_text(v.module_id);
        lemma_sctid_text(v.refset_id);
        lemma_sctid_text(v.referenced_component_id);
        lemma_sctid_text(v.acceptability_id);
        assert(cell(cells, 0) == cells[0]);
        assert(cell(cells, 1) == cells[1]);
        assert(cell(cells, 2) == cells[2]);
        assert(cell(cells, 3) == cells[3]);
        assert(cell(cells, 4) == cells[4]);
        assert(cell(cells, 5) == cells[5]);
        assert(cell(cells, 6) == cells[6]);
    }

    proof fn lemma_encode_decode(cells: Seq<Seq<char>>) {
        lemma_sctid_of_text(cells[0]);
        lemma_effective_time_of_text(cells[1]);
        lemma_boolean_text(true, cells[2]);
        lemma_sctid_of_text(cells[3]);
        lemma_sctid_of_text(cells[4]);
        lemma_sctid_of_text(cells[5]);
        lemma_sctid_of_text(cells[6]);
        assert(Self::encode(Self::decode(cells)->Ok_0) =~= cells);
    }
}

impl Rf2Record for Rf2AssociationRefsetMember {
    open spec fn spec_columns() -> Seq<Seq<char>> {
        seq![
            "id"@,
            "effectiveTime"@,
            "active"@,
            "moduleId"@,
            "refsetId"@,
            "referencedComponentId"@,
            "targetComponentId"@,
        ]
    }

    open spec fn decode(cells: Seq<Seq<char>>) -> Result<Rf2AssociationRefsetMember, Rf2ErrorView> {
        let id = spec_sctid(cell(cells, 0));
        let effective_time = spec_effective_time(cell(cells, 1));
        let active = spec_boolean(cell(cells, 2));
        let module_id = spec_sctid(cell(cells, 3));
        let refset_id = spec_sctid(cell(cells, 4));
        let referenced_component_id = spec_sctid(cell(cells, 5));
        let target_component_id = spec_sctid(cell(cells, 6));
        if id is Err {
            Err(id->Err_0)
        } else if effective_time is Err {
            Err(effective_time->Err_0)
        } else if active is Err {
            Err(active->Err_0)
        } else if module_id is Err {
            Err(module_id->Err_0)
        } else if refset_id is Err {
            Err(refset_id->Err_0)
        } else if referenced_component_id is Err {
            Err(referenced_component_id->Err_0)
        } else if target_component_id is Err {
            Err(target_component_id->Err_0)
        } else {
            Ok(
                Rf2AssociationRefsetMember {
                    id: id->Ok_0,
                    effective_time: effective_time->Ok_0,
                    active: active->Ok_0,
                    module_id: module_id->Ok_0,
                    refset_id: refset_id->Ok_0,
                    referenced_component_id: referenced_component_id->Ok_0,
                    target_component_id: target_component_id->Ok_0,
                },
            )
        }
    }

    open spec fn is_active(v: Rf2AssociationRefsetMember) -> bool {
        v.active
    }

    open spec fn encode(v: Rf2AssociationRefsetMember) -> Seq<Seq<char>> {
        seq![
            sctid_text(v.id),
            effective_time_text(v.effective_time),
            boolean_text(v.active),
            sctid_text(v.module_id),
            sctid_text(v.refset_id),
            sctid_text(v.referenced_component_id),
            sctid_text(v.target_component_id),
        ]
    }

    open spec fn writable(v: Rf2AssociationRefsetMember) -> bool {
        &&& v.effective_time < 100_000_000
    }

    open spec fn canonical(cells: Seq<Seq<char>>) -> bool {
        &&& cells.len() == 7
        &&& canonical_digits(cells[0])
        &&& canonical_digits(cells[3])
        &&& canonical_digits(cells[4])
        &&& canonical_digits(cells[5])
        &&& canonical_digits(cells[6])
    }

    fn expected_columns() -> (r: Vec<&'static str>) {
        vec![
            "id",
            "effectiveTime",
            "active",
            "moduleId",
            "refsetId",
            "referencedComponentId",
            "targetComponentId",
        ]
    }

    fn from_record(record: &Vec<String>) -> (r: Rf2Result<Self>) {
        let id = sctid(cell_at(record, 0))?;
        let effective_time = effective_time(cell_at(record, 1))?;
        let active = boolean(cell_at(record, 2))?;
        let module_id = sctid(cell_at(record, 3))?;
        let refset_id = sctid(cell_at(record, 4))?;
        let referenced_component_id = sctid(cell_at(record, 5))?;
        let target_component_id = sctid(cell_at(record, 6))?;
        Ok(Rf2AssociationRefsetMember {
            id,
            effective_time,
            active,
            module_id,
            refset_id,
            referenced_component_id,
            target_component_id,
        })
    }

    fn passes_filter(&self, config: &Rf2Config) -> (r: bool) {
        !config.active_only || self.active
    }

    fn to_record(&self) -> (r: Vec<String>) {
        let r = vec![
            write_sctid(self.id),
            write_effective_time(self.effective_time),
            write_boolean(self.active),
            write_sctid(self.module_id),
            write_sctid(self.refset_id),
            write_sctid(self.referenced_component_id),
            write_sctid(self.target_component_id),
        ];
        assert(cells_of(r@) =~= Self::encode(self@));
        r
    }

    proof fn lemma_decode_encode(v: Rf2AssociationRefsetMember) {
        let cells = Self::encode(v);
        lemma_sctid_text(v.id);
        lemma_effective_time_text(v.effective_time);
        lemma_boolean_text(v.active, Seq::empty());
        lemma_sctid_text(v.module_id);
        lemma_sctid_text(v.refset_id);
        lemma_sctid_text(v.referenced_component_id);
        lemma_sctid_text(v.target_component_id);
        assert(cell(cells, 0) == cells[0]);
        assert(cell(cells, 1) == cells[1]);
        assert(cell(cells, 2) == cells[2]);
        assert(cell(cells, 3) == cells[3]);
        assert(cell(cells, 4) == cells[4]);
        assert(cell(cells, 5) == cells[5]);
        assert(cell(cells, 6) == cells[6]);
    }

    proof fn lemma_encode_decode(cells: Seq<Seq<char>>) {
        lemma_sctid_of_text(cells[0]);
        lemma_effective_time_of_text(cells[1]);
        lemma_boolean_text(true, cells[2]);
        lemma_sctid_of_text(cells[3]);
        lemma_sctid_of_text(cells[4]);
        lemma_sctid_of_text(cells[5]);
        lemma_sctid_of_text(cells[6]);
        assert(Self::encode(Self::decode(cells)->Ok_0) =~= cells);
    }
}

} // verus!
