//! Decoders of the three MRCM reference sets. A row that is shorter than
//! its family needs fails with the name of the first column that is missing.

use vstd::prelude::*;
use crate::sctid::SctId;
use crate::types::{plain, Rf2Config, Rf2Error, Rf2ErrorView, Rf2Result};
use crate::text::cells_of;
use crate::number::{canonical_digits, lemma_canonical_digits, lemma_decimal_digits};
use crate::parse::{
    boolean, boolean_text, effective_time, effective_time_text, lemma_boolean_text,
    lemma_effective_time_of_text, lemma_effective_time_text, lemma_sctid_of_text,
    lemma_sctid_text, sctid, sctid_text, sctid_with_term, spec_boolean, spec_effective_time,
    spec_sctid, spec_sctid_with_term, write_boolean, write_effective_time, write_sctid,
};
use crate::record::{required, required_cell, Rf2Record};
use crate::mrcm::{
    canonical_cardinality, lemma_cardinality_of_text, lemma_cardinality_text, Cardinality,
    MrcmAttributeDomain, MrcmAttributeDomainView, MrcmAttributeRange, MrcmAttributeRangeView,
    MrcmDomain, MrcmDomainView,
};

verus! {

/// The identifier in the required cell at position `i`.
pub open spec fn required_sctid(cells: Seq<Seq<char>>, i: int, name: Seq<char>) -> Result<
    SctId,
    Rf2ErrorView,
> {
    match required(cells, i, name) {
        Err(e) => Err(e),
        Ok(c) => spec_sctid(c),
    }
}

/// The effective time in the required cell at position `i`.
pub open spec fn required_effective_time(cells: Seq<Seq<char>>, i: int, name: Seq<char>) -> Result<
    u32,
    Rf2ErrorView,
> {
    match required(cells, i, name) {
        Err(e) => Err(e),
        Ok(c) => spec_effective_time(c),
    }
}

/// The boolean in the required cell at position `i`.
pub open spec fn required_boolean(cells: Seq<Seq<char>>, i: int, name: Seq<char>) -> Result<
    bool,
    Rf2ErrorView,
> {
    match required(cells, i, name) {
        Err(e) => Err(e),
        Ok(c) => spec_boolean(c),
    }
}

/// The text of the required cell at position `i`, where it is not empty.
pub open spec fn required_optional(cells: Seq<Seq<char>>, i: int, name: Seq<char>) -> Result<
    Option<Seq<char>>,
    Rf2ErrorView,
> {
    match required(cells, i, name) {
        Err(e) => Err(e),
        Ok(c) => Ok(spec_optional_text(c)),
    }
}

/// A text, unless it is empty.
pub open spec fn spec_optional_text(c: Seq<char>) -> Option<Seq<char>> {
    if c.len() == 0 {
        None
    } else {
        Some(c)
    }
}

/// What a cell denotes as a parent domain: none where it is empty, else an
/// identifier that a term in pipes may follow.
pub open spec fn spec_parent(c: Seq<char>) -> Result<Option<SctId>, Rf2ErrorView> {
    if c.len() == 0 {
        Ok(None)
    } else {
        match spec_sctid_with_term(c) {
            Ok(id) => Ok(Some(id)),
            Err(e) => Err(e),
        }
    }
}

/// The parent domain in the required cell at position `i`.
pub open spec fn required_parent(cells: Seq<Seq<char>>, i: int, name: Seq<char>) -> Result<
    Option<SctId>,
    Rf2ErrorView,
> {
    match required(cells, i, name) {
        Err(e) => Err(e),
        Ok(c) => spec_parent(c),
    }
}

/// What a cell denotes as a cardinality; a cell that is none is reported as
/// an invalid integer.
pub open spec fn spec_cardinality(c: Seq<char>) -> Result<Cardinality, Rf2ErrorView> {
    match Cardinality::spec_parse(c) {
        Ok(k) => Ok(k),
        Err(_) => Err(Rf2ErrorView::InvalidInteger { value: c }),
    }
}

/// The cardinality in the required cell at position `i`.
pub open spec fn required_cardinality(cells: Seq<Seq<char>>, i: int, name: Seq<char>) -> Result<
    Cardinality,
    Rf2ErrorView,
> {
    match required(cells, i, name) {
        Err(e) => Err(e),
        Ok(c) => spec_cardinality(c),
    }
}

/// A text, unless it is empty.
pub fn optional_text(c: &str) -> (r: Option<String>)
    ensures
        crate::mrcm::opt_text(r) == spec_optional_text(c@),
{
    if c.is_empty() {
        None
    } else {
        Some(c.to_owned())
    }
}

/// Reads a parent domain cell.
pub fn parent_of(c: &str) -> (r: Rf2Result<Option<SctId>>)
    ensures
        plain(r) == spec_parent(c@),
{
    if c.is_empty() {
        Ok(None)
    } else {
        match sctid_with_term(c) {
            Ok(id) => Ok(Some(id)),
            Err(e) => Err(e),
        }
    }
}

/// Reads a cardinality cell.
pub fn cardinality_of(c: &str) -> (r: Rf2Result<Cardinality>)
    ensures
        plain(r) == spec_cardinality(c@),
{
    match Cardinality::parse(c) {
        Ok(k) => Ok(k),
        Err(_) => Err(Rf2Error::InvalidInteger { value: c.to_owned() }),
    }
}

/// The cell of an optional text: the text, or nothing.
pub open spec fn optional_cell(o: Option<Seq<char>>) -> Seq<char> {
    match o {
        Some(s) => s,
        None => Seq::empty(),
    }
}

/// Whether an optional text can be written so that it reads back as
/// itself: it is not a text without characters, which reads as none.
pub open spec fn optional_writable(o: Option<Seq<char>>) -> bool {
    o matches Some(s) ==> s.len() > 0
}

/// An optional text is written as the cell that it was read from.
pub proof fn lemma_optional_of_text(c: Seq<char>)
    ensures
        optional_cell(spec_optional_text(c)) == c,
{
    if c.len() == 0 {
        assert(c =~= Seq::<char>::empty());
    }
}

/// The cell of a parent domain: its identifier, or nothing.
pub open spec fn parent_text(o: Option<SctId>) -> Seq<char> {
    match o {
        Some(id) => sctid_text(id),
        None => Seq::empty(),
    }
}

/// Whether a parent domain cell is in its canonical writing: empty, or a
/// canonical number without a term behind it.
pub open spec fn canonical_parent(c: Seq<char>) -> bool {
    c.len() == 0 || canonical_digits(c)
}

/// The cell of a parent domain reads as the parent domain.
pub proof fn lemma_parent_text(o: Option<SctId>)
    ensures
        spec_parent(parent_text(o)) == Ok::<Option<SctId>, Rf2ErrorView>(o),
{
    match o {
        Some(id) => {
            let s = sctid_text(id);
            lemma_decimal_digits(id as nat);
            assert forall|i: int| 0 <= i < s.len() implies !crate::text::is_space(
                #[trigger] s[i],
            ) by {
                assert(crate::text::is_digit(s[i]));
            }
            crate::text::lemma_first_word_identity(s);
        },
        None => {},
    }
}

/// A parent domain that was read from a canonical cell is written as that
/// cell.
pub proof fn lemma_parent_of_text(c: Seq<char>)
    requires
        canonical_parent(c),
        spec_parent(c) is Ok,
    ensures
        parent_text(spec_parent(c)->Ok_0) == c,
{
    if c.len() > 0 {
        assert forall|i: int| 0 <= i < c.len() implies !crate::text::is_space(#[trigger] c[i]) by {
            assert(crate::text::is_digit(c[i]));
        }
        crate::text::lemma_first_word_identity(c);
        assert(c[0] != '+') by {
            assert(crate::text::is_digit(c[0]));
        }
        lemma_canonical_digits(c);
    } else {
        assert(parent_text(None) =~= c);
    }
}

/// A cardinality that was read from a canonical cell is written as that
/// cell.
pub proof fn lemma_cardinality_cell_of_text(c: Seq<char>)
    requires
        canonical_cardinality(c),
        spec_cardinality(c) is Ok,
    ensures
        spec_cardinality(c)->Ok_0.spec_text() == c,
{
    lemma_cardinality_of_text(c);
}

/// Writes the cell of an optional text.
pub fn write_optional(o: &Option<String>) -> (r: String)
    ensures
        r@ == optional_cell(crate::mrcm::opt_text(*o)),
{
    match o {
        Some(s) => s.clone(),
        None => String::new(),
    }
}

/// Writes the cell of a parent domain.
pub fn write_parent(o: Option<SctId>) -> (r: String)
    ensures
        r@ == parent_text(o),
{
    match o {
        Some(id) => write_sctid(id),
        None => String::new(),
    }
}

impl Rf2Record for MrcmDomain {
    open spec fn spec_columns() -> Seq<Seq<char>> {
        seq![
            "id"@,
            "effectiveTime"@,
            "active"@,
            "moduleId"@,
            "refsetId"@,
            "referencedComponentId"@,
            "domainConstraint"@,
            "parentDomain"@,
            "proximalPrimitiveConstraint"@,
            "proximalPrimitiveRefinement"@,
            "domainTemplateForPrecoordination"@,
            "domainTemplateForPostcoordination"@,
            "guideURL"@,
        ]
    }

    open spec fn decode(cells: Seq<Seq<char>>) -> Result<MrcmDomainView, Rf2ErrorView> {
        let id = required(cells, 0, "id"@);
        let effective_time = required_effective_time(cells, 1, "effectiveTime"@);
        let active = required_boolean(cells, 2, "active"@);
        let module_id = required_sctid(cells, 3, "moduleId"@);
        let refset_id = required_sctid(cells, 4, "refsetId"@);
        let referenced_component_id = required_sctid(cells, 5, "referencedComponentId"@);
        let domain_constraint = required(cells, 6, "domainConstraint"@);
        let parent_domain = required_parent(cells, 7, "parentDomain"@);
        let proximal_primitive_constraint = required(cells, 8, "proximalPrimitiveConstraint"@);
        let proximal_primitive_refinement = required_optional(cells, 9, "proximalPrimitiveRefinement"@);
        let domain_template_for_precoordination = required(cells, 10, "domainTemplateForPrecoordination"@);
        let domain_template_for_postcoordination = required(cells, 11, "domainTemplateForPostcoordination"@);
        let guide_url = required_optional(cells, 12, "guideURL"@);
        if id is Err {
            Err(id->Err_0)
        } else if effective_time is Err {
            Err(effective_time->Err_0)
        } else if active is Err {
            Err(active->Err_0)
        } else if module_id is Err {
            Err(module_id->Err_0)
        } else if refset_id is Err {
            Err(refset_id->Err_0)
        } else if referenced_component_id is Err {
            Err(referenced_component_id->Err_0)
        } else if domain_constraint is Err {
            Err(domain_constraint->Err_0)
        } else if parent_domain is Err {
            Err(parent_domain->Err_0)
        } else if proximal_primitive_constraint is Err {
            Err(proximal_primitive_constraint->Err_0)
        } else if proximal_primitive_refinement is Err {
            Err(proximal_primitive_refinement->Err_0)
        } else if domain_template_for_precoordination is Err {
            Err(domain_template_for_precoordination->Err_0)
        } else if domain_template_for_postcoordination is Err {
            Err(domain_template_for_postcoordination->Err_0)
        } else if guide_url is Err {
            Err(guide_url->Err_0)
        } else {
            Ok(
                MrcmDomainView {
                    id: id->Ok_0,
                    effective_time: effective_time->Ok_0,
                    active: active->Ok_0,
                    module_id: module_id->Ok_0,
                    refset_id: refset_id->Ok_0,
                    referenced_component_id: referenced_component_id->Ok_0,
                    domain_constraint: domain_constraint->Ok_0,
                    parent_domain: parent_domain->Ok_0,
                    proximal_primitive_constraint: proximal_primitive_constraint->Ok_0,
                    proximal_primitive_refinement: proximal_primitive_refinement->Ok_0,
                    domain_template_for_precoordination: domain_template_for_precoordination->Ok_0,
                    domain_template_for_postcoordination: domain_template_for_postcoordination->Ok_0,
                    guide_url: guide_url->Ok_0,
                },
            )
        }
    }

    open spec fn is_active(v: MrcmDomainView) -> bool {
        v.active
    }

    open spec fn encode(v: MrcmDomainView) -> Seq<Seq<char>> {
        seq![
            v.id,
            effective_time_text(v.effective_time),
            boolean_text(v.active),
            sctid_text(v.module_id),
            sctid_text(v.refset_id),
            sctid_text(v.referenced_component_id),
            v.domain_constraint,
            parent_text(v.parent_domain),
            v.proximal_primitive_constraint,
            optional_cell(v.proximal_primitive_refinement),
            v.domain_template_for_precoordination,
            v.domain_template_for_postcoordination,
            optional_cell(v.guide_url),
        ]
    }

    open spec fn writable(v: MrcmDomainView) -> bool {
        &&& v.effective_time < 100_000_000
        &&& optional_writable(v.proximal_primitive_refinement)
        &&& optional_writable(v.guide_url)
    }

    open spec fn canonical(cells: Seq<Seq<char>>) -> bool {
        &&& cells.len() == 13
        &&& canonical_digits(cells[3])
        &&& canonical_digits(cells[4])
        &&& canonical_digits(cells[5])
        &&& canonical_parent(cells[7])
    }

    fn expected_columns() -> (r: Vec<&'static str>) {
        vec![
            "id",
            "effectiveTime",
            "active",
            "moduleId",
            "refsetId",
            "referencedComponentId",
            "domainConstraint",
            "parentDomain",
            "proximalPrimitiveConstraint",
            "proximalPrimitiveRefinement",
            "domainTemplateForPrecoordination",
            "domainTemplateForPostcoordination",
            "guideURL",
        ]
    }

    fn from_record(record: &Vec<String>) -> (r: Rf2Result<Self>) {
        let id = required_cell(record, 0, "id")?.to_owned();
        let effective_time = effective_time(required_cell(record, 1, "effectiveTime")?)?;
        let active = boolean(required_cell(record, 2, "active")?)?;
        let module_id = sctid(required_cell(record, 3, "moduleId")?)?;
        let refset_id = sctid(required_cell(record, 4, "refsetId")?)?;
        let referenced_component_id = sctid(required_cell(record, 5, "referencedComponentId")?)?;
        let domain_constraint = required_cell(record, 6, "domainConstraint")?.to_owned();
        let parent_domain = parent_of(required_cell(record, 7, "parentDomain")?)?;
        let proximal_primitive_constraint = required_cell(record, 8, "proximalPrimitiveConstraint")?.to_owned();
        let proximal_primitive_refinement = optional_text(required_cell(record, 9, "proximalPrimitiveRefinement")?);
        let domain_template_for_precoordination = required_cell(record, 10, "domainTemplateForPrecoordination")?.to_owned();
        let domain_template_for_postcoordination = required_cell(record, 11, "domainTemplateForPostcoordination")?.to_owned();
        let guide_url = optional_text(required_cell(record, 12, "guideURL")?);
        Ok(MrcmDomain {
            id,
            effective_time,
            active,
            module_id,
            refset_id,
            referenced_component_id,
            domain_constraint,
            parent_domain,
            proximal_primitive_constraint,
            proximal_primitive_refinement,
            domain_template_for_precoordination,
            domain_template_for_postcoordination,
            guide_url,
        })
    }

    fn passes_filter(&self, config: &Rf2Config) -> (r: bool) {
        !config.active_only || self.active
    }

    fn to_record(&self) -> (r: Vec<String>) {
        let r = vec![
            self.id.clone(),
            write_effective_time(self.effective_time),
            write_boolean(self.active),
            write_sctid(self.module_id),
            write_sctid(self.refset_id),
            write_sctid(self.referenced_component_id),
            self.domain_constraint.clone(),
            write_parent(self.parent_domain),
            self.proximal_primitive_constraint.clone(),
            write_optional(&self.proximal_primitive_refinement),
            self.domain_template_for_precoordination.clone(),
            self.domain_template_for_postcoordination.clone(),
            write_optional(&self.guide_url),
        ];
        assert(cells_of(r@) =~= Self::encode(self@));
        r
    }

    proof fn lemma_decode_encode(v: MrcmDomainView) {
        let cells = Self::encode(v);
        lemma_effective_time_text(v.effective_time);
        lemma_boolean_text(v.active, Seq::empty());
        lemma_sctid_text(v.module_id);
        lemma_sctid_text(v.refset_id);
        lemma_sctid_text(v.referenced_component_id);
        lemma_parent_text(v.parent_domain);
    }

    proof fn lemma_encode_decode(cells: Seq<Seq<char>>) {
        lemma_effective_time_of_text(cells[1]);
        lemma_boolean_text(true, cells[2]);
        lemma_sctid_of_text(cells[3]);
        lemma_sctid_of_text(cells[4]);
        lemma_sctid_of_text(cells[5]);
        lemma_parent_of_text(cells[7]);
        lemma_optional_of_text(cells[9]);
        lemma_optional_of_text(cells[12]);
        assert(Self::encode(Self::decode(cells)->Ok_0) =~= cells);
    }
}

impl Rf2Record for MrcmAttributeDomain {
    open spec fn spec_columns() -> Seq<Seq<char>> {
        seq![
            "id"@,
            "effectiveTime"@,
            "active"@,
            "moduleId"@,
            "refsetId"@,
            "referencedComponentId"@,
            "domainId"@,
            "grouped"@,
            "attributeCardinality"@,
            "attributeInGroupCardinality"@,
            "ruleStrengthId"@,
            "contentTypeId"@,
        ]
    }

    open spec fn decode(cells: Seq<Seq<char>>) -> Result<MrcmAttributeDomainView, Rf2ErrorView> {
        let id = required(cells, 0, "id"@);
        let effective_time = required_effective_time(cells, 1, "effectiveTime"@);
        let active = required_boolean(cells, 2, "active"@);
        let module_id = required_sctid(cells, 3, "moduleId"@);
        let refset_id = required_sctid(cells, 4, "refsetId"@);
        let referenced_component_id = required_sctid(cells, 5, "referencedComponentId"@);
        let domain_id = required_sctid(cells, 6, "domainId"@);
        let grouped = required_boolean(cells, 7, "grouped"@);
        let attribute_cardinality = required_cardinality(cells, 8, "attributeCardinality"@);
        let attribute_in_group_cardinality = required_cardinality(cells, 9, "attributeInGroupCardinality"@);
        let rule_strength_id = required_sctid(cells, 10, "ruleStrengthId"@);
        let content_type_id = required_sctid(cells, 11, "contentTypeId"@);
        if id is Err {
            Err(id->Err_0)
        } else if effective_time is Err {
            Err(effective_time->Err_0)
        } else if active is Err {
            Err(active->Err_0)
        } else if module_id is Err {
            Err(module_id->Err_0)
        } else if refset_id is Err {
            Err(refset_id->Err_0)
        } else if referenced_component_id is Err {
            Err(referenced_component_id->Err_0)
        } else if domain_id is Err {
            Err(domain_id->Err_0)
        } else if grouped is Err {
            Err(grouped->Err_0)
        } else if attribute_cardinality is Err {
            Err(attribute_cardinality->Err_0)
        } else if attribute_in_group_cardinality is Err {
            Err(attribute_in_group_cardinality->Err_0)
        } else if rule_strength_id is Err {
            Err(rule_strength_id->Err_0)
        } else if content_type_id is Err {
            Err(content_type_id->Err_0)
        } else {
            Ok(
                MrcmAttributeDomainView {
                    id: id->Ok_0,
                    effective_time: effective_time->Ok_0,
                    active: active->Ok_0,
                    module_id: module_id->Ok_0,
                    refset_id: refset_id->Ok_0,
                    referenced_component_id: referenced_component_id->Ok_0,
                    domain_id: domain_id->Ok_0,
                    grouped: grouped->Ok_0,
                    attribute_cardinality: attribute_cardinality->Ok_0,
                    attribute_in_group_cardinality: attribute_in_group_cardinality->Ok_0,
                    rule_strength_id: rule_strength_id->Ok_0,
                    content_type_id: content_type_id->Ok_0,
                },
            )
        }
    }

    open spec fn is_active(v: MrcmAttributeDomainView) -> bool {
        v.active
    }

    open spec fn encode(v: MrcmAttributeDomainView) -> Seq<Seq<char>> {
        seq![
            v.id,
            effective_time_text(v.effective_time),
            boolean_text(v.active),
            sctid_text(v.module_id),
            sctid_text(v.refset_id),
            sctid_text(v.referenced_component_id),
            sctid_text(v.domain_id),
            boolean_text(v.grouped),
            v.attribute_cardinality.spec_text(),
            v.attribute_in_group_cardinality.spec_text(),
            sctid_text(v.rule_strength_id),
            sctid_text(v.content_type_id),
        ]
    }

    open spec fn writable(v: MrcmAttributeDomainView) -> bool {
        &&& v.effective_time < 100_000_000
    }

    open spec fn canonical(cells: Seq<Seq<char>>) -> bool {
        &&& cells.len() == 12
        &&& canonical_digits(cells[3])
        &&& canonical_digits(cells[4])
        &&& canonical_digits(cells[5])
        &&& canonical_digits(cells[6])
        &&& canonical_cardinality(cells[8])
        &&& canonical_cardinality(cells[9])
        &&& canonical_digits(cells[10])
        &&& canonical_digits(cells[11])
    }

    fn expected_columns() -> (r: Vec<&'static str>) {
        vec![
            "id",
            "effectiveTime",
            "active",
            "moduleId",
            "refsetId",
            "referencedComponentId",
            "domainId",
            "grouped",
            "attributeCardinality",
            "attributeInGroupCardinality",
            "ruleStrengthId",
            "contentTypeId",
        ]
    }

    fn from_record(record: &Vec<String>) -> (r: Rf2Result<Self>) {
        let id = required_cell(record, 0, "id")?.to_owned();
        let effective_time = effective_time(required_cell(record, 1, "effectiveTime")?)?;
        let active = boolean(required_cell(record, 2, "active")?)?;
        let module_id = sctid(required_cell(record, 3, "moduleId")?)?;
        let refset_id = sctid(required_cell(record, 4, "refsetId")?)?;
        let referenced_component_id = sctid(required_cell(record, 5, "referencedComponentId")?)?;
        let domain_id = sctid(required_cell(record, 6, "domainId")?)?;
        let grouped = boolean(required_cell(record, 7, "grouped")?)?;
        let attribute_cardinality = cardinality_of(required_cell(record, 8, "attributeCardinality")?)?;
        let attribute_in_group_cardinality = cardinality_of(required_cell(record, 9, "attributeInGroupCardinality")?)?;
        let rule_strength_id = sctid(required_cell(record, 10, "ruleStrengthId")?)?;
        let content_type_id = sctid(required_cell(record, 11, "contentTypeId")?)?;
        Ok(MrcmAttributeDomain {
            id,
            effective_time,
            active,
            module_id,
            refset_id,
            referenced_component_id,
            domain_id,
            grouped,
            attribute_cardinality,
            attribute_in_group_cardinality,
            rule_strength_id,
            content_type_id,
        })
    }

    fn passes_filter(&self, config: &Rf2Config) -> (r: bool) {
        !config.active_only || self.active
    }

    fn to_record(&self) -> (r: Vec<String>) {
        let r = vec![
            self.id.clone(),
            write_effective_time(self.effective_time),
            write_boolean(self.active),
            write_sctid(self.module_id),
            write_sctid(self.refset_id),
            write_sctid(self.referenced_component_id),
            write_sctid(self.domain_id),
            write_boolean(self.grouped),
            self.attribute_cardinality.to_text(),
            self.attribute_in_group_cardinality.to_text(),
            write_sctid(self.rule_strength_id),
            write_sctid(self.content_type_id),
        ];
        assert(cells_of(r@) =~= Self::encode(self@));
        r
    }

    proof fn lemma_decode_encode(v: MrcmAttributeDomainView) {
        let cells = Self::encode(v);
        lemma_effective_time_text(v.effective_time);
        lemma_boolean_text(v.active, Seq::empty());
        lemma_sctid_text(v.module_id);
        lemma_sctid_text(v.refset_id);
        lemma_sctid_text(v.referenced_component_id);
        lemma_sctid_text(v.domain_id);
        lemma_boolean_text(v.grouped, Seq::empty());
        lemma_cardinality_text(v.attribute_cardinality);
        lemma_cardinality_text(v.attribute_in_group_cardinality);
        lemma_sctid_text(v.rule_strength_id);
        lemma_sctid_text(v.content_type_id);
    }

    proof fn lemma_encode_decode(cells: Seq<Seq<char>>) {
        lemma_effective_time_of_text(cells[1]);
        lemma_boolean_text(true, cells[2]);
        lemma_sctid_of_text(cells[3]);
        lemma_sctid_of_text(cells[4]);
        lemma_sctid_of_text(cells[5]);
        lemma_sctid_of_text(cells[6]);
        lemma_boolean_text(true, cells[7]);
        lemma_cardinality_cell_of_text(cells[8]);
        lemma_cardinality_cell_of_text(cells[9]);
        lemma_sctid_of_text(cells[10]);
        lemma_sctid_of_text(cells[11]);
        assert(Self::encode(Self::decode(cells)->Ok_0) =~= cells);
    }
}

impl Rf2Record for MrcmAttributeRange {
    open spec fn spec_columns() -> Seq<Seq<char>> {
        seq![
            "id"@,
            "effectiveTime"@,
            "active"@,
            "moduleId"@,
            "refsetId"@,
            "referencedComponentId"@,
            "rangeConstraint"@,
            "attributeRule"@,
            "ruleStrengthId"@,
            "contentTypeId"@,
        ]
    }

    open spec fn decode(cells: Seq<Seq<char>>) -> Result<MrcmAttributeRangeView, Rf2ErrorView> {
        let id = required(cells, 0, "id"@);
        let effective_time = required_effective_time(cells, 1, "effectiveTime"@);
        let active = required_boolean(cells, 2, "active"@);
        let module_id = required_sctid(cells, 3, "moduleId"@);
        let refset_id = required_sctid(cells, 4, "refsetId"@);
        let referenced_component_id = required_sctid(cells, 5, "referencedComponentId"@);
        let range_constraint = required(cells, 6, "rangeConstraint"@);
        let attribute_rule = required_optional(cells, 7, "attributeRule"@);
        let rule_strength_id = required_sctid(cells, 8, "ruleStrengthId"@);
        let content_type_id = required_sctid(cells, 9, "contentTypeId"@);
        if id is Err {
            Err(id->Err_0)
        } else if effective_time is Err {
            Err(effective_time->Err_0)
        } else if active is Err {
            Err(active->Err_0)
        } else if module_id is Err {
            Err(module_id->Err_0)
        } else if refset_id is Err {
            Err(refset_id->Err_0)
        } else if referenced_component_id is Err {
            Err(referenced_component_id->Err_0)
        } else if range_constraint is Err {
            Err(range_constraint->Err_0)
        } else if attribute_rule is Err {
            Err(attribute_rule->Err_0)
        } else if rule_strength_id is Err {
            Err(rule_strength_id->Err_0)
        } else if content_type_id is Err {
            Err(content_type_id->Err_0)
        } else {
            Ok(
                MrcmAttributeRangeView {
                    id: id->Ok_0,
                    effective_time: effective_time->Ok_0,
                    active: active->Ok_0,
                    module_id: module_id->Ok_0,
                    refset_id: refset_id->Ok_0,
                    referenced_component_id: referenced_component_id->Ok_0,
                    range_constraint: range_constraint->Ok_0,
                    attribute_rule: attribute_rule->Ok_0,
                    rule_strength_id: rule_strength_id->Ok_0,
                    content_type_id: content_type_id->Ok_0,
                },
            )
        }
    }

    open spec fn is_active(v: MrcmAttributeRangeView) -> bool {
        v.active
    }

    open spec fn encode(v: MrcmAttributeRangeView) -> Seq<Seq<char>> {
        seq![
            v.id,
            effective_time_text(v.effective_time),
            boolean_text(v.active),
            sctid_text(v.module_id),
            sctid_text(v.refset_id),
            sctid_text(v.referenced_component_id),
            v.range_constraint,
            optional_cell(v.attribute_rule),
            sctid_text(v.rule_strength_id),
            sctid_text(v.content_type_id),
        ]
    }

    open spec fn writable(v: MrcmAttributeRangeView) -> bool {
        &&& v.effective_time < 100_000_000
        &&& optional_writable(v.attribute_rule)
    }

    open spec fn canonical(cells: Seq<Seq<char>>) -> bool {
        &&& cells.len() == 10
        &&& canonical_digits(cells[3])
        &&& canonical_digits(cells[4])
        &&& canonical_digits(cells[5])
        &&& canonical_digits(cells[8])
        &&& canonical_digits(cells[9])
    }

    fn expected_columns() -> (r: Vec<&'static str>) {
        vec![
            "id",
            "effectiveTime",
            "active",
            "moduleId",
            "refsetId",
            "referencedComponentId",
            "rangeConstraint",
            "attributeRule",
            "ruleStrengthId",
            "contentTypeId",
        ]
    }

    fn from_record(record: &Vec<String>) -> (r: Rf2Result<Self>) {
        let id = required_cell(record, 0, "id")?.to_owned();
        let effective_time = effective_time(required_cell(record, 1, "effectiveTime")?)?;
        let active = boolean(required_cell(record, 2, "active")?)?;
        let module_id = sctid(required_cell(record, 3, "moduleId")?)?;
        let refset_id = sctid(required_cell(record, 4, "refsetId")?)?;
        let referenced_component_id = sctid(required_cell(record, 5, "referencedComponentId")?)?;
        let range_constraint = required_cell(record, 6, "rangeConstraint")?.to_owned();
        let attribute_rule = optional_text(required_cell(record, 7, "attributeRule")?);
        let rule_strength_id = sctid(required_cell(record, 8, "ruleStrengthId")?)?;
        let content_type_id = sctid(required_cell(record, 9, "contentTypeId")?)?;
        Ok(MrcmAttributeRange {
            id,
            effective_time,
            active,
            module_id,
            refset_id,
            referenced_component_id,
            range_constraint,
            attribute_rule,
            rule_strength_id,
            content_type_id,
        })
    }

    fn passes_filter(&self, config: &Rf2Config) -> (r: bool) {
        !config.active_only || self.active
    }

    fn to_record(&self) -> (r: Vec<String>) {
        let r = vec![
            self.id.clone(),
            write_effective_time(self.effective_time),
            write_boolean(self.active),
            write_sctid(self.module_id),
            write_sctid(self.refset_id),
            write_sctid(self.referenced_component_id),
            self.range_constraint.clone(),
            write_optional(&self.attribute_rule),
            write_sctid(self.rule_strength_id),
            write_sctid(self.content_type_id),
        ];
        assert(cells_of(r@) =~= Self::encode(self@));
        r
    }

    proof fn lemma_decode_encode(v: MrcmAttributeRangeView) {
        let cells = Self::encode(v);
        lemma_effective_time_text(v.effective_time);
        lemma_boolean_text(v.active, Seq::empty());
        lemma_sctid_text(v.module_id);
        lemma_sctid_text(v.refset_id);
        lemma_sctid_text(v.referenced_component_id);
        lemma_sctid_text(v.rule_strength_id);
        lemma_sctid_text(v.content_type_id);
    }

    proof fn lemma_encode_decode(cells: Seq<Seq<char>>) {
        lemma_effective_time_of_text(cells[1]);
        lemma_boolean_text(true, cells[2]);
        lemma_sctid_of_text(cells[3]);
        lemma_sctid_of_text(cells[4]);
        lemma_sctid_of_text(cells[5]);
        lemma_sctid_of_text(cells[8]);
        lemma_sctid_of_text(cells[9]);
        lemma_optional_of_text(cells[7]);
        assert(Self::encode(Self::decode(cells)->Ok_0) =~= cells);
    }
}

} // verus!
