//! Records of the machine readable concept model (MRCM): domains, the
//! attributes allowed in each domain, and the range of each attribute.

use vstd::prelude::*;
use vstd::string::StringExecFns;
use crate::sctid::SctId;
use crate::well_known::MANDATORY_CONCEPT_MODEL_RULE;
use crate::text::{chars_of, find_from, first_occurrence, occurs_at, slice_of};
use crate::number::{
    all_digits, canonical_digits, decimal_digits, parse_u32, parse_unsigned, push_decimal,
};

verus! {

/// Errors of reading a cardinality.
#[derive(Debug, Clone, PartialEq, Eq)]
pub enum CardinalityParseError {
    /// The text is not of the form `min..max`.
    InvalidFormat(String),
    /// The minimum is not a number.
    InvalidMin(String),
    /// The maximum is neither a number nor `*`.
    InvalidMax(String),
}

/// Mathematical model of a [`CardinalityParseError`].
pub enum CardinalityParseErrorView {
    InvalidFormat(Seq<char>),
    InvalidMin(Seq<char>),
    InvalidMax(Seq<char>),
}

impl View for CardinalityParseError {
    type V = CardinalityParseErrorView;

    open spec fn view(&self) -> CardinalityParseErrorView {
        match self {
            CardinalityParseError::InvalidFormat(s) => CardinalityParseErrorView::InvalidFormat(
                s@,
            ),
            CardinalityParseError::InvalidMin(s) => CardinalityParseErrorView::InvalidMin(s@),
            CardinalityParseError::InvalidMax(s) => CardinalityParseErrorView::InvalidMax(s@),
        }
    }
}

impl CardinalityParseErrorView {
    /// The error in words.
    pub open spec fn message(self) -> Seq<char> {
        match self {
            CardinalityParseErrorView::InvalidFormat(s) => "invalid cardinality format: '"@ + s
                + "' (expected min..max)"@,
            CardinalityParseErrorView::InvalidMin(s) => "invalid cardinality minimum: '"@ + s
                + "'"@,
            CardinalityParseErrorView::InvalidMax(s) => "invalid cardinality maximum: '"@ + s
                + "'"@,
        }
    }
}

impl CardinalityParseError {
    /// The error in words.
    pub fn message(&self) -> (r: String)
        ensures
            r@ == self@.message(),
    {
        let mut out = String::new();
        match self {
            CardinalityParseError::InvalidFormat(s) => {
                out.append("invalid cardinality format: '");
                out.append(s.as_str());
                out.append("' (expected min..max)");
            },
            CardinalityParseError::InvalidMin(s) => {
                out.append("invalid cardinality minimum: '");
                out.append(s.as_str());
                out.append("'");
            },
            CardinalityParseError::InvalidMax(s) => {
                out.append("invalid cardinality maximum: '");
                out.append(s.as_str());
                out.append("'");
            },
        }
        assert(out@ =~= self@.message());
        out
    }
}

/// A cardinality constraint such as `0..*`, `0..1`, `1..1` or `1..*`.
#[derive(Debug, Clone, Copy, PartialEq, Eq, Hash)]
pub struct Cardinality {
    /// Least number of occurrences.
    pub min: u32,
    /// Greatest number of occurrences; `None` is unbounded.
    pub max: Option<u32>,
}

/// The two dots between the bounds of a cardinality.
pub open spec fn dots() -> Seq<char> {
    seq!['.', '.']
}

impl Cardinality {
    /// What a text denotes as a cardinality: `min..max`, where `min` is a
    /// number and `max` a number or `*`, with exactly one `..` in it.
    pub open spec fn spec_parse(s: Seq<char>) -> Result<Cardinality, CardinalityParseErrorView> {
        let i = first_occurrence(s, dots(), 0);
        if i < 0 || first_occurrence(s, dots(), i + 2) >= 0 {
            Err(CardinalityParseErrorView::InvalidFormat(s))
        } else {
            let lo = s.subrange(0, i);
            let hi = s.subrange(i + 2, s.len() as int);
            match parse_unsigned(lo, u32::MAX as nat) {
                None => Err(CardinalityParseErrorView::InvalidMin(lo)),
                Some(min) => if hi == seq!['*'] {
                    Ok(Cardinality { min: min as u32, max: None })
                } else {
                    match parse_unsigned(hi, u32::MAX as nat) {
                        None => Err(CardinalityParseErrorView::InvalidMax(hi)),
                        Some(max) => Ok(Cardinality { min: min as u32, max: Some(max as u32) }),
                    }
                },
            }
        }
    }

    /// Whether a count meets the constraint.
    pub open spec fn spec_allows(&self, count: u32) -> bool {
        count >= self.min && match self.max {
            Some(max) => count <= max,
            None => true,
        }
    }

    /// The text of the constraint: `min..max`, with `*` for no maximum.
    pub open spec fn spec_text(&self) -> Seq<char> {
        decimal_digits(self.min as nat) + dots() + match self.max {
            Some(max) => decimal_digits(max as nat),
            None => seq!['*'],
        }
    }

    /// A cardinality with the given bounds.
    pub fn new(min: u32, max: Option<u32>) -> (r: Self)
        ensures
            r.min == min,
            r.max == max,
    {
        Cardinality { min, max }
    }

    /// `0..*`
    pub fn unbounded() -> (r: Self)
        ensures
            r.min == 0,
            r.max is None,
    {
        Cardinality { min: 0, max: None }
    }

    /// `0..1`
    pub fn optional() -> (r: Self)
        ensures
            r.min == 0,
            r.max == Some(1u32),
    {
        Cardinality { min: 0, max: Some(1) }
    }

    /// `1..1`
    pub fn required() -> (r: Self)
        ensures
            r.min == 1,
            r.max == Some(1u32),
    {
        Cardinality { min: 1, max: Some(1) }
    }

    /// `1..*`
    pub fn one_or_more() -> (r: Self)
        ensures
            r.min == 1,
            r.max is None,
    {
        Cardinality { min: 1, max: None }
    }

    /// Reads a cardinality from a text such as `0..*`, `0..1` or `1..1`.
    pub fn parse(s: &str) -> (r: Result<Self, CardinalityParseError>)
        ensures
            match r {
                Ok(c) => Self::spec_parse(s@) == Ok::<Cardinality, CardinalityParseErrorView>(c),
                Err(e) => Self::spec_parse(s@) == Err::<Cardinality, CardinalityParseErrorView>(
                    e@,
                ),
            },
    {
        let chars = chars_of(s);
        let sep: Vec<char> = vec!['.', '.'];
        assert(sep@ =~= dots());
        let i = match find_from(&chars, &sep, 0) {
            Some(i) => i,
            None => {
                return Err(CardinalityParseError::InvalidFormat(s.to_owned()));
            },
        };
        proof {
            crate::text::lemma_first_occurrence(s@, dots(), 0);
        }
        if find_from(&chars, &sep, i + 2).is_some() {
            return Err(CardinalityParseError::InvalidFormat(s.to_owned()));
        }
        let lo = slice_of(s, 0, i);
        let hi = slice_of(s, i + 2, chars.len());
        let min = match parse_u32(lo.as_str()) {
            Some(n) => n,
            None => {
                return Err(CardinalityParseError::InvalidMin(lo));
            },
        };
        let hi_chars = chars_of(hi.as_str());
        if hi_chars.len() == 1 && hi_chars[0] == '*' {
            assert(hi@ =~= seq!['*']);
            return Ok(Cardinality { min, max: None });
        }
        match parse_u32(hi.as_str()) {
            Some(n) => Ok(Cardinality { min, max: Some(n) }),
            None => Err(CardinalityParseError::InvalidMax(hi)),
        }
    }

    /// Whether a count meets the constraint.
    pub fn allows(&self, count: u32) -> (r: bool)
        ensures
            r == self.spec_allows(count),
    {
        count >= self.min && match self.max {
            Some(max) => count <= max,
            None => true,
        }
    }

    /// Whether there is no maximum.
    pub fn is_unbounded(&self) -> (r: bool)
        ensures
            r == (self.max is None),
    {
        self.max.is_none()
    }

    /// Whether at least one occurrence is needed.
    pub fn is_required(&self) -> (r: bool)
        ensures
            r == (self.min >= 1),
    {
        self.min >= 1
    }

    /// The text of the constraint, as `parse` reads it.
    pub fn to_text(&self) -> (r: String)
        ensures
            r@ == self.spec_text(),
    {
        let mut out = String::new();
        push_decimal(&mut out, self.min as u64);
        proof {
            reveal_strlit("..");
            reveal_strlit("*");
        }
        out.append("..");
        match self.max {
            Some(max) => {
                push_decimal(&mut out, max as u64);
            },
            None => {
                out.append("*");
            },
        }
        assert(out@ =~= self.spec_text());
        out
    }
}

/// A domain of the concept model: a domain concept with the constraints and
/// templates that describe it.
#[derive(Debug, Clone, PartialEq, Eq)]
pub struct MrcmDomain {
    /// Row identifier: a UUID, kept as text.
    pub id: String,
    /// Effective date as the number YYYYMMDD.
    pub effective_time: u32,
    /// Whether the row is active.
    pub active: bool,
    /// Module that holds the row.
    pub module_id: SctId,
    /// The reference set.
    pub refset_id: SctId,
    /// The domain concept.
    pub referenced_component_id: SctId,
    /// Expression constraint that defines the domain.
    pub domain_constraint: String,
    /// Parent domain, if any.
    pub parent_domain: Option<SctId>,
    /// Expression constraint on proximal primitive supertypes.
    pub proximal_primitive_constraint: String,
    /// Refinement on proximal primitives, if any.
    pub proximal_primitive_refinement: Option<String>,
    /// Template for precoordinated expressions.
    pub domain_template_for_precoordination: String,
    /// Template for postcoordinated expressions.
    pub domain_template_for_postcoordination: String,
    /// Address of the editorial guide, if any.
    pub guide_url: Option<String>,
}

/// The model of an optional text.
pub open spec fn opt_text(o: Option<String>) -> Option<Seq<char>> {
    match o {
        Some(s) => Some(s@),
        None => None,
    }
}

/// Mathematical model of a domain row.
pub struct MrcmDomainView {
    pub id: Seq<char>,
    pub effective_time: u32,
    pub active: bool,
    pub module_id: SctId,
    pub refset_id: SctId,
    pub referenced_component_id: SctId,
    pub domain_constraint: Seq<char>,
    pub parent_domain: Option<SctId>,
    pub proximal_primitive_constraint: Seq<char>,
    pub proximal_primitive_refinement: Option<Seq<char>>,
    pub domain_template_for_precoordination: Seq<char>,
    pub domain_template_for_postcoordination: Seq<char>,
    pub guide_url: Option<Seq<char>>,
}

impl View for MrcmDomain {
    type V = MrcmDomainView;

    open spec fn view(&self) -> MrcmDomainView {
        MrcmDomainView {
            id: self.id@,
            effective_time: self.effective_time,
            active: self.active,
            module_id: self.module_id,
            refset_id: self.refset_id,
            referenced_component_id: self.referenced_component_id,
            domain_constraint: self.domain_constraint@,
            parent_domain: self.parent_domain,
            proximal_primitive_constraint: self.proximal_primitive_constraint@,
            proximal_primitive_refinement: opt_text(self.proximal_primitive_refinement),
            domain_template_for_precoordination: self.domain_template_for_precoordination@,
            domain_template_for_postcoordination: self.domain_template_for_postcoordination@,
            guide_url: opt_text(self.guide_url),
        }
    }
}

/// An attribute domain row: an attribute that is allowed in a domain, with
/// its cardinalities and whether it must be grouped.
#[derive(Debug, Clone, PartialEq, Eq)]
pub struct MrcmAttributeDomain {
    /// Row identifier: a UUID, kept as text.
    pub id: String,
    /// Effective date as the number YYYYMMDD.
    pub effective_time: u32,
    /// Whether the row is active.
    pub active: bool,
    /// Module that holds the row.
    pub module_id: SctId,
    /// The reference set.
    pub refset_id: SctId,
    /// The attribute concept.
    pub referenced_component_id: SctId,
    /// The domain in which the attribute is allowed.
    pub domain_id: SctId,
    /// Whether the attribute must stand in a role group.
    pub grouped: bool,
    /// Cardinality of the attribute overall.
    pub attribute_cardinality: Cardinality,
    /// Cardinality of the attribute within one role group.
    pub attribute_in_group_cardinality: Cardinality,
    /// Rule strength: mandatory or optional.
    pub rule_strength_id: SctId,
    /// Content type to which the rule applies.
    pub content_type_id: SctId,
}

/// Mathematical model of an attribute domain row.
pub struct MrcmAttributeDomainView {
    pub id: Seq<char>,
    pub effective_time: u32,
    pub active: bool,
    pub module_id: SctId,
    pub refset_id: SctId,
    pub referenced_component_id: SctId,
    pub domain_id: SctId,
    pub grouped: bool,
    pub attribute_cardinality: Cardinality,
    pub attribute_in_group_cardinality: Cardinality,
    pub rule_strength_id: SctId,
    pub content_type_id: SctId,
}

impl View for MrcmAttributeDomain {
    type V = MrcmAttributeDomainView;

    open spec fn view(&self) -> MrcmAttributeDomainView {
        MrcmAttributeDomainView {
            id: self.id@,
            effective_time: self.effective_time,
            active: self.active,
            module_id: self.module_id,
            refset_id: self.refset_id,
            referenced_component_id: self.referenced_component_id,
            domain_id: self.domain_id,
            grouped: self.grouped,
            attribute_cardinality: self.attribute_cardinality,
            attribute_in_group_cardinality: self.attribute_in_group_cardinality,
            rule_strength_id: self.rule_strength_id,
            content_type_id: self.content_type_id,
        }
    }
}

impl MrcmAttributeDomain {
    /// Whether the rule is mandatory.
    pub fn is_mandatory(&self) -> (r: bool)
        ensures
            r == (self.rule_strength_id == MANDATORY_CONCEPT_MODEL_RULE),
    {
        self.rule_strength_id == MANDATORY_CONCEPT_MODEL_RULE
    }

    /// Whether the attribute must stand in a role group.
    pub fn is_grouped(&self) -> (r: bool)
        ensures
            r == self.grouped,
    {
        self.grouped
    }
}

/// An attribute range row: the expression constraint that the values of an
/// attribute must meet.
#[derive(Debug, Clone, PartialEq, Eq)]
pub struct MrcmAttributeRange {
    /// Row identifier: a UUID, kept as text.
    pub id: String,
    /// Effective date as the number YYYYMMDD.
    pub effective_time: u32,
    /// Whether the row is active.
    pub active: bool,
    /// Module that holds the row.
    pub module_id: SctId,
    /// The reference set.
    pub refset_id: SctId,
    /// The attribute concept.
    pub referenced_component_id: SctId,
    /// Expression constraint on the attribute's values.
    pub range_constraint: String,
    /// Further rule on the attribute, if any.
    pub attribute_rule: Option<String>,
    /// Rule strength: mandatory or optional.
    pub rule_strength_id: SctId,
    /// Content type to which the rule applies.
    pub content_type_id: SctId,
}

/// Mathematical model of an attribute range row.
pub struct MrcmAttributeRangeView {
    pub id: Seq<char>,
    pub effective_time: u32,
    pub active: bool,
    pub module_id: SctId,
    pub refset_id: SctId,
    pub referenced_component_id: SctId,
    pub range_constraint: Seq<char>,
    pub attribute_rule: Option<Seq<char>>,
    pub rule_strength_id: SctId,
    pub content_type_id: SctId,
}

impl View for MrcmAttributeRange {
    type V = MrcmAttributeRangeView;

    open spec fn view(&self) -> MrcmAttributeRangeView {
        MrcmAttributeRangeView {
            id: self.id@,
            effective_time: self.effective_time,
            active: self.active,
            module_id: self.module_id,
            refset_id: self.refset_id,
            referenced_component_id: self.referenced_component_id,
            range_constraint: self.range_constraint@,
            attribute_rule: opt_text(self.attribute_rule),
            rule_strength_id: self.rule_strength_id,
            content_type_id: self.content_type_id,
        }
    }
}

impl MrcmAttributeRange {
    /// Whether the rule is mandatory.
    pub fn is_mandatory(&self) -> (r: bool)
        ensures
            r == (self.rule_strength_id == MANDATORY_CONCEPT_MODEL_RULE),
    {
        self.rule_strength_id == MANDATORY_CONCEPT_MODEL_RULE
    }

    /// Whether the row carries a further attribute rule.
    pub fn has_attribute_rule(&self) -> (r: bool)
        ensures
            r == (self.attribute_rule is Some),
    {
        self.attribute_rule.is_some()
    }
}

/// Whether a text is a cardinality in its canonical writing: a canonical
/// number, two dots, and a canonical number or `*`.
pub open spec fn canonical_cardinality(s: Seq<char>) -> bool {
    let i = first_occurrence(s, dots(), 0);
    &&& 0 <= i
    &&& i + 2 <= s.len()
    &&& canonical_digits(s.subrange(0, i))
    &&& (s.subrange(i + 2, s.len() as int) == seq!['*'] || canonical_digits(
        s.subrange(i + 2, s.len() as int),
    ))
}

/// In a text made of digits, two dots and then digits or `*`, the two dots
/// are the only ones.
pub proof fn lemma_cardinality_parts(lo: Seq<char>, hi: Seq<char>)
    requires
        all_digits(lo),
        hi == seq!['*'] || all_digits(hi),
    ensures
        first_occurrence(lo + dots() + hi, dots(), 0) == lo.len(),
        first_occurrence(lo + dots() + hi, dots(), (lo.len() + 2) as int) == -1,
        (lo + dots() + hi).subrange(0, lo.len() as int) == lo,
        (lo + dots() + hi).subrange((lo.len() + 2) as int, (lo + dots() + hi).len() as int) == hi,
{
    let s = lo + dots() + hi;
    let n = lo.len() as int;
    crate::text::lemma_first_occurrence(s, dots(), 0);
    crate::text::lemma_first_occurrence(s, dots(), n + 2);
    assert(s.subrange(n, n + 2) =~= dots());
    assert(occurs_at(s, dots(), n));
    assert forall|i: int| 0 <= i < n implies !#[trigger] occurs_at(s, dots(), i) by {
        if occurs_at(s, dots(), i) {
            assert(s.subrange(i, i + 2)[0] == dots()[0]);
            assert(s[i] == lo[i]);
            assert(crate::text::is_digit(lo[i]));
        }
    }
    assert forall|i: int| n + 2 <= i implies !#[trigger] occurs_at(s, dots(), i) by {
        if occurs_at(s, dots(), i) {
            assert(s.subrange(i, i + 2)[0] == dots()[0]);
            assert(s[i] == hi[i - n - 2]);
            if hi == seq!['*'] {
                assert(hi[i - n - 2] == '*');
            } else {
                assert(crate::text::is_digit(hi[i - n - 2]));
            }
        }
    }
    assert(s.subrange(0, n) =~= lo);
    assert(s.subrange(n + 2, s.len() as int) =~= hi);
}

/// The text of a cardinality reads as the cardinality.
pub proof fn lemma_cardinality_text(c: Cardinality)
    ensures
        Cardinality::spec_parse(c.spec_text()) == Ok::<Cardinality, CardinalityParseErrorView>(c),
{
    let lo = decimal_digits(c.min as nat);
    let hi = match c.max {
        Some(max) => decimal_digits(max as nat),
        None => seq!['*'],
    };
    crate::number::lemma_decimal_digits(c.min as nat);
    match c.max {
        Some(max) => {
            crate::number::lemma_decimal_digits(max as nat);
            assert(hi != seq!['*']) by {
                if hi == seq!['*'] {
                    assert(crate::text::is_digit(hi[0]));
                    assert(seq!['*'][0] == '*');
                }
            }
        },
        None => {},
    }
    lemma_cardinality_parts(lo, hi);
    assert(c.spec_text() == lo + dots() + hi);
}

/// A cardinality that was read from a canonical text is written as that
/// text.
pub proof fn lemma_cardinality_of_text(s: Seq<char>)
    requires
        canonical_cardinality(s),
        Cardinality::spec_parse(s) is Ok,
    ensures
        Cardinality::spec_parse(s)->Ok_0.spec_text() == s,
{
    let i = first_occurrence(s, dots(), 0);
    let lo = s.subrange(0, i);
    let hi = s.subrange(i + 2, s.len() as int);
    crate::text::lemma_first_occurrence(s, dots(), 0);
    assert(s.subrange(i, i + 2) == dots());
    assert(s =~= lo + dots() + hi) by {
        assert forall|k: int| 0 <= k < s.len() implies s[k] == (lo + dots() + hi)[k] by {
            if i <= k < i + 2 {
                assert(s.subrange(i, i + 2)[k - i] == s[k]);
            }
        }
    }
    assert(lo[0] != '+') by {
        assert(crate::text::is_digit(lo[0]));
    }
    crate::number::lemma_canonical_digits(lo);
    if hi != seq!['*'] {
        assert(hi[0] != '+') by {
            assert(crate::text::is_digit(hi[0]));
        }
        crate::number::lemma_canonical_digits(hi);
    }
}

} // verus!
