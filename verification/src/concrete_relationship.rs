//! Concrete relationships: relationships whose destination is a literal
//! value (a string, an integer or a decimal) in place of a concept.

use vstd::prelude::*;
use vstd::string::StringExecFns;
use crate::sctid::SctId;
use crate::text::{
    chars_of, digit, is_digit, lemma_space_run_end, lemma_space_run_start, skip_spaces,
    skip_spaces_back, slice_of, trimmed,
};
use crate::number::{canonical_digits, parse_i64, parse_signed, push_signed, signed_digits};

verus! {

/// The end of the run of decimal digits that starts at `from`.
pub open spec fn digit_run_end(s: Seq<char>, from: int) -> int
    decreases s.len() - from,
{
    if 0 <= from < s.len() && is_digit(s[from]) {
        digit_run_end(s, from + 1)
    } else {
        from
    }
}

/// Whether a character is a plus or a minus sign.
pub open spec fn is_sign(c: char) -> bool {
    c == '+' || c == '-'
}

/// Whether a text is a decimal numeral with a decimal point: an optional
/// sign; digits, a point and digits, with at least one digit on one side of
/// the point; and optionally an exponent, which is `e` or `E`, an optional
/// sign and at least one digit.
pub open spec fn is_decimal_numeral(s: Seq<char>) -> bool {
    let a: int = if s.len() > 0 && is_sign(s[0]) {
        1
    } else {
        0
    };
    let b = digit_run_end(s, a);
    b < s.len() && s[b] == '.' && {
        let c = digit_run_end(s, b + 1);
        (b - a) + (c - (b + 1)) >= 1 && (c == s.len() || ((s[c] == 'e' || s[c] == 'E') && {
            let d: int = if c + 1 < s.len() && is_sign(s[c + 1]) {
                c + 2
            } else {
                c + 1
            };
            let e = digit_run_end(s, d);
            e > d && e == s.len()
        }))
    }
}

/// The bounds of `digit_run_end` and what lies between.
pub proof fn lemma_digit_run_end(s: Seq<char>, from: int)
    requires
        0 <= from <= s.len(),
    ensures
        from <= digit_run_end(s, from) <= s.len(),
        forall|k: int| from <= k < digit_run_end(s, from) ==> is_digit(#[trigger] s[k]),
    decreases s.len() - from,
{
    if from < s.len() && is_digit(s[from]) {
        lemma_digit_run_end(s, from + 1);
    }
}

/// The end of the run of decimal digits that starts at `from`.
fn skip_digits(chars: &Vec<char>, from: usize) -> (r: usize)
    requires
        from <= chars.len(),
    ensures
        r == digit_run_end(chars@, from as int),
        from <= r <= chars.len(),
{
    let mut i: usize = from;
    while i < chars.len() && digit(chars[i])
        invariant
            from <= i <= chars.len(),
            digit_run_end(chars@, from as int) == digit_run_end(chars@, i as int),
        decreases chars.len() - i,
    {
        i = i + 1;
    }
    i
}

/// Whether a text is a decimal numeral with a decimal point.
pub fn decimal_numeral(s: &str) -> (r: bool)
    ensures
        r == is_decimal_numeral(s@),
{
    let chars = chars_of(s);
    let n = chars.len();
    let a: usize = if n > 0 && (chars[0] == '+' || chars[0] == '-') {
        1
    } else {
        0
    };
    let b = skip_digits(&chars, a);
    if b >= n || chars[b] != '.' {
        return false;
    }
    let c = skip_digits(&chars, b + 1);
    if (b - a) + (c - (b + 1)) < 1 {
        return false;
    }
    if c == n {
        return true;
    }
    if chars[c] != 'e' && chars[c] != 'E' {
        return false;
    }
    let d: usize = if c + 1 < n && (chars[c + 1] == '+' || chars[c + 1] == '-') {
        c + 2
    } else {
        c + 1
    };
    let e = skip_digits(&chars, d);
    e > d && e == n
}

/// A literal value of a concrete relationship.
#[derive(Debug, Clone, PartialEq, Eq)]
pub enum ConcreteValue {
    /// A string, without the quotes that surround it in a release file.
    String(String),
    /// An integer.
    Integer(i64),
    /// A decimal, held as the numeral that stands behind the `#` in a release
    /// file.
    Decimal(String),
}

/// Mathematical model of a [`ConcreteValue`].
pub enum ConcreteValueView {
    String(Seq<char>),
    Integer(i64),
    Decimal(Seq<char>),
}

impl View for ConcreteValue {
    type V = ConcreteValueView;

    open spec fn view(&self) -> ConcreteValueView {
        match self {
            ConcreteValue::String(s) => ConcreteValueView::String(s@),
            ConcreteValue::Integer(i) => ConcreteValueView::Integer(*i),
            ConcreteValue::Decimal(d) => ConcreteValueView::Decimal(d@),
        }
    }
}

/// Whether a text holds a point.
pub open spec fn has_point(s: Seq<char>) -> bool {
    exists|i: int| 0 <= i < s.len() && s[i] == '.'
}

impl ConcreteValue {
    /// What a cell denotes as a concrete value, white space at its ends left
    /// out: text between double quotes is a string; `#` and a numeral with a
    /// point is a decimal; `#` and a numeral without one is an integer;
    /// anything else is no value.
    pub open spec fn spec_parse(cell: Seq<char>) -> Option<ConcreteValueView> {
        let s = trimmed(cell);
        if s.len() == 0 {
            None
        } else if s.len() >= 2 && s[0] == '"' && s.last() == '"' {
            Some(ConcreteValueView::String(s.subrange(1, s.len() - 1)))
        } else if s[0] == '#' {
            let num = s.skip(1);
            if has_point(num) {
                if is_decimal_numeral(num) {
                    Some(ConcreteValueView::Decimal(num))
                } else {
                    None
                }
            } else {
                match parse_signed(num) {
                    Some(i) => Some(ConcreteValueView::Integer(i as i64)),
                    None => None,
                }
            }
        } else {
            None
        }
    }

    /// The text of a value as a release file holds it.
    pub open spec fn spec_text(v: ConcreteValueView) -> Seq<char> {
        match v {
            ConcreteValueView::String(s) => seq!['"'] + s + seq!['"'],
            ConcreteValueView::Integer(i) => seq!['#'] + signed_digits(i as int),
            ConcreteValueView::Decimal(d) => seq!['#'] + d,
        }
    }

    /// The string, where the value is one.
    pub fn as_string(&self) -> (r: Option<&str>)
        ensures
            match r {
                Some(s) => self@ == ConcreteValueView::String(s@),
                None => !(self is String),
            },
    {
        match self {
            ConcreteValue::String(s) => Some(s.as_str()),
            _ => None,
        }
    }

    /// The integer, where the value is one.
    pub fn as_integer(&self) -> (r: Option<i64>)
        ensures
            match r {
                Some(i) => self@ == ConcreteValueView::Integer(i),
                None => !(self is Integer),
            },
    {
        match self {
            ConcreteValue::Integer(i) => Some(*i),
            _ => None,
        }
    }

    /// The numeral of the decimal, where the value is one.
    pub fn as_decimal_text(&self) -> (r: Option<&str>)
        ensures
            match r {
                Some(s) => self@ == ConcreteValueView::Decimal(s@),
                None => !(self is Decimal),
            },
    {
        match self {
            ConcreteValue::Decimal(d) => Some(d.as_str()),
            _ => None,
        }
    }

    /// Whether the value is a string.
    pub fn is_string(&self) -> (r: bool)
        ensures
            r == (self is String),
    {
        match self {
            ConcreteValue::String(_) => true,
            _ => false,
        }
    }

    /// Whether the value is an integer.
    pub fn is_integer(&self) -> (r: bool)
        ensures
            r == (self is Integer),
    {
        match self {
            ConcreteValue::Integer(_) => true,
            _ => false,
        }
    }

    /// Whether the value is a decimal.
    pub fn is_decimal(&self) -> (r: bool)
        ensures
            r == (self is Decimal),
    {
        match self {
            ConcreteValue::Decimal(_) => true,
            _ => false,
        }
    }

    /// The name of the kind of value: `string`, `integer` or `decimal`.
    pub fn kind_name(&self) -> (r: &'static str)
        ensures
            self is String ==> r@ == "string"@,
            self is Integer ==> r@ == "integer"@,
            self is Decimal ==> r@ == "decimal"@,
    {
        match self {
            ConcreteValue::String(_) => "string",
            ConcreteValue::Integer(_) => "integer",
            ConcreteValue::Decimal(_) => "decimal",
        }
    }

    /// Reads a concrete value from a cell of a release file.
    pub fn parse(s: &str) -> (r: Option<Self>)
        ensures
            match r {
                Some(v) => Self::spec_parse(s@) == Some(v@),
                None => Self::spec_parse(s@) is None,
            },
    {
        let chars = chars_of(s);
        let a = skip_spaces(&chars, 0);
        let b = skip_spaces_back(&chars, chars.len());
        proof {
            lemma_space_run_end(s@, 0);
            lemma_space_run_start(s@, s@.len() as int);
        }
        if a >= b {
            return None;
        }
        let ghost t = trimmed(s@);
        assert(t == s@.subrange(a as int, b as int));
        if b - a >= 2 && chars[a] == '"' && chars[b - 1] == '"' {
            let inner = slice_of(s, a + 1, b - 1);
            assert(inner@ =~= t.subrange(1, t.len() - 1));
            return Some(ConcreteValue::String(inner));
        }
        if chars[a] != '#' {
            return None;
        }
        let num = slice_of(s, a + 1, b);
        assert(num@ =~= t.skip(1));
        let mut point = false;
        let mut i: usize = a + 1;
        while i < b
            invariant
                a + 1 <= i <= b <= chars.len(),
                chars@ == s@,
                num@ == s@.subrange(a + 1, b as int),
                point <==> exists|k: int| 0 <= k < i - (a + 1) && num@[k] == '.',
            decreases b - i,
        {
            if chars[i] == '.' {
                assert(num@[i - (a + 1)] == '.');
                point = true;
            }
            i = i + 1;
        }
        if point {
            if decimal_numeral(num.as_str()) {
                Some(ConcreteValue::Decimal(num))
            } else {
                None
            }
        } else {
            match parse_i64(num.as_str()) {
                Some(v) => Some(ConcreteValue::Integer(v)),
                None => None,
            }
        }
    }

    /// The text of the value as a release file holds it.
    pub fn to_text(&self) -> (r: String)
        ensures
            r@ == Self::spec_text(self@),
    {
        proof {
            reveal_strlit("\"");
            reveal_strlit("#");
        }
        let mut out = String::new();
        match self {
            ConcreteValue::String(s) => {
                out.append("\"");
                out.append(s.as_str());
                out.append("\"");
            },
            ConcreteValue::Integer(i) => {
                out.append("#");
                push_signed(&mut out, *i);
            },
            ConcreteValue::Decimal(d) => {
                out.append("#");
                out.append(d.as_str());
            },
        }
        assert(out@ =~= Self::spec_text(self@));
        out
    }
}

/// A concrete relationship: one row of a concrete values file.
#[derive(Debug, Clone, PartialEq, Eq)]
pub struct Rf2ConcreteRelationship {
    /// Identifier of the relationship.
    pub id: SctId,
    /// Effective date as the number YYYYMMDD.
    pub effective_time: u32,
    /// Whether the relationship is active.
    pub active: bool,
    /// Module that holds the relationship.
    pub module_id: SctId,
    /// Source concept.
    pub source_id: SctId,
    /// The value.
    pub value: ConcreteValue,
    /// Role group; 0 for an ungrouped relationship.
    pub relationship_group: u16,
    /// Relationship type.
    pub type_id: SctId,
    /// Identifier of the characteristic type.
    pub characteristic_type_id: SctId,
    /// Identifier of the modifier.
    pub modifier_id: SctId,
}

/// Mathematical model of a concrete relationship.
pub struct ConcreteRelationshipView {
    pub id: SctId,
    pub effective_time: u32,
    pub active: bool,
    pub module_id: SctId,
    pub source_id: SctId,
    pub value: ConcreteValueView,
    pub relationship_group: u16,
    pub type_id: SctId,
    pub characteristic_type_id: SctId,
    pub modifier_id: SctId,
}

impl View for Rf2ConcreteRelationship {
    type V = ConcreteRelationshipView;

    open spec fn view(&self) -> ConcreteRelationshipView {
        ConcreteRelationshipView {
            id: self.id,
            effective_time: self.effective_time,
            active: self.active,
            module_id: self.module_id,
            source_id: self.source_id,
            value: self.value@,
            relationship_group: self.relationship_group,
            type_id: self.type_id,
            characteristic_type_id: self.characteristic_type_id,
            modifier_id: self.modifier_id,
        }
    }
}

impl Rf2ConcreteRelationship {
    /// Identifier of the inferred characteristic type.
    pub const INFERRED_CHARACTERISTIC_TYPE: SctId = 900000000000011006;

    /// Identifier of the stated characteristic type.
    pub const STATED_CHARACTERISTIC_TYPE: SctId = 900000000000010007;

    /// Whether the relationship is inferred.
    pub fn is_inferred(&self) -> (r: bool)
        ensures
            r == (self.characteristic_type_id == Self::INFERRED_CHARACTERISTIC_TYPE),
    {
        self.characteristic_type_id == Self::INFERRED_CHARACTERISTIC_TYPE
    }

    /// Whether the relationship is stated.
    pub fn is_stated(&self) -> (r: bool)
        ensures
            r == (self.characteristic_type_id == Self::STATED_CHARACTERISTIC_TYPE),
    {
        self.characteristic_type_id == Self::STATED_CHARACTERISTIC_TYPE
    }

    /// The name of the kind of the value.
    pub fn value_type(&self) -> (r: &'static str)
        ensures
            self.value is String ==> r@ == "string"@,
            self.value is Integer ==> r@ == "integer"@,
            self.value is Decimal ==> r@ == "decimal"@,
    {
        self.value.kind_name()
    }
}

/// Whether a value can be written so that it reads back as itself: a
/// decimal must hold a decimal numeral.
pub open spec fn value_writable(v: ConcreteValueView) -> bool {
    v matches ConcreteValueView::Decimal(d) ==> is_decimal_numeral(d)
}

/// Whether a text is a signed number in its one canonical writing: a
/// canonical number, or a minus sign and a canonical number other than `0`.
pub open spec fn canonical_signed(s: Seq<char>) -> bool {
    if s.len() > 0 && s[0] == '-' {
        canonical_digits(s.skip(1)) && s.skip(1) != seq!['0']
    } else {
        canonical_digits(s)
    }
}

/// Whether a cell holds a concrete value in its canonical writing: no
/// white space at its ends, and an integer as a canonical signed number.
pub open spec fn canonical_value(cell: Seq<char>) -> bool {
    &&& trimmed(cell) == cell
    &&& (cell.len() > 0 && cell[0] == '#' && !has_point(cell.skip(1)) ==> canonical_signed(
        cell.skip(1),
    ))
}

/// A decimal numeral holds a point, and does not end in white space.
pub proof fn lemma_numeral_shape(d: Seq<char>)
    requires
        is_decimal_numeral(d),
    ensures
        d.len() > 0,
        has_point(d),
        !crate::text::is_space(d.last()),
{
    let a: int = if d.len() > 0 && is_sign(d[0]) {
        1
    } else {
        0
    };
    lemma_digit_run_end(d, a);
    let b = digit_run_end(d, a);
    assert(d[b] == '.');
    lemma_digit_run_end(d, b + 1);
    let c = digit_run_end(d, b + 1);
    if c == d.len() {
        if d.len() - 1 > b {
            assert(is_digit(d[d.len() - 1]));
        }
    } else {
        let dd: int = if c + 1 < d.len() && is_sign(d[c + 1]) {
            c + 2
        } else {
            c + 1
        };
        lemma_digit_run_end(d, dd);
        assert(is_digit(d[d.len() - 1]));
    }
}

/// The text of a signed number holds no point, and does not end in white
/// space.
pub proof fn lemma_signed_digits_shape(i: int)
    ensures
        signed_digits(i).len() > 0,
        !has_point(signed_digits(i)),
        !crate::text::is_space(signed_digits(i).last()),
{
    let s = signed_digits(i);
    if i < 0 {
        crate::number::lemma_decimal_digits((-i) as nat);
        let d = crate::number::decimal_digits((-i) as nat);
        assert(s.last() == d.last());
        assert(is_digit(d[d.len() - 1]));
        assert forall|k: int| 0 <= k < s.len() implies s[k] != '.' by {
            if k > 0 {
                assert(s[k] == d[k - 1]);
                assert(is_digit(d[k - 1]));
            }
        }
    } else {
        crate::number::lemma_decimal_digits(i as nat);
        assert(is_digit(s[s.len() - 1]));
        assert forall|k: int| 0 <= k < s.len() implies s[k] != '.' by {
            assert(is_digit(s[k]));
        }
    }
}

/// The text of a value that can be written reads as the value.
pub proof fn lemma_value_text(v: ConcreteValueView)
    requires
        value_writable(v),
    ensures
        ConcreteValue::spec_parse(ConcreteValue::spec_text(v)) == Some(v),
{
    let s = ConcreteValue::spec_text(v);
    match v {
        ConcreteValueView::String(t) => {
            assert(s[0] == '"' && s.last() == '"');
            crate::text::lemma_trimmed_identity(s);
            assert(s.subrange(1, s.len() - 1) =~= t);
        },
        ConcreteValueView::Integer(i) => {
            lemma_signed_digits_shape(i as int);
            assert(s[0] == '#');
            assert(s.last() == signed_digits(i as int).last());
            crate::text::lemma_trimmed_identity(s);
            assert(s.skip(1) =~= signed_digits(i as int));
            crate::number::lemma_parse_signed_digits(i as int);
        },
        ConcreteValueView::Decimal(d) => {
            lemma_numeral_shape(d);
            assert(s[0] == '#');
            assert(s.last() == d.last());
            crate::text::lemma_trimmed_identity(s);
            assert(s.skip(1) =~= d);
        },
    }
}

/// A canonical number other than `0` is one or more.
pub proof fn lemma_canonical_is_positive(s: Seq<char>)
    requires
        canonical_digits(s),
        s != seq!['0'],
    ensures
        crate::number::decimal_value(s) >= 1,
{
    if s.len() >= 2 {
        crate::number::lemma_canonical_is_large(s);
    } else {
        assert(s.drop_last() =~= Seq::<char>::empty());
        assert(crate::number::decimal_value(s.drop_last()) == 0);
        assert(is_digit(s[0]));
        if s[0] == '0' {
            assert(s =~= seq!['0']);
        }
        assert(s.last() == s[0]);
    }
}

/// A signed number that was read from a canonical signed number is written
/// as that number.
pub proof fn lemma_canonical_signed(s: Seq<char>)
    requires
        canonical_signed(s),
        parse_signed(s) is Some,
    ensures
        signed_digits(parse_signed(s)->0) == s,
{
    if s.len() > 0 && s[0] == '-' {
        let d = s.skip(1);
        lemma_canonical_is_positive(d);
        crate::number::lemma_canonical_digits(d);
        assert(seq!['-'] + d =~= s);
    } else {
        assert(is_digit(s[0]));
        crate::number::lemma_canonical_digits(s);
    }
}

/// A value that was read from a canonical cell is written as that cell.
pub proof fn lemma_value_of_text(cell: Seq<char>)
    requires
        canonical_value(cell),
        ConcreteValue::spec_parse(cell) is Some,
    ensures
        ConcreteValue::spec_text(ConcreteValue::spec_parse(cell)->0) == cell,
{
    let s = cell;
    if s.len() >= 2 && s[0] == '"' && s.last() == '"' {
        assert(seq!['"'] + s.subrange(1, s.len() - 1) + seq!['"'] =~= s);
    } else {
        let num = s.skip(1);
        assert(seq!['#'] + num =~= s);
        if !has_point(num) {
            lemma_canonical_signed(num);
        }
    }
}

} // verus!
