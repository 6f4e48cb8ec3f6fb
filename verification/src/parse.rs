//! Decoders of single cells: identifier, date, boolean and integer.

use vstd::prelude::*;
use crate::sctid::SctId;
use crate::types::{plain, Rf2Error, Rf2ErrorView, Rf2Result};
use crate::text::{chars_of, digit, first_word, skip_spaces, skip_word, slice_of};
use crate::number::{
    all_digits, canonical_digits, decimal_digits, decimal_text, decimal_value,
    lemma_canonical_digits, lemma_decimal_digits, lemma_padded, lemma_padded_value, padded,
    parse_u16, parse_u64, parse_unsigned, power_of_ten, push_padded,
};

verus! {

/// What a cell denotes as an identifier: an unsigned 64-bit decimal number.
pub open spec fn spec_sctid(v: Seq<char>) -> Result<SctId, Rf2ErrorView> {
    match parse_unsigned(v, u64::MAX as nat) {
        Some(n) => Ok(n as u64),
        None => Err(Rf2ErrorView::InvalidSctId { value: v }),
    }
}

/// What a cell denotes as an identifier that a term in pipes may follow, as
/// in `71388002 |Procedure (procedure)|`: the identifier is the first run of
/// characters that holds no white space.
pub open spec fn spec_sctid_with_term(v: Seq<char>) -> Result<SctId, Rf2ErrorView> {
    match parse_unsigned(first_word(v), u64::MAX as nat) {
        Some(n) => Ok(n as u64),
        None => Err(Rf2ErrorView::InvalidSctId { value: v }),
    }
}

/// What a cell denotes as a boolean: `0` is false, `1` is true.
pub open spec fn spec_boolean(v: Seq<char>) -> Result<bool, Rf2ErrorView> {
    if v == seq!['0'] {
        Ok(false)
    } else if v == seq!['1'] {
        Ok(true)
    } else {
        Err(Rf2ErrorView::InvalidBoolean { value: v })
    }
}

/// What a cell denotes as an effective time: exactly eight digits, read as
/// the number YYYYMMDD.
pub open spec fn spec_effective_time(v: Seq<char>) -> Result<u32, Rf2ErrorView> {
    if v.len() == 8 && all_digits(v) {
        Ok(decimal_value(v) as u32)
    } else {
        Err(Rf2ErrorView::InvalidDate { value: v })
    }
}

/// What a cell denotes as a role group number: an unsigned 16-bit decimal
/// number.
pub open spec fn spec_integer(v: Seq<char>) -> Result<u16, Rf2ErrorView> {
    match parse_unsigned(v, u16::MAX as nat) {
        Some(n) => Ok(n as u16),
        None => Err(Rf2ErrorView::InvalidInteger { value: v }),
    }
}

/// Reads an identifier.
pub fn sctid(value: &str) -> (r: Rf2Result<SctId>)
    ensures
        plain(r) == spec_sctid(value@),
{
    match parse_u64(value) {
        Some(n) => Ok(n),
        None => Err(Rf2Error::InvalidSctId { value: value.to_owned() }),
    }
}

/// Reads an identifier that a term in pipes may follow.
pub fn sctid_with_term(value: &str) -> (r: Rf2Result<SctId>)
    ensures
        plain(r) == spec_sctid_with_term(value@),
{
    let chars = chars_of(value);
    let a = skip_spaces(&chars, 0);
    let b = skip_word(&chars, a);
    let word = slice_of(value, a, b);
    match parse_u64(word.as_str()) {
        Some(n) => Ok(n),
        None => Err(Rf2Error::InvalidSctId { value: value.to_owned() }),
    }
}

/// Reads a boolean from `0` or `1`.
pub fn boolean(value: &str) -> (r: Rf2Result<bool>)
    ensures
        plain(r) == spec_boolean(value@),
{
    let chars = chars_of(value);
    if chars.len() == 1 && chars[0] == '0' {
        assert(value@ =~= seq!['0']);
        Ok(false)
    } else if chars.len() == 1 && chars[0] == '1' {
        assert(value@ =~= seq!['1']);
        Ok(true)
    } else {
        assert(value@ != seq!['0'] && value@ != seq!['1']) by {
            if value@ == seq!['0'] || value@ == seq!['1'] {
                assert(value@.len() == 1);
                assert(seq!['0'][0] == '0');
                assert(seq!['1'][0] == '1');
            }
        }
        Err(Rf2Error::InvalidBoolean { value: value.to_owned() })
    }
}

/// Reads an effective time of eight digits as the number YYYYMMDD.
pub fn effective_time(value: &str) -> (r: Rf2Result<u32>)
    ensures
        plain(r) == spec_effective_time(value@),
{
    let chars = chars_of(value);
    if chars.len() != 8 {
        return Err(Rf2Error::InvalidDate { value: value.to_owned() });
    }
    let mut acc: u32 = 0;
    let mut i: usize = 0;
    while i < 8
        invariant
            i <= 8,
            chars.len() == 8,
            chars@ == value@,
            all_digits(value@.take(i as int)),
            acc == decimal_value(value@.take(i as int)),
            acc < power_of_ten(i as nat),
        decreases 8 - i,
    {
        let c = chars[i];
        if !digit(c) {
            return Err(Rf2Error::InvalidDate { value: value.to_owned() });
        }
        proof {
            assert(value@.take(i + 1).drop_last() =~= value@.take(i as int));
            assert(value@.take(i + 1).last() == c);
            assert(power_of_ten(8) == 100_000_000) by {
                reveal_with_fuel(power_of_ten, 9);
            }
            assert(power_of_ten(i as nat) <= power_of_ten(7)) by {
                reveal_with_fuel(power_of_ten, 9);
            }
            assert(power_of_ten(7) == 10_000_000) by {
                reveal_with_fuel(power_of_ten, 9);
            }
        }
        acc = acc * 10 + (c as u32 - '0' as u32);
        i = i + 1;
        assert(all_digits(value@.take(i as int))) by {
            assert forall|k: int| 0 <= k < i implies crate::text::is_digit(
                #[trigger] value@.take(i as int)[k],
            ) by {
                if k < i - 1 {
                    assert(value@.take(i - 1)[k] == value@[k]);
                }
            }
        }
    }
    assert(value@.take(8) =~= value@);
    Ok(acc)
}

/// Reads a role group number.
pub fn integer(value: &str) -> (r: Rf2Result<u16>)
    ensures
        plain(r) == spec_integer(value@),
{
    match parse_u16(value) {
        Some(n) => Ok(n),
        None => Err(Rf2Error::InvalidInteger { value: value.to_owned() }),
    }
}

/// The text of an identifier: its digits.
pub open spec fn sctid_text(id: SctId) -> Seq<char> {
    decimal_digits(id as nat)
}

/// The text of a boolean: `1` for true, `0` for false.
pub open spec fn boolean_text(b: bool) -> Seq<char> {
    if b {
        seq!['1']
    } else {
        seq!['0']
    }
}

/// The text of an effective time: its eight digits.
pub open spec fn effective_time_text(t: u32) -> Seq<char> {
    padded(t as nat, 8)
}

/// The text of a role group number: its digits.
pub open spec fn integer_text(n: u16) -> Seq<char> {
    decimal_digits(n as nat)
}

/// The text of an identifier reads as the identifier.
pub proof fn lemma_sctid_text(id: SctId)
    ensures
        spec_sctid(sctid_text(id)) == Ok::<SctId, Rf2ErrorView>(id),
{
    lemma_decimal_digits(id as nat);
}

/// An identifier that was read from a canonical number is written as that
/// number.
pub proof fn lemma_sctid_of_text(s: Seq<char>)
    requires
        canonical_digits(s),
        spec_sctid(s) is Ok,
    ensures
        sctid_text(spec_sctid(s)->Ok_0) == s,
{
    assert(s[0] != '+') by {
        assert(crate::text::is_digit(s[0]));
    }
    lemma_canonical_digits(s);
}

/// The text of a boolean reads as the boolean, and a boolean is written as
/// the text that it was read from.
pub proof fn lemma_boolean_text(b: bool, s: Seq<char>)
    ensures
        spec_boolean(boolean_text(b)) == Ok::<bool, Rf2ErrorView>(b),
        spec_boolean(s) is Ok ==> boolean_text(spec_boolean(s)->Ok_0) == s,
{
    assert(seq!['1'] != seq!['0']) by {
        assert(seq!['1'][0] != seq!['0'][0]);
    }
}

/// The text of an effective time below one hundred million reads as the
/// effective time.
pub proof fn lemma_effective_time_text(t: u32)
    requires
        t < 100_000_000,
    ensures
        spec_effective_time(effective_time_text(t)) == Ok::<u32, Rf2ErrorView>(t),
{
    lemma_padded(t as nat, 8);
    assert(power_of_ten(8) == 100_000_000) by {
        reveal_with_fuel(power_of_ten, 9);
    }
}

/// An effective time is written as the text that it was read from, and is
/// below one hundred million.
pub proof fn lemma_effective_time_of_text(s: Seq<char>)
    requires
        spec_effective_time(s) is Ok,
    ensures
        effective_time_text(spec_effective_time(s)->Ok_0) == s,
        spec_effective_time(s)->Ok_0 < 100_000_000,
{
    lemma_padded_value(s);
    assert(power_of_ten(8) == 100_000_000) by {
        reveal_with_fuel(power_of_ten, 9);
    }
}

/// The text of a role group number reads as the number.
pub proof fn lemma_integer_text(n: u16)
    ensures
        spec_integer(integer_text(n)) == Ok::<u16, Rf2ErrorView>(n),
{
    lemma_decimal_digits(n as nat);
}

/// A role group number that was read from a canonical number is written as
/// that number.
pub proof fn lemma_integer_of_text(s: Seq<char>)
    requires
        canonical_digits(s),
        spec_integer(s) is Ok,
    ensures
        integer_text(spec_integer(s)->Ok_0) == s,
{
    assert(s[0] != '+') by {
        assert(crate::text::is_digit(s[0]));
    }
    lemma_canonical_digits(s);
}

/// Writes an identifier.
pub fn write_sctid(id: SctId) -> (r: String)
    ensures
        r@ == sctid_text(id),
{
    decimal_text(id)
}

/// Writes a boolean as `1` or `0`.
pub fn write_boolean(b: bool) -> (r: String)
    ensures
        r@ == boolean_text(b),
{
    proof {
        reveal_strlit("1");
        reveal_strlit("0");
    }
    let r = if b {
        "1".to_owned()
    } else {
        "0".to_owned()
    };
    assert(r@ =~= boolean_text(b));
    r
}

/// Writes an effective time in eight digits.
pub fn write_effective_time(t: u32) -> (r: String)
    ensures
        r@ == effective_time_text(t),
{
    let mut out = String::new();
    push_padded(&mut out, t as u64, 8);
    assert(out@ =~= effective_time_text(t));
    out
}

/// Writes a role group number.
pub fn write_integer(n: u16) -> (r: String)
    ensures
        r@ == integer_text(n),
{
    decimal_text(n as u64)
}

} // verus!
