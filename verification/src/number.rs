//! Decimal integers as text: reading an optionally signed run of ASCII digits
//! into a bounded integer, and writing one back.

use vstd::prelude::*;
use vstd::string::StringExecFns;
use crate::text::{chars_of, is_digit, digit};

verus! {

/// The value of one decimal digit.
pub open spec fn digit_of(c: char) -> nat {
    (c as u32 - '0' as u32) as nat
}

/// The number that a run of decimal digits denotes, most significant first.
pub open spec fn decimal_value(s: Seq<char>) -> nat
    decreases s.len(),
{
    if s.len() == 0 {
        0
    } else {
        decimal_value(s.drop_last()) * 10 + digit_of(s.last())
    }
}

/// Whether every character is a decimal digit.
pub open spec fn all_digits(s: Seq<char>) -> bool {
    forall|i: int| 0 <= i < s.len() ==> is_digit(#[trigger] s[i])
}

/// The text without one leading plus sign.
pub open spec fn without_plus(s: Seq<char>) -> Seq<char> {
    if s.len() > 0 && s[0] == '+' {
        s.skip(1)
    } else {
        s
    }
}

/// Reading of an unsigned decimal integer no larger than `max`: an optional
/// plus sign, then at least one digit and nothing else.
pub open spec fn parse_unsigned(s: Seq<char>, max: nat) -> Option<nat> {
    let d = without_plus(s);
    if d.len() > 0 && all_digits(d) && decimal_value(d) <= max {
        Some(decimal_value(d))
    } else {
        None
    }
}

/// Reading of a signed decimal integer in the 64-bit range: an optional plus
/// or minus sign, then at least one digit and nothing else.
pub open spec fn parse_signed(s: Seq<char>) -> Option<int> {
    if s.len() > 0 && s[0] == '-' {
        let d = s.skip(1);
        if d.len() > 0 && all_digits(d) && decimal_value(d) <= 0x8000_0000_0000_0000 {
            Some(-(decimal_value(d) as int))
        } else {
            None
        }
    } else {
        match parse_unsigned(s, 0x7fff_ffff_ffff_ffff) {
            Some(n) => Some(n as int),
            None => None,
        }
    }
}

/// A prefix of a run of digits never denotes more than the whole run.
pub proof fn lemma_decimal_value_prefix(s: Seq<char>, n: int)
    requires
        0 <= n <= s.len(),
    ensures
        decimal_value(s.take(n)) <= decimal_value(s),
    decreases s.len(),
{
    if n == s.len() {
        assert(s.take(n) =~= s);
    } else {
        lemma_decimal_value_prefix(s.drop_last(), n);
        assert(s.drop_last().take(n) =~= s.take(n));
    }
}

/// Reads the digits of `chars` from position `from` on as a number no larger
/// than `max`.
fn read_digits(chars: &Vec<char>, from: usize, max: u64) -> (r: Option<u64>)
    requires
        from <= chars.len(),
    ensures
        ({
            let d = chars@.skip(from as int);
            if d.len() > 0 && all_digits(d) && decimal_value(d) <= max {
                r == Some(decimal_value(d) as u64)
            } else {
                r is None
            }
        }),
{
    let ghost d = chars@.skip(from as int);
    let n = chars.len();
    if from == n {
        return None;
    }
    let mut acc: u64 = 0;
    let mut i: usize = from;
    while i < n
        invariant
            from <= i <= n,
            n == chars.len(),
            d == chars@.skip(from as int),
            all_digits(d.take(i - from)),
            acc == decimal_value(d.take(i - from)),
            acc <= max,
        decreases n - i,
    {
        let c = chars[i];
        assert(d[i - from] == c);
        if !digit(c) {
            return None;
        }
        let v: u64 = (c as u32 - '0' as u32) as u64;
        proof {
            assert(d.take(i - from + 1).drop_last() =~= d.take(i - from));
            assert(d.take(i - from + 1).last() == c);
            lemma_decimal_value_prefix(d, i - from + 1);
        }
        if v > max || acc > (max - v) / 10 {
            return None;
        }
        acc = acc * 10 + v;
        i = i + 1;
        assert(all_digits(d.take(i - from))) by {
            assert forall|k: int| 0 <= k < i - from implies is_digit(
                #[trigger] d.take(i - from)[k],
            ) by {
                if k < i - from - 1 {
                    assert(d.take(i - from - 1)[k] == d[k]);
                }
            }
        }
    }
    assert(d.take(n - from) =~= d);
    Some(acc)
}

/// Reads an unsigned decimal integer no larger than `max`.
pub fn parse_bounded(s: &str, max: u64) -> (r: Option<u64>)
    ensures
        match parse_unsigned(s@, max as nat) {
            Some(n) => r == Some(n as u64),
            None => r is None,
        },
{
    let chars = chars_of(s);
    if chars.len() > 0 && chars[0] == '+' {
        read_digits(&chars, 1, max)
    } else {
        assert(chars@.skip(0) =~= chars@);
        read_digits(&chars, 0, max)
    }
}

/// Reads an unsigned 64-bit decimal integer.
pub fn parse_u64(s: &str) -> (r: Option<u64>)
    ensures
        match parse_unsigned(s@, u64::MAX as nat) {
            Some(n) => r == Some(n as u64),
            None => r is None,
        },
{
    parse_bounded(s, u64::MAX)
}

/// Reads an unsigned 32-bit decimal integer.
pub fn parse_u32(s: &str) -> (r: Option<u32>)
    ensures
        match parse_unsigned(s@, u32::MAX as nat) {
            Some(n) => r == Some(n as u32),
            None => r is None,
        },
{
    match parse_bounded(s, 0xffff_ffff) {
        Some(n) => Some(n as u32),
        None => None,
    }
}

/// Reads an unsigned 16-bit decimal integer.
pub fn parse_u16(s: &str) -> (r: Option<u16>)
    ensures
        match parse_unsigned(s@, u16::MAX as nat) {
            Some(n) => r == Some(n as u16),
            None => r is None,
        },
{
    match parse_bounded(s, 0xffff) {
        Some(n) => Some(n as u16),
        None => None,
    }
}

/// Reads a signed 64-bit decimal integer.
pub fn parse_i64(s: &str) -> (r: Option<i64>)
    ensures
        match parse_signed(s@) {
            Some(n) => r == Some(n as i64),
            None => r is None,
        },
{
    let chars = chars_of(s);
    if chars.len() > 0 && chars[0] == '-' {
        match read_digits(&chars, 1, 0x8000_0000_0000_0000) {
            Some(m) => {
                if m == 0x8000_0000_0000_0000 {
                    Some(i64::MIN)
                } else {
                    Some(-(m as i64))
                }
            },
            None => None,
        }
    } else if chars.len() > 0 && chars[0] == '+' {
        match read_digits(&chars, 1, 0x7fff_ffff_ffff_ffff) {
            Some(m) => Some(m as i64),
            None => None,
        }
    } else {
        assert(chars@.skip(0) =~= chars@);
        match read_digits(&chars, 0, 0x7fff_ffff_ffff_ffff) {
            Some(m) => Some(m as i64),
            None => None,
        }
    }
}

} // verus!

verus! {

/// The character of one decimal digit.
pub open spec fn digit_char(d: nat) -> char {
    if d == 0 {
        '0'
    } else if d == 1 {
        '1'
    } else if d == 2 {
        '2'
    } else if d == 3 {
        '3'
    } else if d == 4 {
        '4'
    } else if d == 5 {
        '5'
    } else if d == 6 {
        '6'
    } else if d == 7 {
        '7'
    } else if d == 8 {
        '8'
    } else {
        '9'
    }
}

/// The decimal digits of a number, most significant first, without leading
/// zeros; `0` for zero.
pub open spec fn decimal_digits(n: nat) -> Seq<char>
    decreases n,
{
    if n < 10 {
        seq![digit_char(n)]
    } else {
        decimal_digits(n / 10).push(digit_char(n % 10))
    }
}

/// The decimal text of a signed number: a minus sign where it is negative,
/// then its digits.
pub open spec fn signed_digits(n: int) -> Seq<char> {
    if n < 0 {
        seq!['-'] + decimal_digits((-n) as nat)
    } else {
        decimal_digits(n as nat)
    }
}

/// The digits of a number are digits, at least one, and denote the number.
pub proof fn lemma_decimal_digits(n: nat)
    ensures
        decimal_digits(n).len() > 0,
        all_digits(decimal_digits(n)),
        decimal_value(decimal_digits(n)) == n,
        decimal_digits(n)[0] != '+',
        decimal_digits(n)[0] != '-',
    decreases n,
{
    if n < 10 {
        let s = decimal_digits(n);
        assert(s.drop_last() =~= Seq::<char>::empty());
        assert(decimal_value(s.drop_last()) == 0);
        assert(s.last() == digit_char(n));
    } else {
        lemma_decimal_digits(n / 10);
        let s = decimal_digits(n);
        assert(s.drop_last() =~= decimal_digits(n / 10));
        assert(s.last() == digit_char(n % 10));
    }
}

/// Reading the decimal text of a 64-bit signed number gives the number back.
pub proof fn lemma_parse_signed_digits(n: int)
    requires
        -0x8000_0000_0000_0000 <= n <= 0x7fff_ffff_ffff_ffff,
    ensures
        parse_signed(signed_digits(n)) == Some(n),
{
    if n < 0 {
        lemma_decimal_digits((-n) as nat);
        assert(signed_digits(n).skip(1) =~= decimal_digits((-n) as nat));
    } else {
        lemma_decimal_digits(n as nat);
    }
}

/// The text of one decimal digit.
fn digit_text(d: u64) -> (r: &'static str)
    requires
        d < 10,
    ensures
        r@ == seq![digit_char(d as nat)],
{
    proof {
        reveal_strlit("0");
        reveal_strlit("1");
        reveal_strlit("2");
        reveal_strlit("3");
        reveal_strlit("4");
        reveal_strlit("5");
        reveal_strlit("6");
        reveal_strlit("7");
        reveal_strlit("8");
        reveal_strlit("9");
    }
    let r = if d == 0 {
        "0"
    } else if d == 1 {
        "1"
    } else if d == 2 {
        "2"
    } else if d == 3 {
        "3"
    } else if d == 4 {
        "4"
    } else if d == 5 {
        "5"
    } else if d == 6 {
        "6"
    } else if d == 7 {
        "7"
    } else if d == 8 {
        "8"
    } else {
        "9"
    };
    assert(r@ =~= seq![digit_char(d as nat)]);
    r
}

/// Appends the decimal digits of a number to a text.
pub fn push_decimal(out: &mut String, n: u64)
    ensures
        final(out)@ == old(out)@ + decimal_digits(n as nat),
    decreases n,
{
    if n >= 10 {
        push_decimal(out, n / 10);
    }
    out.append(digit_text(n % 10));
    proof {
        if n >= 10 {
            assert(final(out)@ =~= old(out)@ + decimal_digits(n as nat));
        } else {
            assert(final(out)@ =~= old(out)@ + decimal_digits(n as nat));
        }
    }
}

/// The decimal text of a number.
pub fn decimal_text(n: u64) -> (r: String)
    ensures
        r@ == decimal_digits(n as nat),
{
    let mut out = String::new();
    push_decimal(&mut out, n);
    assert(out@ =~= decimal_digits(n as nat));
    out
}

/// Appends the decimal text of a signed number to a text.
pub fn push_signed(out: &mut String, n: i64)
    ensures
        final(out)@ == old(out)@ + signed_digits(n as int),
{
    if n < 0 {
        proof {
            reveal_strlit("-");
        }
        out.append("-");
        let m: u64 = if n == i64::MIN {
            0x8000_0000_0000_0000
        } else {
            (-n) as u64
        };
        push_decimal(out, m);
        assert(final(out)@ =~= old(out)@ + signed_digits(n as int));
    } else {
        push_decimal(out, n as u64);
    }
}

/// Whether a text is a number in its one canonical writing: digits only, at
/// least one, and no leading zero but in `0` itself.
pub open spec fn canonical_digits(s: Seq<char>) -> bool {
    all_digits(s) && s.len() >= 1 && (s.len() == 1 || s[0] != '0')
}

/// The character of the value of a digit is the digit.
pub proof fn lemma_digit_char_of(c: char)
    requires
        is_digit(c),
    ensures
        digit_char(digit_of(c)) == c,
        digit_of(c) < 10,
{
}

/// The value of the character of a digit is the digit.
pub proof fn lemma_digit_of_char(d: nat)
    requires
        d < 10,
    ensures
        digit_of(digit_char(d)) == d,
        is_digit(digit_char(d)),
{
}

/// A canonical number of two digits or more is ten or more.
pub proof fn lemma_canonical_is_large(s: Seq<char>)
    requires
        canonical_digits(s),
        s.len() >= 2,
    ensures
        decimal_value(s) >= 10,
        canonical_digits(s.drop_last()),
        decimal_value(s.drop_last()) >= 1,
    decreases s.len(),
{
    let p = s.drop_last();
    assert forall|i: int| 0 <= i < p.len() implies is_digit(#[trigger] p[i]) by {
        assert(p[i] == s[i]);
    }
    assert(p[0] == s[0]);
    if p.len() >= 2 {
        lemma_canonical_is_large(p);
    } else {
        assert(p.drop_last() =~= Seq::<char>::empty());
        assert(decimal_value(p.drop_last()) == 0);
        assert(is_digit(p[0]));
        assert(p.last() == p[0]);
        assert(digit_of(p[0]) >= 1);
    }
    assert(is_digit(s.last()));
}

/// Writing the value of a canonical number gives the number back.
pub proof fn lemma_canonical_digits(s: Seq<char>)
    requires
        canonical_digits(s),
    ensures
        decimal_digits(decimal_value(s)) == s,
    decreases s.len(),
{
    assert(is_digit(s.last()));
    lemma_digit_char_of(s.last());
    if s.len() == 1 {
        assert(s.drop_last() =~= Seq::<char>::empty());
        assert(decimal_value(s.drop_last()) == 0);
        assert(decimal_digits(decimal_value(s)) =~= s);
    } else {
        lemma_canonical_is_large(s);
        lemma_canonical_digits(s.drop_last());
        let v = decimal_value(s);
        let p = decimal_value(s.drop_last());
        let d = digit_of(s.last());
        assert(v == p * 10 + d);
        assert(v / 10 == p && v % 10 == d);
        assert(decimal_digits(v) =~= s.drop_last().push(s.last()));
        assert(s.drop_last().push(s.last()) =~= s);
    }
}

/// A number in exactly `width` digits, with zeros in front where it has
/// fewer; its last `width` digits where it has more.
pub open spec fn padded(n: nat, width: nat) -> Seq<char>
    decreases width,
{
    if width == 0 {
        Seq::empty()
    } else {
        padded(n / 10, (width - 1) as nat).push(digit_char(n % 10))
    }
}

/// Ten to the power `n`.
pub open spec fn power_of_ten(n: nat) -> nat
    decreases n,
{
    if n == 0 {
        1
    } else {
        10 * power_of_ten((n - 1) as nat)
    }
}

/// A number in a fixed width is as many digits, and denotes the number
/// where the number fits the width.
pub proof fn lemma_padded(n: nat, width: nat)
    ensures
        padded(n, width).len() == width,
        all_digits(padded(n, width)),
        n < power_of_ten(width) ==> decimal_value(padded(n, width)) == n,
    decreases width,
{
    if width > 0 {
        lemma_padded(n / 10, (width - 1) as nat);
        let s = padded(n, width);
        let p = padded(n / 10, (width - 1) as nat);
        assert(s.drop_last() =~= p);
        lemma_digit_of_char(n % 10);
        assert forall|i: int| 0 <= i < s.len() implies is_digit(#[trigger] s[i]) by {
            if i < p.len() {
                assert(s[i] == p[i]);
            }
        }
    }
}

/// Writing the value of a run of digits in as many digits gives the run
/// back.
pub proof fn lemma_padded_value(s: Seq<char>)
    requires
        all_digits(s),
    ensures
        padded(decimal_value(s), s.len()) == s,
        decimal_value(s) < power_of_ten(s.len()),
    decreases s.len(),
{
    if s.len() > 0 {
        let p = s.drop_last();
        assert forall|i: int| 0 <= i < p.len() implies is_digit(#[trigger] p[i]) by {
            assert(p[i] == s[i]);
        }
        lemma_padded_value(p);
        assert(is_digit(s.last()));
        lemma_digit_char_of(s.last());
        let v = decimal_value(s);
        assert(v / 10 == decimal_value(p) && v % 10 == digit_of(s.last()));
        assert(padded(v, s.len()) =~= p.push(s.last()));
        assert(p.push(s.last()) =~= s);
    } else {
        assert(padded(decimal_value(s), 0) =~= s);
    }
}

/// Appends a number in a fixed width.
pub fn push_padded(out: &mut String, n: u64, width: usize)
    ensures
        final(out)@ == old(out)@ + padded(n as nat, width as nat),
    decreases width,
{
    if width > 0 {
        push_padded(out, n / 10, width - 1);
        out.append(digit_text(n % 10));
        assert(final(out)@ =~= old(out)@ + padded(n as nat, width as nat));
    } else {
        assert(final(out)@ =~= old(out)@ + padded(n as nat, width as nat));
    }
}

} // verus!
