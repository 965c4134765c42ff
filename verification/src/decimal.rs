//! Decimal text of 16-bit numbers: reading it and writing it.
//!
//! A number is written as its decimal digits without leading zeros. It is read
//! from an optional `+` followed by at least one decimal digit; leading zeros
//! are accepted, and the value has to fit in 16 bits.

use crate::text::first_where;
use crate::text::lemma_first_where;
use crate::text::lemma_first_where_is;
use vstd::prelude::*;

verus! {

/// Why a text is not a 16-bit number.
#[derive(Debug, Clone, Copy, PartialEq, Eq, Structural, Hash)]
pub enum NumberError {
    /// The text is empty.
    Empty,
    /// The text holds something else than digits after an optional `+`, or
    /// nothing but a `+`.
    InvalidDigit,
    /// The digits read so far stand for more than 65535.
    Overflow,
}

/// Is `c` one of `0` to `9`?
pub open spec fn is_digit(c: char) -> bool {
    0x30 <= c as u32 <= 0x39
}

/// The predicate "is not a decimal digit".
pub open spec fn not_digit() -> spec_fn(char) -> bool {
    |c: char| !is_digit(c)
}

/// The number that the digit `c` stands for.
pub open spec fn digit_value(c: char) -> nat {
    (c as u32 - 0x30) as nat
}

/// The digit that stands for `d`, for `d` below ten.
pub open spec fn digit_char(d: nat) -> char {
    (d + 0x30) as u8 as char
}

/// Does `s` hold decimal digits only?
pub open spec fn all_digits(s: Seq<char>) -> bool {
    forall|i: int| 0 <= i < s.len() ==> is_digit(#[trigger] s[i])
}

/// The number that the digits `s` stand for, most significant first.
pub open spec fn decimal_value(s: Seq<char>) -> nat
    decreases s.len(),
{
    if s.len() == 0 {
        0
    } else {
        decimal_value(s.drop_last()) * 10 + digit_value(s.last())
    }
}

/// The decimal digits of `n`, without leading zeros.
pub open spec fn decimal_text(n: nat) -> Seq<char>
    decreases n,
{
    if n < 10 {
        seq![digit_char(n)]
    } else {
        decimal_text(n / 10).push(digit_char(n % 10))
    }
}

/// `s` without a leading `+`.
pub open spec fn without_plus(s: Seq<char>) -> Seq<char> {
    if s.len() > 0 && s[0] == '+' {
        s.drop_first()
    } else {
        s
    }
}

/// What reading `s` as a 16-bit number gives. The text is read from the
/// left: the first character that is no digit, or the first digit with which
/// the value passes 65535, decides the error.
pub open spec fn parse_u16(s: Seq<char>) -> Result<u16, NumberError> {
    let digits = without_plus(s);
    let k = first_where(digits, not_digit()) as int;
    if s.len() == 0 {
        Err(NumberError::Empty)
    } else if digits.len() == 0 {
        Err(NumberError::InvalidDigit)
    } else if decimal_value(digits.take(k)) > u16::MAX {
        Err(NumberError::Overflow)
    } else if k < digits.len() {
        Err(NumberError::InvalidDigit)
    } else {
        Ok(decimal_value(digits) as u16)
    }
}

/// The message that goes with each error.
pub open spec fn error_text(e: NumberError) -> Seq<char> {
    match e {
        NumberError::Empty => "cannot parse integer from empty string"@,
        NumberError::InvalidDigit => "invalid digit found in string"@,
        NumberError::Overflow => "number too large to fit in target type"@,
    }
}

/// A text is a 16-bit number exactly when, behind an optional `+`, it holds
/// at least one character and digits only, and they stand for no more than
/// 65535; the number is what the digits stand for.
pub proof fn lemma_number_accepted(s: Seq<char>)
    ensures
        parse_u16(s) is Ok <==> without_plus(s).len() > 0 && all_digits(without_plus(s))
            && decimal_value(without_plus(s)) <= u16::MAX,
        parse_u16(s) is Ok ==> parse_u16(s)->Ok_0 == decimal_value(without_plus(s)),
{
    let digits = without_plus(s);
    let k = first_where(digits, not_digit()) as int;
    lemma_first_where(digits, not_digit());
    if k == digits.len() {
        assert(digits.take(k) =~= digits);
        assert forall|i: int| 0 <= i < digits.len() implies is_digit(#[trigger] digits[i]) by {
            assert(!not_digit()(digits[i]));
        }
    } else {
        assert(not_digit()(digits[k]));
        lemma_prefix_value(digits, k);
    }
}

/// A prefix of a run of digits stands for no more than the whole run.
pub proof fn lemma_prefix_value(s: Seq<char>, j: int)
    requires
        0 <= j <= s.len(),
    ensures
        decimal_value(s.take(j)) <= decimal_value(s),
    decreases s.len(),
{
    if j == s.len() {
        assert(s.take(j) =~= s);
    } else {
        assert(s.drop_last().take(j) =~= s.take(j));
        lemma_prefix_value(s.drop_last(), j);
    }
}

/// The decimal text of a number holds digits only, at least one, and stands
/// for that number.
pub proof fn lemma_decimal_text(n: nat)
    ensures
        decimal_text(n).len() >= 1,
        all_digits(decimal_text(n)),
        decimal_value(decimal_text(n)) == n,
    decreases n,
{
    if n < 10 {
        let t = decimal_text(n);
        assert(t.drop_last() =~= Seq::<char>::empty());
        assert(decimal_value(t.drop_last()) == 0);
    } else {
        lemma_decimal_text(n / 10);
        let head = decimal_text(n / 10);
        let t = decimal_text(n);
        assert(t.drop_last() =~= head);
        assert(is_digit(digit_char(n % 10)));
        assert forall|i: int| 0 <= i < t.len() implies is_digit(#[trigger] t[i]) by {
            if i < head.len() {
                assert(t[i] == head[i]);
            }
        }
    }
}

/// Reading the decimal text of a 16-bit number gives the number back.
pub proof fn lemma_parse_decimal_text(n: u16)
    ensures
        parse_u16(decimal_text(n as nat)) == Ok::<u16, NumberError>(n),
{
    let t = decimal_text(n as nat);
    lemma_decimal_text(n as nat);
    assert(is_digit(t[0]));
    assert(without_plus(t) == t);
    lemma_first_where_is(t, not_digit(), t.len() as int);
    assert(t.take(t.len() as int) =~= t);
}

impl NumberError {
    /// The message that goes with this error.
    pub fn message(&self) -> (m: &'static str)
        ensures
            m@ == error_text(*self),
    {
        match self {
            NumberError::Empty => "cannot parse integer from empty string",
            NumberError::InvalidDigit => "invalid digit found in string",
            NumberError::Overflow => "number too large to fit in target type",
        }
    }
}

/// Reads `s` as a 16-bit number.
pub fn parse_u16_chars(s: &[char]) -> (r: Result<u16, NumberError>)
    ensures
        r == parse_u16(s@),
{
    let n = s.len();
    if n == 0 {
        return Err(NumberError::Empty);
    }
    let start: usize = if s[0] == '+' {
        1
    } else {
        0
    };
    if start == n {
        return Err(NumberError::InvalidDigit);
    }
    let ghost digits = without_plus(s@);
    assert(digits =~= s@.skip(start as int));
    let mut value: u16 = 0;
    let mut i: usize = start;
    assert(digits.take(0) =~= Seq::<char>::empty());
    while i < n
        invariant
            start <= i <= n == s.len(),
            start < n,
            start <= 1,
            digits == s@.skip(start as int),
            digits == without_plus(s@),
            forall|j: int| 0 <= j < i - start ==> is_digit(#[trigger] digits[j]),
            value == decimal_value(digits.take(i - start)),
        decreases n - i,
    {
        let c = s[i];
        let u: u32 = c as u32;
        assert(digits[i - start] == c);
        if u < 0x30 || u > 0x39 {
            proof {
                lemma_first_where_is(digits, not_digit(), i - start);
            }
            return Err(NumberError::InvalidDigit);
        }
        let d: u16 = (u - 0x30) as u16;
        proof {
            let next = digits.take(i - start + 1);
            assert(next.drop_last() =~= digits.take(i - start));
            assert(next.last() == c);
            assert(decimal_value(next) == value * 10 + d);
        }
        if value > 6553 || (value == 6553 && d > 5) {
            proof {
                lemma_first_where(digits, not_digit());
                let k = first_where(digits, not_digit()) as int;
                if k < i - start + 1 {
                    assert(is_digit(digits[k]));
                }
                assert(digits.take(k).take(i - start + 1) =~= digits.take(i - start + 1));
                lemma_prefix_value(digits.take(k), i - start + 1);
            }
            return Err(NumberError::Overflow);
        }
        value = value * 10 + d;
        i += 1;
    }
    proof {
        lemma_first_where_is(digits, not_digit(), digits.len() as int);
        assert(digits.take(digits.len() as int) =~= digits);
    }
    Ok(value)
}

/// Appends the decimal digits of `n` to `out`.
pub fn push_decimal(out: &mut String, n: u16)
    ensures
        final(out)@ == old(out)@ + decimal_text(n as nat),
    decreases n,
{
    if n >= 10 {
        push_decimal(out, n / 10);
    }
    let d: u8 = (n % 10) as u8;
    let c: char = (d + 0x30) as char;
    assert(c == digit_char(n as nat % 10));
    out.push(c);
    assert(final(out)@ =~= old(out)@ + decimal_text(n as nat));
}

} // verus!
