//! Double-precision numbers, held as their IEEE 754 binary64 bit patterns.
//!
//! Sign handling and the tests for zero and not-a-number are done here on the
//! bits. Rounding arithmetic and decimal conversion are done by the software
//! implementation in `rustc_apfloat`, whose results are known here by name.
use rustc_apfloat::ieee::Double;
use rustc_apfloat::Float;
use std::str::FromStr;
use vstd::prelude::*;
use vstd::std_specs::cmp::PartialEqSpecImpl;

verus! {

/// The bit that holds the sign of a binary64 value.
pub const SIGN_BIT: u64 = 0x8000_0000_0000_0000;

/// The bits of positive infinity: every larger magnitude is not a number.
pub const INFINITY_BITS: u64 = 0x7ff0_0000_0000_0000;

/// The bits of `1.0`.
pub const ONE_BITS: u64 = 0x3ff0_0000_0000_0000;

/// The bits of `a + b`, rounded to nearest, ties to even.
pub uninterp spec fn double_sum(a: u64, b: u64) -> u64;

/// The bits of `a - b`, rounded to nearest, ties to even.
pub uninterp spec fn double_difference(a: u64, b: u64) -> u64;

/// The bits of `a * b`, rounded to nearest, ties to even.
pub uninterp spec fn double_product(a: u64, b: u64) -> u64;

/// The bits of `a / b`, rounded to nearest, ties to even.
pub uninterp spec fn double_quotient(a: u64, b: u64) -> u64;

/// The bits of the double nearest to a decimal numeral.
pub uninterp spec fn decimal_double(text: Seq<char>) -> u64;

/// The decimal text of a double, written in full and without an exponent.
pub uninterp spec fn double_text(bits: u64) -> Seq<char>;

/// The bits without the sign.
pub open spec fn magnitude(bits: u64) -> u64 {
    if bits >= SIGN_BIT {
        (bits - SIGN_BIT) as u64
    } else {
        bits
    }
}

/// The bits with the sign flipped.
pub open spec fn negated(bits: u64) -> u64 {
    if bits >= SIGN_BIT {
        (bits - SIGN_BIT) as u64
    } else {
        (bits + SIGN_BIT) as u64
    }
}

/// Positive or negative zero.
pub open spec fn is_zero_bits(bits: u64) -> bool {
    magnitude(bits) == 0
}

/// Not a number.
pub open spec fn is_nan_bits(bits: u64) -> bool {
    magnitude(bits) > INFINITY_BITS
}

/// Equality of doubles: a NaN equals nothing, the two zeros equal each other,
/// and otherwise the bits decide.
pub open spec fn double_eq(a: u64, b: u64) -> bool {
    &&& !is_nan_bits(a)
    &&& !is_nan_bits(b)
    &&& (a == b || (is_zero_bits(a) && is_zero_bits(b)))
}

/// An ASCII decimal digit.
pub open spec fn is_digit(c: char) -> bool {
    '0' <= c && c <= '9'
}

/// One or more digits.
pub open spec fn is_digits(s: Seq<char>) -> bool {
    &&& s.len() > 0
    &&& forall|i: int| 0 <= i < s.len() ==> is_digit(#[trigger] s[i])
}

/// Digits, optionally followed by a point and more digits.
pub open spec fn is_unsigned_numeral(s: Seq<char>) -> bool {
    ||| is_digits(s)
    ||| exists|k: int|
        0 < k < s.len() - 1 && #[trigger] s[k] == '.' && is_digits(s.take(k)) && is_digits(
            s.skip(k + 1),
        )
}

/// A numeral: an optional leading minus sign, digits, and optionally a point
/// followed by digits.
pub open spec fn is_numeral(s: Seq<char>) -> bool {
    ||| is_unsigned_numeral(s)
    ||| (s.len() > 0 && s[0] == '-' && is_unsigned_numeral(s.skip(1)))
}

/// The bits of the number that a text stands for: those that the decimal
/// conversion gives for a numeral, and none for any other text.
pub open spec fn numeral_value(text: Seq<char>) -> Option<u64> {
    if is_numeral(text) {
        Some(decimal_double(text))
    } else {
        None
    }
}

/// A double-precision number.
#[derive(Clone, Copy, Debug)]
pub struct Number {
    bits: u64,
}

impl View for Number {
    type V = u64;

    closed spec fn view(&self) -> u64 {
        self.bits
    }
}

/// `Double::add` of `rustc_apfloat`: the sum of the two doubles, computed in
/// software from the bit patterns alone.
#[verifier::external_body]
fn add_doubles(a: u64, b: u64) -> (r: u64)
    ensures
        r == double_sum(a, b),
{
    (Double::from_bits(a as u128) + Double::from_bits(b as u128)).value.to_bits() as u64
}

/// `Double::sub` of `rustc_apfloat`: the difference of the two doubles,
/// computed in software from the bit patterns alone.
#[verifier::external_body]
fn sub_doubles(a: u64, b: u64) -> (r: u64)
    ensures
        r == double_difference(a, b),
{
    (Double::from_bits(a as u128) - Double::from_bits(b as u128)).value.to_bits() as u64
}

/// `Double::mul` of `rustc_apfloat`: the product of the two doubles, computed
/// in software from the bit patterns alone.
#[verifier::external_body]
fn mul_doubles(a: u64, b: u64) -> (r: u64)
    ensures
        r == double_product(a, b),
{
    (Double::from_bits(a as u128) * Double::from_bits(b as u128)).value.to_bits() as u64
}

/// `Double::div` of `rustc_apfloat`: the quotient of the two doubles, computed
/// in software from the bit patterns alone. A zero divisor gives an infinity
/// or a NaN, as IEEE 754 has it; it does not fail.
#[verifier::external_body]
fn div_doubles(a: u64, b: u64) -> (r: u64)
    ensures
        r == double_quotient(a, b),
{
    (Double::from_bits(a as u128) / Double::from_bits(b as u128)).value.to_bits() as u64
}

/// `Double::from_str` of `rustc_apfloat`, on a numeral. Of a text made of
/// an optional minus sign, digits and points, the conversion refuses only
/// one with a second point or without a digit, so it accepts every numeral;
/// the double that it gives depends on the text alone.
#[verifier::external_body]
fn double_from_decimal(text: &str) -> (r: Option<u64>)
    requires
        is_numeral(text@),
    ensures
        r == Some(decimal_double(text@)),
{
    match Double::from_str(text) {
        Ok(d) => Some(d.to_bits() as u64),
        Err(_) => None,
    }
}

/// `Display` of `Double` in `rustc_apfloat`, with room for as many zeros and
/// digits as a double can need, so that no exponent is written and no digit
/// is dropped: the decimal text of the double, which depends on the bit
/// pattern alone. Nothing is claimed of its digits.
#[verifier::external_body]
fn decimal_of_double(bits: u64) -> (r: String)
    ensures
        r@ == double_text(bits),
{
    format!("{:400.1100}", Double::from_bits(bits as u128))
}

impl Number {
    /// The number with the given binary64 bit pattern.
    pub fn from_bits(bits: u64) -> (r: Number)
        ensures
            r@ == bits,
    {
        Number { bits }
    }

    /// The binary64 bit pattern of the number.
    pub fn to_bits(self) -> (bits: u64)
        ensures
            bits == self@,
    {
        self.bits
    }

    /// Positive zero, the sum of no numbers.
    pub fn zero() -> (r: Number)
        ensures
            r@ == 0,
    {
        Number { bits: 0 }
    }

    /// One, the product of no numbers.
    pub fn one() -> (r: Number)
        ensures
            r@ == ONE_BITS,
    {
        Number { bits: ONE_BITS }
    }

    /// Whether the number is positive or negative zero.
    pub fn is_zero(self) -> (r: bool)
        ensures
            r == is_zero_bits(self@),
    {
        self.bits == 0 || self.bits == SIGN_BIT
    }

    /// Whether the value is not a number.
    pub fn is_nan(self) -> (r: bool)
        ensures
            r == is_nan_bits(self@),
    {
        if self.bits >= SIGN_BIT {
            self.bits - SIGN_BIT > INFINITY_BITS
        } else {
            self.bits > INFINITY_BITS
        }
    }

    /// The number with its sign flipped.
    pub fn negate(self) -> (r: Number)
        ensures
            r@ == negated(self@),
    {
        if self.bits >= SIGN_BIT {
            Number { bits: self.bits - SIGN_BIT }
        } else {
            Number { bits: self.bits + SIGN_BIT }
        }
    }

    /// `self + rhs`.
    pub fn plus(self, rhs: Number) -> (r: Number)
        ensures
            r@ == double_sum(self@, rhs@),
    {
        Number { bits: add_doubles(self.bits, rhs.bits) }
    }

    /// `self - rhs`.
    pub fn minus(self, rhs: Number) -> (r: Number)
        ensures
            r@ == double_difference(self@, rhs@),
    {
        Number { bits: sub_doubles(self.bits, rhs.bits) }
    }

    /// `self * rhs`.
    pub fn times(self, rhs: Number) -> (r: Number)
        ensures
            r@ == double_product(self@, rhs@),
    {
        Number { bits: mul_doubles(self.bits, rhs.bits) }
    }

    /// `self / rhs`, whatever the divisor.
    pub fn over(self, rhs: Number) -> (r: Number)
        ensures
            r@ == double_quotient(self@, rhs@),
    {
        Number { bits: div_doubles(self.bits, rhs.bits) }
    }

    /// The decimal text of the number.
    pub fn to_text(self) -> (r: String)
        ensures
            r@ == double_text(self@),
    {
        decimal_of_double(self.bits)
    }

    /// The number that a numeral stands for. Text that is no numeral gives
    /// `None`.
    pub fn parse(text: &str) -> (r: Option<Number>)
        ensures
            match numeral_value(text@) {
                Some(bits) => r matches Some(n) && n@ == bits,
                None => r is None,
            },
    {
        let chars = crate::text::chars_of(text);
        if !numeral_shape(&chars) {
            return None;
        }
        Self::from_conversion(double_from_decimal(text))
    }

    /// The number for what the decimal conversion gave.
    pub fn from_conversion(converted: Option<u64>) -> (r: Option<Number>)
        ensures
            match converted {
                Some(bits) => r matches Some(n) && n@ == bits,
                None => r is None,
            },
    {
        match converted {
            Some(bits) => Some(Number { bits }),
            None => None,
        }
    }
}

impl PartialEq for Number {
    fn eq(&self, other: &Number) -> (r: bool) {
        !self.is_nan() && !other.is_nan() && (self.bits == other.bits || (self.is_zero()
            && other.is_zero()))
    }
}

impl PartialEqSpecImpl for Number {
    open spec fn obeys_eq_spec() -> bool {
        true
    }

    open spec fn eq_spec(&self, other: &Number) -> bool {
        double_eq(self@, other@)
    }
}

/// Whether every character from `from` up to `to` is a digit, and there is at
/// least one.
fn digits_between(chars: &Vec<char>, from: usize, to: usize) -> (r: bool)
    requires
        from <= to <= chars.len(),
    ensures
        r == is_digits(chars@.subrange(from as int, to as int)),
{
    if from == to {
        return false;
    }
    let mut i: usize = from;
    while i < to
        invariant
            from <= i <= to <= chars.len(),
            forall|j: int| from <= j < i ==> is_digit(#[trigger] chars@[j]),
        decreases to - i,
    {
        let c = chars[i];
        if !('0' <= c && c <= '9') {
            assert(chars@.subrange(from as int, to as int)[i - from] == c);
            return false;
        }
        i += 1;
    }
    true
}

/// Whether the characters from `from` on are digits, optionally followed by a
/// point and more digits.
fn unsigned_shape(chars: &Vec<char>, from: usize) -> (r: bool)
    requires
        from <= chars.len(),
    ensures
        r == is_unsigned_numeral(chars@.skip(from as int)),
{
    let n = chars.len();
    let ghost s = chars@.skip(from as int);
    let mut k: usize = from;
    while k < n && chars[k] != '.'
        invariant
            from <= k <= n,
            n == chars.len(),
            forall|j: int| from <= j < k ==> chars@[j] != '.',
        decreases n - k,
    {
        k += 1;
    }
    assert(chars@.subrange(from as int, n as int) == s);
    if k == n {
        let r = digits_between(chars, from, n);
        proof {
            if !r {
                assert forall|p: int|
                    0 < p < s.len() - 1 && #[trigger] s[p] == '.' implies false by {
                    assert(chars@[from + p] == '.');
                }
            }
        }
        return r;
    }
    let before = digits_between(chars, from, k);
    let after = digits_between(chars, k + 1, n);
    proof {
        let p = k - from;
        assert(s[p] == '.');
        assert(s.take(p) == chars@.subrange(from as int, k as int));
        assert(s.skip(p + 1) == chars@.subrange(k + 1, n as int));
        if before && after {
            assert(0 < p < s.len() - 1);
        } else {
            assert(!is_digits(s)) by {
                if is_digits(s) {
                    assert(is_digit(s[p]));
                }
            }
            assert forall|q: int|
                0 < q < s.len() - 1 && #[trigger] s[q] == '.' && is_digits(s.take(q)) && is_digits(
                    s.skip(q + 1),
                ) implies false by {
                if q < p {
                    assert(chars@[from + q] == '.');
                } else if q > p {
                    assert(s.take(q)[p] == '.');
                    assert(is_digit(s.take(q)[p]));
                }
            }
        }
    }
    before && after
}

/// Whether the characters make a numeral.
fn numeral_shape(chars: &Vec<char>) -> (r: bool)
    ensures
        r == is_numeral(chars@),
{
    assert(chars@.skip(0) == chars@);
    if unsigned_shape(chars, 0) {
        return true;
    }
    if chars.len() > 0 && chars[0] == '-' {
        return unsigned_shape(chars, 1);
    }
    false
}

} // verus!
