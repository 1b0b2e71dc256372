use num_bigint::{BigInt, BigUint, Sign};
use vstd::prelude::*;

verus! {

#[verifier::external_type_specification]
#[verifier::external_body]
pub struct ExBigUint(BigUint);

#[verifier::external_type_specification]
#[verifier::external_body]
pub struct ExBigInt(BigInt);

/// Copies a big unsigned integer.
///
/// Calls `BigUint::clone`, which copies the integer's digits; the copy is the
/// same value as the original.
#[verifier::external_body]
pub(crate) fn clone_big_uint(value: &BigUint) -> (result: BigUint)
    ensures
        result == *value,
{
    value.clone()
}

/// The value of base-2^32 digits, the least significant first.
pub open spec fn digits_value(digits: Seq<u32>) -> nat
    decreases digits.len(),
{
    if digits.len() == 0 {
        0
    } else {
        (digits[0] + 4294967296 * digits_value(digits.drop_first())) as nat
    }
}

/// An integer of any size: a sign and the digits of its magnitude in base
/// 2^32, the least significant first.
#[derive(Clone, PartialEq, Eq)]
pub struct Integer {
    pub negative: bool,
    pub magnitude: Vec<u32>,
}

impl View for Integer {
    type V = int;

    open spec fn view(&self) -> int {
        if self.negative {
            -digits_value(self.magnitude@)
        } else {
            digits_value(self.magnitude@) as int
        }
    }
}

/// An integer for a small number.
pub fn integer_from_usize(value: usize) -> (result: Integer)
    ensures
        result@ == value as int,
{
    let wide = value as u64;
    let low = (wide % 4294967296) as u32;
    let high = (wide / 4294967296) as u32;
    let mut magnitude: Vec<u32> = Vec::new();
    magnitude.push(low);
    magnitude.push(high);
    proof {
        assert(magnitude@.drop_first() =~= seq![high]);
        assert(seq![high].drop_first() =~= Seq::<u32>::empty());
        assert(digits_value(Seq::<u32>::empty()) == 0);
        assert(digits_value(seq![high]) == high as nat);
        assert(wide == low + 4294967296 * high) by (nonlinear_arith)
            requires
                low == wide % 4294967296,
                high == wide / 4294967296,
        ;
    }
    Integer { negative: false, magnitude }
}

/// Adds two integers.
///
/// Calls `BigInt` addition, which is exact; the integers are converted to
/// and from `BigInt` by their sign and digits (`BigInt::from_slice`,
/// `BigInt::to_u32_digits`), which keep the value.
#[verifier::external_body]
pub fn integer_add(a: &Integer, b: &Integer) -> (result: Integer)
    ensures
        result@ == a@ + b@,
{
    let x = BigInt::from_slice(if a.negative { Sign::Minus } else { Sign::Plus }, &a.magnitude);
    let y = BigInt::from_slice(if b.negative { Sign::Minus } else { Sign::Plus }, &b.magnitude);
    let (sign, magnitude) = (x + y).to_u32_digits();
    Integer { negative: sign == Sign::Minus, magnitude }
}

/// Subtracts an integer from another.
///
/// Calls `BigInt` subtraction, which is exact; the integers are converted as
/// for `integer_add`.
#[verifier::external_body]
pub fn integer_subtract(a: &Integer, b: &Integer) -> (result: Integer)
    ensures
        result@ == a@ - b@,
{
    let x = BigInt::from_slice(if a.negative { Sign::Minus } else { Sign::Plus }, &a.magnitude);
    let y = BigInt::from_slice(if b.negative { Sign::Minus } else { Sign::Plus }, &b.magnitude);
    let (sign, magnitude) = (x - y).to_u32_digits();
    Integer { negative: sign == Sign::Minus, magnitude }
}

/// Multiplies two integers.
///
/// Calls `BigInt` multiplication, which is exact; the integers are converted
/// as for `integer_add`.
#[verifier::external_body]
pub fn integer_multiply(a: &Integer, b: &Integer) -> (result: Integer)
    ensures
        result@ == a@ * b@,
{
    let x = BigInt::from_slice(if a.negative { Sign::Minus } else { Sign::Plus }, &a.magnitude);
    let y = BigInt::from_slice(if b.negative { Sign::Minus } else { Sign::Plus }, &b.magnitude);
    let (sign, magnitude) = (x * y).to_u32_digits();
    Integer { negative: sign == Sign::Minus, magnitude }
}

/// Whether an integer is less than another.
///
/// Calls `BigInt`'s `<`, which compares the values; the integers are
/// converted as for `integer_add`.
#[verifier::external_body]
pub fn integer_less(a: &Integer, b: &Integer) -> (result: bool)
    ensures
        result == (a@ < b@),
{
    let x = BigInt::from_slice(if a.negative { Sign::Minus } else { Sign::Plus }, &a.magnitude);
    let y = BigInt::from_slice(if b.negative { Sign::Minus } else { Sign::Plus }, &b.magnitude);
    x < y
}

/// Whether two integers have the same value.
///
/// Calls `BigInt`'s `==`, which compares the values; the integers are
/// converted as for `integer_add`.
#[verifier::external_body]
pub fn integer_equal(a: &Integer, b: &Integer) -> (result: bool)
    ensures
        result == (a@ == b@),
{
    let x = BigInt::from_slice(if a.negative { Sign::Minus } else { Sign::Plus }, &a.magnitude);
    let y = BigInt::from_slice(if b.negative { Sign::Minus } else { Sign::Plus }, &b.magnitude);
    x == y
}

/// The quotient of two integers, rounded toward zero.
pub open spec fn truncating_quotient(a: int, b: int) -> int {
    if (a >= 0) == (b > 0) {
        if a >= 0 {
            a / b
        } else {
            (-a) / (-b)
        }
    } else {
        if a >= 0 {
            -(a / (-b))
        } else {
            -((-a) / b)
        }
    }
}

/// The remainder of the quotient rounded toward zero: its sign is that of
/// the dividend.
pub open spec fn truncating_remainder(a: int, b: int) -> int {
    a - b * truncating_quotient(a, b)
}

/// The remainder of the quotient rounded down: the remainder rounded
/// toward zero, moved by the divisor where its sign differs from the
/// divisor's.
pub open spec fn floored_remainder(a: int, b: int) -> int {
    let r = truncating_remainder(a, b);
    if r != 0 && (r < 0) != (b < 0) {
        r + b
    } else {
        r
    }
}

/// What `BigInt`'s `&` gives for two integers (on two's complements of
/// unbounded width).
pub uninterp spec fn bitwise_and(a: int, b: int) -> int;

/// What `BigInt`'s `|` gives for two integers (on two's complements of
/// unbounded width).
pub uninterp spec fn bitwise_or(a: int, b: int) -> int;

/// What `BigInt`'s `^` gives for two integers (on two's complements of
/// unbounded width).
pub uninterp spec fn bitwise_xor(a: int, b: int) -> int;

/// Divides an integer by another, rounding toward zero.
///
/// Calls `BigInt`'s `/`, which rounds toward zero and panics for a zero
/// divisor; the integers are converted as for `integer_add`.
#[verifier::external_body]
pub fn integer_divide_truncating(a: &Integer, b: &Integer) -> (result: Integer)
    requires
        b@ != 0,
    ensures
        result@ == truncating_quotient(a@, b@),
{
    let x = BigInt::from_slice(if a.negative { Sign::Minus } else { Sign::Plus }, &a.magnitude);
    let y = BigInt::from_slice(if b.negative { Sign::Minus } else { Sign::Plus }, &b.magnitude);
    let (sign, magnitude) = (x / y).to_u32_digits();
    Integer { negative: sign == Sign::Minus, magnitude }
}

/// The remainder of dividing an integer by another, rounding toward zero.
///
/// Calls `BigInt`'s `%`, whose result has the sign of the dividend and which
/// panics for a zero divisor; the integers are converted as for
/// `integer_add`.
#[verifier::external_body]
pub fn integer_remainder(a: &Integer, b: &Integer) -> (result: Integer)
    requires
        b@ != 0,
    ensures
        result@ == truncating_remainder(a@, b@),
{
    let x = BigInt::from_slice(if a.negative { Sign::Minus } else { Sign::Plus }, &a.magnitude);
    let y = BigInt::from_slice(if b.negative { Sign::Minus } else { Sign::Plus }, &b.magnitude);
    let (sign, magnitude) = (x % y).to_u32_digits();
    Integer { negative: sign == Sign::Minus, magnitude }
}

/// The remainder of dividing an integer by another, rounding down, as
/// `mod_floor` of `num-integer` gives it for `BigInt`.
pub fn integer_modulo(a: &Integer, b: &Integer) -> (result: Integer)
    requires
        b@ != 0,
    ensures
        result@ == floored_remainder(a@, b@),
{
    let r = integer_remainder(a, b);
    let zero = integer_from_usize(0);
    let r_negative = integer_less(&r, &zero);
    let b_negative = integer_less(b, &zero);
    if !integer_equal(&r, &zero) && r_negative != b_negative {
        integer_add(&r, b)
    } else {
        r
    }
}

/// The bitwise and of two integers.
///
/// Calls `BigInt`'s `&`; the integers are converted as for `integer_add`.
#[verifier::external_body]
pub fn integer_and(a: &Integer, b: &Integer) -> (result: Integer)
    ensures
        result@ == bitwise_and(a@, b@),
{
    let x = BigInt::from_slice(if a.negative { Sign::Minus } else { Sign::Plus }, &a.magnitude);
    let y = BigInt::from_slice(if b.negative { Sign::Minus } else { Sign::Plus }, &b.magnitude);
    let (sign, magnitude) = (x & y).to_u32_digits();
    Integer { negative: sign == Sign::Minus, magnitude }
}

/// The bitwise or of two integers.
///
/// Calls `BigInt`'s `|`; the integers are converted as for `integer_add`.
#[verifier::external_body]
pub fn integer_or(a: &Integer, b: &Integer) -> (result: Integer)
    ensures
        result@ == bitwise_or(a@, b@),
{
    let x = BigInt::from_slice(if a.negative { Sign::Minus } else { Sign::Plus }, &a.magnitude);
    let y = BigInt::from_slice(if b.negative { Sign::Minus } else { Sign::Plus }, &b.magnitude);
    let (sign, magnitude) = (x | y).to_u32_digits();
    Integer { negative: sign == Sign::Minus, magnitude }
}

/// The bitwise exclusive or of two integers.
///
/// Calls `BigInt`'s `^`; the integers are converted as for `integer_add`.
#[verifier::external_body]
pub fn integer_xor(a: &Integer, b: &Integer) -> (result: Integer)
    ensures
        result@ == bitwise_xor(a@, b@),
{
    let x = BigInt::from_slice(if a.negative { Sign::Minus } else { Sign::Plus }, &a.magnitude);
    let y = BigInt::from_slice(if b.negative { Sign::Minus } else { Sign::Plus }, &b.magnitude);
    let (sign, magnitude) = (x ^ y).to_u32_digits();
    Integer { negative: sign == Sign::Minus, magnitude }
}

} // verus!
