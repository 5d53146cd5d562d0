//! Arbitrary-precision decimal numbers, represented by their base-10 text.
//!
//! A number travels through the module format and the virtual machine as the
//! byte string of its decimal literal. The arithmetic itself is done by the
//! `bigdecimal` crate behind the trusted wrappers below; each result is
//! named by an uninterpreted spec function of the operand bytes, so that
//! every verified caller's contract is exact up to those names.

use vstd::prelude::*;

use bigdecimal::num_bigint::ToBigInt;
use bigdecimal::num_traits::ToPrimitive;
use bigdecimal::num_traits::Zero;
use bigdecimal::BigDecimal;

verus! {

/// The canonical text of the decimal denoted by `b`, if `b` parses as a
/// decimal literal.
pub uninterp spec fn num_canon(b: Seq<u8>) -> Option<Seq<u8>>;

/// Whether `b` parses as a decimal literal.
pub open spec fn num_ok(b: Seq<u8>) -> bool {
    num_canon(b) is Some
}

/// The ordering of two decimals: negative, zero or positive as the first is
/// below, equal to or above the second.
pub uninterp spec fn num_cmp_of(a: Seq<u8>, b: Seq<u8>) -> int;

/// The sum of two decimals, as canonical text.
pub uninterp spec fn num_add_of(a: Seq<u8>, b: Seq<u8>) -> Seq<u8>;

/// The difference of two decimals, as canonical text.
pub uninterp spec fn num_sub_of(a: Seq<u8>, b: Seq<u8>) -> Seq<u8>;

/// The product of two decimals, as canonical text.
pub uninterp spec fn num_mul_of(a: Seq<u8>, b: Seq<u8>) -> Seq<u8>;

/// The quotient of two decimals, as canonical text.
pub uninterp spec fn num_div_of(a: Seq<u8>, b: Seq<u8>) -> Seq<u8>;

/// The remainder of two decimals, as canonical text.
pub uninterp spec fn num_rem_of(a: Seq<u8>, b: Seq<u8>) -> Seq<u8>;

/// The negation of a decimal, as canonical text.
pub uninterp spec fn num_neg_of(a: Seq<u8>) -> Seq<u8>;

/// Whether the decimal has zero fractional part.
pub uninterp spec fn num_is_int_of(a: Seq<u8>) -> bool;

/// Whether the decimal is zero.
pub uninterp spec fn num_is_zero_of(a: Seq<u8>) -> bool;

/// The decimal as a machine integer, if it is integral and fits.
pub uninterp spec fn num_i64_of(a: Seq<u8>) -> Option<i64>;

/// The integer decimal shifted left by `n` bits, as canonical text.
pub uninterp spec fn num_shl_of(a: Seq<u8>, n: u64) -> Seq<u8>;

/// The integer decimal shifted right by `n` bits, as canonical text.
pub uninterp spec fn num_shr_of(a: Seq<u8>, n: u64) -> Seq<u8>;

/// The bitwise and of two integer decimals, as canonical text.
pub uninterp spec fn num_and_of(a: Seq<u8>, b: Seq<u8>) -> Seq<u8>;

/// The bitwise xor of two integer decimals, as canonical text.
pub uninterp spec fn num_xor_of(a: Seq<u8>, b: Seq<u8>) -> Seq<u8>;

/// The bitwise or of two integer decimals, as canonical text.
pub uninterp spec fn num_or_of(a: Seq<u8>, b: Seq<u8>) -> Seq<u8>;

/// Relies on `BigDecimal::parse_bytes`: whether the bytes parse as a base-10
/// decimal literal.
#[verifier::external_body]
pub(crate) fn num_valid(b: &Vec<u8>) -> (r: bool)
    ensures
        r == num_ok(b@),
{
    BigDecimal::parse_bytes(b, 10).is_some()
}

/// Relies on `BigDecimal::parse_bytes` and its `Display` form: parse a
/// decimal literal and print it back canonically. The canonical text itself
/// parses again.
#[verifier::external_body]
pub(crate) fn num_canon_bytes(b: &Vec<u8>) -> (r: Option<Vec<u8>>)
    ensures
        match r {
            Option::Some(c) => num_canon(b@) == Option::Some(c@) && num_ok(c@),
            Option::None => num_canon(b@) is None,
        },
{
    BigDecimal::parse_bytes(b, 10).map(|d| d.to_string().into_bytes())
}

/// Relies on `Ord::cmp` for `BigDecimal`, which agrees with its `PartialEq`:
/// compare two decimals by value.
#[verifier::external_body]
pub(crate) fn num_cmp(a: &Vec<u8>, b: &Vec<u8>) -> (r: i8)
    requires
        num_ok(a@),
        num_ok(b@),
    ensures
        r as int == num_cmp_of(a@, b@),
        -1 <= r <= 1,
{
    let x = BigDecimal::parse_bytes(a, 10).unwrap();
    let y = BigDecimal::parse_bytes(b, 10).unwrap();
    match x.cmp(&y) {
        core::cmp::Ordering::Less => -1,
        core::cmp::Ordering::Equal => 0,
        core::cmp::Ordering::Greater => 1,
    }
}

/// Relies on `Add` for `BigDecimal`.
#[verifier::external_body]
pub(crate) fn num_add(a: &Vec<u8>, b: &Vec<u8>) -> (r: Vec<u8>)
    requires
        num_ok(a@),
        num_ok(b@),
    ensures
        r@ == num_add_of(a@, b@),
        num_ok(r@),
{
    let x = BigDecimal::parse_bytes(a, 10).unwrap();
    let y = BigDecimal::parse_bytes(b, 10).unwrap();
    (x + y).to_string().into_bytes()
}

/// Relies on `Sub` for `BigDecimal`.
#[verifier::external_body]
pub(crate) fn num_sub(a: &Vec<u8>, b: &Vec<u8>) -> (r: Vec<u8>)
    requires
        num_ok(a@),
        num_ok(b@),
    ensures
        r@ == num_sub_of(a@, b@),
        num_ok(r@),
{
    let x = BigDecimal::parse_bytes(a, 10).unwrap();
    let y = BigDecimal::parse_bytes(b, 10).unwrap();
    (x - y).to_string().into_bytes()
}

/// Relies on `Mul` for `BigDecimal`.
#[verifier::external_body]
pub(crate) fn num_mul(a: &Vec<u8>, b: &Vec<u8>) -> (r: Vec<u8>)
    requires
        num_ok(a@),
        num_ok(b@),
    ensures
        r@ == num_mul_of(a@, b@),
        num_ok(r@),
{
    let x = BigDecimal::parse_bytes(a, 10).unwrap();
    let y = BigDecimal::parse_bytes(b, 10).unwrap();
    (x * y).to_string().into_bytes()
}

/// Relies on `Div` for `BigDecimal`, which panics on a zero divisor: the
/// divisor must be nonzero.
#[verifier::external_body]
pub(crate) fn num_div(a: &Vec<u8>, b: &Vec<u8>) -> (r: Vec<u8>)
    requires
        num_ok(a@),
        num_ok(b@),
        !num_is_zero_of(b@),
    ensures
        r@ == num_div_of(a@, b@),
        num_ok(r@),
{
    let x = BigDecimal::parse_bytes(a, 10).unwrap();
    let y = BigDecimal::parse_bytes(b, 10).unwrap();
    (x / y).to_string().into_bytes()
}

/// Relies on `Rem` for `BigDecimal`, whose integer division panics on a
/// zero divisor: the divisor must be nonzero.
#[verifier::external_body]
pub(crate) fn num_rem(a: &Vec<u8>, b: &Vec<u8>) -> (r: Vec<u8>)
    requires
        num_ok(a@),
        num_ok(b@),
        !num_is_zero_of(b@),
    ensures
        r@ == num_rem_of(a@, b@),
        num_ok(r@),
{
    let x = BigDecimal::parse_bytes(a, 10).unwrap();
    let y = BigDecimal::parse_bytes(b, 10).unwrap();
    (x % y).to_string().into_bytes()
}

/// Relies on `Neg` for `BigDecimal`.
#[verifier::external_body]
pub(crate) fn num_neg(a: &Vec<u8>) -> (r: Vec<u8>)
    requires
        num_ok(a@),
    ensures
        r@ == num_neg_of(a@),
        num_ok(r@),
{
    let x = BigDecimal::parse_bytes(a, 10).unwrap();
    (-x).to_string().into_bytes()
}

/// Relies on `BigDecimal::is_integer`: whether the fractional part is zero.
#[verifier::external_body]
pub(crate) fn num_is_integer(a: &Vec<u8>) -> (r: bool)
    requires
        num_ok(a@),
    ensures
        r == num_is_int_of(a@),
{
    BigDecimal::parse_bytes(a, 10).unwrap().is_integer()
}

/// Relies on `Zero::is_zero` for `BigDecimal`.
#[verifier::external_body]
pub(crate) fn num_is_zero(a: &Vec<u8>) -> (r: bool)
    requires
        num_ok(a@),
    ensures
        r == num_is_zero_of(a@),
{
    BigDecimal::parse_bytes(a, 10).unwrap().is_zero()
}

/// Relies on `ToPrimitive::to_i64` for `BigDecimal`: the value as a machine
/// integer where it is integral and fits.
#[verifier::external_body]
pub(crate) fn num_to_i64(a: &Vec<u8>) -> (r: Option<i64>)
    requires
        num_ok(a@),
    ensures
        r == num_i64_of(a@),
{
    BigDecimal::parse_bytes(a, 10).unwrap().to_i64()
}

/// Relies on `Shl<u64>` for `BigInt` (via `ToBigInt`): shift an
/// integer-valued decimal left.
#[verifier::external_body]
pub(crate) fn num_shl(a: &Vec<u8>, n: u64) -> (r: Vec<u8>)
    requires
        num_ok(a@),
        num_is_int_of(a@),
    ensures
        r@ == num_shl_of(a@, n),
        num_ok(r@),
{
    let x = BigDecimal::parse_bytes(a, 10).unwrap().to_bigint().unwrap();
    BigDecimal::from(x << n).to_string().into_bytes()
}

/// Relies on `Shr<u64>` for `BigInt` (via `ToBigInt`): shift an
/// integer-valued decimal right, rounding towards negative infinity.
#[verifier::external_body]
pub(crate) fn num_shr(a: &Vec<u8>, n: u64) -> (r: Vec<u8>)
    requires
        num_ok(a@),
        num_is_int_of(a@),
    ensures
        r@ == num_shr_of(a@, n),
        num_ok(r@),
{
    let x = BigDecimal::parse_bytes(a, 10).unwrap().to_bigint().unwrap();
    BigDecimal::from(x >> n).to_string().into_bytes()
}

/// Relies on `BitAnd` for `BigInt` (via `ToBigInt`).
#[verifier::external_body]
pub(crate) fn num_bitand(a: &Vec<u8>, b: &Vec<u8>) -> (r: Vec<u8>)
    requires
        num_ok(a@),
        num_ok(b@),
        num_is_int_of(a@),
        num_is_int_of(b@),
    ensures
        r@ == num_and_of(a@, b@),
        num_ok(r@),
{
    let x = BigDecimal::parse_bytes(a, 10).unwrap().to_bigint().unwrap();
    let y = BigDecimal::parse_bytes(b, 10).unwrap().to_bigint().unwrap();
    BigDecimal::from(x & y).to_string().into_bytes()
}

/// Relies on `BitXor` for `BigInt` (via `ToBigInt`).
#[verifier::external_body]
pub(crate) fn num_bitxor(a: &Vec<u8>, b: &Vec<u8>) -> (r: Vec<u8>)
    requires
        num_ok(a@),
        num_ok(b@),
        num_is_int_of(a@),
        num_is_int_of(b@),
    ensures
        r@ == num_xor_of(a@, b@),
        num_ok(r@),
{
    let x = BigDecimal::parse_bytes(a, 10).unwrap().to_bigint().unwrap();
    let y = BigDecimal::parse_bytes(b, 10).unwrap().to_bigint().unwrap();
    BigDecimal::from(x ^ y).to_string().into_bytes()
}

/// Relies on `BitOr` for `BigInt` (via `ToBigInt`).
#[verifier::external_body]
pub(crate) fn num_bitor(a: &Vec<u8>, b: &Vec<u8>) -> (r: Vec<u8>)
    requires
        num_ok(a@),
        num_ok(b@),
        num_is_int_of(a@),
        num_is_int_of(b@),
    ensures
        r@ == num_or_of(a@, b@),
        num_ok(r@),
{
    let x = BigDecimal::parse_bytes(a, 10).unwrap().to_bigint().unwrap();
    let y = BigDecimal::parse_bytes(b, 10).unwrap().to_bigint().unwrap();
    BigDecimal::from(x | y).to_string().into_bytes()
}

} // verus!
