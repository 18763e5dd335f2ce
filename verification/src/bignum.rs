//! Arbitrary-precision integers and rationals, held as two's-complement bytes
//! and computed on by the `num` crate.

use vstd::prelude::*;

verus! {

/// Unsigned value of little-endian base-256 digits.
pub open spec fn le_nat(s: Seq<u8>) -> nat
    decreases s.len(),
{
    if s.len() == 0 {
        0
    } else {
        s[0] as nat + 256 * le_nat(s.drop_first())
    }
}

/// `256` to the power `n`.
pub open spec fn pow256(n: nat) -> nat
    decreases n,
{
    if n == 0 {
        1
    } else {
        256 * pow256((n - 1) as nat)
    }
}

/// Value of little-endian two's-complement bytes (the empty sequence is zero).
pub open spec fn twos_complement_value(s: Seq<u8>) -> int {
    if s.len() > 0 && s.last() >= 128 {
        le_nat(s) - pow256(s.len())
    } else {
        le_nat(s) as int
    }
}

/// Absolute value.
pub open spec fn abs_int(x: int) -> nat {
    if x < 0 {
        (-x) as nat
    } else {
        x as nat
    }
}

/// Greatest common divisor (Euclid).
pub open spec fn gcd(a: nat, b: nat) -> nat
    decreases b,
{
    if b == 0 {
        a
    } else {
        gcd(b, a % b)
    }
}

/// The fraction `n / d` (with `d != 0`) in lowest terms with a positive
/// denominator, as a pair (numerator, denominator).
pub open spec fn lowest_terms(n: int, d: int) -> (int, int) {
    let g = gcd(abs_int(n), abs_int(d)) as int;
    if d > 0 {
        (n / g, d / g)
    } else {
        ((-n) / g, (-d) / g)
    }
}

/// A (numerator, denominator) pair is in lowest terms with a positive denominator.
pub open spec fn is_lowest_terms(q: (int, int)) -> bool {
    q.1 > 0 && gcd(abs_int(q.0), q.1 as nat) == 1
}

/// Division rounded toward zero (`d > 0`).
pub open spec fn trunc_div(n: int, d: int) -> int {
    if n >= 0 {
        n / d
    } else {
        -((-n) / d)
    }
}

/// Decimal digit character for `d < 10`.
pub open spec fn digit_char(d: nat) -> char {
    (48 + d) as char
}

/// Decimal digits of a natural number, most significant first, without
/// leading zeros (zero is "0").
pub open spec fn nat_decimal(n: nat) -> Seq<char>
    decreases n,
{
    if n < 10 {
        seq![digit_char(n)]
    } else {
        nat_decimal(n / 10).push(digit_char(n % 10))
    }
}

/// Decimal text of an integer: a leading '-' for negatives, then the digits.
pub open spec fn int_decimal(v: int) -> Seq<char> {
    if v < 0 {
        seq!['-'] + nat_decimal(abs_int(v))
    } else {
        nat_decimal(v as nat)
    }
}

/// An arbitrary-precision integer.
pub struct BigInt {
    bytes: Vec<u8>,
}

impl View for BigInt {
    type V = int;

    closed spec fn view(&self) -> int {
        twos_complement_value(self.bytes@)
    }
}

/// `num::BigInt::from(v)`, read back through `to_signed_bytes_le`: the
/// integer `v` itself.
#[verifier::external_body]
fn num_int_from_i64(v: i64) -> (r: BigInt)
    ensures
        r@ == v as int,
{
    BigInt { bytes: num::BigInt::from(v).to_signed_bytes_le() }
}

/// `ToPrimitive::to_i64` on a `num::BigInt`: the value when it fits in an `i64`.
#[verifier::external_body]
fn num_int_to_i64(x: &BigInt) -> (r: Option<i64>)
    ensures
        r == (if i64::MIN <= x@ <= i64::MAX { Some(x@ as i64) } else { None::<i64> }),
{
    num::traits::ToPrimitive::to_i64(&num::BigInt::from_signed_bytes_le(&x.bytes))
}

/// `Signed::is_positive` on a `num::BigInt`: whether it is above zero.
#[verifier::external_body]
pub(crate) fn num_int_is_positive(x: &BigInt) -> (r: bool)
    ensures
        r == (x@ > 0),
{
    num::traits::Signed::is_positive(&num::BigInt::from_signed_bytes_le(&x.bytes))
}

/// `num::BigInt::sqrt` (the truncated principal square root), which panics on
/// negative input: the largest `r >= 0` with `r * r <= x`.
#[verifier::external_body]
pub(crate) fn num_int_sqrt(x: &BigInt) -> (r: BigInt)
    requires
        x@ >= 0,
    ensures
        r@ >= 0,
        r@ * r@ <= x@ < (r@ + 1) * (r@ + 1),
{
    BigInt { bytes: num::BigInt::from_signed_bytes_le(&x.bytes).sqrt().to_signed_bytes_le() }
}

/// `num::BigInt::cbrt` (the truncated principal cube root): the largest
/// magnitude whose cube is at most the magnitude of `x`, with the sign of `x`.
#[verifier::external_body]
pub(crate) fn num_int_cbrt(x: &BigInt) -> (r: BigInt)
    ensures
        x@ >= 0 ==> r@ >= 0,
        x@ < 0 ==> r@ <= 0,
        abs_int(r@) * abs_int(r@) * abs_int(r@) <= abs_int(x@),
        abs_int(x@) < (abs_int(r@) + 1) * (abs_int(r@) + 1) * (abs_int(r@) + 1),
{
    BigInt { bytes: num::BigInt::from_signed_bytes_le(&x.bytes).cbrt().to_signed_bytes_le() }
}

/// `Mul` on `num::BigInt`: the exact product.
#[verifier::external_body]
pub(crate) fn num_int_mul(x: &BigInt, y: &BigInt) -> (r: BigInt)
    ensures
        r@ == x@ * y@,
{
    let p = num::BigInt::from_signed_bytes_le(&x.bytes) * num::BigInt::from_signed_bytes_le(&y.bytes);
    BigInt { bytes: p.to_signed_bytes_le() }
}

/// `PartialEq` on `num::BigInt`: equality of the values.
#[verifier::external_body]
pub(crate) fn num_int_eq(x: &BigInt, y: &BigInt) -> (r: bool)
    ensures
        r == (x@ == y@),
{
    num::BigInt::from_signed_bytes_le(&x.bytes) == num::BigInt::from_signed_bytes_le(&y.bytes)
}

/// `ToString` through `Display` on `num::BigInt`: the decimal text.
#[verifier::external_body]
fn num_int_to_string(x: &BigInt) -> (r: String)
    ensures
        r@ == int_decimal(x@),
{
    num::BigInt::from_signed_bytes_le(&x.bytes).to_string()
}

impl BigInt {
    /// The integer `v`.
    pub fn from_i64(v: i64) -> (r: BigInt)
        ensures
            r@ == v as int,
    {
        num_int_from_i64(v)
    }

    /// The value as an `i64`, when it fits.
    pub fn to_i64(&self) -> (r: Option<i64>)
        ensures
            r == (if i64::MIN <= self@ <= i64::MAX { Some(self@ as i64) } else { None::<i64> }),
    {
        num_int_to_i64(self)
    }

    /// The decimal text of the value.
    pub fn to_decimal_string(&self) -> (r: String)
        ensures
            r@ == int_decimal(self@),
    {
        num_int_to_string(self)
    }

    /// A copy of the value.
    pub fn copy(&self) -> (r: BigInt)
        ensures
            r@ == self@,
    {
        BigInt { bytes: self.bytes.clone() }
    }
}

} // verus!

verus! {

/// Order of rationals given as pairs with positive denominators: `a <= b`.
pub open spec fn rat_le(a: (int, int), b: (int, int)) -> bool {
    a.0 * b.1 <= b.0 * a.1
}

/// Strict order of rationals given as pairs with positive denominators: `a < b`.
pub open spec fn rat_lt(a: (int, int), b: (int, int)) -> bool {
    a.0 * b.1 < b.0 * a.1
}

/// Equality of the values of two fractions with nonzero denominators.
pub open spec fn rat_eq(a: (int, int), b: (int, int)) -> bool {
    a.0 * b.1 == b.0 * a.1
}

/// `-a`.
pub open spec fn rat_neg(a: (int, int)) -> (int, int) {
    (-a.0, a.1)
}

/// `|a|` (for a positive denominator).
pub open spec fn rat_abs(a: (int, int)) -> (int, int) {
    (abs_int(a.0) as int, a.1)
}

/// `a + b` in lowest terms.
pub open spec fn rat_add(a: (int, int), b: (int, int)) -> (int, int) {
    lowest_terms(a.0 * b.1 + b.0 * a.1, a.1 * b.1)
}

/// `a - b` in lowest terms.
pub open spec fn rat_sub(a: (int, int), b: (int, int)) -> (int, int) {
    lowest_terms(a.0 * b.1 - b.0 * a.1, a.1 * b.1)
}

/// `a * b` in lowest terms.
pub open spec fn rat_mul(a: (int, int), b: (int, int)) -> (int, int) {
    lowest_terms(a.0 * b.0, a.1 * b.1)
}

/// `a / b` in lowest terms (`b` nonzero).
pub open spec fn rat_div(a: (int, int), b: (int, int)) -> (int, int) {
    lowest_terms(a.0 * b.1, a.1 * b.0)
}

/// `1 / a` with a positive denominator (`a` nonzero, in lowest terms).
pub open spec fn rat_recip(a: (int, int)) -> (int, int) {
    if a.0 > 0 {
        (a.1, a.0)
    } else {
        (-a.1, -a.0)
    }
}

/// Largest integer not above `a`.
pub open spec fn rat_floor(a: (int, int)) -> (int, int) {
    (a.0 / a.1, 1)
}

/// Smallest integer not below `a`.
pub open spec fn rat_ceil(a: (int, int)) -> (int, int) {
    (-((-a.0) / a.1), 1)
}

/// Nearest integer, half-way cases away from zero.
pub open spec fn rat_round(a: (int, int)) -> (int, int) {
    if a.0 >= 0 {
        ((2 * a.0 + a.1) / (2 * a.1), 1)
    } else {
        (-((-2 * a.0 + a.1) / (2 * a.1)), 1)
    }
}

/// `a` raised to the natural power `e`, in lowest terms.
pub open spec fn rat_pow(a: (int, int), e: nat) -> (int, int) {
    lowest_terms(vstd::arithmetic::power::pow(a.0, e), vstd::arithmetic::power::pow(a.1, e))
}

/// An arbitrary-precision rational number, always in lowest terms with a
/// positive denominator.
pub struct BigRat {
    numer: BigInt,
    denom: BigInt,
}

impl View for BigRat {
    type V = (int, int);

    closed spec fn view(&self) -> (int, int) {
        (self.numer@, self.denom@)
    }
}

impl BigRat {
    /// The value is in lowest terms with a positive denominator.
    #[verifier::type_invariant]
    pub closed spec fn wf(self) -> bool {
        is_lowest_terms((self.numer@, self.denom@))
    }

    /// The numerator.
    pub fn numer(&self) -> (r: BigInt)
        ensures
            r@ == self@.0,
    {
        self.numer.copy()
    }

    /// The denominator.
    pub fn denom(&self) -> (r: BigInt)
        ensures
            r@ == self@.1,
    {
        self.denom.copy()
    }

    /// Well-formedness is exactly being in lowest terms with a positive denominator.
    pub proof fn lemma_wf(&self)
        requires
            self.wf(),
        ensures
            is_lowest_terms(self@),
    {
    }

    /// A copy of the value.
    pub fn copy(&self) -> (r: BigRat)
        ensures
            r@ == self@,
    {
        proof {
            use_type_invariant(self);
        }
        BigRat { numer: self.numer.copy(), denom: self.denom.copy() }
    }

    /// The integer `n` as a rational (denominator one).
    pub fn from_integer(n: BigInt) -> (r: BigRat)
        ensures
            r@ == (n@, 1int),
    {
        let one = BigInt::from_i64(1);
        assert(gcd(abs_int(n@), 1) == 1) by {
            reveal_with_fuel(gcd, 3);
        }
        BigRat { numer: n, denom: one }
    }
}

/// `num::BigRational::new`, which panics on a zero denominator: the fraction
/// in lowest terms with a positive denominator.
#[verifier::external_body]
pub(crate) fn num_rat_new(n: &BigInt, d: &BigInt) -> (r: BigRat)
    requires
        d@ != 0,
    ensures
        r@ == lowest_terms(n@, d@),
{
    let n = num::BigInt::from_signed_bytes_le(&n.bytes);
    let q = num::BigRational::new(n, num::BigInt::from_signed_bytes_le(&d.bytes));
    let numer = BigInt { bytes: q.numer().to_signed_bytes_le() };
    BigRat { numer, denom: BigInt { bytes: q.denom().to_signed_bytes_le() } }
}


/// `CheckedAdd::checked_add` on `num::BigRational`: always the exact sum, in lowest terms.
#[verifier::external_body]
pub(crate) fn num_rat_checked_add(a: &BigRat, b: &BigRat) -> (r: Option<BigRat>)
    ensures
        r is Some,
        r matches Some(q) ==> q@ == rat_add(a@, b@),
{
    let x = num::BigRational::new_raw(
        num::BigInt::from_signed_bytes_le(&a.numer.bytes),
        num::BigInt::from_signed_bytes_le(&a.denom.bytes),
    );
    let y = num::BigRational::new_raw(
        num::BigInt::from_signed_bytes_le(&b.numer.bytes),
        num::BigInt::from_signed_bytes_le(&b.denom.bytes),
    );
    num::traits::CheckedAdd::checked_add(&x, &y).map(|q| BigRat {
        numer: BigInt { bytes: q.numer().to_signed_bytes_le() },
        denom: BigInt { bytes: q.denom().to_signed_bytes_le() },
    })
}

/// `CheckedSub::checked_sub` on `num::BigRational`: always the exact difference, in lowest terms.
#[verifier::external_body]
pub(crate) fn num_rat_checked_sub(a: &BigRat, b: &BigRat) -> (r: Option<BigRat>)
    ensures
        r is Some,
        r matches Some(q) ==> q@ == rat_sub(a@, b@),
{
    let x = num::BigRational::new_raw(
        num::BigInt::from_signed_bytes_le(&a.numer.bytes),
        num::BigInt::from_signed_bytes_le(&a.denom.bytes),
    );
    let y = num::BigRational::new_raw(
        num::BigInt::from_signed_bytes_le(&b.numer.bytes),
        num::BigInt::from_signed_bytes_le(&b.denom.bytes),
    );
    num::traits::CheckedSub::checked_sub(&x, &y).map(|q| BigRat {
        numer: BigInt { bytes: q.numer().to_signed_bytes_le() },
        denom: BigInt { bytes: q.denom().to_signed_bytes_le() },
    })
}

/// `CheckedMul::checked_mul` on `num::BigRational`: always the exact product, in lowest terms.
#[verifier::external_body]
pub(crate) fn num_rat_checked_mul(a: &BigRat, b: &BigRat) -> (r: Option<BigRat>)
    ensures
        r is Some,
        r matches Some(q) ==> q@ == rat_mul(a@, b@),
{
    let x = num::BigRational::new_raw(
        num::BigInt::from_signed_bytes_le(&a.numer.bytes),
        num::BigInt::from_signed_bytes_le(&a.denom.bytes),
    );
    let y = num::BigRational::new_raw(
        num::BigInt::from_signed_bytes_le(&b.numer.bytes),
        num::BigInt::from_signed_bytes_le(&b.denom.bytes),
    );
    num::traits::CheckedMul::checked_mul(&x, &y).map(|q| BigRat {
        numer: BigInt { bytes: q.numer().to_signed_bytes_le() },
        denom: BigInt { bytes: q.denom().to_signed_bytes_le() },
    })
}

/// `CheckedDiv::checked_div` on `num::BigRational`: `None` exactly when the divisor is zero, else the exact quotient in lowest terms.
#[verifier::external_body]
pub(crate) fn num_rat_checked_div(a: &BigRat, b: &BigRat) -> (r: Option<BigRat>)
    ensures
        r is None <==> b@.0 == 0,
        r matches Some(q) ==> q@ == rat_div(a@, b@),
{
    let x = num::BigRational::new_raw(
        num::BigInt::from_signed_bytes_le(&a.numer.bytes),
        num::BigInt::from_signed_bytes_le(&a.denom.bytes),
    );
    let y = num::BigRational::new_raw(
        num::BigInt::from_signed_bytes_le(&b.numer.bytes),
        num::BigInt::from_signed_bytes_le(&b.denom.bytes),
    );
    num::traits::CheckedDiv::checked_div(&x, &y).map(|q| BigRat {
        numer: BigInt { bytes: q.numer().to_signed_bytes_le() },
        denom: BigInt { bytes: q.denom().to_signed_bytes_le() },
    })
}

/// `Ord::min` on `num::BigRational`: the first argument when it is not above the second, else the second.
#[verifier::external_body]
pub(crate) fn num_rat_min(a: &BigRat, b: &BigRat) -> (r: BigRat)
    ensures
        r@ == (if rat_le(a@, b@) { a@ } else { b@ }),
{
    let x = num::BigRational::new_raw(
        num::BigInt::from_signed_bytes_le(&a.numer.bytes),
        num::BigInt::from_signed_bytes_le(&a.denom.bytes),
    );
    let y = num::BigRational::new_raw(
        num::BigInt::from_signed_bytes_le(&b.numer.bytes),
        num::BigInt::from_signed_bytes_le(&b.denom.bytes),
    );
    let q = x.min(y);
    BigRat {
        numer: BigInt { bytes: q.numer().to_signed_bytes_le() },
        denom: BigInt { bytes: q.denom().to_signed_bytes_le() },
    }
}

/// `Ord::max` on `num::BigRational`: the second argument when the first is not above it, else the first.
#[verifier::external_body]
pub(crate) fn num_rat_max(a: &BigRat, b: &BigRat) -> (r: BigRat)
    ensures
        r@ == (if rat_le(a@, b@) { b@ } else { a@ }),
{
    let x = num::BigRational::new_raw(
        num::BigInt::from_signed_bytes_le(&a.numer.bytes),
        num::BigInt::from_signed_bytes_le(&a.denom.bytes),
    );
    let y = num::BigRational::new_raw(
        num::BigInt::from_signed_bytes_le(&b.numer.bytes),
        num::BigInt::from_signed_bytes_le(&b.denom.bytes),
    );
    let q = x.max(y);
    BigRat {
        numer: BigInt { bytes: q.numer().to_signed_bytes_le() },
        denom: BigInt { bytes: q.denom().to_signed_bytes_le() },
    }
}

/// `Neg` on `num::BigRational`: the numerator negated, the denominator kept.
#[verifier::external_body]
pub(crate) fn num_rat_neg(a: &BigRat) -> (r: BigRat)
    ensures
        r@ == rat_neg(a@),
{
    let x = num::BigRational::new_raw(
        num::BigInt::from_signed_bytes_le(&a.numer.bytes),
        num::BigInt::from_signed_bytes_le(&a.denom.bytes),
    );
    let q = -x;
    BigRat {
        numer: BigInt { bytes: q.numer().to_signed_bytes_le() },
        denom: BigInt { bytes: q.denom().to_signed_bytes_le() },
    }
}

/// `Signed::abs` on `num::BigRational`: the negation of a negative value, else the value.
#[verifier::external_body]
pub(crate) fn num_rat_abs(a: &BigRat) -> (r: BigRat)
    ensures
        r@ == (if a@.0 < 0 { rat_neg(a@) } else { a@ }),
{
    let x = num::BigRational::new_raw(
        num::BigInt::from_signed_bytes_le(&a.numer.bytes),
        num::BigInt::from_signed_bytes_le(&a.denom.bytes),
    );
    let q = num::traits::Signed::abs(&x);
    BigRat {
        numer: BigInt { bytes: q.numer().to_signed_bytes_le() },
        denom: BigInt { bytes: q.denom().to_signed_bytes_le() },
    }
}

/// `num::BigRational::floor`: the largest integer not above the value.
#[verifier::external_body]
pub(crate) fn num_rat_floor(a: &BigRat) -> (r: BigRat)
    ensures
        r@ == rat_floor(a@),
{
    let x = num::BigRational::new_raw(
        num::BigInt::from_signed_bytes_le(&a.numer.bytes),
        num::BigInt::from_signed_bytes_le(&a.denom.bytes),
    );
    let q = x.floor();
    BigRat {
        numer: BigInt { bytes: q.numer().to_signed_bytes_le() },
        denom: BigInt { bytes: q.denom().to_signed_bytes_le() },
    }
}

/// `num::BigRational::ceil`: the smallest integer not below the value.
#[verifier::external_body]
pub(crate) fn num_rat_ceil(a: &BigRat) -> (r: BigRat)
    ensures
        r@ == rat_ceil(a@),
{
    let x = num::BigRational::new_raw(
        num::BigInt::from_signed_bytes_le(&a.numer.bytes),
        num::BigInt::from_signed_bytes_le(&a.denom.bytes),
    );
    let q = x.ceil();
    BigRat {
        numer: BigInt { bytes: q.numer().to_signed_bytes_le() },
        denom: BigInt { bytes: q.denom().to_signed_bytes_le() },
    }
}

/// `num::BigRational::round`: the nearest integer, half-way cases away from zero.
#[verifier::external_body]
pub(crate) fn num_rat_round(a: &BigRat) -> (r: BigRat)
    ensures
        r@ == rat_round(a@),
{
    let x = num::BigRational::new_raw(
        num::BigInt::from_signed_bytes_le(&a.numer.bytes),
        num::BigInt::from_signed_bytes_le(&a.denom.bytes),
    );
    let q = x.round();
    BigRat {
        numer: BigInt { bytes: q.numer().to_signed_bytes_le() },
        denom: BigInt { bytes: q.denom().to_signed_bytes_le() },
    }
}

/// `num::BigRational::recip`, which panics on zero: the reciprocal with a positive denominator.
#[verifier::external_body]
pub(crate) fn num_rat_recip(a: &BigRat) -> (r: BigRat)
    requires
        a@.0 != 0,
    ensures
        r@ == rat_recip(a@),
{
    let x = num::BigRational::new_raw(
        num::BigInt::from_signed_bytes_le(&a.numer.bytes),
        num::BigInt::from_signed_bytes_le(&a.denom.bytes),
    );
    let q = x.recip();
    BigRat {
        numer: BigInt { bytes: q.numer().to_signed_bytes_le() },
        denom: BigInt { bytes: q.denom().to_signed_bytes_le() },
    }
}

/// `num::BigRational::is_integer`: whether the denominator is one.
#[verifier::external_body]
pub(crate) fn num_rat_is_integer(a: &BigRat) -> (r: bool)
    ensures
        r == (a@.1 == 1),
{
    let x = num::BigRational::new_raw(
        num::BigInt::from_signed_bytes_le(&a.numer.bytes),
        num::BigInt::from_signed_bytes_le(&a.denom.bytes),
    );
    x.is_integer()
}

/// `Zero::is_zero` on `num::BigRational`: whether the numerator is zero.
#[verifier::external_body]
pub(crate) fn num_rat_is_zero(a: &BigRat) -> (r: bool)
    ensures
        r == (a@.0 == 0),
{
    let x = num::BigRational::new_raw(
        num::BigInt::from_signed_bytes_le(&a.numer.bytes),
        num::BigInt::from_signed_bytes_le(&a.denom.bytes),
    );
    num::traits::Zero::is_zero(&x)
}

/// `One::is_one` on `num::BigRational`: whether numerator and denominator are equal.
#[verifier::external_body]
pub(crate) fn num_rat_is_one(a: &BigRat) -> (r: bool)
    ensures
        r == (a@.0 == a@.1),
{
    let x = num::BigRational::new_raw(
        num::BigInt::from_signed_bytes_le(&a.numer.bytes),
        num::BigInt::from_signed_bytes_le(&a.denom.bytes),
    );
    num::traits::One::is_one(&x)
}

/// `Signed::is_positive` on `num::BigRational`: whether numerator and denominator have the same nonzero sign.
#[verifier::external_body]
pub(crate) fn num_rat_is_positive(a: &BigRat) -> (r: bool)
    ensures
        r == ((a@.0 > 0 && a@.1 > 0) || (a@.0 < 0 && a@.1 < 0)),
{
    let x = num::BigRational::new_raw(
        num::BigInt::from_signed_bytes_le(&a.numer.bytes),
        num::BigInt::from_signed_bytes_le(&a.denom.bytes),
    );
    num::traits::Signed::is_positive(&x)
}

/// `Signed::is_negative` on `num::BigRational`: whether numerator and denominator have opposite nonzero signs.
#[verifier::external_body]
pub(crate) fn num_rat_is_negative(a: &BigRat) -> (r: bool)
    ensures
        r == ((a@.0 < 0 && a@.1 > 0) || (a@.0 > 0 && a@.1 < 0)),
{
    let x = num::BigRational::new_raw(
        num::BigInt::from_signed_bytes_le(&a.numer.bytes),
        num::BigInt::from_signed_bytes_le(&a.denom.bytes),
    );
    num::traits::Signed::is_negative(&x)
}

/// `PartialOrd::lt` on `num::BigRational`: `a < b`.
#[verifier::external_body]
pub(crate) fn num_rat_lt(a: &BigRat, b: &BigRat) -> (r: bool)
    ensures
        r == (rat_lt(a@, b@)),
{
    let x = num::BigRational::new_raw(
        num::BigInt::from_signed_bytes_le(&a.numer.bytes),
        num::BigInt::from_signed_bytes_le(&a.denom.bytes),
    );
    let y = num::BigRational::new_raw(
        num::BigInt::from_signed_bytes_le(&b.numer.bytes),
        num::BigInt::from_signed_bytes_le(&b.denom.bytes),
    );
    x < y
}

/// `PartialOrd::gt` on `num::BigRational`: `a > b`.
#[verifier::external_body]
pub(crate) fn num_rat_gt(a: &BigRat, b: &BigRat) -> (r: bool)
    ensures
        r == (rat_lt(b@, a@)),
{
    let x = num::BigRational::new_raw(
        num::BigInt::from_signed_bytes_le(&a.numer.bytes),
        num::BigInt::from_signed_bytes_le(&a.denom.bytes),
    );
    let y = num::BigRational::new_raw(
        num::BigInt::from_signed_bytes_le(&b.numer.bytes),
        num::BigInt::from_signed_bytes_le(&b.denom.bytes),
    );
    x > y
}

/// `PartialOrd::le` on `num::BigRational`: `a <= b`.
#[verifier::external_body]
pub(crate) fn num_rat_le(a: &BigRat, b: &BigRat) -> (r: bool)
    ensures
        r == (rat_le(a@, b@)),
{
    let x = num::BigRational::new_raw(
        num::BigInt::from_signed_bytes_le(&a.numer.bytes),
        num::BigInt::from_signed_bytes_le(&a.denom.bytes),
    );
    let y = num::BigRational::new_raw(
        num::BigInt::from_signed_bytes_le(&b.numer.bytes),
        num::BigInt::from_signed_bytes_le(&b.denom.bytes),
    );
    x <= y
}

/// `PartialOrd::ge` on `num::BigRational`: `a >= b`.
#[verifier::external_body]
pub(crate) fn num_rat_ge(a: &BigRat, b: &BigRat) -> (r: bool)
    ensures
        r == (rat_le(b@, a@)),
{
    let x = num::BigRational::new_raw(
        num::BigInt::from_signed_bytes_le(&a.numer.bytes),
        num::BigInt::from_signed_bytes_le(&a.denom.bytes),
    );
    let y = num::BigRational::new_raw(
        num::BigInt::from_signed_bytes_le(&b.numer.bytes),
        num::BigInt::from_signed_bytes_le(&b.denom.bytes),
    );
    x >= y
}

/// `ToPrimitive::to_i64` on `num::BigRational`: the value rounded toward zero,
/// when that fits in an `i64`.
#[verifier::external_body]
pub(crate) fn num_rat_to_i64(a: &BigRat) -> (r: Option<i64>)
    ensures
        r == (if i64::MIN <= trunc_div(a@.0, a@.1) <= i64::MAX {
            Some(trunc_div(a@.0, a@.1) as i64)
        } else {
            None::<i64>
        }),
{
    let x = num::BigRational::new_raw(
        num::BigInt::from_signed_bytes_le(&a.numer.bytes),
        num::BigInt::from_signed_bytes_le(&a.denom.bytes),
    );
    num::traits::ToPrimitive::to_i64(&x)
}

/// `num::traits::checked_pow` on `num::BigRational`: always the exact power in
/// lowest terms (one for exponent zero). Running out of memory on huge
/// results is not modelled.
#[verifier::external_body]
pub(crate) fn num_rat_checked_pow(a: &BigRat, e: usize) -> (r: Option<BigRat>)
    ensures
        r is Some,
        r matches Some(q) ==> q@ == rat_pow(a@, e as nat),
{
    let x = num::BigRational::new_raw(
        num::BigInt::from_signed_bytes_le(&a.numer.bytes),
        num::BigInt::from_signed_bytes_le(&a.denom.bytes),
    );
    num::traits::checked_pow(x, e).map(|q| BigRat {
        numer: BigInt { bytes: q.numer().to_signed_bytes_le() },
        denom: BigInt { bytes: q.denom().to_signed_bytes_le() },
    })
}

} // verus!

verus! {

/// The gcd of two naturals, not both zero, is positive and divides both.
pub proof fn lemma_gcd_divides(a: nat, b: nat)
    requires
        a > 0 || b > 0,
    ensures
        gcd(a, b) > 0,
        a % gcd(a, b) == 0,
        b % gcd(a, b) == 0,
    decreases b,
{
    if b == 0 {
        vstd::arithmetic::div_mod::lemma_mod_self_0(a as int);
    } else {
        let r = a % b;
        lemma_gcd_divides(b, r);
        let g = gcd(b, r);
        vstd::arithmetic::div_mod::lemma_fundamental_div_mod(a as int, b as int);
        vstd::arithmetic::div_mod::lemma_fundamental_div_mod(b as int, g as int);
        vstd::arithmetic::div_mod::lemma_fundamental_div_mod(r as int, g as int);
        let q = a / b;
        let x = b / g;
        let y = r / g;
        let k = x * q + y;
        assert(a == k * g) by (nonlinear_arith)
            requires
                a == b * q + r,
                b == g * x,
                r == g * y,
                k == x * q + y,
        ;
        vstd::arithmetic::div_mod::lemma_mod_multiples_basic(k as int, g as int);
    }
}

/// `g` divides `x` exactly: `x` is `g` times the quotient, also for negative `x`.
proof fn lemma_exact_div(x: int, g: int)
    requires
        g > 0,
        abs_int(x) % (g as nat) == 0,
    ensures
        x == g * (x / g),
        -x == g * ((-x) / g),
        (-x) / g == -(x / g),
{
    let m = abs_int(x) as int;
    vstd::arithmetic::div_mod::lemma_fundamental_div_mod(m, g);
    let k = m / g;
    assert(m == g * k);
    assert(k * g == m && (-k) * g == -m && g * (-k) == -m) by (nonlinear_arith)
        requires
            m == g * k,
    ;
    if x >= 0 {
        vstd::arithmetic::div_mod::lemma_fundamental_div_mod_converse(x, g, k, 0);
        vstd::arithmetic::div_mod::lemma_fundamental_div_mod_converse(-x, g, -k, 0);
    } else {
        vstd::arithmetic::div_mod::lemma_fundamental_div_mod_converse(x, g, -k, 0);
        vstd::arithmetic::div_mod::lemma_fundamental_div_mod_converse(-x, g, k, 0);
    }
}

/// `lowest_terms(n, d)` has a positive denominator and the value `n / d`.
pub proof fn lemma_lowest_terms_value(n: int, d: int)
    requires
        d != 0,
    ensures
        lowest_terms(n, d).1 > 0,
        lowest_terms(n, d).0 * d == n * lowest_terms(n, d).1,
{
    let g = gcd(abs_int(n), abs_int(d)) as int;
    lemma_gcd_divides(abs_int(n), abs_int(d));
    lemma_exact_div(n, g);
    lemma_exact_div(d, g);
    let qn = n / g;
    let qd = d / g;
    if d > 0 {
        assert(qd > 0) by (nonlinear_arith)
            requires
                d == g * qd,
                d > 0,
                g > 0,
        ;
        assert(qn * d == n * qd) by (nonlinear_arith)
            requires
                n == g * qn,
                d == g * qd,
        ;
    } else {
        assert(-qd > 0) by (nonlinear_arith)
            requires
                d == g * qd,
                d < 0,
                g > 0,
        ;
        assert((-qn) * d == n * (-qd)) by (nonlinear_arith)
            requires
                n == g * qn,
                d == g * qd,
        ;
    }
}

/// A pair already in lowest terms is its own lowest terms.
pub proof fn lemma_lowest_terms_fixed(q: (int, int))
    requires
        is_lowest_terms(q),
    ensures
        lowest_terms(q.0, q.1) == q,
{
}

} // verus!

verus! {

/// Bezout coefficients: `a * x + b * y == gcd(a, b)`.
pub proof fn lemma_bezout(a: nat, b: nat) -> (r: (int, int))
    ensures
        a * r.0 + b * r.1 == gcd(a, b),
    decreases b,
{
    if b == 0 {
        (1, 0)
    } else {
        let (x, y) = lemma_bezout(b, a % b);
        let q = (a / b) as int;
        vstd::arithmetic::div_mod::lemma_fundamental_div_mod(a as int, b as int);
        assert(a * y + b * (x - q * y) == b * x + (a % b) * y) by (nonlinear_arith)
            requires
                a == b * q + a % b,
        ;
        (y, x - q * y)
    }
}

/// A positive common divisor of `a` and `b` divides `a * x + b * y`.
proof fn lemma_divides_combination(h: int, a: int, b: int, x: int, y: int)
    requires
        h > 0,
        a % h == 0,
        b % h == 0,
    ensures
        (a * x + b * y) % h == 0,
{
    vstd::arithmetic::div_mod::lemma_fundamental_div_mod(a, h);
    vstd::arithmetic::div_mod::lemma_fundamental_div_mod(b, h);
    let k = (a / h) * x + (b / h) * y;
    assert(a * x + b * y == k * h) by (nonlinear_arith)
        requires
            a == h * (a / h),
            b == h * (b / h),
            k == (a / h) * x + (b / h) * y,
    ;
    vstd::arithmetic::div_mod::lemma_mod_multiples_basic(k, h);
}

/// Naturals with a combination equal to one have gcd one.
pub(crate) proof fn lemma_coprime_of_combination(a: nat, b: nat, x: int, y: int)
    requires
        b > 0,
        a * x + b * y == 1,
    ensures
        gcd(a, b) == 1,
{
    lemma_gcd_divides(a, b);
    let h = gcd(a, b) as int;
    lemma_divides_combination(h, a as int, b as int, x, y);
    if h > 1 {
        vstd::arithmetic::div_mod::lemma_small_mod(1, h as nat);
    }
}

/// `lowest_terms` indeed gives a pair in lowest terms.
pub proof fn lemma_lowest_terms_reduced(n: int, d: int)
    requires
        d != 0,
    ensures
        is_lowest_terms(lowest_terms(n, d)),
{
    let an = abs_int(n);
    let ad = abs_int(d);
    let g = gcd(an, ad) as int;
    lemma_gcd_divides(an, ad);
    lemma_exact_div(n, g);
    lemma_exact_div(d, g);
    lemma_lowest_terms_value(n, d);
    let (x, y) = lemma_bezout(an, ad);
    let r = lowest_terms(n, d);
    // |r.0| = |n| / g and r.1 = |d| / g
    let rn = abs_int(r.0);
    let rd = r.1 as nat;
    assert(an == g * rn && ad == g * rd) by (nonlinear_arith)
        requires
            n == g * (n / g),
            -n == g * ((-n) / g),
            d == g * (d / g),
            -d == g * ((-d) / g),
            (-n) / g == -(n / g),
            (-d) / g == -(d / g),
            r == (if d > 0 { (n / g, d / g) } else { ((-n) / g, (-d) / g) }),
            rn == abs_int(r.0),
            rd == r.1,
            r.1 > 0,
            an == abs_int(n),
            ad == abs_int(d),
            g > 0,
    ;
    assert(rn * x + rd * y == 1) by (nonlinear_arith)
        requires
            an * x + ad * y == g,
            an == g * rn,
            ad == g * rd,
            g > 0,
    ;
    lemma_coprime_of_combination(rn, rd, x, y);
}

/// Two pairs in lowest terms with equal values are the same pair.
pub proof fn lemma_lowest_terms_unique(p: (int, int), q: (int, int))
    requires
        is_lowest_terms(p),
        is_lowest_terms(q),
        p.0 * q.1 == q.0 * p.1,
    ensures
        p == q,
{
    lemma_divides_other_denominator(p, q);
    lemma_divides_other_denominator(q, p);
    let (b, d) = (p.1, q.1);
    vstd::arithmetic::div_mod::lemma_fundamental_div_mod(d, b);
    vstd::arithmetic::div_mod::lemma_fundamental_div_mod(b, d);
    assert(b == d) by (nonlinear_arith)
        requires
            b > 0,
            d > 0,
            d == b * (d / b),
            b == d * (b / d),
    ;
    assert(p.0 == q.0) by (nonlinear_arith)
        requires
            p.0 * d == q.0 * b,
            b == d,
            d > 0,
    ;
}

/// For equal values in lowest terms, the first denominator divides the second.
proof fn lemma_divides_other_denominator(p: (int, int), q: (int, int))
    requires
        is_lowest_terms(p),
        q.1 > 0,
        p.0 * q.1 == q.0 * p.1,
    ensures
        q.1 % p.1 == 0,
{
    let (a, b) = p;
    let (c, d) = q;
    let (x, y) = lemma_bezout(abs_int(a), b as nat);
    // d = d * (|a| x + b y) = (|a| d) x + b d y = (|c| b) x + b d y
    assert(d == b * (abs_int(c) * x + d * y)) by (nonlinear_arith)
        requires
            abs_int(a) * x + b * y == 1,
            a * d == c * b,
            b > 0,
            d > 0,
    ;
    vstd::arithmetic::div_mod::lemma_mod_multiples_basic(abs_int(c) * x + d * y, b);
    assert(d == (abs_int(c) * x + d * y) * b) by (nonlinear_arith)
        requires
            d == b * (abs_int(c) * x + d * y),
    ;
}

} // verus!
