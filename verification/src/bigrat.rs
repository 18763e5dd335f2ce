//! The rational-number sort: what each of its primitives computes, and when
//! a primitive has no result.

use vstd::prelude::*;
use crate::exprs::{call, Expr};
use crate::literal::Literal;
use crate::bignum::{
    lemma_bezout, lemma_coprime_of_combination, lemma_lowest_terms_reduced,
    lemma_lowest_terms_unique,
    abs_int, gcd, int_decimal, is_lowest_terms, lemma_lowest_terms_fixed,
    lemma_lowest_terms_value, lowest_terms, rat_abs, rat_add, rat_ceil, rat_div, rat_eq,
    rat_floor, rat_le, rat_lt, rat_mul, rat_neg, rat_pow, rat_recip, rat_round, rat_sub, BigInt,
    BigRat,
};
use crate::bignum::{
    num_int_cbrt, num_int_eq, num_int_is_positive, num_int_mul, num_int_sqrt, num_rat_abs, num_rat_ceil,
    num_rat_checked_add, num_rat_checked_div, num_rat_checked_mul, num_rat_checked_pow,
    num_rat_checked_sub, num_rat_floor, num_rat_ge, num_rat_gt, num_rat_is_integer,
    num_rat_is_negative, num_rat_is_one, num_rat_is_positive, num_rat_is_zero, num_rat_le,
    num_rat_lt, num_rat_max, num_rat_min, num_rat_neg, num_rat_new, num_rat_recip, num_rat_round,
    num_rat_to_i64,
};

verus! {

/// View of an optional rational.
pub open spec fn opt_view(r: Option<BigRat>) -> Option<(int, int)> {
    match r {
        Some(q) => Some(q@),
        None => None,
    }
}

/// The square of a natural number.
pub open spec fn square(s: nat) -> int {
    (s * s) as int
}

/// Whether `x` is the square of a natural number.
pub open spec fn is_square(x: int) -> bool {
    exists|s: nat| #[trigger] square(s) == x
}

/// The natural square root of a perfect square.
pub open spec fn square_root(x: int) -> nat {
    choose|s: nat| #[trigger] square(s) == x
}

/// What the `pow` primitive gives: integer exponents only; `0^0 = 1`,
/// `0^n = 0` for `n > 0`, no result for `0^n` with `n < 0`; a negative
/// exponent raises the reciprocal; no result when the exponent's magnitude
/// exceeds `i64::MAX` or `usize::MAX`.
pub open spec fn pow_spec(a: (int, int), b: (int, int)) -> Option<(int, int)> {
    if b.1 != 1 {
        None
    } else if a.0 == 0 {
        if b.0 == 0 {
            Some((1, 1))
        } else if b.0 > 0 {
            Some((0, 1))
        } else {
            None
        }
    } else {
        let base = if b.0 < 0 { rat_recip(a) } else { a };
        let e = abs_int(b.0);
        if e > i64::MAX || e > usize::MAX {
            None
        } else {
            Some(rat_pow(base, e))
        }
    }
}

/// What the `sqrt` primitive gives: a result only for positive values whose
/// numerator and denominator are both perfect squares.
pub open spec fn sqrt_spec(a: (int, int)) -> Option<(int, int)> {
    if a.0 > 0 && a.1 > 0 && is_square(a.0) && is_square(a.1) {
        Some(lowest_terms(square_root(a.0) as int, square_root(a.1) as int))
    } else {
        None
    }
}

/// The cube of an integer.
pub open spec fn cube(t: int) -> int {
    t * t * t
}

/// Whether `x` is the cube of an integer.
pub open spec fn is_cube(x: int) -> bool {
    exists|t: int| #[trigger] cube(t) == x
}

/// The integer cube root of a perfect cube.
pub open spec fn cube_root(x: int) -> int {
    choose|t: int| #[trigger] cube(t) == x
}

/// What the `cbrt` primitive gives: the exact cube root when numerator and
/// denominator are both perfect cubes (so the root is rational), and no
/// result otherwise.
pub open spec fn cbrt_spec(a: (int, int)) -> Option<(int, int)> {
    if is_cube(a.0) && is_cube(a.1) {
        Some(lowest_terms(cube_root(a.0), cube_root(a.1)))
    } else {
        None
    }
}

/// What the `log` primitive gives: zero at one, where the natural logarithm
/// is rational, and no result elsewhere.
pub open spec fn log_spec(a: (int, int)) -> Option<(int, int)> {
    if a == (1int, 1int) {
        Some((0, 1))
    } else {
        None
    }
}

/// Cubes strictly increase.
proof fn lemma_cube_lt(s: int, t: int)
    requires
        s < t,
    ensures
        cube(s) < cube(t),
{
    assert(t * t * t - s * s * s == (t - s) * (t * t + t * s + s * s)) by (nonlinear_arith);
    assert(2 * (t * t + t * s + s * s) == t * t + s * s + (t + s) * (t + s)) by (nonlinear_arith);
    assert(t * t + s * s > 0) by (nonlinear_arith)
        requires
            s < t,
    ;
    assert((t + s) * (t + s) >= 0) by (nonlinear_arith);
    assert((t - s) * (t * t + t * s + s * s) > 0) by (nonlinear_arith)
        requires
            t - s > 0,
            t * t + t * s + s * s > 0,
    ;
}

/// An integer cube root is unique.
proof fn lemma_cube_root_unique(s: int, t: int)
    requires
        cube(s) == cube(t),
    ensures
        s == t,
{
    if s < t {
        lemma_cube_lt(s, t);
    } else if t < s {
        lemma_cube_lt(t, s);
    }
}

/// An exact integer cube root is the cube root.
proof fn lemma_is_cube_root(x: int, r: int)
    requires
        cube(r) == x,
    ensures
        is_cube(x),
        cube_root(x) == r,
{
    lemma_cube_root_unique(r, cube_root(x));
}

/// A truncated cube root that is not exact rules out every cube root.
proof fn lemma_not_cube(x: int, r: int)
    requires
        x >= 0 ==> r >= 0,
        x < 0 ==> r <= 0,
        abs_int(r) * abs_int(r) * abs_int(r) <= abs_int(x),
        abs_int(x) < (abs_int(r) + 1) * (abs_int(r) + 1) * (abs_int(r) + 1),
        cube(r) != x,
    ensures
        !is_cube(x),
{
    let s = abs_int(r) as int;
    let m = abs_int(x) as int;
    assert forall|t: int| #[trigger] cube(t) != x by {
        if cube(t) == x {
            let u = abs_int(t) as int;
            assert(cube(u) == m) by (nonlinear_arith)
                requires
                    cube(t) == x,
                    u == abs_int(t),
                    m == abs_int(x),
            ;
            assert(cube(s) <= m && m < cube(s + 1));
            if u < s {
                lemma_cube_lt(u, s);
            } else if u > s {
                lemma_cube_lt(s, s + 1);
                if u > s + 1 {
                    lemma_cube_lt(s + 1, u);
                }
            }
            assert(u == s);
            if x >= 0 {
                assert(t >= 0) by (nonlinear_arith)
                    requires
                        cube(t) == x,
                        x >= 0,
                ;
            } else {
                assert(t < 0) by (nonlinear_arith)
                    requires
                        cube(t) == x,
                        x < 0,
                ;
            }
            assert(t == r);
        }
    }
}

/// In lowest terms, equal numerator and denominator means the value one.
proof fn lemma_one(a: (int, int))
    requires
        is_lowest_terms(a),
    ensures
        (a.0 == a.1) <==> (a == (1int, 1int)),
{
    if a.0 == a.1 {
        let x = a.1 as nat;
        assert(abs_int(a.0) == x);
        assert(x % x == 0) by (nonlinear_arith)
            requires
                x > 0,
        ;
        assert(gcd(x, x) == gcd(x, 0));
    }
}

/// A natural square root is unique.
proof fn lemma_square_root_unique(s: int, t: int)
    requires
        s >= 0,
        t >= 0,
        s * s == t * t,
    ensures
        s == t,
{
    if s < t {
        assert(s * s < t * t) by (nonlinear_arith)
            requires
                0 <= s < t,
        ;
    } else if t < s {
        assert(t * t < s * s) by (nonlinear_arith)
            requires
                0 <= t < s,
        ;
    }
}

/// A square-bracketed floor root that is not exact rules out every root.
proof fn lemma_not_square(x: int, s: int)
    requires
        s >= 0,
        s * s <= x < (s + 1) * (s + 1),
        s * s != x,
    ensures
        !is_square(x),
{
    assert forall|t: nat| #[trigger] square(t) != x by {
        if t <= s {
            assert(t * t <= s * s) by (nonlinear_arith)
                requires
                    0 <= t <= s,
            ;
        } else {
            assert(t * t >= (s + 1) * (s + 1)) by (nonlinear_arith)
                requires
                    s + 1 <= t,
                    0 <= s,
            ;
        }
    }
}

/// An exact floor root is the square root.
proof fn lemma_is_square_root(x: int, s: int)
    requires
        s >= 0,
        s * s == x,
    ensures
        is_square(x),
        square_root(x) == s,
{
    assert(square(s as nat) == x);
    let r = square_root(x);
    lemma_square_root_unique(s, r as int);
}

/// The term `(from_string "<decimal text of v>")`.
pub open spec fn is_from_string_term(e: Expr, v: int) -> bool {
    match e {
        Expr::Call(f, xs) => f@ == "from_string"@ && xs@.len() == 1 && match xs@[0] {
            Expr::Lit(Literal::String(s)) => s@ == int_decimal(v),
            _ => false,
        },
        _ => false,
    }
}

/// The sort of arbitrary-precision rationals, named `BigRat`, with
/// arithmetic (`+ - * / neg abs`), exponentials (`pow log sqrt cbrt`),
/// rounding (`floor ceil round`), construction and destruction
/// (`bigrat numer denom`), comparisons (`< > <= >=`) and `min`/`max`.
pub struct BigRatSort;

impl BigRatSort {
    /// The sort's name.
    pub fn name(&self) -> (r: &'static str)
        ensures
            r@ == "BigRat"@,
    {
        "BigRat"
    }

    /// The term that rebuilds `value`:
    /// `(bigrat (from_string "<numerator>") (from_string "<denominator>"))`.
    pub fn reconstruct_termdag(&self, value: &BigRat) -> (r: Expr)
        ensures
            match r {
                Expr::Call(f, args) => f@ == "bigrat"@ && args@.len() == 2 && is_from_string_term(
                    args@[0],
                    value@.0,
                ) && is_from_string_term(args@[1], value@.1),
                _ => false,
            },
    {
        let numer_as_string = Expr::Lit(Literal::String(value.numer().to_decimal_string()));
        let denom_as_string = Expr::Lit(Literal::String(value.denom().to_decimal_string()));
        let numer_term = call("from_string", vec![numer_as_string]);
        let denom_term = call("from_string", vec![denom_as_string]);
        call("bigrat", vec![numer_term, denom_term])
    }

    /// `+`: always the exact sum.
    pub fn add(a: &BigRat, b: &BigRat) -> (r: Option<BigRat>)
        ensures
            opt_view(r) == Some(rat_add(a@, b@)),
    {
        num_rat_checked_add(a, b)
    }

    /// `-`: always the exact difference.
    pub fn sub(a: &BigRat, b: &BigRat) -> (r: Option<BigRat>)
        ensures
            opt_view(r) == Some(rat_sub(a@, b@)),
    {
        num_rat_checked_sub(a, b)
    }

    /// `*`: always the exact product.
    pub fn mul(a: &BigRat, b: &BigRat) -> (r: Option<BigRat>)
        ensures
            opt_view(r) == Some(rat_mul(a@, b@)),
    {
        num_rat_checked_mul(a, b)
    }

    /// `/`: the exact quotient, no result when dividing by zero.
    pub fn div(a: &BigRat, b: &BigRat) -> (r: Option<BigRat>)
        ensures
            opt_view(r) == (if b@.0 == 0 { None } else { Some(rat_div(a@, b@)) }),
    {
        num_rat_checked_div(a, b)
    }

    /// `min`: the smaller argument.
    pub fn min(a: &BigRat, b: &BigRat) -> (r: BigRat)
        ensures
            r@ == (if rat_le(a@, b@) { a@ } else { b@ }),
    {
        num_rat_min(a, b)
    }

    /// `max`: the larger argument.
    pub fn max(a: &BigRat, b: &BigRat) -> (r: BigRat)
        ensures
            r@ == (if rat_le(a@, b@) { b@ } else { a@ }),
    {
        num_rat_max(a, b)
    }

    /// `neg`: the negation.
    pub fn neg(a: &BigRat) -> (r: BigRat)
        ensures
            r@ == rat_neg(a@),
    {
        num_rat_neg(a)
    }

    /// `abs`: the absolute value.
    pub fn abs(a: &BigRat) -> (r: BigRat)
        ensures
            r@ == rat_abs(a@),
    {
        num_rat_abs(a)
    }

    /// `floor`: the largest integer not above the value.
    pub fn floor(a: &BigRat) -> (r: BigRat)
        ensures
            r@ == rat_floor(a@),
    {
        num_rat_floor(a)
    }

    /// `ceil`: the smallest integer not below the value.
    pub fn ceil(a: &BigRat) -> (r: BigRat)
        ensures
            r@ == rat_ceil(a@),
    {
        num_rat_ceil(a)
    }

    /// `round`: the nearest integer, half-way cases away from zero.
    pub fn round(a: &BigRat) -> (r: BigRat)
        ensures
            r@ == rat_round(a@),
    {
        num_rat_round(a)
    }

    /// `bigrat`: the fraction `a / b` in lowest terms; `b` must be nonzero.
    pub fn bigrat(a: &BigInt, b: &BigInt) -> (r: BigRat)
        requires
            b@ != 0,
        ensures
            r@ == lowest_terms(a@, b@),
    {
        num_rat_new(a, b)
    }

    /// `numer`: the numerator in lowest terms.
    pub fn numer(a: &BigRat) -> (r: BigInt)
        ensures
            r@ == a@.0,
    {
        a.numer()
    }

    /// `denom`: the (positive) denominator in lowest terms.
    pub fn denom(a: &BigRat) -> (r: BigInt)
        ensures
            r@ == a@.1,
    {
        a.denom()
    }

    /// `pow`: see `pow_spec`.
    pub fn pow(a: &BigRat, b: &BigRat) -> (r: Option<BigRat>)
        ensures
            opt_view(r) == pow_spec(a@, b@),
    {
        proof {
            use_type_invariant(a);
            use_type_invariant(b);
            a.lemma_wf();
            b.lemma_wf();
        }
        if !num_rat_is_integer(b) {
            // fractional powers are forbidden, even for a zero base
            None
        } else if num_rat_is_zero(a) {
            if num_rat_is_zero(b) {
                // 0^0 = 1 by convention
                Some(BigRat::from_integer(BigInt::from_i64(1)))
            } else if num_rat_is_positive(b) {
                Some(BigRat::from_integer(BigInt::from_i64(0)))
            } else {
                // 0^n with n < 0 would divide by zero
                None
            }
        } else {
            let is_neg_pow = num_rat_is_negative(b);
            let (adj_base, adj_exp) = if is_neg_pow {
                (num_rat_recip(a), num_rat_abs(b))
            } else {
                (a.copy(), b.copy())
            };
            assert(adj_exp@ == (abs_int(b@.0) as int, 1int));
            let adj_exp_int = match num_rat_to_i64(&adj_exp) {
                Some(v) => v,
                None => {
                    return None;
                },
            };
            if (adj_exp_int as u64) > (usize::MAX as u64) {
                return None;
            }
            let adj_exp_usize = adj_exp_int as usize;
            num_rat_checked_pow(&adj_base, adj_exp_usize)
        }
    }

    /// `log`: zero at one, no result elsewhere.
    pub fn log(a: &BigRat) -> (r: Option<BigRat>)
        ensures
            opt_view(r) == log_spec(a@),
    {
        proof {
            use_type_invariant(a);
            a.lemma_wf();
            lemma_one(a@);
        }
        if num_rat_is_one(a) {
            Some(BigRat::from_integer(BigInt::from_i64(0)))
        } else {
            None
        }
    }

    /// `sqrt`: see `sqrt_spec`.
    pub fn sqrt(a: &BigRat) -> (r: Option<BigRat>)
        ensures
            opt_view(r) == sqrt_spec(a@),
    {
        proof {
            use_type_invariant(a);
            a.lemma_wf();
        }
        let n = a.numer();
        let d = a.denom();
        if num_int_is_positive(&n) && num_int_is_positive(&d) {
            let s1 = num_int_sqrt(&n);
            let s2 = num_int_sqrt(&d);
            let is_perfect = num_int_eq(&num_int_mul(&s1, &s1), &n) && num_int_eq(
                &num_int_mul(&s2, &s2),
                &d,
            );
            if is_perfect {
                proof {
                    lemma_is_square_root(n@, s1@);
                    lemma_is_square_root(d@, s2@);
                }
                Some(num_rat_new(&s1, &s2))
            } else {
                proof {
                    if s1@ * s1@ != n@ {
                        lemma_not_square(n@, s1@);
                    } else {
                        lemma_not_square(d@, s2@);
                    }
                }
                None
            }
        } else {
            None
        }
    }

    /// `cbrt`: see `cbrt_spec`.
    pub fn cbrt(a: &BigRat) -> (r: Option<BigRat>)
        ensures
            opt_view(r) == cbrt_spec(a@),
    {
        proof {
            use_type_invariant(a);
            a.lemma_wf();
        }
        let n = a.numer();
        let d = a.denom();
        let s1 = num_int_cbrt(&n);
        let s2 = num_int_cbrt(&d);
        let c1 = num_int_mul(&num_int_mul(&s1, &s1), &s1);
        let c2 = num_int_mul(&num_int_mul(&s2, &s2), &s2);
        if num_int_eq(&c1, &n) && num_int_eq(&c2, &d) {
            proof {
                lemma_is_cube_root(n@, s1@);
                lemma_is_cube_root(d@, s2@);
            }
            assert(s2@ != 0) by (nonlinear_arith)
                requires
                    s2@ * s2@ * s2@ == d@,
                    d@ > 0,
            ;
            Some(num_rat_new(&s1, &s2))
        } else {
            proof {
                if cube(s1@) != n@ {
                    lemma_not_cube(n@, s1@);
                } else {
                    lemma_not_cube(d@, s2@);
                }
            }
            None
        }
    }

    /// `<`: holds (unit result) exactly when `a < b`.
    pub fn lt(a: &BigRat, b: &BigRat) -> (r: Option<()>)
        ensures
            r is Some <==> rat_lt(a@, b@),
    {
        if num_rat_lt(a, b) {
            Some(())
        } else {
            None
        }
    }

    /// `>`: holds exactly when `a > b`.
    pub fn gt(a: &BigRat, b: &BigRat) -> (r: Option<()>)
        ensures
            r is Some <==> rat_lt(b@, a@),
    {
        if num_rat_gt(a, b) {
            Some(())
        } else {
            None
        }
    }

    /// `<=`: holds exactly when `a <= b`.
    pub fn le(a: &BigRat, b: &BigRat) -> (r: Option<()>)
        ensures
            r is Some <==> rat_le(a@, b@),
    {
        if num_rat_le(a, b) {
            Some(())
        } else {
            None
        }
    }

    /// `>=`: holds exactly when `a >= b`.
    pub fn ge(a: &BigRat, b: &BigRat) -> (r: Option<()>)
        ensures
            r is Some <==> rat_le(b@, a@),
    {
        if num_rat_ge(a, b) {
            Some(())
        } else {
            None
        }
    }
}


/// Equality of values is transitive through a positive denominator.
proof fn lemma_rat_eq_trans(x: (int, int), y: (int, int), z: (int, int))
    requires
        y.1 > 0,
        rat_eq(x, y),
        rat_eq(y, z),
    ensures
        rat_eq(x, z),
{
    assert(y.1 * (x.0 * z.1) == y.1 * (z.0 * x.1)) by (nonlinear_arith)
        requires
            x.0 * y.1 == y.0 * x.1,
            y.0 * z.1 == z.0 * y.1,
    ;
    vstd::arithmetic::mul::lemma_mul_equality_converse(y.1, x.0 * z.1, z.0 * x.1);
}

/// Rebuilding a rational from its numerator and denominator (the `bigrat`
/// of its `numer` and `denom`) gives back the same rational.
pub proof fn law_bigrat_of_numer_denom(a: (int, int))
    requires
        is_lowest_terms(a),
    ensures
        a.1 != 0,
        lowest_terms(a.0, a.1) == a,
{
    lemma_lowest_terms_fixed(a);
}

/// Subtracting what was added gives back the starting value, as a value.
proof fn lemma_add_then_sub_value(a: (int, int), b: (int, int))
    requires
        a.1 > 0,
        b.1 > 0,
    ensures
        rat_eq(rat_sub(rat_add(a, b), b), a),
{
    let (n, d) = (a.0 * b.1 + b.0 * a.1, a.1 * b.1);
    assert(d > 0) by (nonlinear_arith)
        requires
            a.1 > 0,
            b.1 > 0,
            d == a.1 * b.1,
    ;
    lemma_lowest_terms_value(n, d);
    let s = rat_add(a, b);
    let (m, e) = (s.0 * b.1 - b.0 * s.1, s.1 * b.1);
    assert(e > 0) by (nonlinear_arith)
        requires
            s.1 > 0,
            b.1 > 0,
            e == s.1 * b.1,
    ;
    lemma_lowest_terms_value(m, e);
    let t = rat_sub(s, b);
    assert(m * a.1 == s.0 * (a.1 * b.1) - (b.0 * a.1) * s.1) by (nonlinear_arith)
        requires
            m == s.0 * b.1 - b.0 * s.1,
    ;
    assert((a.0 * b.1 + b.0 * a.1) * s.1 == (a.0 * b.1) * s.1 + (b.0 * a.1) * s.1)
        by (nonlinear_arith);
    assert(a.0 * e == (a.0 * b.1) * s.1) by (nonlinear_arith)
        requires
            e == s.1 * b.1,
    ;
    lemma_rat_eq_trans(t, (m, e), a);
}

/// Multiplying back by a nonzero divisor gives back the starting value, as a value.
proof fn lemma_div_then_mul_value(a: (int, int), b: (int, int))
    requires
        a.1 > 0,
        b.1 > 0,
        b.0 != 0,
    ensures
        rat_eq(rat_mul(rat_div(a, b), b), a),
{
    let (n, d) = (a.0 * b.1, a.1 * b.0);
    assert(d != 0) by (nonlinear_arith)
        requires
            a.1 > 0,
            b.0 != 0,
            d == a.1 * b.0,
    ;
    lemma_lowest_terms_value(n, d);
    let q = rat_div(a, b);
    let (m, e) = (q.0 * b.0, q.1 * b.1);
    assert(e > 0) by (nonlinear_arith)
        requires
            q.1 > 0,
            b.1 > 0,
            e == q.1 * b.1,
    ;
    lemma_lowest_terms_value(m, e);
    let t = rat_mul(q, b);
    assert(m * a.1 == q.0 * (a.1 * b.0)) by (nonlinear_arith)
        requires
            m == q.0 * b.0,
    ;
    assert(a.0 * e == (a.0 * b.1) * q.1) by (nonlinear_arith)
        requires
            e == q.1 * b.1,
    ;
    lemma_rat_eq_trans(t, (m, e), a);
}

/// Negation undoes itself.
pub proof fn law_neg_neg(a: (int, int))
    ensures
        rat_neg(rat_neg(a)) == a,
{
}

/// The order is total and `<` is its strict part: exactly one of `a < b`
/// and `b <= a` holds, and `a <= b` together with `b <= a` means equal values.
pub proof fn law_order(a: (int, int), b: (int, int))
    ensures
        rat_lt(a, b) <==> !rat_le(b, a),
        rat_le(a, b) || rat_le(b, a),
        (rat_le(a, b) && rat_le(b, a)) <==> rat_eq(a, b),
{
}

/// `min` is below both arguments and `max` above both; each is one of them.
pub proof fn law_min_max(a: (int, int), b: (int, int))
    ensures
        ({
            let lo = if rat_le(a, b) { a } else { b };
            let hi = if rat_le(a, b) { b } else { a };
            &&& rat_le(lo, a) && rat_le(lo, b)
            &&& rat_le(a, hi) && rat_le(b, hi)
            &&& (lo == a || lo == b) && (hi == a || hi == b)
        }),
{
}

/// `floor` and `ceil` bracket the value, are at most one apart, and agree
/// exactly on integers; `round` is within one half of the value.
pub proof fn law_rounding(a: (int, int))
    requires
        a.1 > 0,
    ensures
        rat_le(rat_floor(a), a),
        rat_le(a, rat_ceil(a)),
        rat_ceil(a).0 - rat_floor(a).0 <= 1,
        a.1 == 1 ==> rat_floor(a) == a && rat_ceil(a) == a,
        2 * abs_int(rat_round(a).0 * a.1 - a.0) <= a.1,
{
    let (n, d) = (a.0, a.1);
    vstd::arithmetic::div_mod::lemma_fundamental_div_mod(n, d);
    vstd::arithmetic::div_mod::lemma_fundamental_div_mod(-n, d);
    let f = n / d;
    let c = -((-n) / d);
    assert(f * d <= n) by (nonlinear_arith)
        requires
            n == d * f + n % d,
            0 <= n % d,
    ;
    assert(n <= c * d) by (nonlinear_arith)
        requires
            -n == d * ((-n) / d) + (-n) % d,
            0 <= (-n) % d,
            c == -((-n) / d),
    ;
    assert(c - f <= 1) by (nonlinear_arith)
        requires
            n == d * f + n % d,
            -n == d * ((-n) / d) + (-n) % d,
            0 <= n % d < d,
            0 <= (-n) % d < d,
            c == -((-n) / d),
            d > 0,
    ;
    if d == 1 {
        assert(f == n && c == n) by (nonlinear_arith)
            requires
                n == d * f + n % d,
                -n == d * ((-n) / d) + (-n) % d,
                0 <= n % d < d,
                0 <= (-n) % d < d,
                c == -((-n) / d),
                d == 1,
        ;
    }
    if n >= 0 {
        let m = 2 * n + d;
        let dd = 2 * d;
        vstd::arithmetic::div_mod::lemma_fundamental_div_mod(m, dd);
        let r = m / dd;
        assert(2 * abs_int(r * d - n) <= d) by (nonlinear_arith)
            requires
                m == dd * r + m % dd,
                0 <= m % dd < dd,
                m == 2 * n + d,
                dd == 2 * d,
                d > 0,
        ;
    } else {
        let m = -2 * n + d;
        let dd = 2 * d;
        vstd::arithmetic::div_mod::lemma_fundamental_div_mod(m, dd);
        let r = m / dd;
        assert(2 * abs_int((-r) * d - n) <= d) by (nonlinear_arith)
            requires
                m == dd * r + m % dd,
                0 <= m % dd < dd,
                m == -2 * n + d,
                dd == 2 * d,
                d > 0,
        ;
    }
}

/// A square root that `sqrt` gives squares back to the value, as a value.
proof fn lemma_sqrt_squares_back_value(a: (int, int))
    requires
        is_lowest_terms(a),
        sqrt_spec(a) is Some,
    ensures
        rat_eq(rat_mul(sqrt_spec(a)->0, sqrt_spec(a)->0), a),
{
    let s = square_root(a.0) as int;
    let t = square_root(a.1) as int;
    let r = lowest_terms(s, t);
    assert(square(s as nat) == a.0);
    assert(square(t as nat) == a.1);
    assert(t > 0) by (nonlinear_arith)
        requires
            t * t == a.1,
            a.1 > 0,
            t >= 0,
    ;
    lemma_lowest_terms_value(s, t);
    let (m, e) = (r.0 * r.0, r.1 * r.1);
    assert(e > 0) by (nonlinear_arith)
        requires
            r.1 > 0,
            e == r.1 * r.1,
    ;
    lemma_lowest_terms_value(m, e);
    assert(m * a.1 == a.0 * e) by (nonlinear_arith)
        requires
            r.0 * t == s * r.1,
            m == r.0 * r.0,
            e == r.1 * r.1,
            a.0 == s * s,
            a.1 == t * t,
    ;
    lemma_rat_eq_trans(rat_mul(r, r), (m, e), a);
}

/// Raising to the power zero gives one (also for a zero base, by
/// convention), and to the power one gives the value back.
pub proof fn law_pow_zero_one(a: (int, int))
    requires
        is_lowest_terms(a),
    ensures
        pow_spec(a, (0, 1)) == Some((1int, 1int)),
        pow_spec(a, (1, 1)) == Some(a),
{
    assert(gcd(1, 1) == 1) by {
        reveal_with_fuel(gcd, 2);
    }
    vstd::arithmetic::power::lemma_pow0(a.0);
    vstd::arithmetic::power::lemma_pow0(a.1);
    vstd::arithmetic::power::lemma_pow1(a.0);
    vstd::arithmetic::power::lemma_pow1(a.1);
    lemma_lowest_terms_fixed(a);
    assert(lowest_terms(1, 1) == (1int, 1int)) by {
        assert(abs_int(1) == 1);
    }
    assert(rat_pow(a, 0) == (1int, 1int));
    if a.0 == 0 {
        let d = a.1 as nat;
        assert(0nat % d == 0);
        assert(gcd(0, d) == gcd(d, 0));
        assert(gcd(d, 0) == d);
    }
}

/// Subtracting what was added gives back exactly the rational started from.
pub proof fn law_add_then_sub(a: (int, int), b: (int, int))
    requires
        is_lowest_terms(a),
        b.1 > 0,
    ensures
        rat_sub(rat_add(a, b), b) == a,
{
    lemma_add_then_sub_value(a, b);
    let s = rat_add(a, b);
    assert(a.1 * b.1 > 0) by (nonlinear_arith)
        requires
            a.1 > 0,
            b.1 > 0,
    ;
    lemma_lowest_terms_value(a.0 * b.1 + b.0 * a.1, a.1 * b.1);
    let t = rat_sub(s, b);
    assert(s.1 * b.1 > 0) by (nonlinear_arith)
        requires
            s.1 > 0,
            b.1 > 0,
    ;
    lemma_lowest_terms_reduced(s.0 * b.1 - b.0 * s.1, s.1 * b.1);
    lemma_lowest_terms_unique(t, a);
}

/// Multiplying back by a nonzero divisor gives back exactly the rational
/// started from.
pub proof fn law_div_then_mul(a: (int, int), b: (int, int))
    requires
        is_lowest_terms(a),
        b.1 > 0,
        b.0 != 0,
    ensures
        rat_mul(rat_div(a, b), b) == a,
{
    lemma_div_then_mul_value(a, b);
    assert(a.1 * b.0 != 0) by (nonlinear_arith)
        requires
            a.1 > 0,
            b.0 != 0,
    ;
    lemma_lowest_terms_value(a.0 * b.1, a.1 * b.0);
    let q = rat_div(a, b);
    assert(q.1 * b.1 > 0) by (nonlinear_arith)
        requires
            q.1 > 0,
            b.1 > 0,
    ;
    lemma_lowest_terms_reduced(q.0 * b.0, q.1 * b.1);
    lemma_lowest_terms_unique(rat_mul(q, b), a);
}

/// The square root that `sqrt` gives squares back exactly to the rational.
pub proof fn law_sqrt_squares_back(a: (int, int))
    requires
        is_lowest_terms(a),
        sqrt_spec(a) is Some,
    ensures
        rat_mul(sqrt_spec(a)->0, sqrt_spec(a)->0) == a,
{
    lemma_sqrt_squares_back_value(a);
    let r = sqrt_spec(a)->0;
    let t = square_root(a.1) as int;
    assert(square(t as nat) == a.1);
    assert(t != 0) by (nonlinear_arith)
        requires
            t * t == a.1,
            a.1 > 0,
    ;
    lemma_lowest_terms_value(square_root(a.0) as int, t);
    assert(r.1 * r.1 > 0) by (nonlinear_arith)
        requires
            r.1 > 0,
    ;
    lemma_lowest_terms_reduced(r.0 * r.0, r.1 * r.1);
    lemma_lowest_terms_unique(rat_mul(r, r), a);
}

/// Addition and multiplication do not depend on the order of the arguments.
pub proof fn law_add_mul_commute(a: (int, int), b: (int, int))
    ensures
        rat_add(a, b) == rat_add(b, a),
        rat_mul(a, b) == rat_mul(b, a),
{
    assert(a.1 * b.1 == b.1 * a.1 && a.0 * b.0 == b.0 * a.0) by (nonlinear_arith);
}

/// The cube root that `cbrt` gives cubes back exactly to the rational.
pub proof fn law_cbrt_cubes_back(a: (int, int))
    requires
        is_lowest_terms(a),
        cbrt_spec(a) is Some,
    ensures
        rat_mul(rat_mul(cbrt_spec(a)->0, cbrt_spec(a)->0), cbrt_spec(a)->0) == a,
{
    let s = cube_root(a.0);
    let t = cube_root(a.1);
    assert(cube(s) == a.0 && cube(t) == a.1);
    assert(t != 0) by (nonlinear_arith)
        requires
            t * t * t == a.1,
            a.1 > 0,
    ;
    let r = lowest_terms(s, t);
    lemma_lowest_terms_value(s, t);
    assert(r.1 * r.1 > 0) by (nonlinear_arith)
        requires
            r.1 > 0,
    ;
    let rr = rat_mul(r, r);
    lemma_lowest_terms_value(r.0 * r.0, r.1 * r.1);
    assert(rr.1 * r.1 > 0) by (nonlinear_arith)
        requires
            rr.1 > 0,
            r.1 > 0,
    ;
    let c = rat_mul(rr, r);
    lemma_lowest_terms_value(rr.0 * r.0, rr.1 * r.1);
    lemma_lowest_terms_reduced(rr.0 * r.0, rr.1 * r.1);
    let m = (rr.0 * r.0, rr.1 * r.1);
    let k = (r.0 * r.0 * r.0, r.1 * r.1 * r.1);
    assert(r.1 * r.1 * r.1 > 0) by (nonlinear_arith)
        requires
            r.1 > 0,
    ;
    assert(rat_eq(m, k)) by (nonlinear_arith)
        requires
            rr.0 * (r.1 * r.1) == (r.0 * r.0) * rr.1,
            m == (rr.0 * r.0, rr.1 * r.1),
            k == (r.0 * r.0 * r.0, r.1 * r.1 * r.1),
    ;
    assert(rat_eq(k, a)) by (nonlinear_arith)
        requires
            r.0 * t == s * r.1,
            k == (r.0 * r.0 * r.0, r.1 * r.1 * r.1),
            a.0 == s * s * s,
            a.1 == t * t * t,
    ;
    lemma_rat_eq_trans(c, m, k);
    lemma_rat_eq_trans(c, k, a);
    lemma_lowest_terms_unique(c, a);
}

/// One more factor: `r^(n+1)` is `r^n * r`, in lowest terms.
proof fn lemma_rat_pow_succ(r: (int, int), n: nat)
    requires
        r.1 > 0,
    ensures
        rat_pow(r, (n + 1) as nat) == rat_mul(rat_pow(r, n), r),
{
    let p0 = vstd::arithmetic::power::pow(r.0, n);
    let p1 = vstd::arithmetic::power::pow(r.1, n);
    vstd::arithmetic::power::lemma_pow_adds(r.0, n, 1);
    vstd::arithmetic::power::lemma_pow_adds(r.1, n, 1);
    vstd::arithmetic::power::lemma_pow1(r.0);
    vstd::arithmetic::power::lemma_pow1(r.1);
    vstd::arithmetic::power::lemma_pow_positive(r.1, n);
    assert(vstd::arithmetic::power::pow(r.0, (n + 1) as nat) == p0 * r.0);
    assert(vstd::arithmetic::power::pow(r.1, (n + 1) as nat) == p1 * r.1);
    let q = lowest_terms(p0, p1);
    lemma_lowest_terms_value(p0, p1);
    let m = (p0 * r.0, p1 * r.1);
    let k = (q.0 * r.0, q.1 * r.1);
    assert(m.1 > 0 && k.1 > 0) by (nonlinear_arith)
        requires
            p1 > 0,
            q.1 > 0,
            r.1 > 0,
            m == (p0 * r.0, p1 * r.1),
            k == (q.0 * r.0, q.1 * r.1),
    ;
    let a = lowest_terms(m.0, m.1);
    let b = lowest_terms(k.0, k.1);
    assert(a == rat_pow(r, (n + 1) as nat));
    assert(b == rat_mul(q, r));
    lemma_lowest_terms_value(m.0, m.1);
    lemma_lowest_terms_value(k.0, k.1);
    lemma_lowest_terms_reduced(m.0, m.1);
    lemma_lowest_terms_reduced(k.0, k.1);
    assert(rat_eq(m, k)) by (nonlinear_arith)
        requires
            q.0 * p1 == p0 * q.1,
            m == (p0 * r.0, p1 * r.1),
            k == (q.0 * r.0, q.1 * r.1),
    ;
    lemma_rat_eq_trans(a, m, k);
    lemma_rat_eq_trans(a, k, b);
    lemma_lowest_terms_unique(a, b);
}

/// Negating both parts leaves the lowest terms unchanged.
proof fn lemma_lowest_terms_neg(n: int, d: int)
    requires
        d != 0,
    ensures
        lowest_terms(-n, -d) == lowest_terms(n, d),
{
    assert(abs_int(-n) == abs_int(n) && abs_int(-d) == abs_int(d));
}

/// The rational zero in lowest terms is `0/1`, its own lowest terms.
proof fn lemma_zero_lowest(a: (int, int))
    requires
        is_lowest_terms(a),
        a.0 == 0,
    ensures
        a == (0int, 1int),
        lowest_terms(0, 1) == (0int, 1int),
{
    let d = a.1 as nat;
    assert(0nat % d == 0);
    assert(gcd(0, d) == gcd(d, 0));
    assert(gcd(0, 1) == 1) by {
        reveal_with_fuel(gcd, 2);
    }
    assert(abs_int(0) == 0 && abs_int(1) == 1);
}

/// Raising to a natural power multiplies by the base once per unit of the
/// exponent: `a^(n+1) = a^n * a` (so `a^n` is the n-fold product of `a`;
/// for a zero base, `0^0 = 1` and `0^(n+1) = 0`). Exponents above the
/// machine limits have no result.
pub proof fn law_pow_succ(a: (int, int), n: nat)
    requires
        is_lowest_terms(a),
        n + 1 <= i64::MAX,
        n + 1 <= usize::MAX,
    ensures
        pow_spec(a, (n as int, 1)) is Some,
        pow_spec(a, ((n + 1) as int, 1)) == Some(rat_mul(pow_spec(a, (n as int, 1))->0, a)),
{
    if a.0 == 0 {
        lemma_zero_lowest(a);
        assert(lowest_terms(1, 1) == (1int, 1int)) by {
            assert(gcd(1, 1) == 1) by {
                reveal_with_fuel(gcd, 2);
            }
            assert(abs_int(1) == 1);
        }
    } else {
        assert(abs_int(n as int) == n);
        assert(abs_int((n + 1) as int) == n + 1);
        lemma_rat_pow_succ(a, n);
    }
}

/// A negative exponent raises the reciprocal: each further step down
/// divides by the base once more, `a^-(n+1) = a^-n / a` (for a nonzero
/// base; a zero base has no negative power).
pub proof fn law_pow_neg_succ(a: (int, int), n: nat)
    requires
        is_lowest_terms(a),
        a.0 != 0,
        n + 1 <= i64::MAX,
        n + 1 <= usize::MAX,
    ensures
        pow_spec(a, (-n, 1)) is Some,
        pow_spec(a, (-(n + 1), 1)) == Some(rat_div(pow_spec(a, (-n, 1))->0, a)),
{
    let r = rat_recip(a);
    assert(r.1 > 0);
    assert(abs_int(-n) == n);
    assert(abs_int(-(n + 1)) == n + 1);
    vstd::arithmetic::power::lemma_pow0(a.0);
    vstd::arithmetic::power::lemma_pow0(a.1);
    vstd::arithmetic::power::lemma_pow0(r.0);
    vstd::arithmetic::power::lemma_pow0(r.1);
    assert(pow_spec(a, (-n, 1)) == Some(rat_pow(r, n)));
    lemma_rat_pow_succ(r, n);
    let x = rat_pow(r, n);
    if a.0 < 0 {
        assert(x.0 * (-a.1) == -(x.0 * a.1) && x.1 * (-a.0) == -(x.1 * a.0)) by (nonlinear_arith);
        lemma_pow_positive_denominator(r, n);
        assert(x.1 * a.0 != 0) by (nonlinear_arith)
            requires
                x.1 > 0,
                a.0 < 0,
        ;
        lemma_lowest_terms_neg(x.0 * a.1, x.1 * a.0);
    }
}

/// A power of a rational with a positive denominator has a positive denominator.
proof fn lemma_pow_positive_denominator(r: (int, int), n: nat)
    requires
        r.1 > 0,
    ensures
        rat_pow(r, n).1 > 0,
{
    vstd::arithmetic::power::lemma_pow_positive(r.1, n);
    lemma_lowest_terms_value(
        vstd::arithmetic::power::pow(r.0, n),
        vstd::arithmetic::power::pow(r.1, n),
    );
}

/// An even power of a nonzero rational is positive, whatever the sign of
/// the base.
pub proof fn law_pow_even_positive(a: (int, int), k: nat)
    requires
        is_lowest_terms(a),
        a.0 != 0,
        2 * k <= i64::MAX,
        2 * k <= usize::MAX,
    ensures
        pow_spec(a, ((2 * k) as int, 1)) matches Some(q) && q.0 > 0,
{
    let e = (2 * k) as nat;
    assert(abs_int(e as int) == e);
    vstd::arithmetic::power::lemma_pow_multiplies(a.0, 2, k);
    vstd::arithmetic::power::lemma_pow_multiplies(a.1, 2, k);
    vstd::arithmetic::power::lemma_square_is_pow2(a.0);
    vstd::arithmetic::power::lemma_square_is_pow2(a.1);
    assert(a.0 * a.0 > 0 && a.1 * a.1 > 0) by (nonlinear_arith)
        requires
            a.0 != 0,
            a.1 > 0,
    ;
    vstd::arithmetic::power::lemma_pow_positive(a.0 * a.0, k);
    vstd::arithmetic::power::lemma_pow_positive(a.1 * a.1, k);
    let n = vstd::arithmetic::power::pow(a.0, e);
    let d = vstd::arithmetic::power::pow(a.1, e);
    assert(n > 0 && d > 0);
    lemma_lowest_terms_value(n, d);
    let q = lowest_terms(n, d);
    assert(q.0 > 0) by (nonlinear_arith)
        requires
            q.0 * d == n * q.1,
            q.1 > 0,
            n > 0,
            d > 0,
    ;
}

/// Two combinations equal to one against the same `b` multiply into one
/// for the product: if `c x1 + b y1 = 1` and `a x2 + b y2 = 1` then
/// `(c a) x + b y = 1` for the `x`, `y` given here.
proof fn lemma_combination_mul(c: int, a: int, b: int, x1: int, y1: int, x2: int, y2: int)
    requires
        c * x1 + b * y1 == 1,
        a * x2 + b * y2 == 1,
    ensures
        (c * a) * (x1 * x2) + b * (c * x1 * y2 + y1 * a * x2 + b * y1 * y2) == 1,
{
    let (p, q, r, t) = (c * x1, b * y1, a * x2, b * y2);
    assert((p + q) * (r + t) == p * r + p * t + q * r + q * t) by (nonlinear_arith);
    assert(p * r == (c * a) * (x1 * x2)) by (nonlinear_arith)
        requires
            p == c * x1,
            r == a * x2,
    ;
    assert(p * t == b * (c * x1 * y2)) by (nonlinear_arith)
        requires
            p == c * x1,
            t == b * y2,
    ;
    assert(q * r == b * (y1 * a * x2)) by (nonlinear_arith)
        requires
            q == b * y1,
            r == a * x2,
    ;
    assert(q * t == b * (b * y1 * y2)) by (nonlinear_arith)
        requires
            q == b * y1,
            t == b * y2,
    ;
    assert(b * (c * x1 * y2) + b * (y1 * a * x2) + b * (b * y1 * y2) == b * (c * x1 * y2 + y1
        * a * x2 + b * y1 * y2)) by (nonlinear_arith);
    assert((p + q) * (r + t) == 1) by (nonlinear_arith)
        requires
            p + q == 1,
            r + t == 1,
    ;
}

/// Coprime naturals have coprime squares and coprime cubes.
proof fn lemma_coprime_powers(a: nat, b: nat)
    requires
        b > 0,
        gcd(a, b) == 1,
    ensures
        gcd(a * a, b * b) == 1,
        gcd(a * a * a, b * b * b) == 1,
{
    let (x, y) = lemma_bezout(a, b);
    let a2 = a * a;
    let a3 = a2 * a;
    let b2 = b * b;
    let b3 = b2 * b;
    // a^2 and a^3 against b
    let (x2, y2) = (x * x, a * x * y + y * a * x + b * y * y);
    lemma_combination_mul(a as int, a as int, b as int, x, y, x, y);
    let (x3, y3) = (x2 * x, a2 * x2 * y + y2 * a * x + b * y2 * y);
    lemma_combination_mul(a2 as int, a as int, b as int, x2, y2, x, y);
    // against b^2 and b^3, with the roles swapped
    assert(b2 > 0 && b3 > 0) by (nonlinear_arith)
        requires
            b > 0,
            b2 == b * b,
            b3 == b2 * b,
    ;
    let c2 = b * y2 * x2 + x2 * b * y2 + a2 * x2 * x2;
    lemma_combination_mul(b as int, b as int, a2 as int, y2, x2, y2, x2);
    assert(a2 * c2 + b2 * (y2 * y2) == 1) by (nonlinear_arith)
        requires
            (b * b) * (y2 * y2) + a2 * c2 == 1,
            b2 == b * b,
    ;
    lemma_coprime_of_combination(a2, b2, c2, y2 * y2);
    let (u, v) = (y3 * y3, b * y3 * x3 + x3 * b * y3 + a3 * x3 * x3);
    lemma_combination_mul(b as int, b as int, a3 as int, y3, x3, y3, x3);
    lemma_combination_mul(b2 as int, b as int, a3 as int, u, v, y3, x3);
    let c3 = b2 * u * x3 + v * b * y3 + a3 * v * x3;
    assert(a3 * c3 + b3 * (u * y3) == 1) by (nonlinear_arith)
        requires
            (b2 * b) * (u * y3) + a3 * c3 == 1,
            b3 == b2 * b,
    ;
    lemma_coprime_of_combination(a3, b3, c3, u * y3);
}

/// Squaring a rational in lowest terms just squares its parts, and cubing
/// it cubes them: no common factor appears.
proof fn lemma_square_cube_parts(r: (int, int))
    requires
        is_lowest_terms(r),
    ensures
        rat_mul(r, r) == (r.0 * r.0, r.1 * r.1),
        rat_mul(rat_mul(r, r), r) == (r.0 * r.0 * r.0, r.1 * r.1 * r.1),
{
    let a = abs_int(r.0);
    let b = r.1 as nat;
    lemma_coprime_powers(a, b);
    assert(abs_int(r.0 * r.0) == a * a && abs_int(r.0 * r.0 * r.0) == a * a * a) by (nonlinear_arith)
        requires
            a == abs_int(r.0),
    ;
    assert(r.1 * r.1 > 0 && r.1 * r.1 * r.1 > 0) by (nonlinear_arith)
        requires
            r.1 > 0,
    ;
    assert((b * b) as int == r.1 * r.1 && (b * b * b) as int == r.1 * r.1 * r.1);
    lemma_lowest_terms_fixed((r.0 * r.0, r.1 * r.1));
    lemma_lowest_terms_fixed((r.0 * r.0 * r.0, r.1 * r.1 * r.1));
}

/// `sqrt` finds every rational square root: the square of any nonzero
/// rational has a square root, its absolute value (so `sqrt(r * r) = r`
/// for every positive `r`).
pub proof fn law_sqrt_complete(r: (int, int))
    requires
        is_lowest_terms(r),
        r.0 != 0,
    ensures
        sqrt_spec(rat_mul(r, r)) == Some(rat_abs(r)),
        r.0 > 0 ==> sqrt_spec(rat_mul(r, r)) == Some(r),
{
    lemma_square_cube_parts(r);
    let a = abs_int(r.0);
    assert(r.0 * r.0 == a * a && r.0 * r.0 > 0) by (nonlinear_arith)
        requires
            a == abs_int(r.0),
            r.0 != 0,
    ;
    assert(r.1 * r.1 > 0) by (nonlinear_arith)
        requires
            r.1 > 0,
    ;
    lemma_is_square_root(r.0 * r.0, a as int);
    lemma_is_square_root(r.1 * r.1, r.1);
    assert(is_lowest_terms(rat_abs(r)));
    lemma_lowest_terms_fixed(rat_abs(r));
}

/// `cbrt` finds every rational cube root: the cube of any rational has
/// that rational as its cube root.
pub proof fn law_cbrt_complete(r: (int, int))
    requires
        is_lowest_terms(r),
    ensures
        cbrt_spec(rat_mul(rat_mul(r, r), r)) == Some(r),
{
    lemma_square_cube_parts(r);
    lemma_is_cube_root(r.0 * r.0 * r.0, r.0);
    lemma_is_cube_root(r.1 * r.1 * r.1, r.1);
    lemma_lowest_terms_fixed(r);
}

/// `pow` has no result for a fractional exponent, for a negative power of
/// zero, or for an exponent whose magnitude exceeds `i64::MAX`.
pub proof fn law_pow_no_result(a: (int, int), b: (int, int))
    ensures
        b.1 != 1 ==> pow_spec(a, b) is None,
        a.0 == 0 && b.0 < 0 ==> pow_spec(a, b) is None,
        a.0 != 0 && abs_int(b.0) > i64::MAX ==> pow_spec(a, b) is None,
{
}

/// `sqrt` gives a result only for a positive rational, and that result is
/// positive (the positive square root).
pub proof fn law_sqrt_positive(a: (int, int))
    requires
        is_lowest_terms(a),
    ensures
        sqrt_spec(a) matches Some(q) ==> a.0 > 0 && q.0 > 0 && q.1 > 0,
{
    if sqrt_spec(a) is Some {
        let s = square_root(a.0) as int;
        let t = square_root(a.1) as int;
        assert(square(s as nat) == a.0 && square(t as nat) == a.1);
        assert(s > 0 && t > 0) by (nonlinear_arith)
            requires
                s * s == a.0,
                t * t == a.1,
                a.0 > 0,
                a.1 > 0,
                s >= 0,
                t >= 0,
        ;
        lemma_lowest_terms_value(s, t);
        let q = lowest_terms(s, t);
        assert(q.0 > 0) by (nonlinear_arith)
            requires
                q.0 * t == s * q.1,
                q.1 > 0,
                s > 0,
                t > 0,
        ;
    }
}

} // verus!
