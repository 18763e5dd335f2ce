use egglog_prelude::bignum::{BigInt, BigRat};
use egglog_prelude::bigrat::BigRatSort;
use egglog_prelude::exprs::Expr;
use egglog_prelude::literal::Literal;

fn q(n: i64, d: i64) -> BigRat {
    BigRatSort::bigrat(&BigInt::from_i64(n), &BigInt::from_i64(d))
}

fn parts(r: &BigRat) -> (i64, i64) {
    (
        BigRatSort::numer(r).to_i64().unwrap(),
        BigRatSort::denom(r).to_i64().unwrap(),
    )
}

fn parts_opt(r: Option<BigRat>) -> Option<(i64, i64)> {
    r.map(|r| parts(&r))
}

#[test]
fn sort_name_is_bigrat() {
    assert_eq!(BigRatSort.name(), "BigRat");
}

#[test]
fn bigrat_reduces_to_lowest_terms() {
    assert_eq!(parts(&q(2, 4)), (1, 2));
    assert_eq!(parts(&q(3, -6)), (-1, 2));
    assert_eq!(parts(&q(-3, -6)), (1, 2));
    assert_eq!(parts(&q(0, 5)), (0, 1));
    assert_eq!(parts(&q(7, 1)), (7, 1));
}

#[test]
fn arithmetic_is_exact() {
    assert_eq!(parts_opt(BigRatSort::add(&q(1, 2), &q(1, 3))), Some((5, 6)));
    assert_eq!(parts_opt(BigRatSort::sub(&q(1, 2), &q(1, 3))), Some((1, 6)));
    assert_eq!(parts_opt(BigRatSort::sub(&q(1, 3), &q(1, 3))), Some((0, 1)));
    assert_eq!(parts_opt(BigRatSort::mul(&q(2, 3), &q(3, 4))), Some((1, 2)));
    assert_eq!(parts_opt(BigRatSort::div(&q(1, 2), &q(1, 4))), Some((2, 1)));
    assert_eq!(parts_opt(BigRatSort::div(&q(1, 2), &q(-1, 4))), Some((-2, 1)));
}

#[test]
fn division_by_zero_has_no_result() {
    assert!(BigRatSort::div(&q(1, 2), &q(0, 1)).is_none());
}

#[test]
fn min_max_neg_abs() {
    assert_eq!(parts(&BigRatSort::min(&q(1, 2), &q(1, 3))), (1, 3));
    assert_eq!(parts(&BigRatSort::max(&q(1, 2), &q(1, 3))), (1, 2));
    assert_eq!(parts(&BigRatSort::min(&q(-1, 2), &q(1, 3))), (-1, 2));
    assert_eq!(parts(&BigRatSort::neg(&q(1, 2))), (-1, 2));
    assert_eq!(parts(&BigRatSort::neg(&BigRatSort::neg(&q(5, 7)))), (5, 7));
    assert_eq!(parts(&BigRatSort::abs(&q(-5, 7))), (5, 7));
    assert_eq!(parts(&BigRatSort::abs(&q(5, 7))), (5, 7));
}

#[test]
fn rounding() {
    assert_eq!(parts(&BigRatSort::floor(&q(7, 2))), (3, 1));
    assert_eq!(parts(&BigRatSort::floor(&q(-7, 2))), (-4, 1));
    assert_eq!(parts(&BigRatSort::ceil(&q(7, 2))), (4, 1));
    assert_eq!(parts(&BigRatSort::ceil(&q(-7, 2))), (-3, 1));
    assert_eq!(parts(&BigRatSort::floor(&q(3, 1))), (3, 1));
    assert_eq!(parts(&BigRatSort::ceil(&q(3, 1))), (3, 1));
    assert_eq!(parts(&BigRatSort::round(&q(5, 2))), (3, 1));
    assert_eq!(parts(&BigRatSort::round(&q(-5, 2))), (-3, 1));
    assert_eq!(parts(&BigRatSort::round(&q(7, 3))), (2, 1));
    assert_eq!(parts(&BigRatSort::round(&q(-7, 3))), (-2, 1));
    assert_eq!(parts(&BigRatSort::round(&q(8, 3))), (3, 1));
    assert_eq!(parts(&BigRatSort::round(&q(0, 1))), (0, 1));
}

#[test]
fn pow_integer_exponents() {
    assert_eq!(parts_opt(BigRatSort::pow(&q(2, 3), &q(2, 1))), Some((4, 9)));
    assert_eq!(parts_opt(BigRatSort::pow(&q(2, 3), &q(-2, 1))), Some((9, 4)));
    assert_eq!(parts_opt(BigRatSort::pow(&q(-2, 3), &q(-1, 1))), Some((-3, 2)));
    assert_eq!(parts_opt(BigRatSort::pow(&q(-2, 1), &q(3, 1))), Some((-8, 1)));
    assert_eq!(parts_opt(BigRatSort::pow(&q(5, 7), &q(0, 1))), Some((1, 1)));
    assert_eq!(parts_opt(BigRatSort::pow(&q(5, 7), &q(1, 1))), Some((5, 7)));
}

#[test]
fn pow_of_zero() {
    assert_eq!(parts_opt(BigRatSort::pow(&q(0, 1), &q(0, 1))), Some((1, 1)));
    assert_eq!(parts_opt(BigRatSort::pow(&q(0, 1), &q(3, 1))), Some((0, 1)));
    assert_eq!(parts_opt(BigRatSort::pow(&q(0, 1), &q(-1, 1))), None);
}

#[test]
fn pow_rejects_fractional_exponents() {
    assert_eq!(parts_opt(BigRatSort::pow(&q(4, 1), &q(1, 2))), None);
    assert_eq!(parts_opt(BigRatSort::pow(&q(0, 1), &q(1, 2))), None);
}

#[test]
fn pow_is_arbitrary_precision() {
    let r = BigRatSort::pow(&q(10, 1), &q(30, 1)).unwrap();
    assert_eq!(
        BigRatSort::numer(&r).to_decimal_string(),
        "1000000000000000000000000000000"
    );
    assert!(BigRatSort::numer(&r).to_i64().is_none());
    let r = BigRatSort::pow(&q(-1, 2), &q(-63, 1)).unwrap();
    assert_eq!(
        BigRatSort::numer(&r).to_decimal_string(),
        "-9223372036854775808"
    );
    assert_eq!(BigRatSort::numer(&r).to_i64(), Some(i64::MIN));
}

#[test]
fn pow_rejects_huge_exponents() {
    let huge = BigRatSort::pow(&q(2, 1), &q(64, 1)).unwrap();
    assert!(BigRatSort::pow(&q(1, 1), &huge).is_none());
    let big_neg = BigRatSort::neg(&huge);
    assert!(BigRatSort::pow(&q(1, 1), &big_neg).is_none());
}

#[test]
fn log_and_cbrt_of_one() {
    assert_eq!(parts_opt(BigRatSort::log(&q(1, 1))), Some((0, 1)));
    assert_eq!(parts_opt(BigRatSort::cbrt(&q(1, 1))), Some((1, 1)));
}

#[test]
fn log_off_one_has_no_result() {
    assert_eq!(parts_opt(BigRatSort::log(&q(2, 1))), None);
    assert_eq!(parts_opt(BigRatSort::log(&q(1, 2))), None);
    assert_eq!(parts_opt(BigRatSort::log(&q(0, 1))), None);
    assert_eq!(parts_opt(BigRatSort::log(&q(-1, 1))), None);
}

#[test]
fn cbrt_of_perfect_cubes_only() {
    assert_eq!(parts_opt(BigRatSort::cbrt(&q(8, 1))), Some((2, 1)));
    assert_eq!(parts_opt(BigRatSort::cbrt(&q(-27, 8))), Some((-3, 2)));
    assert_eq!(parts_opt(BigRatSort::cbrt(&q(0, 1))), Some((0, 1)));
    assert_eq!(parts_opt(BigRatSort::cbrt(&q(1, 64))), Some((1, 4)));
    assert_eq!(parts_opt(BigRatSort::cbrt(&q(2, 1))), None);
    assert_eq!(parts_opt(BigRatSort::cbrt(&q(8, 3))), None);
    assert_eq!(parts_opt(BigRatSort::cbrt(&q(-9, 1))), None);
    let big = BigRatSort::pow(&q(-12345678901, 7), &q(3, 1)).unwrap();
    assert_eq!(parts_opt(BigRatSort::cbrt(&big)), Some((-12345678901, 7)));
}

#[test]
fn cbrt_cubes_back() {
    let a = q(-343, 1000);
    let r = BigRatSort::cbrt(&a).unwrap();
    let rr = BigRatSort::mul(&r, &r).unwrap();
    assert_eq!(parts_opt(BigRatSort::mul(&rr, &r)), Some((-343, 1000)));
}

#[test]
fn sqrt_of_perfect_squares_only() {
    assert_eq!(parts_opt(BigRatSort::sqrt(&q(4, 9))), Some((2, 3)));
    assert_eq!(parts_opt(BigRatSort::sqrt(&q(1, 1))), Some((1, 1)));
    assert_eq!(parts_opt(BigRatSort::sqrt(&q(2, 1))), None);
    assert_eq!(parts_opt(BigRatSort::sqrt(&q(4, 3))), None);
    assert_eq!(parts_opt(BigRatSort::sqrt(&q(0, 1))), None);
    assert_eq!(parts_opt(BigRatSort::sqrt(&q(-4, 9))), None);
}

#[test]
fn comparisons() {
    let a = q(1, 3);
    let b = q(1, 2);
    assert!(BigRatSort::lt(&a, &b).is_some());
    assert!(BigRatSort::lt(&b, &a).is_none());
    assert!(BigRatSort::lt(&a, &a).is_none());
    assert!(BigRatSort::gt(&b, &a).is_some());
    assert!(BigRatSort::gt(&a, &a).is_none());
    assert!(BigRatSort::le(&a, &a).is_some());
    assert!(BigRatSort::le(&b, &a).is_none());
    assert!(BigRatSort::ge(&a, &a).is_some());
    assert!(BigRatSort::ge(&a, &b).is_none());
    assert!(BigRatSort::lt(&q(-1, 2), &q(-1, 3)).is_some());
}

#[test]
fn add_then_sub_gives_back_the_value() {
    let a = q(-7, 12);
    let b = q(5, 18);
    let s = BigRatSort::add(&a, &b).unwrap();
    assert_eq!(parts_opt(BigRatSort::sub(&s, &b)), Some((-7, 12)));
}

#[test]
fn div_then_mul_gives_back_the_value() {
    let a = q(9, 14);
    let b = q(-3, 7);
    let d = BigRatSort::div(&a, &b).unwrap();
    assert_eq!(parts_opt(BigRatSort::mul(&d, &b)), Some((9, 14)));
}

#[test]
fn bigrat_of_numer_and_denom_rebuilds() {
    let a = q(-22, 6);
    let back = BigRatSort::bigrat(&BigRatSort::numer(&a), &BigRatSort::denom(&a));
    assert_eq!(parts(&back), (-11, 3));
}

#[test]
fn reconstruct_term_spells_numerator_and_denominator() {
    let term = BigRatSort.reconstruct_termdag(&q(-3, 4));
    let expected = Expr::Call(
        "bigrat".to_string(),
        vec![
            Expr::Call(
                "from_string".to_string(),
                vec![Expr::Lit(Literal::String("-3".to_string()))],
            ),
            Expr::Call(
                "from_string".to_string(),
                vec![Expr::Lit(Literal::String("4".to_string()))],
            ),
        ],
    );
    assert_eq!(term, expected);
}

#[test]
fn from_integer_has_denominator_one() {
    let r = BigRat::from_integer(BigInt::from_i64(-5));
    assert_eq!(parts(&r), (-5, 1));
    assert_eq!(parts(&r.copy()), (-5, 1));
}

#[test]
fn big_integer_text_and_range() {
    assert_eq!(BigInt::from_i64(0).to_decimal_string(), "0");
    assert_eq!(BigInt::from_i64(-1125).to_decimal_string(), "-1125");
    assert_eq!(BigInt::from_i64(i64::MAX).to_i64(), Some(i64::MAX));
    assert_eq!(BigInt::from_i64(42).copy().to_i64(), Some(42));
}

#[test]
fn add_and_mul_commute() {
    let a = q(3, 10);
    let b = q(-4, 15);
    assert_eq!(
        parts_opt(BigRatSort::add(&a, &b)),
        parts_opt(BigRatSort::add(&b, &a))
    );
    assert_eq!(parts_opt(BigRatSort::add(&a, &b)), Some((1, 30)));
    assert_eq!(
        parts_opt(BigRatSort::mul(&a, &b)),
        parts_opt(BigRatSort::mul(&b, &a))
    );
    assert_eq!(parts_opt(BigRatSort::mul(&a, &b)), Some((-2, 25)));
}

#[test]
fn sqrt_squares_back() {
    let a = q(49, 121);
    let r = BigRatSort::sqrt(&a).unwrap();
    assert_eq!(parts_opt(BigRatSort::mul(&r, &r)), Some((49, 121)));
}
