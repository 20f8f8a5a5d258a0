use std::cmp::Ordering;

use bigm_simplex::big_number::BigNumber;
use bigm_simplex::ratio_ext::RatioExt;
use bigm_simplex::rational::Rational;
use num_bigint::BigInt;

fn whole(n: i64) -> RatioExt {
    RatioExt::from_i64(n)
}

fn ratio(numer: i64, denom: i64) -> RatioExt {
    RatioExt::Finite(Rational::from_parts(BigInt::from(numer), BigInt::from(denom)).unwrap())
}

fn big(big_part: i64, small_part: i64) -> BigNumber<RatioExt> {
    BigNumber::new(whole(big_part), whole(small_part))
}

#[test]
fn new_keeps_both_parts() {
    let n = BigNumber::new(ratio(1, 2), ratio(-3, 4));
    assert_eq!(n.big_part().to_string(), "1/2");
    assert_eq!(n.small_part().to_string(), "-3/4");
    let plain = BigNumber::new(5u8, 7u8);
    assert_eq!(*plain.big_part(), 5);
    assert_eq!(*plain.small_part(), 7);
}

#[test]
fn one_big_is_m() {
    let m = BigNumber::one_big();
    assert!(m.big_part().is_one());
    assert!(m.small_part().is_zero());
    assert_eq!(m.to_string(), "M");
}

#[test]
fn from_lifts_a_plain_value() {
    let n = BigNumber::from(ratio(7, 3));
    assert!(n.big_part().is_zero());
    assert_eq!(n.small_part().to_string(), "7/3");
    assert!(BigNumber::zero().is_zero());
    assert!(BigNumber::default().is_zero());
    assert!(!BigNumber::one().is_zero());
    assert_eq!(BigNumber::one().to_string(), "1");
}

#[test]
fn m_part_decides_the_order() {
    assert_eq!(big(1, 0).partial_cmp(&big(0, 1_000_000)), Some(Ordering::Greater));
    assert_eq!(big(-1, 1_000_000).partial_cmp(&big(0, -1_000_000)), Some(Ordering::Less));
    assert_eq!(big(1, 0).total_cmp(&big(0, 1_000_000)), Ordering::Greater);
    assert_eq!(big(-1, 1_000_000).total_cmp(&big(0, -1_000_000)), Ordering::Less);
    assert!(big(1, 0).gt(&big(0, 1_000_000)));
    assert!(big(1, 0).total_gt(&big(0, 1_000_000)));
    assert!(!big(0, 1_000_000).gt(&big(1, 0)));
}

#[test]
fn plain_part_decides_between_equal_m_parts() {
    assert_eq!(big(2, 3).partial_cmp(&big(2, 5)), Some(Ordering::Less));
    assert_eq!(big(2, 5).partial_cmp(&big(2, 5)), Some(Ordering::Equal));
    assert_eq!(big(2, 7).total_cmp(&big(2, 5)), Ordering::Greater);
    assert!(big(2, 5) == big(2, 5));
    assert!(big(2, 5) != big(2, 6));
    assert!(big(2, 5) != big(3, 5));
}

#[test]
fn incomparable_parts_give_no_partial_order() {
    let nan_big = BigNumber::new(RatioExt::Nan, whole(1));
    assert_eq!(nan_big.partial_cmp(&big(0, 0)), None);
    let nan_small = BigNumber::new(whole(0), RatioExt::Nan);
    assert_eq!(nan_small.partial_cmp(&big(0, 0)), None);
    assert_eq!(nan_small.partial_cmp(&big(1, 0)), Some(Ordering::Less));
    assert_eq!(nan_small.total_cmp(&big(0, 0)), Ordering::Less);
}

#[test]
fn sorting_by_the_total_order_is_stable() {
    let mut list = vec![
        ("a", big(1, 0)),
        ("b", big(0, 1_000_000)),
        ("c", big(1, 0)),
        ("d", big(-1, 1_000_000)),
        ("e", big(0, -1_000_000)),
        ("f", big(0, 1_000_000)),
    ];
    list.sort_by(|x, y| x.1.total_cmp(&y.1));
    let names: Vec<&str> = list.iter().map(|x| x.0).collect();
    assert_eq!(names, vec!["d", "e", "b", "f", "a", "c"]);
}

#[test]
fn addition_and_subtraction_go_part_by_part() {
    assert!(big(2, 3).add(&big(5, -7)) == big(7, -4));
    assert!(big(2, 3).sub(&big(5, -7)) == big(-3, 10));
    assert!(big(2, 3).neg() == big(-2, -3));
    let mut n = big(2, 3);
    n.add_assign(&big(1, 1));
    assert!(n == big(3, 4));
    n.sub_assign(&big(3, 0));
    assert!(n == big(0, 4));
}

#[test]
fn scalar_operations_touch_the_plain_part_or_both() {
    assert!(big(2, 3).add_scalar(&whole(4)) == big(2, 7));
    assert!(big(2, 3).sub_scalar(&whole(4)) == big(2, -1));
    assert!(big(2, 3).mul_scalar(&whole(4)) == big(8, 12));
    let halved = big(2, 3).div_scalar(&whole(4));
    assert_eq!(halved.big_part().to_string(), "1/2");
    assert_eq!(halved.small_part().to_string(), "3/4");
}

#[test]
fn product_leaves_out_the_square_of_m() {
    assert!(big(2, 3).mul(&big(0, 5)) == big(10, 15));
    assert!(big(0, 5).mul(&big(2, 3)) == big(10, 15));
    assert!(big(0, 4).mul(&big(0, 5)) == big(0, 20));
    let mut n = big(1, 1);
    n.mul_assign(&big(0, 6));
    assert!(n == big(6, 6));
}

#[test]
fn conversion_gives_the_plain_part_only_without_m() {
    assert_eq!(big(0, 5).to_rational().unwrap().to_string(), "5");
    assert_eq!(
        BigNumber::new(whole(0), ratio(-2, 3)).to_rational().unwrap().to_string(),
        "-2/3"
    );
    assert_eq!(big(1, 5).to_rational().unwrap_err(), "The number is too big: M+5");
    assert_eq!(big(-2, 0).to_rational().unwrap_err(), "The number is too big: -2M");
    assert!(BigNumber::new(RatioExt::Nan, whole(1)).to_rational().is_err());
}

#[test]
fn text_shows_m_part_sign_and_plain_part() {
    assert_eq!(big(3, 5).to_string(), "3M+5");
    assert_eq!(big(3, -5).to_string(), "3M-5");
    assert_eq!(big(3, 0).to_string(), "3M");
    assert_eq!(big(1, 5).to_string(), "M+5");
    assert_eq!(big(1, -5).to_string(), "M-5");
    assert_eq!(big(-1, 5).to_string(), "-M+5");
    assert_eq!(big(-1, 0).to_string(), "-M");
    assert_eq!(big(0, 5).to_string(), "5");
    assert_eq!(big(0, -5).to_string(), "-5");
    assert_eq!(big(0, 0).to_string(), "0");
    assert_eq!(BigNumber::new(ratio(1, 2), ratio(3, 4)).to_string(), "1/2M+3/4");
}

#[test]
fn clone_keeps_the_value() {
    let n = BigNumber::new(ratio(1, 2), ratio(3, 4));
    assert!(n.clone() == n);
}
