use std::cmp::Ordering;

use bigm_simplex::ratio_ext::RatioExt;
use bigm_simplex::rational::Rational;
use num_bigint::BigInt;

fn ratio(numer: i64, denom: i64) -> RatioExt {
    RatioExt::Finite(Rational::from_parts(BigInt::from(numer), BigInt::from(denom)).unwrap())
}

fn whole(n: i64) -> RatioExt {
    RatioExt::from_i64(n)
}

fn text(x: &RatioExt) -> String {
    x.to_string()
}

#[test]
fn total_cmp() {
    #[derive(Debug)]
    struct GoodBoy {
        _name: String,
        weight: RatioExt,
    }

    let mut bois = vec![
        GoodBoy { _name: "Pucci".to_owned(), weight: ratio(1, 10) },
        GoodBoy { _name: "Woofer".to_owned(), weight: ratio(99, 1) },
        GoodBoy { _name: "Yapper".to_owned(), weight: ratio(10, 1) },
        GoodBoy { _name: "Chonk".to_owned(), weight: RatioExt::Inf },
        GoodBoy { _name: "Abs. Unit".to_owned(), weight: RatioExt::Nan },
        GoodBoy { _name: "Floaty".to_owned(), weight: ratio(-5, 1) },
    ];

    bois.sort_by(|a, b| a.weight.total_cmp(&b.weight));
    println!("{bois:?}");
    assert_eq!(
        format!("{:?}", bois.into_iter().map(|b| b.weight).collect::<Vec<_>>()),
        format!(
            "{:?}",
            vec![
                RatioExt::Nan,
                ratio(-5, 1),
                ratio(1, 10),
                ratio(10, 1),
                ratio(99, 1),
                RatioExt::Inf
            ]
        )
    );
}

#[test]
fn sorting_by_the_total_order_puts_nan_first_and_infinity_last() {
    let mut list = vec![RatioExt::Nan, ratio(99, 1), ratio(1, 10), RatioExt::Inf, ratio(-5, 1)];
    list.sort_by(|a, b| a.total_cmp(b));
    let texts: Vec<String> = list.iter().map(text).collect();
    assert_eq!(texts, vec!["NaN", "-5", "1/10", "99", "Inf"]);
}

#[test]
fn total_order_ranks_the_special_values() {
    assert_eq!(RatioExt::Nan.total_cmp(&RatioExt::MinusInf), Ordering::Less);
    assert_eq!(RatioExt::MinusInf.total_cmp(&whole(-1000)), Ordering::Less);
    assert_eq!(whole(1000).total_cmp(&RatioExt::Inf), Ordering::Less);
    assert_eq!(RatioExt::Inf.total_cmp(&RatioExt::Nan), Ordering::Greater);
    assert_eq!(RatioExt::Nan.total_cmp(&RatioExt::Nan), Ordering::Equal);
    assert_eq!(RatioExt::Inf.total_cmp(&RatioExt::Inf), Ordering::Equal);
    assert_eq!(ratio(1, 2).total_cmp(&ratio(2, 4)), Ordering::Equal);
    assert_eq!(ratio(1, 3).total_cmp(&ratio(1, 2)), Ordering::Less);
    assert_eq!(ratio(1, 2).total_cmp(&ratio(1, 3)), Ordering::Greater);
}

#[test]
fn total_order_is_antisymmetric_and_transitive_on_samples() {
    let samples = vec![
        RatioExt::Nan,
        RatioExt::MinusInf,
        whole(-3),
        ratio(-1, 2),
        whole(0),
        ratio(7, 3),
        RatioExt::Inf,
    ];
    for a in &samples {
        for b in &samples {
            assert_eq!(a.total_cmp(b), b.total_cmp(a).reverse());
            for c in &samples {
                if a.total_cmp(b) != Ordering::Greater && b.total_cmp(c) != Ordering::Greater {
                    assert_ne!(a.total_cmp(c), Ordering::Greater);
                }
            }
        }
    }
}

#[test]
fn partial_order_has_no_answer_for_nan_and_equal_infinities() {
    assert_eq!(RatioExt::Nan.partial_cmp(&whole(1)), None);
    assert_eq!(whole(1).partial_cmp(&RatioExt::Nan), None);
    assert_eq!(RatioExt::Inf.partial_cmp(&RatioExt::Inf), None);
    assert_eq!(RatioExt::MinusInf.partial_cmp(&RatioExt::MinusInf), None);
    assert_eq!(RatioExt::MinusInf.partial_cmp(&RatioExt::Inf), Some(Ordering::Less));
    assert_eq!(RatioExt::Inf.partial_cmp(&whole(5)), Some(Ordering::Greater));
    assert_eq!(whole(5).partial_cmp(&RatioExt::MinusInf), Some(Ordering::Greater));
    assert_eq!(ratio(1, 3).partial_cmp(&ratio(1, 2)), Some(Ordering::Less));
    assert_eq!(ratio(2, 4).partial_cmp(&ratio(1, 2)), Some(Ordering::Equal));
    assert!(whole(1).lt(&whole(2)));
    assert!(!RatioExt::Nan.lt(&whole(2)));
    assert!(whole(2).gt(&whole(1)));
    assert!(whole(2).ge(&whole(2)));
    assert!(whole(2).le(&whole(2)));
    assert!(!RatioExt::Inf.ge(&RatioExt::Inf));
}

#[test]
fn equality_holds_for_equal_values_and_never_for_nan() {
    assert!(ratio(2, 4) == ratio(1, 2));
    assert!(ratio(1, 2) != ratio(1, 3));
    assert!(RatioExt::Inf == RatioExt::Inf);
    assert!(RatioExt::MinusInf == RatioExt::MinusInf);
    assert!(RatioExt::Inf != RatioExt::MinusInf);
    assert!(RatioExt::Nan != RatioExt::Nan);
    assert!(RatioExt::Nan != whole(0));
}

#[test]
fn finite_arithmetic_is_exact() {
    assert_eq!(text(&ratio(1, 2).add(&ratio(1, 3))), "5/6");
    assert_eq!(text(&ratio(1, 2).sub(&ratio(1, 3))), "1/6");
    assert_eq!(text(&ratio(2, 3).mul(&ratio(3, 4))), "1/2");
    assert_eq!(text(&ratio(2, 3).div(&ratio(4, 9))), "3/2");
    assert_eq!(text(&ratio(2, 3).neg()), "-2/3");
    assert_eq!(text(&ratio(6, 4)), "3/2");
    assert_eq!(text(&ratio(3, -6)), "-1/2");
}

#[test]
fn a_value_plus_its_negation_is_zero() {
    for x in [ratio(7, 3), whole(-4), whole(0), ratio(-1, 1000)] {
        assert!(x.add(&x.neg()).is_zero());
    }
}

#[test]
fn one_is_neutral_in_multiplication() {
    for x in [ratio(7, 3), whole(-4), whole(0), RatioExt::Inf, RatioExt::MinusInf] {
        assert!(x.mul(&RatioExt::one()) == x);
        assert!(RatioExt::one().mul(&x) == x);
    }
    assert!(RatioExt::Nan.mul(&RatioExt::one()).is_nan());
}

#[test]
fn adding_and_taking_away_gives_the_value_back() {
    let x = ratio(7, 3);
    let y = ratio(-5, 11);
    assert!(x.add(&y).sub(&y) == x);
}

#[test]
fn addition_with_infinities() {
    assert!(RatioExt::Inf.add(&RatioExt::Inf).is_inf());
    assert!(RatioExt::Inf.add(&RatioExt::MinusInf).is_nan());
    assert!(RatioExt::Inf.add(&whole(3)).is_inf());
    assert!(RatioExt::Inf.add(&RatioExt::Nan).is_nan());
    assert!(RatioExt::MinusInf.add(&RatioExt::Inf).is_nan());
    assert!(RatioExt::MinusInf.add(&RatioExt::MinusInf).is_minus_inf());
    assert!(RatioExt::MinusInf.add(&whole(3)).is_minus_inf());
    assert!(whole(3).add(&RatioExt::Inf).is_inf());
    assert!(whole(3).add(&RatioExt::MinusInf).is_minus_inf());
    assert!(RatioExt::Nan.add(&whole(3)).is_nan());
}

#[test]
fn subtraction_with_infinities() {
    assert!(RatioExt::Inf.sub(&RatioExt::Inf).is_nan());
    assert!(RatioExt::Inf.sub(&RatioExt::MinusInf).is_inf());
    assert!(RatioExt::Inf.sub(&whole(3)).is_inf());
    assert!(RatioExt::MinusInf.sub(&RatioExt::MinusInf).is_nan());
    assert!(RatioExt::MinusInf.sub(&RatioExt::Inf).is_minus_inf());
    assert!(whole(3).sub(&RatioExt::Inf).is_minus_inf());
    assert!(whole(3).sub(&RatioExt::MinusInf).is_inf());
    assert!(RatioExt::Nan.sub(&RatioExt::Nan).is_nan());
}

#[test]
fn multiplication_with_infinities() {
    assert!(RatioExt::Inf.mul(&whole(2)).is_inf());
    assert!(RatioExt::Inf.mul(&whole(-2)).is_minus_inf());
    assert!(RatioExt::Inf.mul(&whole(0)).is_zero());
    assert!(whole(0).mul(&RatioExt::Inf).is_zero());
    assert!(whole(0).mul(&RatioExt::MinusInf).is_zero());
    assert!(whole(-2).mul(&RatioExt::Inf).is_minus_inf());
    assert!(whole(-2).mul(&RatioExt::MinusInf).is_inf());
    assert!(whole(2).mul(&RatioExt::MinusInf).is_minus_inf());
    assert!(RatioExt::MinusInf.mul(&whole(-2)).is_inf());
    assert!(RatioExt::MinusInf.mul(&RatioExt::MinusInf).is_inf());
    assert!(RatioExt::Inf.mul(&RatioExt::MinusInf).is_minus_inf());
    assert!(RatioExt::Inf.mul(&RatioExt::Inf).is_inf());
    assert!(RatioExt::Inf.mul(&RatioExt::Nan).is_nan());
}

#[test]
fn division_by_zero_and_by_infinities() {
    assert!(whole(1).div(&whole(0)).is_inf());
    assert!(whole(-1).div(&whole(0)).is_minus_inf());
    assert!(whole(0).div(&whole(0)).is_nan());
    assert!(RatioExt::Inf.div(&RatioExt::Inf).is_nan());
    assert!(RatioExt::Inf.div(&RatioExt::MinusInf).is_nan());
    assert!(RatioExt::MinusInf.div(&RatioExt::Inf).is_nan());
    assert!(whole(5).div(&RatioExt::Inf).is_zero());
    assert!(whole(5).div(&RatioExt::MinusInf).is_zero());
    assert!(RatioExt::Inf.div(&whole(2)).is_inf());
    assert!(RatioExt::Inf.div(&whole(-2)).is_minus_inf());
    assert!(RatioExt::Inf.div(&whole(0)).is_inf());
    assert!(RatioExt::MinusInf.div(&whole(-2)).is_inf());
    assert!(RatioExt::MinusInf.div(&whole(2)).is_minus_inf());
    assert!(RatioExt::Nan.div(&whole(2)).is_nan());
}

#[test]
fn negation_swaps_the_infinities() {
    assert!(RatioExt::Inf.neg().is_minus_inf());
    assert!(RatioExt::MinusInf.neg().is_inf());
    assert!(RatioExt::Nan.neg().is_nan());
    assert_eq!(text(&whole(4).neg()), "-4");
}

#[test]
fn assigning_operations_change_the_value_in_place() {
    let mut x = ratio(1, 2);
    x.add_assign(&ratio(1, 3));
    assert_eq!(text(&x), "5/6");
    x.sub_assign(&ratio(1, 6));
    assert_eq!(text(&x), "2/3");
    x.mul_assign(&whole(3));
    assert_eq!(text(&x), "2");
    x.div_assign(&whole(4));
    assert_eq!(text(&x), "1/2");
    x.div_assign(&whole(0));
    assert!(x.is_inf());
}

#[test]
fn whole_numbers_and_floors() {
    assert!(whole(4).is_integer());
    assert!(ratio(8, 2).is_integer());
    assert!(!ratio(7, 2).is_integer());
    assert!(!RatioExt::Inf.is_integer());
    assert!(!RatioExt::Nan.is_integer());
    assert_eq!(text(&ratio(7, 2).floor()), "3");
    assert_eq!(text(&ratio(-7, 2).floor()), "-4");
    assert_eq!(text(&whole(5).floor()), "5");
    assert!(RatioExt::Inf.floor().is_inf());
}

#[test]
fn constructors_and_accessors() {
    assert_eq!(text(&RatioExt::from_integer(BigInt::from(12))), "12");
    assert_eq!(text(&RatioExt::from_i64(-12)), "-12");
    assert_eq!(text(&RatioExt::from_u64(12)), "12");
    assert_eq!(text(&RatioExt::from_i128(-170141183460469231731687303715884105728)), "-170141183460469231731687303715884105728");
    assert_eq!(text(&RatioExt::from_u128(340282366920938463463374607431768211455)), "340282366920938463463374607431768211455");
    assert!(RatioExt::zero().is_zero());
    assert!(RatioExt::one().is_one());
    assert!(!RatioExt::one().is_zero());
    assert!(RatioExt::default().is_zero());
    assert!(RatioExt::minus_one() == whole(-1));
    assert!(whole(3).is_finite());
    assert!(whole(3).finite().is_some());
    assert!(RatioExt::Inf.finite().is_none());
    assert!(RatioExt::Nan.finite_as_ref().is_none());
    let x = ratio(3, 4);
    assert_eq!(x.finite_as_ref().unwrap().to_string(), "3/4");
    assert_eq!(x.finite_as_ref_unchecked().to_string(), "3/4");
    assert_eq!(text(&RatioExt::MinusInf), "-Inf");
    assert!(Rational::from_parts(BigInt::from(1), BigInt::from(0)).is_none());
    let q = Rational::from_parts(BigInt::from(10), BigInt::from(-4)).unwrap();
    assert_eq!(q.numer(), BigInt::from(-5));
    assert_eq!(q.denom(), BigInt::from(2));
    assert!(q.is_negative());
    assert!(!q.is_positive());
    assert!(q.clone() == q);
}
