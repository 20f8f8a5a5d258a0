//! Exact rational numbers.
//!
//! [`Rational`] keeps a `num_rational::Ratio<num_bigint::BigInt>` and gives it a
//! mathematical meaning: the real number that its numerator and denominator
//! denote. The arithmetic itself is done by `num_rational`; the functions at the
//! top of this file state, without proof, what each of its operations returns.
//! Everything else in the crate is proved from those statements.

use vstd::prelude::*;
use std::cmp::Ordering;
use num_bigint::BigInt;
use num_rational::Ratio;

verus! {

/// `num_bigint::BigInt`, an integer of any size.
#[verifier::external_type_specification]
#[verifier::external_body]
pub struct ExBigInt(BigInt);

/// `num_rational::Ratio`, a numerator and a denominator.
#[verifier::external_type_specification]
#[verifier::external_body]
#[verifier::reject_recursive_types(T)]
pub struct ExRatio<T>(Ratio<T>);

/// The integer that a `BigInt` holds.
pub uninterp spec fn bigint_value(n: BigInt) -> int;

/// The numerator that a `Ratio<BigInt>` holds.
pub uninterp spec fn ratio_numer(r: Ratio<BigInt>) -> int;

/// The denominator that a `Ratio<BigInt>` holds.
pub uninterp spec fn ratio_denom(r: Ratio<BigInt>) -> int;

/// The text that `Display` gives for the fraction `numer / denom` in lowest terms.
pub uninterp spec fn ratio_text(numer: int, denom: int) -> Seq<char>;

/// No integer above one divides both `n` and `d`.
pub open spec fn coprime(n: int, d: int) -> bool {
    forall|k: int| k > 1 ==> !(#[trigger] (n % k) == 0 && d % k == 0)
}

/// The form in which `num_rational` keeps every ratio that it builds itself:
/// lowest terms, with a positive denominator.
pub open spec fn canonical(r: Ratio<BigInt>) -> bool {
    ratio_denom(r) > 0 && coprime(ratio_numer(r), ratio_denom(r))
}

/// The quotient `n / d` as a real number.
pub open spec fn quotient(n: int, d: int) -> real {
    n as real / d as real
}

/// The real number that a ratio denotes.
pub open spec fn ratio_value(r: Ratio<BigInt>) -> real {
    quotient(ratio_numer(r), ratio_denom(r))
}

/// `x` is a whole number.
pub open spec fn is_integral(x: real) -> bool {
    x.floor() as real == x
}

/// `BigInt::from` on an `i128`: the result holds the same integer.
#[verifier::external_body]
fn bigint_from_i128(n: i128) -> (r: BigInt)
    ensures
        bigint_value(r) == n,
{
    BigInt::from(n)
}

/// `BigInt::from` on a `u128`: the result holds the same integer.
#[verifier::external_body]
fn bigint_from_u128(n: u128) -> (r: BigInt)
    ensures
        bigint_value(r) == n,
{
    BigInt::from(n)
}

/// `Zero::is_zero` of `BigInt`: whether the integer is zero.
#[verifier::external_body]
fn bigint_is_zero(n: &BigInt) -> (b: bool)
    ensures
        b == (bigint_value(*n) == 0),
{
    num_traits::Zero::is_zero(n)
}

/// `Ratio::from_integer`: the ratio `n / 1`.
#[verifier::external_body]
fn ratio_from_integer(n: BigInt) -> (r: Ratio<BigInt>)
    ensures
        ratio_numer(r) == bigint_value(n),
        ratio_denom(r) == 1,
{
    Ratio::from_integer(n)
}

/// `Ratio::new`, which panics on a zero denominator: the ratio `n / d` brought
/// to lowest terms with a positive denominator.
#[verifier::external_body]
fn ratio_new(n: BigInt, d: BigInt) -> (r: Ratio<BigInt>)
    requires
        bigint_value(d) != 0,
    ensures
        canonical(r),
        ratio_numer(r) * bigint_value(d) == bigint_value(n) * ratio_denom(r),
{
    Ratio::new(n, d)
}

/// `Ratio::numer`, cloned: the numerator.
#[verifier::external_body]
fn ratio_numer_of(a: &Ratio<BigInt>) -> (n: BigInt)
    ensures
        bigint_value(n) == ratio_numer(*a),
{
    a.numer().clone()
}

/// `Ratio::denom`, cloned: the denominator.
#[verifier::external_body]
fn ratio_denom_of(a: &Ratio<BigInt>) -> (n: BigInt)
    ensures
        bigint_value(n) == ratio_denom(*a),
{
    a.denom().clone()
}

/// `Clone::clone` of `Ratio<BigInt>`: numerator and denominator are kept.
#[verifier::external_body]
fn ratio_clone(a: &Ratio<BigInt>) -> (r: Ratio<BigInt>)
    ensures
        ratio_numer(r) == ratio_numer(*a),
        ratio_denom(r) == ratio_denom(*a),
{
    a.clone()
}

/// `&Ratio + &Ratio`: the exact sum, in lowest terms.
#[verifier::external_body]
fn ratio_add(a: &Ratio<BigInt>, b: &Ratio<BigInt>) -> (r: Ratio<BigInt>)
    requires
        canonical(*a),
        canonical(*b),
    ensures
        canonical(r),
        ratio_value(r) == ratio_value(*a) + ratio_value(*b),
{
    a + b
}

/// `&Ratio - &Ratio`: the exact difference, in lowest terms.
#[verifier::external_body]
fn ratio_sub(a: &Ratio<BigInt>, b: &Ratio<BigInt>) -> (r: Ratio<BigInt>)
    requires
        canonical(*a),
        canonical(*b),
    ensures
        canonical(r),
        ratio_value(r) == ratio_value(*a) - ratio_value(*b),
{
    a - b
}

/// `&Ratio * &Ratio`: the exact product, in lowest terms.
#[verifier::external_body]
fn ratio_mul(a: &Ratio<BigInt>, b: &Ratio<BigInt>) -> (r: Ratio<BigInt>)
    requires
        canonical(*a),
        canonical(*b),
    ensures
        canonical(r),
        ratio_value(r) == ratio_value(*a) * ratio_value(*b),
{
    a * b
}

/// `&Ratio / &Ratio`, which panics on a zero divisor: the exact quotient, in
/// lowest terms.
#[verifier::external_body]
fn ratio_div(a: &Ratio<BigInt>, b: &Ratio<BigInt>) -> (r: Ratio<BigInt>)
    requires
        canonical(*a),
        canonical(*b),
        ratio_numer(*b) != 0,
    ensures
        canonical(r),
        ratio_value(r) == ratio_value(*a) / ratio_value(*b),
{
    a / b
}

/// `-&Ratio`: the numerator changes sign, the denominator stays.
#[verifier::external_body]
fn ratio_neg(a: &Ratio<BigInt>) -> (r: Ratio<BigInt>)
    ensures
        ratio_numer(r) == -ratio_numer(*a),
        ratio_denom(r) == ratio_denom(*a),
{
    -a
}

/// `Ord::cmp` of `Ratio`: the order of the two values.
#[verifier::external_body]
fn ratio_cmp(a: &Ratio<BigInt>, b: &Ratio<BigInt>) -> (o: Ordering)
    requires
        canonical(*a),
        canonical(*b),
    ensures
        o == real_order(ratio_value(*a), ratio_value(*b)),
{
    a.cmp(b)
}

/// `Zero::is_zero` of `Ratio`: whether the numerator is zero.
#[verifier::external_body]
fn ratio_is_zero(a: &Ratio<BigInt>) -> (b: bool)
    ensures
        b == (ratio_numer(*a) == 0),
{
    num_traits::Zero::is_zero(a)
}

/// `Ratio::is_integer`: whether the denominator is one.
#[verifier::external_body]
fn ratio_is_integer(a: &Ratio<BigInt>) -> (b: bool)
    ensures
        b == (ratio_denom(*a) == 1),
{
    a.is_integer()
}

/// `Ratio::floor`: the largest whole number that is not above the value, as a
/// ratio with denominator one.
#[verifier::external_body]
fn ratio_floor(a: &Ratio<BigInt>) -> (r: Ratio<BigInt>)
    requires
        canonical(*a),
    ensures
        ratio_numer(r) == ratio_value(*a).floor(),
        ratio_denom(r) == 1,
{
    a.floor()
}

/// `ToString::to_string` of `Ratio`, through its `Display`.
#[verifier::external_body]
fn ratio_to_string(a: &Ratio<BigInt>) -> (s: String)
    requires
        canonical(*a),
    ensures
        s@ == ratio_text(ratio_numer(*a), ratio_denom(*a)),
{
    a.to_string()
}

/// How two real numbers compare.
pub open spec fn real_order(x: real, y: real) -> Ordering {
    if x < y {
        Ordering::Less
    } else if x == y {
        Ordering::Equal
    } else {
        Ordering::Greater
    }
}

/// An exact rational number.
///
/// Its view is the real number it denotes. The fraction inside is always in
/// lowest terms with a positive denominator.
#[derive(Debug)]
pub struct Rational {
    ratio: Ratio<BigInt>,
}

impl View for Rational {
    type V = real;

    closed spec fn view(&self) -> real {
        ratio_value(self.ratio)
    }
}

/// Nothing above one divides one, so every number over one is in lowest terms.
proof fn lemma_one_is_coprime(n: int)
    ensures
        coprime(n, 1),
{
    assert forall|k: int| k > 1 implies !(#[trigger] (n % k) == 0 && 1int % k == 0) by {
        assert(1int % k == 1) by (nonlinear_arith)
            requires
                k > 1,
        ;
    }
}

/// Changing the sign of the numerator keeps a fraction in lowest terms.
proof fn lemma_neg_is_coprime(n: int, d: int)
    requires
        coprime(n, d),
    ensures
        coprime(-n, d),
{
    assert forall|k: int| k > 1 implies !(#[trigger] ((-n) % k) == 0 && d % k == 0) by {
        if (-n) % k == 0 {
            let q = (-n) / k;
            vstd::arithmetic::div_mod::lemma_fundamental_div_mod(-n, k);
            assert(n == (-q) * k) by (nonlinear_arith)
                requires
                    -n == k * q + 0,
            ;
            vstd::arithmetic::div_mod::lemma_mod_multiples_basic(-q, k);
            assert(n % k == 0);
        }
    }
}

/// A whole number over one is that number.
proof fn lemma_quotient_by_one(n: int)
    ensures
        quotient(n, 1) == n as real,
        is_integral(quotient(n, 1)),
        quotient(n, 1).floor() == n,
{
    assert(n as real / 1int as real == n as real) by (nonlinear_arith);
}

/// If `n / d` is the whole number `k`, then `n` is `k` times `d`.
proof fn lemma_whole_quotient(n: int, d: int, k: int)
    requires
        d > 0,
        quotient(n, d) == k as real,
    ensures
        n == k * d,
{
    assert(n == k * d) by (nonlinear_arith)
        requires
            d > 0,
            n as real / d as real == k as real,
    ;
}

/// A fraction in lowest terms is a whole number exactly when its denominator
/// is one.
proof fn lemma_integral_denominator(n: int, d: int)
    requires
        d > 0,
        coprime(n, d),
    ensures
        is_integral(quotient(n, d)) <==> d == 1,
{
    if d == 1 {
        lemma_quotient_by_one(n);
    }
    if is_integral(quotient(n, d)) && d > 1 {
        let k = quotient(n, d).floor();
        lemma_whole_quotient(n, d, k);
        vstd::arithmetic::div_mod::lemma_mod_multiples_basic(k, d);
        vstd::arithmetic::div_mod::lemma_mod_self_0(d);
        assert(n % d == 0 && d % d == 0);
    }
}

impl Rational {
    #[verifier::type_invariant]
    spec fn well_formed(self) -> bool {
        canonical(self.ratio)
    }

    /// The numerator of the fraction in lowest terms.
    pub closed spec fn spec_numer(self) -> int {
        ratio_numer(self.ratio)
    }

    /// The denominator of the fraction in lowest terms.
    pub closed spec fn spec_denom(self) -> int {
        ratio_denom(self.ratio)
    }

    /// The value is the quotient of [`Self::spec_numer`] and
    /// [`Self::spec_denom`].
    pub proof fn lemma_view_is_quotient(self)
        ensures
            self@ == quotient(self.spec_numer(), self.spec_denom()),
    {
    }

    /// The whole number `n`.
    pub fn from_integer(n: BigInt) -> (r: Rational)
        ensures
            r@ == bigint_value(n) as real,
            r.spec_numer() == bigint_value(n),
            r.spec_denom() == 1,
    {
        proof {
            lemma_one_is_coprime(bigint_value(n));
            lemma_quotient_by_one(bigint_value(n));
        }
        Rational { ratio: ratio_from_integer(n) }
    }

    /// The whole number `n`.
    pub fn from_i128(n: i128) -> (r: Rational)
        ensures
            r@ == n as real,
    {
        Rational::from_integer(bigint_from_i128(n))
    }

    /// The whole number `n`.
    pub fn from_u128(n: u128) -> (r: Rational)
        ensures
            r@ == n as real,
    {
        Rational::from_integer(bigint_from_u128(n))
    }

    /// The whole number `n`.
    pub fn from_i64(n: i64) -> (r: Rational)
        ensures
            r@ == n as real,
    {
        Rational::from_i128(n as i128)
    }

    /// The whole number `n`.
    pub fn from_u64(n: u64) -> (r: Rational)
        ensures
            r@ == n as real,
    {
        Rational::from_u128(n as u128)
    }

    /// The fraction `numer / denom`, or `None` when `denom` is zero.
    pub fn from_parts(numer: BigInt, denom: BigInt) -> (r: Option<Rational>)
        ensures
            r is None <==> bigint_value(denom) == 0,
            r matches Some(q) ==> q@ == quotient(bigint_value(numer), bigint_value(denom)),
    {
        if bigint_is_zero(&denom) {
            return None;
        }
        let ghost n = bigint_value(numer);
        let ghost d = bigint_value(denom);
        let ratio = ratio_new(numer, denom);
        proof {
            let rn = ratio_numer(ratio);
            let rd = ratio_denom(ratio);
            assert(rn as real / rd as real == n as real / d as real) by (nonlinear_arith)
                requires
                    rd > 0,
                    d != 0,
                    rn * d == n * rd,
            ;
        }
        Some(Rational { ratio })
    }

    /// Zero.
    pub fn zero() -> (r: Rational)
        ensures
            r@ == 0real,
    {
        Rational::from_i128(0)
    }

    /// One.
    pub fn one() -> (r: Rational)
        ensures
            r@ == 1real,
    {
        Rational::from_i128(1)
    }

    /// The numerator of the fraction in lowest terms.
    pub fn numer(&self) -> (n: BigInt)
        ensures
            bigint_value(n) == self.spec_numer(),
    {
        ratio_numer_of(&self.ratio)
    }

    /// The denominator of the fraction in lowest terms.
    pub fn denom(&self) -> (n: BigInt)
        ensures
            bigint_value(n) == self.spec_denom(),
            bigint_value(n) > 0,
    {
        proof {
            use_type_invariant(self);
        }
        ratio_denom_of(&self.ratio)
    }

    /// The sum.
    pub fn add(&self, other: &Rational) -> (r: Rational)
        ensures
            r@ == self@ + other@,
    {
        proof {
            use_type_invariant(self);
            use_type_invariant(other);
        }
        Rational { ratio: ratio_add(&self.ratio, &other.ratio) }
    }

    /// The difference.
    pub fn sub(&self, other: &Rational) -> (r: Rational)
        ensures
            r@ == self@ - other@,
    {
        proof {
            use_type_invariant(self);
            use_type_invariant(other);
        }
        Rational { ratio: ratio_sub(&self.ratio, &other.ratio) }
    }

    /// The product.
    pub fn mul(&self, other: &Rational) -> (r: Rational)
        ensures
            r@ == self@ * other@,
    {
        proof {
            use_type_invariant(self);
            use_type_invariant(other);
        }
        Rational { ratio: ratio_mul(&self.ratio, &other.ratio) }
    }

    /// The quotient by a divisor that is not zero.
    pub fn div(&self, other: &Rational) -> (r: Rational)
        requires
            other@ != 0real,
        ensures
            r@ == self@ / other@,
    {
        proof {
            use_type_invariant(self);
            use_type_invariant(other);
            other.lemma_zero_numerator();
        }
        Rational { ratio: ratio_div(&self.ratio, &other.ratio) }
    }

    /// The value with its sign changed.
    pub fn neg(&self) -> (r: Rational)
        ensures
            r@ == -self@,
    {
        proof {
            use_type_invariant(self);
            lemma_neg_is_coprime(ratio_numer(self.ratio), ratio_denom(self.ratio));
        }
        let ratio = ratio_neg(&self.ratio);
        proof {
            let n = ratio_numer(self.ratio);
            let d = ratio_denom(self.ratio);
            assert((-n) as real / d as real == -(n as real / d as real)) by (nonlinear_arith)
                requires
                    d > 0,
            ;
        }
        Rational { ratio }
    }

    /// The value is zero exactly when the numerator is.
    proof fn lemma_zero_numerator(self)
        requires
            canonical(self.ratio),
        ensures
            ratio_numer(self.ratio) == 0 <==> self@ == 0real,
    {
        let n = ratio_numer(self.ratio);
        let d = ratio_denom(self.ratio);
        assert((n == 0) <==> (n as real / d as real == 0real)) by (nonlinear_arith)
            requires
                d > 0,
        ;
    }

    /// Whether the value is zero.
    pub fn is_zero(&self) -> (b: bool)
        ensures
            b == (self@ == 0real),
    {
        proof {
            use_type_invariant(self);
            self.lemma_zero_numerator();
        }
        ratio_is_zero(&self.ratio)
    }

    /// Whether the value is a whole number.
    pub fn is_integer(&self) -> (b: bool)
        ensures
            b == is_integral(self@),
    {
        proof {
            use_type_invariant(self);
            lemma_integral_denominator(ratio_numer(self.ratio), ratio_denom(self.ratio));
        }
        ratio_is_integer(&self.ratio)
    }

    /// The largest whole number that is not above the value.
    pub fn floor(&self) -> (r: Rational)
        ensures
            r@ == self@.floor() as real,
    {
        proof {
            use_type_invariant(self);
        }
        let ratio = ratio_floor(&self.ratio);
        proof {
            lemma_one_is_coprime(ratio_numer(ratio));
            lemma_quotient_by_one(ratio_numer(ratio));
        }
        Rational { ratio }
    }

    /// How the value compares with that of `other`.
    pub fn compare(&self, other: &Rational) -> (o: Ordering)
        ensures
            o == real_order(self@, other@),
    {
        proof {
            use_type_invariant(self);
            use_type_invariant(other);
        }
        ratio_cmp(&self.ratio, &other.ratio)
    }

    /// Whether the value is below zero.
    pub fn is_negative(&self) -> (b: bool)
        ensures
            b == (self@ < 0real),
    {
        let zero = Rational::zero();
        match self.compare(&zero) {
            Ordering::Less => true,
            _ => false,
        }
    }

    /// Whether the value is above zero.
    pub fn is_positive(&self) -> (b: bool)
        ensures
            b == (self@ > 0real),
    {
        let zero = Rational::zero();
        match self.compare(&zero) {
            Ordering::Greater => true,
            _ => false,
        }
    }

    /// Whether the value is one.
    pub fn is_one(&self) -> (b: bool)
        ensures
            b == (self@ == 1real),
    {
        let one = Rational::one();
        match self.compare(&one) {
            Ordering::Equal => true,
            _ => false,
        }
    }

    /// The text of the fraction: the numerator, and after a slash the
    /// denominator where it is not one.
    pub fn to_string(&self) -> (s: String)
        ensures
            s@ == ratio_text(self.spec_numer(), self.spec_denom()),
    {
        proof {
            use_type_invariant(self);
        }
        ratio_to_string(&self.ratio)
    }
}

impl PartialEq for Rational {
    fn eq(&self, other: &Self) -> (b: bool) {
        match self.compare(other) {
            Ordering::Equal => true,
            _ => false,
        }
    }
}

impl vstd::std_specs::cmp::PartialEqSpecImpl for Rational {
    open spec fn obeys_eq_spec() -> bool {
        true
    }

    open spec fn eq_spec(&self, other: &Self) -> bool {
        self@ == other@
    }
}

impl Clone for Rational {
    fn clone(&self) -> (r: Self)
        ensures
            r@ == self@,
            r.spec_numer() == self.spec_numer(),
            r.spec_denom() == self.spec_denom(),
    {
        proof {
            use_type_invariant(self);
        }
        Rational { ratio: ratio_clone(&self.ratio) }
    }
}

} // verus!
