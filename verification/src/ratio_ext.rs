//! Rational numbers extended by `+∞`, `−∞` and `NaN`.

use vstd::prelude::*;
use std::cmp::Ordering;
use num_bigint::BigInt;
use crate::rational::{bigint_value, is_integral, ratio_text, real_order, Rational};

verus! {

/// The mathematical value of a [`RatioExt`].
pub enum ExtRat {
    Inf,
    Finite(real),
    MinusInf,
    Nan,
}

/// Zero as an extended rational.
pub open spec fn ext_zero() -> ExtRat {
    ExtRat::Finite(0real)
}

/// One as an extended rational.
pub open spec fn ext_one() -> ExtRat {
    ExtRat::Finite(1real)
}

/// Negation: the infinities change places, `NaN` stays.
pub open spec fn ext_neg(a: ExtRat) -> ExtRat {
    match a {
        ExtRat::Inf => ExtRat::MinusInf,
        ExtRat::Finite(x) => ExtRat::Finite(-x),
        ExtRat::MinusInf => ExtRat::Inf,
        ExtRat::Nan => ExtRat::Nan,
    }
}

/// The sum. Infinities of opposite sign give `NaN`.
pub open spec fn ext_add(a: ExtRat, b: ExtRat) -> ExtRat {
    match (a, b) {
        (ExtRat::Nan, _) | (_, ExtRat::Nan) => ExtRat::Nan,
        (ExtRat::Inf, ExtRat::MinusInf) | (ExtRat::MinusInf, ExtRat::Inf) => ExtRat::Nan,
        (ExtRat::Inf, _) | (_, ExtRat::Inf) => ExtRat::Inf,
        (ExtRat::MinusInf, _) | (_, ExtRat::MinusInf) => ExtRat::MinusInf,
        (ExtRat::Finite(x), ExtRat::Finite(y)) => ExtRat::Finite(x + y),
    }
}

/// The difference. Infinities of the same sign give `NaN`.
pub open spec fn ext_sub(a: ExtRat, b: ExtRat) -> ExtRat {
    match (a, b) {
        (ExtRat::Nan, _) | (_, ExtRat::Nan) => ExtRat::Nan,
        (ExtRat::Inf, ExtRat::Inf) | (ExtRat::MinusInf, ExtRat::MinusInf) => ExtRat::Nan,
        (ExtRat::Inf, _) | (_, ExtRat::MinusInf) => ExtRat::Inf,
        (ExtRat::MinusInf, _) | (_, ExtRat::Inf) => ExtRat::MinusInf,
        (ExtRat::Finite(x), ExtRat::Finite(y)) => ExtRat::Finite(x - y),
    }
}

/// An infinity scaled by the finite factor `x`: the sign of `x` decides, and
/// zero gives zero.
pub open spec fn ext_scale_infinity(positive: bool, x: real) -> ExtRat {
    if x == 0real {
        ExtRat::Finite(0real)
    } else if (x > 0real) == positive {
        ExtRat::Inf
    } else {
        ExtRat::MinusInf
    }
}

/// The product. A finite zero absorbs an infinity.
pub open spec fn ext_mul(a: ExtRat, b: ExtRat) -> ExtRat {
    match (a, b) {
        (ExtRat::Nan, _) | (_, ExtRat::Nan) => ExtRat::Nan,
        (ExtRat::Inf, ExtRat::Inf) | (ExtRat::MinusInf, ExtRat::MinusInf) => ExtRat::Inf,
        (ExtRat::Inf, ExtRat::MinusInf) | (ExtRat::MinusInf, ExtRat::Inf) => ExtRat::MinusInf,
        (ExtRat::Inf, ExtRat::Finite(x)) | (ExtRat::Finite(x), ExtRat::Inf) => ext_scale_infinity(
            true,
            x,
        ),
        (ExtRat::MinusInf, ExtRat::Finite(x)) | (ExtRat::Finite(x), ExtRat::MinusInf) =>
            ext_scale_infinity(false, x),
        (ExtRat::Finite(x), ExtRat::Finite(y)) => ExtRat::Finite(x * y),
    }
}

/// The quotient. A finite value over zero is an infinity of its own sign, zero
/// over zero and an infinity over an infinity are `NaN`, a finite value over
/// an infinity is zero, and an infinity over a finite value keeps its sign
/// unless the divisor is negative.
pub open spec fn ext_div(a: ExtRat, b: ExtRat) -> ExtRat {
    match (a, b) {
        (ExtRat::Nan, _) | (_, ExtRat::Nan) => ExtRat::Nan,
        (ExtRat::Inf, ExtRat::Finite(y)) => if y < 0real {
            ExtRat::MinusInf
        } else {
            ExtRat::Inf
        },
        (ExtRat::MinusInf, ExtRat::Finite(y)) => if y < 0real {
            ExtRat::Inf
        } else {
            ExtRat::MinusInf
        },
        (ExtRat::Inf, _) | (ExtRat::MinusInf, _) => ExtRat::Nan,
        (ExtRat::Finite(_), ExtRat::Inf) | (ExtRat::Finite(_), ExtRat::MinusInf) => ExtRat::Finite(
            0real,
        ),
        (ExtRat::Finite(x), ExtRat::Finite(y)) => if y != 0real {
            ExtRat::Finite(x / y)
        } else if x == 0real {
            ExtRat::Nan
        } else if x < 0real {
            ExtRat::MinusInf
        } else {
            ExtRat::Inf
        },
    }
}

/// Equality: `NaN` equals nothing, not even itself.
pub open spec fn ext_eq(a: ExtRat, b: ExtRat) -> bool {
    match (a, b) {
        (ExtRat::Inf, ExtRat::Inf) | (ExtRat::MinusInf, ExtRat::MinusInf) => true,
        (ExtRat::Finite(x), ExtRat::Finite(y)) => x == y,
        _ => false,
    }
}

/// The partial order: nothing for `NaN` and for two infinities of one sign.
pub open spec fn ext_partial_order(a: ExtRat, b: ExtRat) -> Option<Ordering> {
    match (a, b) {
        (ExtRat::Nan, _) | (_, ExtRat::Nan) => None,
        (ExtRat::Inf, ExtRat::Inf) | (ExtRat::MinusInf, ExtRat::MinusInf) => None,
        (ExtRat::MinusInf, _) | (_, ExtRat::Inf) => Some(Ordering::Less),
        (ExtRat::Inf, _) | (_, ExtRat::MinusInf) => Some(Ordering::Greater),
        (ExtRat::Finite(x), ExtRat::Finite(y)) => Some(real_order(x, y)),
    }
}

/// The place of a value in the total order, with the finite values all at 2.
pub open spec fn ext_rank(a: ExtRat) -> int {
    match a {
        ExtRat::Nan => 0,
        ExtRat::MinusInf => 1,
        ExtRat::Finite(_) => 2,
        ExtRat::Inf => 3,
    }
}

/// The total order `NaN < −∞ < finite values < +∞`.
pub open spec fn ext_total_order(a: ExtRat, b: ExtRat) -> Ordering {
    match (a, b) {
        (ExtRat::Finite(x), ExtRat::Finite(y)) => real_order(x, y),
        _ => if ext_rank(a) < ext_rank(b) {
            Ordering::Less
        } else if ext_rank(a) == ext_rank(b) {
            Ordering::Equal
        } else {
            Ordering::Greater
        },
    }
}

/// `a < b` in the partial order.
pub open spec fn ext_lt(a: ExtRat, b: ExtRat) -> bool {
    ext_partial_order(a, b) == Some(Ordering::Less)
}

/// `a > b` in the partial order.
pub open spec fn ext_gt(a: ExtRat, b: ExtRat) -> bool {
    ext_partial_order(a, b) == Some(Ordering::Greater)
}

/// `a >= b` in the partial order.
pub open spec fn ext_ge(a: ExtRat, b: ExtRat) -> bool {
    ext_partial_order(a, b) == Some(Ordering::Greater) || ext_partial_order(a, b) == Some(
        Ordering::Equal,
    )
}

/// `a <= b` in the partial order.
pub open spec fn ext_le(a: ExtRat, b: ExtRat) -> bool {
    ext_partial_order(a, b) == Some(Ordering::Less) || ext_partial_order(a, b) == Some(
        Ordering::Equal,
    )
}

/// The values of a sequence of numbers.
pub open spec fn values(v: Seq<RatioExt>) -> Seq<ExtRat> {
    Seq::new(v.len(), |i: int| v[i]@)
}

/// Minus one as an extended rational.
pub open spec fn ext_minus_one() -> ExtRat {
    ExtRat::Finite(-1real)
}

/// The opposite of an order.
pub open spec fn order_reverse(o: Ordering) -> Ordering {
    match o {
        Ordering::Less => Ordering::Greater,
        Ordering::Equal => Ordering::Equal,
        Ordering::Greater => Ordering::Less,
    }
}

/// A finite value and its negation add up to zero.
pub proof fn law_add_negation(x: ExtRat)
    requires
        x is Finite,
    ensures
        ext_add(x, ext_neg(x)) == ext_zero(),
{
}

/// One is neutral in multiplication, for every value.
pub proof fn law_mul_one(x: ExtRat)
    ensures
        ext_mul(x, ext_one()) == x,
        ext_mul(ext_one(), x) == x,
{
    if let ExtRat::Finite(v) = x {
        assert(v * 1real == v);
        assert(1real * v == v);
    }
}

/// Adding a finite value and taking it away again gives the finite value one
/// began with.
pub proof fn law_add_then_sub(x: ExtRat, y: ExtRat)
    requires
        x is Finite,
        y is Finite,
    ensures
        ext_sub(ext_add(x, y), y) == x,
{
}

/// Multiplying by minus one negates, and doing so twice gives the value back.
pub proof fn lemma_mul_minus_one(x: ExtRat)
    ensures
        ext_mul(x, ext_minus_one()) == ext_neg(x),
        ext_mul(ext_mul(x, ext_minus_one()), ext_minus_one()) == x,
{
    if let ExtRat::Finite(v) = x {
        assert(v * (-1real) == -v);
        assert((-v) * (-1real) == v);
    }
}

/// Multiplication does not depend on the order of its factors.
pub proof fn law_mul_commutes(x: ExtRat, y: ExtRat)
    ensures
        ext_mul(x, y) == ext_mul(y, x),
{
    if let (ExtRat::Finite(a), ExtRat::Finite(b)) = (x, y) {
        assert(a * b == b * a) by (nonlinear_arith);
    }
}

/// The total order is antisymmetric on all values, `NaN` included: swapping
/// the sides reverses the answer, and only a value and itself are equal.
pub proof fn law_total_order_antisymmetric(a: ExtRat, b: ExtRat)
    ensures
        ext_total_order(b, a) == order_reverse(ext_total_order(a, b)),
        ext_total_order(a, b) == Ordering::Equal <==> a == b,
{
}

/// The total order is transitive on all values, `NaN` included.
pub proof fn law_total_order_transitive(a: ExtRat, b: ExtRat, c: ExtRat)
    requires
        ext_total_order(a, b) != Ordering::Greater,
        ext_total_order(b, c) != Ordering::Greater,
    ensures
        ext_total_order(a, c) != Ordering::Greater,
        ext_total_order(a, c) == Ordering::Equal ==> ext_total_order(a, b) == Ordering::Equal
            && ext_total_order(b, c) == Ordering::Equal,
{
}

/// A rational number, `+∞`, `−∞` or `NaN`.
#[derive(Debug)]
pub enum RatioExt {
    Inf,
    Finite(Rational),
    MinusInf,
    Nan,
}

impl View for RatioExt {
    type V = ExtRat;

    open spec fn view(&self) -> ExtRat {
        match self {
            RatioExt::Inf => ExtRat::Inf,
            RatioExt::Finite(q) => ExtRat::Finite(q@),
            RatioExt::MinusInf => ExtRat::MinusInf,
            RatioExt::Nan => ExtRat::Nan,
        }
    }
}

impl Clone for RatioExt {
    fn clone(&self) -> (r: Self)
        ensures
            r@ == self@,
    {
        match self {
            RatioExt::Inf => RatioExt::Inf,
            RatioExt::Finite(q) => RatioExt::Finite(q.clone()),
            RatioExt::MinusInf => RatioExt::MinusInf,
            RatioExt::Nan => RatioExt::Nan,
        }
    }
}

impl RatioExt {
    /// The whole number `integer`.
    pub fn from_integer(integer: BigInt) -> (r: RatioExt)
        ensures
            r@ == ExtRat::Finite(bigint_value(integer) as real),
    {
        RatioExt::Finite(Rational::from_integer(integer))
    }

    /// The whole number `n`.
    pub fn from_i64(n: i64) -> (r: RatioExt)
        ensures
            r@ == ExtRat::Finite(n as real),
    {
        RatioExt::Finite(Rational::from_i64(n))
    }

    /// The whole number `n`.
    pub fn from_i128(n: i128) -> (r: RatioExt)
        ensures
            r@ == ExtRat::Finite(n as real),
    {
        RatioExt::Finite(Rational::from_i128(n))
    }

    /// The whole number `n`.
    pub fn from_u64(n: u64) -> (r: RatioExt)
        ensures
            r@ == ExtRat::Finite(n as real),
    {
        RatioExt::Finite(Rational::from_u64(n))
    }

    /// The whole number `n`.
    pub fn from_u128(n: u128) -> (r: RatioExt)
        ensures
            r@ == ExtRat::Finite(n as real),
    {
        RatioExt::Finite(Rational::from_u128(n))
    }

    /// The rational inside a finite value.
    pub fn finite(self) -> (r: Option<Rational>)
        ensures
            match r {
                Some(q) => self@ == ExtRat::Finite(q@),
                None => !(self@ is Finite),
            },
    {
        if let RatioExt::Finite(value) = self {
            return Some(value);
        }
        None
    }

    /// A reference to the rational inside a finite value.
    pub fn finite_as_ref(&self) -> (r: Option<&Rational>)
        ensures
            match r {
                Some(q) => self@ == ExtRat::Finite(q@),
                None => !(self@ is Finite),
            },
    {
        if let RatioExt::Finite(value) = self {
            return Some(value);
        }
        None
    }

    /// A reference to the rational inside a value known to be finite.
    pub fn finite_as_ref_unchecked(&self) -> (r: &Rational)
        requires
            self@ is Finite,
        ensures
            self@ == ExtRat::Finite(r@),
    {
        match self {
            RatioExt::Finite(value) => value,
            _ => vstd::pervasive::unreached(),
        }
    }

    /// Whether this is `+∞`.
    pub fn is_inf(&self) -> (b: bool)
        ensures
            b == (self@ is Inf),
    {
        matches!(self, RatioExt::Inf)
    }

    /// Whether this is a rational number.
    pub fn is_finite(&self) -> (b: bool)
        ensures
            b == (self@ is Finite),
    {
        matches!(self, RatioExt::Finite(_))
    }

    /// Whether this is `−∞`.
    pub fn is_minus_inf(&self) -> (b: bool)
        ensures
            b == (self@ is MinusInf),
    {
        matches!(self, RatioExt::MinusInf)
    }

    /// Whether this is `NaN`.
    pub fn is_nan(&self) -> (b: bool)
        ensures
            b == (self@ is Nan),
    {
        matches!(self, RatioExt::Nan)
    }

    /// Zero.
    pub fn zero() -> (r: RatioExt)
        ensures
            r@ == ext_zero(),
    {
        RatioExt::Finite(Rational::zero())
    }

    /// One.
    pub fn one() -> (r: RatioExt)
        ensures
            r@ == ext_one(),
    {
        RatioExt::Finite(Rational::one())
    }

    /// Whether the value is the rational zero.
    pub fn is_zero(&self) -> (b: bool)
        ensures
            b == (self@ == ext_zero()),
    {
        if let RatioExt::Finite(ratio) = self {
            return ratio.is_zero();
        }
        false
    }

    /// Whether the value is the rational one.
    pub fn is_one(&self) -> (b: bool)
        ensures
            b == (self@ == ext_one()),
    {
        if let RatioExt::Finite(ratio) = self {
            return ratio.is_one();
        }
        false
    }

    /// Whether the value is a whole number. Infinities and `NaN` are not.
    pub fn is_integer(&self) -> (b: bool)
        ensures
            b == ext_is_integer(self@),
    {
        if let RatioExt::Finite(ratio) = self {
            return ratio.is_integer();
        }
        false
    }

    /// An infinity times the finite factor `x`.
    fn scale_infinity(positive: bool, x: &Rational) -> (r: RatioExt)
        ensures
            r@ == ext_scale_infinity(positive, x@),
    {
        if x.is_zero() {
            RatioExt::zero()
        } else if x.is_positive() == positive {
            RatioExt::Inf
        } else {
            RatioExt::MinusInf
        }
    }

    /// The sum.
    pub fn add(&self, rhs: &RatioExt) -> (r: RatioExt)
        ensures
            r@ == ext_add(self@, rhs@),
    {
        if self.is_nan() || rhs.is_nan() {
            return RatioExt::Nan;
        }
        match self {
            RatioExt::Inf => match rhs {
                RatioExt::MinusInf => RatioExt::Nan,
                _ => RatioExt::Inf,
            },
            RatioExt::Finite(lhs) => match rhs {
                RatioExt::Inf => RatioExt::Inf,
                RatioExt::Finite(rhs) => RatioExt::Finite(lhs.add(rhs)),
                _ => RatioExt::MinusInf,
            },
            _ => match rhs {
                RatioExt::Inf => RatioExt::Nan,
                _ => RatioExt::MinusInf,
            },
        }
    }

    /// The difference.
    pub fn sub(&self, rhs: &RatioExt) -> (r: RatioExt)
        ensures
            r@ == ext_sub(self@, rhs@),
    {
        if self.is_nan() || rhs.is_nan() {
            return RatioExt::Nan;
        }
        match self {
            RatioExt::Inf => match rhs {
                RatioExt::Inf => RatioExt::Nan,
                _ => RatioExt::Inf,
            },
            RatioExt::Finite(lhs) => match rhs {
                RatioExt::Inf => RatioExt::MinusInf,
                RatioExt::Finite(rhs) => RatioExt::Finite(lhs.sub(rhs)),
                _ => RatioExt::Inf,
            },
            _ => match rhs {
                RatioExt::MinusInf => RatioExt::Nan,
                _ => RatioExt::MinusInf,
            },
        }
    }

    /// The product.
    pub fn mul(&self, rhs: &RatioExt) -> (r: RatioExt)
        ensures
            r@ == ext_mul(self@, rhs@),
    {
        if self.is_nan() || rhs.is_nan() {
            return RatioExt::Nan;
        }
        match self {
            RatioExt::Inf => match rhs {
                RatioExt::Inf => RatioExt::Inf,
                RatioExt::Finite(rhs) => RatioExt::scale_infinity(true, rhs),
                _ => RatioExt::MinusInf,
            },
            RatioExt::Finite(lhs) => match rhs {
                RatioExt::Inf => RatioExt::scale_infinity(true, lhs),
                RatioExt::Finite(rhs) => RatioExt::Finite(lhs.mul(rhs)),
                _ => RatioExt::scale_infinity(false, lhs),
            },
            _ => match rhs {
                RatioExt::Inf => RatioExt::MinusInf,
                RatioExt::Finite(rhs) => RatioExt::scale_infinity(false, rhs),
                _ => RatioExt::Inf,
            },
        }
    }

    /// The quotient.
    pub fn div(&self, rhs: &RatioExt) -> (r: RatioExt)
        ensures
            r@ == ext_div(self@, rhs@),
    {
        if self.is_nan() || rhs.is_nan() {
            return RatioExt::Nan;
        }
        match self {
            RatioExt::Inf => match rhs {
                RatioExt::Finite(rhs) => if rhs.is_negative() {
                    RatioExt::MinusInf
                } else {
                    RatioExt::Inf
                },
                _ => RatioExt::Nan,
            },
            RatioExt::Finite(lhs) => match rhs {
                RatioExt::Finite(rhs) => if rhs.is_zero() {
                    if lhs.is_zero() {
                        RatioExt::Nan
                    } else if lhs.is_negative() {
                        RatioExt::MinusInf
                    } else {
                        RatioExt::Inf
                    }
                } else {
                    RatioExt::Finite(lhs.div(rhs))
                },
                _ => RatioExt::zero(),
            },
            _ => match rhs {
                RatioExt::Finite(rhs) => if rhs.is_negative() {
                    RatioExt::Inf
                } else {
                    RatioExt::MinusInf
                },
                _ => RatioExt::Nan,
            },
        }
    }

    /// The value with its sign changed.
    pub fn neg(&self) -> (r: RatioExt)
        ensures
            r@ == ext_neg(self@),
    {
        match self {
            RatioExt::Inf => RatioExt::MinusInf,
            RatioExt::Finite(ratio) => RatioExt::Finite(ratio.neg()),
            RatioExt::MinusInf => RatioExt::Inf,
            RatioExt::Nan => RatioExt::Nan,
        }
    }

    /// Adds `rhs` to this value.
    pub fn add_assign(&mut self, rhs: &RatioExt)
        ensures
            final(self)@ == ext_add(old(self)@, rhs@),
    {
        let sum = self.add(rhs);
        *self = sum;
    }

    /// Subtracts `rhs` from this value.
    pub fn sub_assign(&mut self, rhs: &RatioExt)
        ensures
            final(self)@ == ext_sub(old(self)@, rhs@),
    {
        let difference = self.sub(rhs);
        *self = difference;
    }

    /// Multiplies this value by `rhs`.
    pub fn mul_assign(&mut self, rhs: &RatioExt)
        ensures
            final(self)@ == ext_mul(old(self)@, rhs@),
    {
        let product = self.mul(rhs);
        *self = product;
    }

    /// Divides this value by `rhs`.
    pub fn div_assign(&mut self, rhs: &RatioExt)
        ensures
            final(self)@ == ext_div(old(self)@, rhs@),
    {
        let quotient = self.div(rhs);
        *self = quotient;
    }

    /// The place of the value in the total order.
    fn rank(&self) -> (r: u8)
        ensures
            r == ext_rank(self@),
    {
        match self {
            RatioExt::Nan => 0,
            RatioExt::MinusInf => 1,
            RatioExt::Finite(_) => 2,
            RatioExt::Inf => 3,
        }
    }

    /// Compares in the total order `NaN < −∞ < finite values < +∞`.
    pub fn total_cmp(&self, other: &RatioExt) -> (o: Ordering)
        ensures
            o == ext_total_order(self@, other@),
    {
        match (self, other) {
            (RatioExt::Finite(lhs), RatioExt::Finite(rhs)) => lhs.compare(rhs),
            _ => {
                let a = self.rank();
                let b = other.rank();
                if a < b {
                    Ordering::Less
                } else if a == b {
                    Ordering::Equal
                } else {
                    Ordering::Greater
                }
            },
        }
    }

    /// Whether the value is below `other` in the partial order.
    pub fn lt(&self, other: &RatioExt) -> (b: bool)
        ensures
            b == ext_lt(self@, other@),
    {
        match self.partial_cmp(other) {
            Some(Ordering::Less) => true,
            _ => false,
        }
    }

    /// Whether the value is above `other` in the partial order.
    pub fn gt(&self, other: &RatioExt) -> (b: bool)
        ensures
            b == ext_gt(self@, other@),
    {
        match self.partial_cmp(other) {
            Some(Ordering::Greater) => true,
            _ => false,
        }
    }

    /// Whether the value is above `other` or equal to it in the partial order.
    pub fn ge(&self, other: &RatioExt) -> (b: bool)
        ensures
            b == ext_ge(self@, other@),
    {
        match self.partial_cmp(other) {
            Some(Ordering::Greater) => true,
            Some(Ordering::Equal) => true,
            _ => false,
        }
    }

    /// Whether the value is below `other` or equal to it in the partial order.
    pub fn le(&self, other: &RatioExt) -> (b: bool)
        ensures
            b == ext_le(self@, other@),
    {
        match self.partial_cmp(other) {
            Some(Ordering::Less) => true,
            Some(Ordering::Equal) => true,
            _ => false,
        }
    }

    /// The largest whole number that is not above a finite value; an infinity
    /// or `NaN` as it is.
    pub fn floor(&self) -> (r: RatioExt)
        ensures
            r@ == ext_floor(self@),
    {
        match self {
            RatioExt::Finite(q) => RatioExt::Finite(q.floor()),
            RatioExt::Inf => RatioExt::Inf,
            RatioExt::MinusInf => RatioExt::MinusInf,
            RatioExt::Nan => RatioExt::Nan,
        }
    }

    /// Minus one.
    pub fn minus_one() -> (r: RatioExt)
        ensures
            r@ == ext_minus_one(),
    {
        RatioExt::Finite(Rational::from_i64(-1))
    }

    /// The text of the value: the fraction, `Inf`, `-Inf` or `NaN`.
    pub fn to_string(&self) -> (s: String)
        ensures
            s@ == ext_text(*self),
    {
        match self {
            RatioExt::Finite(ratio) => ratio.to_string(),
            RatioExt::Inf => "Inf".to_owned(),
            RatioExt::MinusInf => "-Inf".to_owned(),
            RatioExt::Nan => "NaN".to_owned(),
        }
    }
}

/// A copy of each number of `v`.
pub fn clone_values(v: &Vec<RatioExt>) -> (r: Vec<RatioExt>)
    ensures
        values(r@) == values(v@),
        r.len() == v.len(),
{
    let mut r: Vec<RatioExt> = Vec::new();
    let mut j: usize = 0;
    while j < v.len()
        invariant
            j <= v.len(),
            r.len() == j,
            forall|t: int| 0 <= t < j ==> (#[trigger] r@[t])@ == v@[t]@,
        decreases v.len() - j,
    {
        r.push(v[j].clone());
        j += 1;
    }
    assert(values(r@) =~= values(v@));
    r
}

/// The largest whole number that is not above a finite value; an infinity or
/// `NaN` as it is.
pub open spec fn ext_floor(a: ExtRat) -> ExtRat {
    match a {
        ExtRat::Finite(x) => ExtRat::Finite(x.floor() as real),
        other => other,
    }
}

/// Whether an extended rational is a whole number.
pub open spec fn ext_is_integer(a: ExtRat) -> bool {
    match a {
        ExtRat::Finite(x) => is_integral(x),
        _ => false,
    }
}

/// The text of a value.
pub open spec fn ext_text(a: RatioExt) -> Seq<char> {
    match a {
        RatioExt::Finite(q) => ratio_text(q.spec_numer(), q.spec_denom()),
        RatioExt::Inf => "Inf"@,
        RatioExt::MinusInf => "-Inf"@,
        RatioExt::Nan => "NaN"@,
    }
}

impl Default for RatioExt {
    fn default() -> (r: Self)
        ensures
            r@ == ext_zero(),
    {
        RatioExt::zero()
    }
}

impl PartialEq for RatioExt {
    fn eq(&self, other: &Self) -> (b: bool) {
        match (self, other) {
            (RatioExt::Inf, RatioExt::Inf) | (RatioExt::MinusInf, RatioExt::MinusInf) => true,
            (RatioExt::Finite(lhs), RatioExt::Finite(rhs)) => lhs == rhs,
            _ => false,
        }
    }
}

impl vstd::std_specs::cmp::PartialEqSpecImpl for RatioExt {
    open spec fn obeys_eq_spec() -> bool {
        true
    }

    open spec fn eq_spec(&self, other: &Self) -> bool {
        ext_eq(self@, other@)
    }
}

impl PartialOrd for RatioExt {
    fn partial_cmp(&self, other: &Self) -> (o: Option<Ordering>) {
        match (self, other) {
            (RatioExt::Nan, _)
            | (_, RatioExt::Nan)
            | (RatioExt::Inf, RatioExt::Inf)
            | (RatioExt::MinusInf, RatioExt::MinusInf) => None,
            (RatioExt::MinusInf, _) | (RatioExt::Finite(_), RatioExt::Inf) => Some(Ordering::Less),
            (RatioExt::Inf, _) | (RatioExt::Finite(_), RatioExt::MinusInf) => Some(
                Ordering::Greater,
            ),
            (RatioExt::Finite(lhs), RatioExt::Finite(rhs)) => Some(lhs.compare(rhs)),
        }
    }
}

impl vstd::std_specs::cmp::PartialOrdSpecImpl for RatioExt {
    open spec fn obeys_partial_cmp_spec() -> bool {
        true
    }

    open spec fn partial_cmp_spec(&self, other: &Self) -> Option<Ordering> {
        ext_partial_order(self@, other@)
    }
}

} // verus!
