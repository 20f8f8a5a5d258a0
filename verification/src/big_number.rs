//! Numbers of the form `big · M + small`, where `M` stands for a quantity
//! larger than every finite one.

use vstd::prelude::*;
use std::cmp::Ordering;
use crate::ratio_ext::{
    ext_add, ext_div, ext_eq, ext_gt, ext_mul, ext_neg, ext_one, ext_partial_order, ext_sub,
    ext_text, ext_total_order, ext_zero, ExtRat, RatioExt,
};
use crate::text::concat;

verus! {

/// The mathematical value of a [`BigNumber`] over [`RatioExt`].
pub struct BigM {
    pub big: ExtRat,
    pub small: ExtRat,
}

/// The plain value `x`, without any `M`.
pub open spec fn bigm_from(x: ExtRat) -> BigM {
    BigM { big: ext_zero(), small: x }
}

/// `M` itself.
pub open spec fn bigm_one_big() -> BigM {
    BigM { big: ext_one(), small: ext_zero() }
}

/// Zero.
pub open spec fn bigm_zero() -> BigM {
    BigM { big: ext_zero(), small: ext_zero() }
}

/// One.
pub open spec fn bigm_one() -> BigM {
    BigM { big: ext_zero(), small: ext_one() }
}

/// The sum, part by part.
pub open spec fn bigm_add(a: BigM, b: BigM) -> BigM {
    BigM { big: ext_add(a.big, b.big), small: ext_add(a.small, b.small) }
}

/// The difference, part by part.
pub open spec fn bigm_sub(a: BigM, b: BigM) -> BigM {
    BigM { big: ext_sub(a.big, b.big), small: ext_sub(a.small, b.small) }
}

/// The negation, part by part.
pub open spec fn bigm_neg(a: BigM) -> BigM {
    BigM { big: ext_neg(a.big), small: ext_neg(a.small) }
}

/// The product `(a·M + b)(x·M + y)` without its `M²` term: `(a·y + b·x)·M + b·y`.
pub open spec fn bigm_mul(a: BigM, b: BigM) -> BigM {
    BigM {
        big: ext_add(ext_mul(a.big, b.small), ext_mul(a.small, b.big)),
        small: ext_mul(a.small, b.small),
    }
}

/// Both parts multiplied by `k`.
pub open spec fn bigm_scale(a: BigM, k: ExtRat) -> BigM {
    BigM { big: ext_mul(a.big, k), small: ext_mul(a.small, k) }
}

/// Both parts divided by `k`.
pub open spec fn bigm_unscale(a: BigM, k: ExtRat) -> BigM {
    BigM { big: ext_div(a.big, k), small: ext_div(a.small, k) }
}

/// Equality of both parts.
pub open spec fn bigm_eq(a: BigM, b: BigM) -> bool {
    ext_eq(a.big, b.big) && ext_eq(a.small, b.small)
}

/// The partial order: by the `M` part first, and by the plain part where the
/// `M` parts are equal. Nothing where the deciding parts are not comparable.
pub open spec fn bigm_partial_order(a: BigM, b: BigM) -> Option<Ordering> {
    match ext_partial_order(a.big, b.big) {
        Some(Ordering::Equal) => ext_partial_order(a.small, b.small),
        o => o,
    }
}

/// The total order: by the `M` part first, then by the plain part.
pub open spec fn bigm_total_order(a: BigM, b: BigM) -> Ordering {
    match ext_total_order(a.big, b.big) {
        Ordering::Equal => ext_total_order(a.small, b.small),
        o => o,
    }
}

/// `a > b` in the total order.
pub open spec fn bigm_total_gt(a: BigM, b: BigM) -> bool {
    bigm_total_order(a, b) == Ordering::Greater
}

/// `a > b` in the partial order.
pub open spec fn bigm_gt(a: BigM, b: BigM) -> bool {
    bigm_partial_order(a, b) == Some(Ordering::Greater)
}

/// The values of a sequence of numbers.
pub open spec fn bigm_values(v: Seq<BigNumber<RatioExt>>) -> Seq<BigM> {
    Seq::new(v.len(), |i: int| v[i]@)
}

/// The text of the `M` part of a number.
pub open spec fn bigm_text_head(big: RatioExt) -> Seq<char> {
    if big@ == ext_zero() {
        ""@
    } else if big@ == ext_one() {
        "M"@
    } else if ext_neg(big@) == ext_one() {
        "-M"@
    } else {
        ext_text(big) + "M"@
    }
}

/// The text of a number, as [`BigNumber::to_string`] gives it.
pub open spec fn bigm_text(n: BigNumber<RatioExt>) -> Seq<char> {
    let big = n.spec_big_part();
    let small = n.spec_small_part();
    bigm_text_head(big) + (if ext_gt(small@, ext_zero()) && big@ != ext_zero() {
        "+"@
    } else {
        ""@
    }) + (if small@ != ext_zero() || big@ == ext_zero() {
        ext_text(small)
    } else {
        ""@
    })
}

/// A pair of a part that multiplies `M` and a plain part.
#[derive(Debug)]
pub struct BigNumber<T> {
    big_part: T,
    small_part: T,
}

impl<T> BigNumber<T> {
    /// The part that multiplies `M`.
    pub closed spec fn spec_big_part(self) -> T {
        self.big_part
    }

    /// The plain part.
    pub closed spec fn spec_small_part(self) -> T {
        self.small_part
    }

    /// The number `big_part · M + small_part`.
    pub fn new(big_part: T, small_part: T) -> (r: Self)
        ensures
            r.spec_big_part() == big_part,
            r.spec_small_part() == small_part,
    {
        Self { big_part, small_part }
    }

    /// The part that multiplies `M`.
    pub fn big_part(&self) -> (r: &T)
        ensures
            *r == self.spec_big_part(),
    {
        &self.big_part
    }

    /// The plain part.
    pub fn small_part(&self) -> (r: &T)
        ensures
            *r == self.spec_small_part(),
    {
        &self.small_part
    }
}

impl View for BigNumber<RatioExt> {
    type V = BigM;

    open spec fn view(&self) -> BigM {
        BigM { big: self.spec_big_part()@, small: self.spec_small_part()@ }
    }
}

impl BigNumber<RatioExt> {
    /// `M` itself: one for the big part, zero for the small one.
    pub fn one_big() -> (r: Self)
        ensures
            r@ == bigm_one_big(),
    {
        Self { big_part: RatioExt::one(), small_part: RatioExt::zero() }
    }

    /// The plain value `val`.
    pub fn from(val: RatioExt) -> (r: Self)
        ensures
            r@ == bigm_from(val@),
    {
        Self { big_part: RatioExt::zero(), small_part: val }
    }

    /// Zero.
    pub fn zero() -> (r: Self)
        ensures
            r@ == bigm_zero(),
    {
        Self { big_part: RatioExt::zero(), small_part: RatioExt::zero() }
    }

    /// One.
    pub fn one() -> (r: Self)
        ensures
            r@ == bigm_one(),
    {
        Self { big_part: RatioExt::zero(), small_part: RatioExt::one() }
    }

    /// Whether both parts are zero.
    pub fn is_zero(&self) -> (b: bool)
        ensures
            b == (self@ == bigm_zero()),
    {
        self.big_part.is_zero() && self.small_part.is_zero()
    }

    /// The sum.
    pub fn add(&self, rhs: &Self) -> (r: Self)
        ensures
            r@ == bigm_add(self@, rhs@),
    {
        Self {
            big_part: self.big_part.add(&rhs.big_part),
            small_part: self.small_part.add(&rhs.small_part),
        }
    }

    /// The difference.
    pub fn sub(&self, rhs: &Self) -> (r: Self)
        ensures
            r@ == bigm_sub(self@, rhs@),
    {
        Self {
            big_part: self.big_part.sub(&rhs.big_part),
            small_part: self.small_part.sub(&rhs.small_part),
        }
    }

    /// Adds `rhs` to this number.
    pub fn add_assign(&mut self, rhs: &Self)
        ensures
            final(self)@ == bigm_add(old(self)@, rhs@),
    {
        let sum = self.add(rhs);
        *self = sum;
    }

    /// Subtracts `rhs` from this number.
    pub fn sub_assign(&mut self, rhs: &Self)
        ensures
            final(self)@ == bigm_sub(old(self)@, rhs@),
    {
        let difference = self.sub(rhs);
        *self = difference;
    }

    /// The negation.
    pub fn neg(&self) -> (r: Self)
        ensures
            r@ == bigm_neg(self@),
    {
        Self { big_part: self.big_part.neg(), small_part: self.small_part.neg() }
    }

    /// The product of two numbers of which at most one has an `M` part. The
    /// `M²` term, which would be the product of the two `M` parts, is left out.
    pub fn mul(&self, rhs: &Self) -> (r: Self)
        requires
            self@.big == ext_zero() || rhs@.big == ext_zero(),
        ensures
            r@ == bigm_mul(self@, rhs@),
    {
        let left = self.big_part.mul(&rhs.small_part);
        let right = self.small_part.mul(&rhs.big_part);
        Self { big_part: left.add(&right), small_part: self.small_part.mul(&rhs.small_part) }
    }

    /// Multiplies this number by `rhs`, under the condition of [`Self::mul`].
    pub fn mul_assign(&mut self, rhs: &Self)
        requires
            old(self)@.big == ext_zero() || rhs@.big == ext_zero(),
        ensures
            final(self)@ == bigm_mul(old(self)@, rhs@),
    {
        let product = self.mul(rhs);
        *self = product;
    }

    /// The number with `other` added to its plain part.
    pub fn add_scalar(&self, other: &RatioExt) -> (r: Self)
        ensures
            r@ == (BigM { big: self@.big, small: ext_add(self@.small, other@) }),
    {
        Self { big_part: self.big_part.clone(), small_part: self.small_part.add(other) }
    }

    /// The number with `other` taken from its plain part.
    pub fn sub_scalar(&self, other: &RatioExt) -> (r: Self)
        ensures
            r@ == (BigM { big: self@.big, small: ext_sub(self@.small, other@) }),
    {
        Self { big_part: self.big_part.clone(), small_part: self.small_part.sub(other) }
    }

    /// Both parts multiplied by `other`.
    pub fn mul_scalar(&self, other: &RatioExt) -> (r: Self)
        ensures
            r@ == bigm_scale(self@, other@),
    {
        Self { big_part: self.big_part.mul(other), small_part: self.small_part.mul(other) }
    }

    /// Both parts divided by `other`.
    pub fn div_scalar(&self, other: &RatioExt) -> (r: Self)
        ensures
            r@ == bigm_unscale(self@, other@),
    {
        Self { big_part: self.big_part.div(other), small_part: self.small_part.div(other) }
    }

    /// Compares by the `M` part first and then by the plain part, each in the
    /// total order of [`RatioExt`].
    pub fn total_cmp(&self, other: &Self) -> (o: Ordering)
        ensures
            o == bigm_total_order(self@, other@),
    {
        match self.big_part.total_cmp(&other.big_part) {
            Ordering::Equal => {},
            ord => return ord,
        }
        self.small_part.total_cmp(&other.small_part)
    }

    /// Whether this number is above `other` in the total order.
    pub fn total_gt(&self, other: &Self) -> (b: bool)
        ensures
            b == bigm_total_gt(self@, other@),
    {
        match self.total_cmp(other) {
            Ordering::Greater => true,
            _ => false,
        }
    }

    /// Whether this number is above `other` in the partial order.
    pub fn gt(&self, other: &Self) -> (b: bool)
        ensures
            b == bigm_gt(self@, other@),
    {
        match self.partial_cmp(other) {
            Some(Ordering::Greater) => true,
            _ => false,
        }
    }

    /// The text of the number: the `M` part with an `M` behind it, a plus sign
    /// where a positive plain part follows an `M` part, and the plain part. An
    /// `M` part of one or minus one shows as `M` or `-M`, a zero `M` part not at
    /// all, and a zero plain part only where there is no `M` part.
    pub fn to_string(&self) -> (s: String)
        ensures
            s@ == bigm_text(*self),
    {
        let big = &self.big_part;
        let small = &self.small_part;
        let minus_one = big.neg().is_one();
        let head = if !big.is_zero() && !big.is_one() && !minus_one {
            concat(big.to_string().as_str(), "M")
        } else if big.is_one() {
            "M".to_owned()
        } else if minus_one {
            "-M".to_owned()
        } else {
            "".to_owned()
        };
        let sign = if small.gt(&RatioExt::zero()) && !big.is_zero() {
            "+"
        } else {
            ""
        };
        let tail = if !small.is_zero() || big.is_zero() {
            small.to_string()
        } else {
            "".to_owned()
        };
        let front = concat(head.as_str(), sign);
        concat(front.as_str(), tail.as_str())
    }

    /// The plain part, where the `M` part is zero; else an error whose text
    /// shows the number.
    pub fn to_rational(self) -> (r: Result<RatioExt, String>)
        ensures
            match r {
                Ok(x) => self@.big == ext_zero() && x@ == self@.small && x
                    == self.spec_small_part(),
                Err(msg) => self@.big != ext_zero() && msg@ == "The number is too big: "@
                    + bigm_text(self),
            },
    {
        if !self.big_part.is_zero() {
            let shown = self.to_string();
            return Err(concat("The number is too big: ", shown.as_str()));
        }
        Ok(self.small_part)
    }
}

/// A copy of each number of `v`.
pub fn clone_bigm_values(v: &Vec<BigNumber<RatioExt>>) -> (r: Vec<BigNumber<RatioExt>>)
    ensures
        bigm_values(r@) == bigm_values(v@),
        r.len() == v.len(),
{
    let mut r: Vec<BigNumber<RatioExt>> = Vec::new();
    let mut j: usize = 0;
    while j < v.len()
        invariant
            j <= v.len(),
            r.len() == j,
            forall|t: int| 0 <= t < j ==> (#[trigger] r@[t])@ == v@[t]@,
        decreases v.len() - j,
    {
        r.push(v[j].clone());
        j += 1;
    }
    assert(bigm_values(r@) =~= bigm_values(v@));
    r
}

impl Clone for BigNumber<RatioExt> {
    fn clone(&self) -> (r: Self)
        ensures
            r@ == self@,
    {
        Self { big_part: self.big_part.clone(), small_part: self.small_part.clone() }
    }
}

impl Default for BigNumber<RatioExt> {
    fn default() -> (r: Self)
        ensures
            r@ == bigm_zero(),
    {
        BigNumber::zero()
    }
}

impl PartialEq for BigNumber<RatioExt> {
    fn eq(&self, other: &Self) -> (b: bool) {
        self.big_part == other.big_part && self.small_part == other.small_part
    }
}

impl vstd::std_specs::cmp::PartialEqSpecImpl for BigNumber<RatioExt> {
    open spec fn obeys_eq_spec() -> bool {
        true
    }

    open spec fn eq_spec(&self, other: &Self) -> bool {
        bigm_eq(self@, other@)
    }
}

impl PartialOrd for BigNumber<RatioExt> {
    fn partial_cmp(&self, other: &Self) -> (o: Option<Ordering>) {
        match self.big_part.partial_cmp(&other.big_part) {
            Some(Ordering::Equal) => self.small_part.partial_cmp(&other.small_part),
            o => o,
        }
    }
}

impl vstd::std_specs::cmp::PartialOrdSpecImpl for BigNumber<RatioExt> {
    open spec fn obeys_partial_cmp_spec() -> bool {
        true
    }

    open spec fn partial_cmp_spec(&self, other: &Self) -> Option<Ordering> {
        bigm_partial_order(self@, other@)
    }
}

} // verus!
