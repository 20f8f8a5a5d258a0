//! Sums of products over rational rows, and what row operations do to them.

use vstd::prelude::*;
use crate::basis::value_of;
use crate::ratio_ext::ExtRat;

verus! {

/// The product of two numbers.
#[verifier::opaque]
pub open spec fn times(a: real, b: real) -> real {
    a * b
}

/// The sum of the first `upto` products of the entries of `row` with the
/// numbers of `x`.
pub open spec fn dot(row: Seq<ExtRat>, x: Seq<real>, upto: int) -> real
    decreases upto,
{
    if upto <= 0 {
        0real
    } else {
        dot(row, x, upto - 1) + times(value_of(row[upto - 1]), x[upto - 1])
    }
}

/// A product with zero is zero, and one is neutral.
pub proof fn lemma_times_unit(a: real)
    ensures
        times(a, 0real) == 0real,
        times(0real, a) == 0real,
        times(a, 1real) == a,
        times(1real, a) == a,
{
    reveal(times);
}

/// The product of two numbers that are not negative is not negative.
pub proof fn lemma_times_sign(a: real, b: real)
    ensures
        a >= 0real && b >= 0real ==> times(a, b) >= 0real,
        a <= 0real && b >= 0real ==> times(a, b) <= 0real,
{
    reveal(times);
    if a >= 0real && b >= 0real {
        assert(a * b >= 0real) by (nonlinear_arith)
            requires
                a >= 0real,
                b >= 0real,
        ;
    }
    if a <= 0real && b >= 0real {
        assert(a * b <= 0real) by (nonlinear_arith)
            requires
                a <= 0real,
                b >= 0real,
        ;
    }
}

/// Products distribute over sums and can be regrouped.
pub proof fn lemma_times_linear(a: real, b: real, c: real)
    ensures
        times(a + b, c) == times(a, c) + times(b, c),
        times(a - b, c) == times(a, c) - times(b, c),
        times(c, a + b) == times(c, a) + times(c, b),
        times(c, a - b) == times(c, a) - times(c, b),
        times(times(a, b), c) == times(a, times(b, c)),
        times(a, b) == times(b, a),
        times(-a, b) == -times(a, b),
{
    reveal(times);
    assert((a + b) * c == a * c + b * c) by (nonlinear_arith);
    assert((a - b) * c == a * c - b * c) by (nonlinear_arith);
    assert(c * (a + b) == c * a + c * b) by (nonlinear_arith);
    assert(c * (a - b) == c * a - c * b) by (nonlinear_arith);
    assert((a * b) * c == a * (b * c)) by (nonlinear_arith);
    assert(a * b == b * a) by (nonlinear_arith);
    assert((-a) * b == -(a * b)) by (nonlinear_arith);
}

/// Dividing by a number and multiplying by it again gives the number back.
pub proof fn lemma_times_quotient(a: real, p: real)
    requires
        p != 0real,
    ensures
        times(a / p, p) == a,
{
    reveal(times);
    assert((a / p) * p == a) by (nonlinear_arith)
        requires
            p != 0real,
    ;
}

/// Rows that agree in their first `upto` values have the same sum there.
pub proof fn lemma_dot_same(a: Seq<ExtRat>, b: Seq<ExtRat>, x: Seq<real>, y: Seq<real>, upto: int)
    requires
        forall|j: int| 0 <= j < upto ==> value_of(#[trigger] a[j]) == value_of(b[j]),
        forall|j: int| 0 <= j < upto ==> #[trigger] x[j] == y[j],
    ensures
        dot(a, x, upto) == dot(b, y, upto),
    decreases upto,
{
    if upto > 0 {
        lemma_dot_same(a, b, x, y, upto - 1);
        assert(value_of(a[upto - 1]) == value_of(b[upto - 1]));
        assert(x[upto - 1] == y[upto - 1]);
    }
}

/// A row divided by `p` has its sum divided by `p`.
pub proof fn lemma_dot_divided(row: Seq<ExtRat>, divided: Seq<ExtRat>, x: Seq<real>, p: real, upto: int)
    requires
        p != 0real,
        forall|j: int| 0 <= j < upto ==> value_of(#[trigger] divided[j]) == value_of(row[j]) / p,
    ensures
        times(dot(divided, x, upto), p) == dot(row, x, upto),
    decreases upto,
{
    if upto > 0 {
        lemma_dot_divided(row, divided, x, p, upto - 1);
        let d = dot(divided, x, upto - 1);
        let a = value_of(row[upto - 1]);
        let q = value_of(divided[upto - 1]);
        let v = x[upto - 1];
        assert(q == a / p);
        lemma_times_linear(d, times(q, v), p);
        lemma_times_linear(q, v, p);
        lemma_times_linear(v, q, p);
        lemma_times_quotient(a, p);
        lemma_times_linear(v, a, 0real);
    } else {
        lemma_times_unit(p);
    }
}

/// A row less `m` times another row has the sum of the one less `m` times the
/// sum of the other.
pub proof fn lemma_dot_reduced(
    row: Seq<ExtRat>,
    other: Seq<ExtRat>,
    reduced: Seq<ExtRat>,
    x: Seq<real>,
    m: real,
    upto: int,
)
    requires
        forall|j: int|
            0 <= j < upto ==> value_of(#[trigger] reduced[j]) == value_of(row[j]) - times(
                value_of(other[j]),
                m,
            ),
    ensures
        dot(reduced, x, upto) == dot(row, x, upto) - times(m, dot(other, x, upto)),
    decreases upto,
{
    if upto > 0 {
        lemma_dot_reduced(row, other, reduced, x, m, upto - 1);
        let a = value_of(row[upto - 1]);
        let b = value_of(other[upto - 1]);
        let c = value_of(reduced[upto - 1]);
        let v = x[upto - 1];
        assert(c == a - times(b, m));
        lemma_times_linear(a, times(b, m), v);
        lemma_times_linear(b, m, v);
        lemma_times_linear(m, b, v);
        lemma_times_linear(dot(other, x, upto - 1), times(b, v), m);
    } else {
        lemma_times_unit(m);
    }
}

/// Changing one number of `x` changes the sum by the entry there times the
/// change.
pub proof fn lemma_dot_update(row: Seq<ExtRat>, x: Seq<real>, at: int, v: real, upto: int)
    requires
        0 <= at < x.len(),
        0 <= upto <= x.len(),
    ensures
        dot(row, x.update(at, v), upto) == dot(row, x, upto) + if at < upto {
            times(value_of(row[at]), v - x[at])
        } else {
            0real
        },
    decreases upto,
{
    if upto > 0 {
        lemma_dot_update(row, x, at, v, upto - 1);
        if at == upto - 1 {
            lemma_times_linear(v, x[at], value_of(row[at]));
        }
    }
}

/// The sum against zeros is zero.
pub proof fn lemma_dot_zero(row: Seq<ExtRat>, x: Seq<real>, upto: int)
    requires
        forall|j: int| 0 <= j < upto ==> #[trigger] x[j] == 0real,
    ensures
        dot(row, x, upto) == 0real,
    decreases upto,
{
    if upto > 0 {
        lemma_dot_zero(row, x, upto - 1);
        lemma_times_unit(value_of(row[upto - 1]));
    }
}

/// A sum of products of numbers that are not negative is not negative, and
/// where it is zero, every product is.
pub proof fn lemma_dot_nonnegative(row: Seq<ExtRat>, x: Seq<real>, upto: int)
    requires
        forall|j: int| 0 <= j < upto ==> value_of(#[trigger] row[j]) >= 0real,
        forall|j: int| 0 <= j < upto ==> #[trigger] x[j] >= 0real,
    ensures
        dot(row, x, upto) >= 0real,
        dot(row, x, upto) == 0real ==> forall|j: int|
            0 <= j < upto ==> times(value_of(#[trigger] row[j]), x[j]) == 0real,
    decreases upto,
{
    if upto > 0 {
        lemma_dot_nonnegative(row, x, upto - 1);
        assert(value_of(row[upto - 1]) >= 0real);
        assert(x[upto - 1] >= 0real);
        lemma_times_sign(value_of(row[upto - 1]), x[upto - 1]);
    }
}

/// Entries that are zero add nothing to a sum.
pub proof fn lemma_dot_prefix(row: Seq<ExtRat>, x: Seq<real>, lo: int, hi: int)
    requires
        0 <= lo <= hi,
        forall|j: int| lo <= j < hi ==> value_of(#[trigger] row[j]) == 0real,
    ensures
        dot(row, x, hi) == dot(row, x, lo),
    decreases hi - lo,
{
    if lo < hi {
        lemma_dot_prefix(row, x, lo, hi - 1);
        assert(value_of(row[hi - 1]) == 0real);
        lemma_times_unit(x[hi - 1]);
    }
}

/// Numbers that are zero add nothing to a sum.
pub proof fn lemma_dot_prefix_zero(row: Seq<ExtRat>, x: Seq<real>, lo: int, hi: int)
    requires
        0 <= lo <= hi,
        forall|j: int| lo <= j < hi ==> #[trigger] x[j] == 0real,
    ensures
        dot(row, x, hi) == dot(row, x, lo),
    decreases hi - lo,
{
    if lo < hi {
        lemma_dot_prefix_zero(row, x, lo, hi - 1);
        assert(x[hi - 1] == 0real);
        lemma_times_unit(value_of(row[hi - 1]));
    }
}

/// A stretch of a row with one entry that may differ from zero adds the
/// product at that entry.
pub proof fn lemma_dot_single(row: Seq<ExtRat>, x: Seq<real>, lo: int, hi: int, at: int)
    requires
        0 <= lo <= at < hi,
        forall|j: int| lo <= j < hi && j != at ==> value_of(#[trigger] row[j]) == 0real,
    ensures
        dot(row, x, hi) == dot(row, x, lo) + times(value_of(row[at]), x[at]),
{
    lemma_dot_prefix(row, x, lo, at);
    lemma_dot_prefix(row, x, at + 1, hi);
}

/// A row with every entry negated has the negated sum.
pub proof fn lemma_dot_negated(row: Seq<ExtRat>, negated: Seq<ExtRat>, x: Seq<real>, upto: int)
    requires
        forall|j: int| 0 <= j < upto ==> value_of(#[trigger] negated[j]) == -value_of(row[j]),
    ensures
        dot(negated, x, upto) == -dot(row, x, upto),
    decreases upto,
{
    if upto > 0 {
        lemma_dot_negated(row, negated, x, upto - 1);
        assert(value_of(negated[upto - 1]) == -value_of(row[upto - 1]));
        lemma_times_linear(value_of(row[upto - 1]), x[upto - 1], 0real);
    }
}

/// What times a number that is not zero gives `b` is `b` divided by that
/// number, and a product is zero only if a factor is.
pub proof fn lemma_times_cancel(d: real, b: real, p: real)
    requires
        p != 0real,
    ensures
        times(d, p) == b ==> d == b / p,
        times(p, d) == 0real ==> d == 0real,
{
    reveal(times);
    if d * p == b {
        assert(d == b / p) by (nonlinear_arith)
            requires
                p != 0real,
                d * p == b,
        ;
    }
    if p * d == 0real {
        assert(d == 0real) by (nonlinear_arith)
            requires
                p != 0real,
                p * d == 0real,
        ;
    }
}

/// A sum of products none of which is above zero is not above zero.
pub proof fn lemma_dot_nonpositive(row: Seq<ExtRat>, x: Seq<real>, upto: int)
    requires
        forall|j: int| 0 <= j < upto ==> times(value_of(#[trigger] row[j]), x[j]) <= 0real,
    ensures
        dot(row, x, upto) <= 0real,
    decreases upto,
{
    if upto > 0 {
        lemma_dot_nonpositive(row, x, upto - 1);
        assert(times(value_of(row[upto - 1]), x[upto - 1]) <= 0real);
    }
}

/// A row with a zero put in at place `at`, against numbers with one more put
/// in at the same place, adds up to what the row adds up to against the
/// numbers.
pub proof fn lemma_dot_shift(
    a: Seq<ExtRat>,
    x: Seq<real>,
    b: Seq<ExtRat>,
    y: Seq<real>,
    at: int,
    upto: int,
)
    requires
        0 <= at < upto,
        value_of(a[at]) == 0real,
        forall|j: int| 0 <= j < at ==> value_of(#[trigger] a[j]) == value_of(b[j]) && x[j] == y[j],
        forall|j: int|
            at < j < upto ==> value_of(#[trigger] a[j]) == value_of(b[j - 1]) && x[j] == y[j - 1],
    ensures
        dot(a, x, upto) == dot(b, y, upto - 1),
    decreases upto,
{
    if upto == at + 1 {
        assert forall|j: int| 0 <= j < at implies #[trigger] x[j] == y[j] by {
            assert(value_of(a[j]) == value_of(b[j]) && x[j] == y[j]);
        }
        lemma_dot_same(a, b, x, y, at);
        lemma_times_unit(x[at]);
    } else {
        lemma_dot_shift(a, x, b, y, at, upto - 1);
        assert(value_of(a[upto - 1]) == value_of(b[upto - 2]) && x[upto - 1] == y[upto - 2]);
    }
}

} // verus!
