//! What a cut on a variable does to the points of a program.

use vstd::prelude::*;
use crate::basis::value_of;
use crate::linear::{
    dot, lemma_dot_prefix, lemma_dot_same, lemma_dot_shift, lemma_dot_single, lemma_times_linear,
    lemma_times_unit,
};
use crate::problem::{cut_sign, law_cut_is_canonical, with_cut, ProblemView, Sign};
use crate::ratio_ext::ExtRat;
use crate::soundness::{point_of, standard};

verus! {

/// A cut with a rational right-hand side that is not below zero, on a
/// significant variable of a standard program, leaves the program standard.
pub proof fn lemma_cut_standard(p: ProblemView, costs: Seq<ExtRat>, i: int, sign: Sign, rhs: ExtRat)
    requires
        standard(p, costs),
        0 <= i < costs.len(),
        rhs is Finite,
        value_of(rhs) >= 0real,
    ensures
        standard(with_cut(p, i, sign, rhs), costs),
{
    let q = with_cut(p, i, sign, rhs);
    let n = p.coefficients.len() as int;
    let m = p.rows.len() as int;
    let at = p.n_significant as int;
    law_cut_is_canonical(p, i, sign, rhs);
    let n2 = q.coefficients.len() as int;
    let m2 = q.rows.len() as int;
    assert forall|j: int| 0 <= j < costs.len() implies #[trigger] q.coefficients[j]
        == crate::big_number::bigm_from(costs[j]) by {
        assert(p.coefficients[j] == crate::big_number::bigm_from(costs[j]));
    }
    assert forall|j: int| costs.len() <= j < n2 - m2 implies #[trigger] q.coefficients[j]
        == crate::big_number::bigm_zero() by {
        if cut_sign(sign, rhs) == Sign::Equals {
            assert(p.coefficients[j] == crate::big_number::bigm_zero());
        } else if j > at {
            assert(p.coefficients[j - 1] == crate::big_number::bigm_zero());
        }
    }
    assert forall|r: int, j: int| 0 <= r < m2 && 0 <= j < n2 implies #[trigger] q.rows[r][j]
        is Finite by {
        if r < m {
            assert(p.rows[r].len() == n);
            if cut_sign(sign, rhs) == Sign::Equals {
                if j < n {
                    assert(p.rows[r][j] is Finite);
                }
            } else {
                if j < at {
                    assert(p.rows[r][j] is Finite);
                } else if j > at && j - 1 < n {
                    assert(p.rows[r][j - 1] is Finite);
                }
            }
        }
    }
    assert forall|r: int| 0 <= r < m2 implies (#[trigger] q.rhs[r]) is Finite && value_of(q.rhs[r])
        >= 0real by {
        if r < m {
            assert(p.rhs[r] is Finite && value_of(p.rhs[r]) >= 0real);
        }
    }
}

/// The numbers of a point of a program with a cut that belong to the columns
/// of the program without it.
pub open spec fn without_cut(p: ProblemView, sign: Sign, rhs: ExtRat, x: Seq<real>) -> Seq<real> {
    let at = p.n_significant as int;
    if cut_sign(sign, rhs) == Sign::Equals {
        Seq::new(p.coefficients.len(), |j: int| x[j])
    } else {
        Seq::new(
            p.coefficients.len(),
            |j: int|
                if j < at {
                    x[j]
                } else {
                    x[j + 1]
                },
        )
    }
}

/// What a cut asks of the value `v` of its variable.
pub open spec fn cut_holds(sign: Sign, rhs: ExtRat, v: real) -> bool {
    match cut_sign(sign, rhs) {
        Sign::Less => v <= value_of(rhs),
        Sign::Equals => v == value_of(rhs),
        Sign::Greater => v >= value_of(rhs),
    }
}

/// A point of a program with a cut is, without the columns of the cut, a point
/// of the program without it, has the same values for the significant
/// variables, and meets the cut.
pub proof fn lemma_cut_point(
    p: ProblemView,
    costs: Seq<ExtRat>,
    i: int,
    sign: Sign,
    rhs: ExtRat,
    x: Seq<real>,
)
    requires
        standard(p, costs),
        0 <= i < costs.len(),
        rhs is Finite,
        point_of(with_cut(p, i, sign, rhs), x),
    ensures
        point_of(p, without_cut(p, sign, rhs, x)),
        forall|j: int| 0 <= j < costs.len() ==> #[trigger] without_cut(p, sign, rhs, x)[j] == x[j],
        cut_holds(sign, rhs, x[i]),
{
    let q = with_cut(p, i, sign, rhs);
    let y = without_cut(p, sign, rhs, x);
    let n = p.coefficients.len() as int;
    let m = p.rows.len() as int;
    let at = p.n_significant as int;
    let n2 = q.coefficients.len() as int;
    if cut_sign(sign, rhs) == Sign::Equals {
        assert(n2 == n + 1);
        assert forall|r: int| 0 <= r < m implies #[trigger] dot(p.rows[r], y, n) == value_of(
            p.rhs[r],
        ) by {
            assert(dot(q.rows[r], x, n2) == value_of(q.rhs[r]));
            assert(p.rows[r].len() == n);
            lemma_dot_same(q.rows[r], p.rows[r], x, y, n);
            lemma_times_unit(x[n]);
        }
        let row = q.rows[m];
        assert(dot(row, x, n2) == value_of(q.rhs[m]));
        assert forall|j: int| 0 <= j < n && j != i implies value_of(#[trigger] row[j]) == 0real by {}
        lemma_dot_single(row, x, 0, n, i);
        lemma_times_unit(x[i]);
        lemma_times_unit(x[n]);
        assert(x[n] == 0real);
    } else {
        assert(n2 == n + 2);
        assert forall|r: int| 0 <= r < m implies #[trigger] dot(p.rows[r], y, n) == value_of(
            p.rhs[r],
        ) by {
            assert(dot(q.rows[r], x, n2) == value_of(q.rhs[r]));
            assert(p.rows[r].len() == n);
            lemma_dot_shift(q.rows[r], x, p.rows[r], y, at, n + 1);
            lemma_times_unit(x[n + 1]);
        }
        let row = q.rows[m];
        assert(dot(row, x, n2) == value_of(q.rhs[m]));
        assert forall|j: int| 0 <= j < at && j != i implies value_of(#[trigger] row[j]) == 0real by {}
        lemma_dot_single(row, x, 0, at, i);
        assert forall|j: int| at + 1 <= j < n + 1 implies value_of(#[trigger] row[j]) == 0real by {}
        lemma_dot_prefix(row, x, at + 1, n + 1);
        lemma_times_unit(x[i]);
        lemma_times_unit(x[at]);
        lemma_times_unit(x[n + 1]);
        lemma_times_linear(1real, x[at], 0real);
        assert(x[n + 1] == 0real);
        assert(x[at] >= 0real);
    }
}

/// A point of a program with the numbers for the columns of a cut put in: the
/// distance of the variable from the right-hand side for the slack column,
/// zero for the artificial one.
pub open spec fn with_cut_columns(
    p: ProblemView,
    i: int,
    sign: Sign,
    rhs: ExtRat,
    y: Seq<real>,
) -> Seq<real> {
    let at = p.n_significant as int;
    let n = p.coefficients.len() as int;
    if cut_sign(sign, rhs) == Sign::Equals {
        y.push(0real)
    } else {
        Seq::new(
            (n + 2) as nat,
            |j: int|
                if j < at {
                    y[j]
                } else if j == at {
                    if cut_sign(sign, rhs) == Sign::Less {
                        value_of(rhs) - y[i]
                    } else {
                        y[i] - value_of(rhs)
                    }
                } else if j <= n {
                    y[j - 1]
                } else {
                    0real
                },
        )
    }
}

/// A point of a program that meets a cut is, with the numbers for the columns
/// of the cut put in, a point of the program with the cut, and keeps its
/// values for the significant variables.
pub proof fn lemma_point_cut(
    p: ProblemView,
    costs: Seq<ExtRat>,
    i: int,
    sign: Sign,
    rhs: ExtRat,
    y: Seq<real>,
)
    requires
        standard(p, costs),
        0 <= i < costs.len(),
        rhs is Finite,
        point_of(p, y),
        cut_holds(sign, rhs, y[i]),
    ensures
        point_of(with_cut(p, i, sign, rhs), with_cut_columns(p, i, sign, rhs, y)),
        forall|j: int|
            0 <= j < costs.len() ==> #[trigger] with_cut_columns(p, i, sign, rhs, y)[j] == y[j],
{
    let q = with_cut(p, i, sign, rhs);
    let x = with_cut_columns(p, i, sign, rhs, y);
    let n = p.coefficients.len() as int;
    let m = p.rows.len() as int;
    let at = p.n_significant as int;
    let n2 = q.coefficients.len() as int;
    if cut_sign(sign, rhs) == Sign::Equals {
        assert(n2 == n + 1);
        assert forall|r: int| 0 <= r < m + 1 implies #[trigger] dot(q.rows[r], x, n2) == value_of(
            q.rhs[r],
        ) by {
            if r < m {
                assert(dot(p.rows[r], y, n) == value_of(p.rhs[r]));
                assert(p.rows[r].len() == n);
                lemma_dot_same(q.rows[r], p.rows[r], x, y, n);
                lemma_times_unit(x[n]);
            } else {
                let row = q.rows[m];
                assert forall|j: int| 0 <= j < n && j != i implies value_of(#[trigger] row[j])
                    == 0real by {}
                lemma_dot_single(row, x, 0, n, i);
                lemma_times_unit(x[i]);
                lemma_times_unit(x[n]);
            }
        }
    } else {
        assert(n2 == n + 2);
        assert forall|r: int| 0 <= r < m + 1 implies #[trigger] dot(q.rows[r], x, n2) == value_of(
            q.rhs[r],
        ) by {
            if r < m {
                assert(dot(p.rows[r], y, n) == value_of(p.rhs[r]));
                assert(p.rows[r].len() == n);
                lemma_dot_shift(q.rows[r], x, p.rows[r], y, at, n + 1);
                lemma_times_unit(x[n + 1]);
            } else {
                let row = q.rows[m];
                assert forall|j: int| 0 <= j < at && j != i implies value_of(#[trigger] row[j])
                    == 0real by {}
                lemma_dot_single(row, x, 0, at, i);
                assert forall|j: int| at + 1 <= j < n + 1 implies value_of(#[trigger] row[j])
                    == 0real by {}
                lemma_dot_prefix(row, x, at + 1, n + 1);
                lemma_times_unit(x[i]);
                lemma_times_unit(x[at]);
                lemma_times_unit(x[n + 1]);
                lemma_times_linear(1real, x[at], 0real);
            }
        }
        assert forall|j: int| 0 <= j < n2 implies #[trigger] x[j] >= 0real by {
            if j < at {
                assert(y[j] >= 0real);
            } else if j > at && j <= n {
                assert(y[j - 1] >= 0real);
            }
        }
        assert forall|j: int| n2 - (m + 1) <= j < n2 implies #[trigger] x[j] == 0real by {
            if j <= n {
                assert(y[j - 1] == 0real);
            }
        }
    }
}

} // verus!
