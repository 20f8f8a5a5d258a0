//! Why no feasible point costs less than the solution of the simplex method.

use vstd::prelude::*;
use crate::basis::{
    basic_form, finite_entries, law_step_keeps_basic_form, lemma_entering_column, lemma_leaving_row,
    value_of,
};
use crate::big_number::{bigm_gt, bigm_zero, BigM};
use crate::linear::{
    dot, lemma_dot_divided, lemma_dot_negated, lemma_dot_nonnegative, lemma_dot_nonpositive,
    lemma_dot_prefix, lemma_dot_prefix_zero, lemma_dot_reduced, lemma_dot_same, lemma_times_cancel,
    lemma_times_linear, lemma_times_sign, lemma_times_unit, times,
};
use crate::problem::{
    count_nonzero, lemma_slack_count_grows, normalized, slack_count, ConstraintView, ProblemView,
    Sign,
};
use crate::ratio_ext::ExtRat;
use crate::solution::{SolutionError, SolutionView};
use crate::solver::{lp_result, run, STEP_LIMIT};
use crate::soundness::{
    big_parts, constraint_meets, final_table, finite_costs, finite_program, lemma_estimation_sum,
    lemma_normalized_standard, lemma_row_parts, lemma_run_final, lemma_standard_table, point_of,
    row_sum, small_parts, solves, standard,
};
use crate::table::{
    basis_costs, bigm_dot, column, column_estimation, entering_column, initial_table, leaving_row,
    optimum, pivoted, step_min, table_shaped, TableView,
};

verus! {

/// What met the rows of a table before a pivot meets them after it.
pub proof fn lemma_pivot_keeps_solutions(t: TableView, row: int, col: int, x: Seq<real>)
    requires
        table_shaped(t),
        finite_entries(t),
        0 <= row < t.rows.len(),
        0 <= col < t.costs.len(),
        value_of(t.rows[row][col]) != 0real,
        solves(t, x),
    ensures
        solves(pivoted(t, row, col), x),
{
    let q = pivoted(t, row, col);
    let n = t.costs.len() as int;
    let m = t.rows.len() as int;
    assert(t.rows[row].len() == n);
    assert(t.rows[row][col] is Finite);
    assert(t.rhs[row] is Finite);
    let p = value_of(t.rows[row][col]);
    let b_r = value_of(t.rhs[row]);
    assert forall|j: int| 0 <= j < n implies value_of(#[trigger] q.rows[row][j]) == value_of(
        t.rows[row][j],
    ) / p by {
        assert(t.rows[row][j] is Finite);
    }
    lemma_dot_divided(t.rows[row], q.rows[row], x, p, n);
    let d_r = dot(q.rows[row], x, n);
    assert(dot(t.rows[row], x, n) == b_r);
    lemma_times_cancel(d_r, b_r, p);
    assert(d_r == b_r / p);
    assert forall|i: int| 0 <= i < m implies #[trigger] dot(q.rows[i], x, n) == value_of(
        q.rhs[i],
    ) by {
        if i != row {
            assert(t.rows[i].len() == n);
            assert(t.rows[i][col] is Finite);
            assert(t.rhs[i] is Finite);
            let a_ic = value_of(t.rows[i][col]);
            assert forall|j: int| 0 <= j < n implies value_of(#[trigger] q.rows[i][j]) == value_of(
                t.rows[i][j],
            ) - times(value_of(q.rows[row][j]), a_ic) by {
                assert(t.rows[row][j] is Finite);
                assert(t.rows[i][j] is Finite);
                reveal(times);
            }
            lemma_dot_reduced(t.rows[i], q.rows[row], q.rows[i], x, a_ic, n);
            assert(dot(t.rows[i], x, n) == value_of(t.rhs[i]));
            assert(value_of(q.rhs[i]) == value_of(t.rhs[i]) - times(b_r / p, a_ic)) by {
                reveal(times);
            }
            lemma_times_linear(b_r / p, a_ic, 0real);
        }
    }
}

/// What meets the rows of a table in basic form meets the rows of the table at
/// which a run from it stops.
pub proof fn lemma_run_keeps_solutions(t: TableView, previous: Option<int>, fuel: nat, x: Seq<real>)
    requires
        basic_form(t),
        solves(t, x),
    ensures
        solves(final_table(t, previous, fuel), x),
    decreases fuel,
{
    if fuel > 0 {
        let s = step_min(t, previous);
        if s.result is None {
            let m = t.rows.len() as int;
            let n = t.costs.len() as int;
            law_step_keeps_basic_form(t, previous);
            lemma_entering_column(t, n);
            let col = entering_column(t, n)->Some_0;
            lemma_leaving_row(t, col, m);
            let row = leaving_row(t, col, m)->Some_0;
            assert(t.rows[row].len() == n);
            assert(t.rows[row][col] is Finite);
            lemma_pivot_keeps_solutions(t, row, col, x);
            lemma_run_keeps_solutions(s.table, s.pivot_column, (fuel - 1) as nat, x);
        }
    }
}

/// The sum over the first `upto` rows of the weight of the basis variable
/// times the entry of the row in column `j`.
pub open spec fn col_sum(w: Seq<ExtRat>, t: TableView, j: int, upto: int) -> real
    decreases upto,
{
    if upto <= 0 {
        0real
    } else {
        col_sum(w, t, j, upto - 1) + times(
            value_of(w[t.basis[upto - 1]]),
            value_of(t.rows[upto - 1][j]),
        )
    }
}

/// For each column, the weights of the basis variables of the first `upto`
/// rows times the column.
pub open spec fn weighted_columns(w: Seq<ExtRat>, t: TableView, upto: int) -> Seq<ExtRat> {
    Seq::new(t.costs.len(), |j: int| ExtRat::Finite(col_sum(w, t, j, upto)))
}

/// For each column, its estimate in the part of the objective that `w` holds:
/// the weights of the basis variables times the column, less the weight of
/// the column.
pub open spec fn estimates(w: Seq<ExtRat>, t: TableView) -> Seq<ExtRat> {
    Seq::new(
        t.costs.len(),
        |j: int| ExtRat::Finite(col_sum(w, t, j, t.rows.len() as int) - value_of(w[j])),
    )
}

/// With rational entries and costs, the basis costs times a column are
/// rational in both parts: the sums over the rows.
pub proof fn lemma_column_sum(t: TableView, j: int, upto: int)
    requires
        table_shaped(t),
        finite_entries(t),
        finite_costs(t),
        0 <= j < t.costs.len(),
        0 <= upto <= t.rows.len(),
    ensures
        bigm_dot(basis_costs(t), column(t.rows, j), upto) == (BigM {
            big: ExtRat::Finite(col_sum(big_parts(t), t, j, upto)),
            small: ExtRat::Finite(col_sum(small_parts(t), t, j, upto)),
        }),
    decreases upto,
{
    if upto > 0 {
        lemma_column_sum(t, j, upto - 1);
        let k = t.basis[upto - 1];
        assert(0 <= k < t.costs.len());
        let c = t.costs[k];
        assert(c.big is Finite && c.small is Finite);
        assert(t.rows[upto - 1].len() == t.costs.len());
        assert(t.rows[upto - 1][j] is Finite);
        let a = value_of(t.rows[upto - 1][j]);
        let cb = value_of(c.big);
        let cs = value_of(c.small);
        assert(cb * a + cs * 0real == times(cb, a)) by {
            reveal(times);
            assert(cs * 0real == 0real);
        }
        assert(cs * a == times(cs, a)) by {
            reveal(times);
        }
        assert(basis_costs(t)[upto - 1] == c);
        assert(column(t.rows, j)[upto - 1] == t.rows[upto - 1][j]);
    }
}

/// The estimate of a column of a table with rational entries and costs is
/// rational in both parts.
pub proof fn lemma_column_estimation(t: TableView, j: int)
    requires
        table_shaped(t),
        finite_entries(t),
        finite_costs(t),
        0 <= j < t.costs.len(),
    ensures
        column_estimation(t, j) == (BigM {
            big: estimates(big_parts(t), t)[j],
            small: estimates(small_parts(t), t)[j],
        }),
{
    lemma_column_sum(t, j, t.rows.len() as int);
    assert(t.costs[j].big is Finite && t.costs[j].small is Finite);
}

/// Against numbers that meet the rows of the table, the weighted columns add
/// up to the weights of the basis variables times the right-hand sides.
pub proof fn lemma_weighted_columns(w: Seq<ExtRat>, t: TableView, x: Seq<real>, upto: int)
    requires
        table_shaped(t),
        solves(t, x),
        0 <= upto <= t.rows.len(),
    ensures
        dot(weighted_columns(w, t, upto), x, t.costs.len() as int) == row_sum(w, t, upto),
    decreases upto,
{
    let n = t.costs.len() as int;
    if upto > 0 {
        lemma_weighted_columns(w, t, x, upto - 1);
        let u = value_of(w[t.basis[upto - 1]]);
        let before = weighted_columns(w, t, upto - 1);
        let after = weighted_columns(w, t, upto);
        let row = t.rows[upto - 1];
        assert forall|j: int| 0 <= j < n implies value_of(#[trigger] after[j]) == value_of(
            before[j],
        ) - times(value_of(row[j]), -u) by {
            lemma_times_linear(u, value_of(row[j]), 0real);
            lemma_times_linear(value_of(row[j]), u, 0real);
            lemma_times_linear(value_of(row[j]), -u, 0real);
        }
        lemma_dot_reduced(before, row, after, x, -u, n);
        assert(dot(row, x, n) == value_of(t.rhs[upto - 1]));
        lemma_times_linear(u, dot(row, x, n), 0real);
    } else {
        crate::linear::lemma_dot_prefix(weighted_columns(w, t, upto), x, 0, n);
    }
}

/// Against numbers that meet the rows of the table, the estimates add up to
/// the value at the basic solution less the value at those numbers.
pub proof fn lemma_estimates(w: Seq<ExtRat>, t: TableView, x: Seq<real>)
    requires
        table_shaped(t),
        solves(t, x),
    ensures
        dot(estimates(w, t), x, t.costs.len() as int) == row_sum(w, t, t.rows.len() as int) - dot(
            w,
            x,
            t.costs.len() as int,
        ),
{
    let n = t.costs.len() as int;
    let m = t.rows.len() as int;
    lemma_weighted_columns(w, t, x, m);
    assert forall|j: int| 0 <= j < n implies value_of(#[trigger] estimates(w, t)[j]) == value_of(
        weighted_columns(w, t, m)[j],
    ) - times(value_of(w[j]), 1real) by {
        lemma_times_unit(value_of(w[j]));
    }
    lemma_dot_reduced(weighted_columns(w, t, m), w, estimates(w, t), x, 1real, n);
    lemma_times_unit(dot(w, x, n));
}

/// In a table without an entering column no estimate is above zero: its `M`
/// part is not, and where that is zero, its plain part is not.
pub proof fn lemma_optimal_estimates(t: TableView)
    requires
        table_shaped(t),
        finite_entries(t),
        finite_costs(t),
        entering_column(t, t.costs.len() as int) is None,
    ensures
        forall|j: int|
            0 <= j < t.costs.len() ==> value_of(#[trigger] estimates(big_parts(t), t)[j]) <= 0real
                && (value_of(estimates(big_parts(t), t)[j]) == 0real ==> value_of(
                estimates(small_parts(t), t)[j],
            ) <= 0real),
{
    let n = t.costs.len() as int;
    let zb = estimates(big_parts(t), t);
    let zs = estimates(small_parts(t), t);
    lemma_entering_column(t, n);
    assert forall|j: int| 0 <= j < n implies value_of(#[trigger] zb[j]) <= 0real && (value_of(
        zb[j],
    ) == 0real ==> value_of(zs[j]) <= 0real) by {
        lemma_column_estimation(t, j);
        assert(!bigm_gt(column_estimation(t, j), bigm_zero()));
    }
}

/// A standard program whose relaxation ends at an optimal table without a
/// solution has no point: the objective keeps an `M` part there, which the
/// cost of a point does not have.
pub proof fn law_relaxation_empty(p: ProblemView, costs: Seq<ExtRat>, x: Seq<real>)
    requires
        standard(p, costs),
        lp_result(p) is Err,
        crate::solver::ends_at_optimum(initial_table(p), None, STEP_LIMIT as nat),
    ensures
        !point_of(p, x),
{
    if point_of(p, x) {
        let w = costs.len() as int;
        let m = p.rows.len() as int;
        let t = initial_table(p);
        let n = p.coefficients.len() as int;
        lemma_standard_table(p, costs);
        lemma_run_final(t, None, STEP_LIMIT as nat);
        let f = final_table(t, None, STEP_LIMIT as nat);
        assert(solves(t, x)) by {
            assert forall|i: int| 0 <= i < m implies #[trigger] dot(t.rows[i], x, n) == value_of(
                t.rhs[i],
            ) by {
                assert(dot(p.rows[i], x, n) == value_of(p.rhs[i]));
            }
        }
        lemma_run_keeps_solutions(t, None, STEP_LIMIT as nat, x);
        lemma_estimation_sum(f, m);
        crate::soundness::lemma_function_estimation(f);
        crate::soundness::lemma_basic_solution(f);
        crate::basis::lemma_basic_form_injective(f);
        crate::soundness::lemma_partial_dot(big_parts(f), f, m);
        let bigs = big_parts(f);
        assert forall|j: int| 0 <= j < n implies value_of(#[trigger] bigs[j]) >= 0real by {
            if j < w {
                assert(p.coefficients[j] == crate::big_number::bigm_from(costs[j]));
            } else if j < n - m {
                assert(p.coefficients[j] == crate::big_number::bigm_zero());
            } else {
                assert(p.coefficients[n - m + (j - (n - m))] == crate::problem::penalty(true));
            }
        }
        lemma_dot_nonnegative(bigs, crate::soundness::basic_solution(f), n);
        assert(row_sum(bigs, f, m) > 0real);
        // the point has no M part in its cost
        assert forall|j: int| 0 <= j < n - m implies value_of(#[trigger] bigs[j]) == 0real by {
            if j < w {
                assert(p.coefficients[j] == crate::big_number::bigm_from(costs[j]));
            } else {
                assert(p.coefficients[j] == crate::big_number::bigm_zero());
            }
        }
        lemma_dot_prefix(bigs, x, 0, n - m);
        lemma_dot_prefix_zero(bigs, x, n - m, n);
        // but the estimates say that it has
        let zb = estimates(bigs, f);
        lemma_estimates(bigs, f, x);
        lemma_optimal_estimates(f);
        assert forall|j: int| 0 <= j < n implies times(value_of(#[trigger] zb[j]), x[j])
            <= 0real by {
            assert(value_of(zb[j]) <= 0real);
            assert(x[j] >= 0real);
            lemma_times_sign(value_of(zb[j]), x[j]);
        }
        lemma_dot_nonpositive(zb, x, n);
    }
}

/// At an optimal table no feasible point is cheaper than the basic solution:
/// numbers that meet the rows, none of them negative, with no `M` part in
/// their cost, cost at least what the basic solution costs, provided that
/// this has no `M` part either.
pub proof fn lemma_optimal_bound(t: TableView, x: Seq<real>)
    requires
        table_shaped(t),
        finite_entries(t),
        finite_costs(t),
        entering_column(t, t.costs.len() as int) is None,
        solves(t, x),
        forall|j: int| 0 <= j < x.len() ==> #[trigger] x[j] >= 0real,
        dot(big_parts(t), x, t.costs.len() as int) == 0real,
        row_sum(big_parts(t), t, t.rows.len() as int) == 0real,
    ensures
        dot(small_parts(t), x, t.costs.len() as int) >= row_sum(
            small_parts(t),
            t,
            t.rows.len() as int,
        ),
{
    let n = t.costs.len() as int;
    let zb = estimates(big_parts(t), t);
    let zs = estimates(small_parts(t), t);
    lemma_entering_column(t, n);
    lemma_estimates(big_parts(t), t, x);
    lemma_estimates(small_parts(t), t, x);
    assert forall|j: int| 0 <= j < n implies value_of(#[trigger] zb[j]) <= 0real && (value_of(
        zb[j],
    ) == 0real ==> value_of(zs[j]) <= 0real) by {
        lemma_column_estimation(t, j);
        assert(!bigm_gt(column_estimation(t, j), bigm_zero()));
    }
    // the M parts of the estimates times the numbers are all zero
    let negated = Seq::new(n as nat, |j: int| ExtRat::Finite(-value_of(zb[j])));
    lemma_dot_negated(zb, negated, x, n);
    assert forall|j: int| 0 <= j < n implies value_of(#[trigger] negated[j]) >= 0real by {
        assert(value_of(zb[j]) <= 0real);
    }
    lemma_dot_nonnegative(negated, x, n);
    assert forall|j: int| 0 <= j < n implies times(value_of(#[trigger] zs[j]), x[j]) <= 0real by {
        assert(value_of(zb[j]) <= 0real);
        assert(x[j] >= 0real);
        assert(times(value_of(negated[j]), x[j]) == 0real);
        if value_of(zb[j]) == 0real {
            lemma_times_sign(value_of(zs[j]), x[j]);
        } else {
            lemma_times_cancel(x[j], 0real, value_of(negated[j]));
            lemma_times_unit(value_of(zs[j]));
        }
    }
    lemma_dot_nonpositive(zs, x, n);
}

/// How far the left-hand side of a constraint is from its right-hand side at
/// the point `y`.
pub open spec fn slack_value(c: ConstraintView, y: Seq<real>) -> real {
    let lhs = dot(c.coefficients, y, c.coefficients.len() as int);
    let rhs = value_of(c.rhs);
    if lhs <= rhs {
        rhs - lhs
    } else {
        lhs - rhs
    }
}

/// The point `y` with a value for each slack variable of the first `upto`
/// constraints, and zero for the other slack variables and the artificial
/// ones.
pub open spec fn extended(cs: Seq<ConstraintView>, y: Seq<real>, upto: int) -> Seq<real>
    decreases upto,
{
    let w = y.len() as int;
    if upto <= 0 {
        Seq::new(
            (w + slack_count(cs, cs.len() as int) + cs.len()) as nat,
            |j: int|
                if j < w {
                    y[j]
                } else {
                    0real
                },
        )
    } else {
        let before = extended(cs, y, upto - 1);
        if cs[upto - 1].sign != Sign::Equals {
            before.update(w + slack_count(cs, upto - 1), slack_value(cs[upto - 1], y))
        } else {
            before
        }
    }
}

/// What the extended point holds.
pub proof fn lemma_extended(cs: Seq<ConstraintView>, y: Seq<real>, upto: int)
    requires
        0 <= upto <= cs.len(),
        forall|j: int| 0 <= j < y.len() ==> #[trigger] y[j] >= 0real,
    ensures
        extended(cs, y, upto).len() == y.len() + slack_count(cs, cs.len() as int) + cs.len(),
        forall|j: int| 0 <= j < y.len() ==> #[trigger] extended(cs, y, upto)[j] == y[j],
        forall|j: int|
            y.len() + slack_count(cs, upto) <= j < extended(cs, y, upto).len()
                ==> #[trigger] extended(cs, y, upto)[j] == 0real,
        forall|i: int|
            0 <= i < upto && cs[i].sign != Sign::Equals ==> extended(cs, y, upto)[y.len() as int
                + #[trigger] slack_count(cs, i)] == slack_value(cs[i], y),
        forall|j: int|
            0 <= j < extended(cs, y, upto).len() ==> #[trigger] extended(cs, y, upto)[j] >= 0real,
    decreases upto,
{
    let w = y.len() as int;
    let m = cs.len() as int;
    lemma_slack_count_grows(cs, 0, upto);
    lemma_slack_count_grows(cs, upto, m);
    if upto > 0 {
        lemma_extended(cs, y, upto - 1);
        lemma_slack_count_grows(cs, upto - 1, upto);
        let before = extended(cs, y, upto - 1);
        let after = extended(cs, y, upto);
        if cs[upto - 1].sign != Sign::Equals {
            assert forall|i: int| 0 <= i < upto && cs[i].sign != Sign::Equals implies after[w
                + #[trigger] slack_count(cs, i)] == slack_value(cs[i], y) by {
                if i < upto - 1 {
                    lemma_slack_count_grows(cs, i, i + 1);
                    lemma_slack_count_grows(cs, i + 1, upto - 1);
                    assert(before[w + slack_count(cs, i)] == slack_value(cs[i], y));
                }
            }
        } else {
            assert forall|i: int| 0 <= i < upto && cs[i].sign != Sign::Equals implies after[w
                + #[trigger] slack_count(cs, i)] == slack_value(cs[i], y) by {
                assert(before[w + slack_count(cs, i)] == slack_value(cs[i], y));
            }
        }
    }
}

/// A point that meets every constraint, extended by its slack values, is a
/// point of the canonical form.
pub proof fn lemma_extended_point(costs: Seq<ExtRat>, cs: Seq<ConstraintView>, y: Seq<real>)
    requires
        finite_program(costs, cs),
        y.len() == costs.len(),
        forall|j: int| 0 <= j < y.len() ==> #[trigger] y[j] >= 0real,
        forall|i: int| 0 <= i < cs.len() ==> constraint_meets(#[trigger] cs[i], y),
    ensures
        point_of(normalized(costs.len(), costs, true, cs), extended(cs, y, cs.len() as int)),
        forall|j: int|
            0 <= j < y.len() ==> #[trigger] extended(cs, y, cs.len() as int)[j] == y[j],
{
    let p = normalized(costs.len(), costs, true, cs);
    let m = cs.len() as int;
    let w = costs.len() as int;
    let full = extended(cs, y, m);
    lemma_normalized_standard(costs, cs);
    lemma_extended(cs, y, m);
    let n = p.coefficients.len() as int;
    assert forall|i: int| 0 <= i < m implies #[trigger] dot(p.rows[i], full, n) == value_of(
        p.rhs[i],
    ) by {
        lemma_row_parts(costs.len(), costs, cs, i, full);
        let c = cs[i];
        assert(constraint_meets(c, y));
        assert(c.rhs is Finite);
        lemma_dot_same(c.coefficients, c.coefficients, full, y, c.coefficients.len() as int);
        crate::ratio_ext::lemma_mul_minus_one(c.rhs);
        if c.sign != Sign::Equals {
            assert(full[w + slack_count(cs, i)] == slack_value(c, y));
        }
    }
}

/// No point of a standard program costs less than the solution of the simplex
/// method on it.
pub proof fn law_relaxation_bound(p: ProblemView, costs: Seq<ExtRat>, s: SolutionView, x: Seq<real>)
    requires
        standard(p, costs),
        lp_result(p) == Ok::<SolutionView, SolutionError>(s),
        point_of(p, x),
    ensures
        s.fn_val is Finite,
        value_of(s.fn_val) <= dot(costs, x, costs.len() as int),
{
    let w = costs.len() as int;
    let m = p.rows.len() as int;
    let t = initial_table(p);
    let n = p.coefficients.len() as int;
    lemma_standard_table(p, costs);
    crate::soundness::lemma_solution_ends_at_optimum(t, None, STEP_LIMIT as nat);
    lemma_run_final(t, None, STEP_LIMIT as nat);
    let f = final_table(t, None, STEP_LIMIT as nat);
    assert(solves(t, x)) by {
        assert forall|i: int| 0 <= i < m implies #[trigger] dot(t.rows[i], x, n) == value_of(
            t.rhs[i],
        ) by {
            assert(dot(p.rows[i], x, n) == value_of(p.rhs[i]));
        }
    }
    lemma_run_keeps_solutions(t, None, STEP_LIMIT as nat, x);
    lemma_estimation_sum(f, m);
    assert(optimum(f) == Ok::<SolutionView, SolutionError>(s));
    // the point has no M part in its cost
    let bigs = big_parts(f);
    assert forall|j: int| 0 <= j < n - m implies value_of(#[trigger] bigs[j]) == 0real by {
        if j < w {
            assert(p.coefficients[j] == crate::big_number::bigm_from(costs[j]));
        } else {
            assert(p.coefficients[j] == crate::big_number::bigm_zero());
        }
    }
    lemma_dot_prefix(bigs, x, 0, n - m);
    lemma_dot_prefix_zero(bigs, x, n - m, n);
    lemma_optimal_bound(f, x);
    // its cost is the cost of its significant variables
    let smalls = small_parts(f);
    assert forall|j: int| w <= j < n implies value_of(#[trigger] smalls[j]) == 0real by {
        if j < n - m {
            assert(p.coefficients[j] == crate::big_number::bigm_zero());
        } else {
            assert(p.coefficients[n - m + (j - (n - m))] == crate::problem::penalty(true));
        }
    }
    lemma_dot_prefix(smalls, x, w, n);
    assert forall|j: int| 0 <= j < w implies value_of(#[trigger] smalls[j]) == value_of(
        costs[j],
    ) by {
        assert(p.coefficients[j] == crate::big_number::bigm_from(costs[j]));
    }
    lemma_dot_same(smalls, costs, x, x, w);
}

/// On termination of the simplex method with a solution, for a minimized
/// program of rational numbers whose objective has no zero coefficient and is
/// as wide as its widest constraint: no point that meets every constraint with
/// numbers that are not negative costs less than the solution.
pub proof fn law_solution_is_optimal(
    costs: Seq<ExtRat>,
    cs: Seq<ConstraintView>,
    s: SolutionView,
    y: Seq<real>,
)
    requires
        finite_program(costs, cs),
        lp_result(normalized(count_nonzero(costs), costs, true, cs)) == Ok::<
            SolutionView,
            SolutionError,
        >(s),
        y.len() == costs.len(),
        forall|j: int| 0 <= j < y.len() ==> #[trigger] y[j] >= 0real,
        forall|i: int| 0 <= i < cs.len() ==> constraint_meets(#[trigger] cs[i], y),
    ensures
        s.fn_val is Finite,
        value_of(s.fn_val) <= dot(costs, y, costs.len() as int),
{
    let p = normalized(costs.len(), costs, true, cs);
    let full = extended(cs, y, cs.len() as int);
    lemma_normalized_standard(costs, cs);
    lemma_extended_point(costs, cs, y);
    law_relaxation_bound(p, costs, s, full);
    lemma_dot_same(costs, costs, full, y, costs.len() as int);
}

} // verus!
