//! What a solution of the simplex method is a solution of.

use vstd::prelude::*;
use crate::basis::{
    basic_form, finite_entries, injective_basis, law_step_keeps_basic_form,
    lemma_basic_form_injective, lemma_entering_column, lemma_leaving_row, value_of,
};
use crate::linear::{
    dot, lemma_dot_divided, lemma_dot_negated, lemma_dot_nonnegative, lemma_dot_prefix,
    lemma_dot_prefix_zero, lemma_dot_reduced, lemma_dot_same, lemma_dot_single, lemma_dot_update,
    lemma_dot_zero, lemma_times_linear, lemma_times_quotient, lemma_times_unit, times,
};
use crate::problem::{
    canonical, count_nonzero, law_normalized_is_canonical, law_normalized_rhs,
    lemma_slack_count_grows, max_width, normalized, oriented, slack_count, ConstraintView,
    ProblemView, Sign,
};
use crate::ratio_ext::{ext_lt, ext_zero, ExtRat};
use crate::solution::{SolutionError, SolutionView};
use crate::solver::{ends_at_optimum, lp_result, run, STEP_LIMIT};
use crate::table::{
    basic_value, basis_row, entering_column, initial_table, leaving_row, lemma_initial_table_shaped,
    optimum, pivoted, step_min, table_shaped, TableView,
};

verus! {

/// The numbers `x`, one for each column, meet every row of the table: the
/// entries of the row times the numbers add up to the right-hand side.
pub open spec fn solves(t: TableView, x: Seq<real>) -> bool {
    &&& x.len() == t.costs.len()
    &&& forall|i: int|
        0 <= i < t.rows.len() ==> #[trigger] dot(t.rows[i], x, t.costs.len() as int) == value_of(
            t.rhs[i],
        )
}

/// What meets the rows of a table after a pivot met them before it.
pub proof fn lemma_pivot_solutions(t: TableView, row: int, col: int, x: Seq<real>)
    requires
        table_shaped(t),
        finite_entries(t),
        0 <= row < t.rows.len(),
        0 <= col < t.costs.len(),
        value_of(t.rows[row][col]) != 0real,
        solves(pivoted(t, row, col), x),
    ensures
        solves(t, x),
{
    let q = pivoted(t, row, col);
    let n = t.costs.len() as int;
    let m = t.rows.len() as int;
    assert(t.rows[row].len() == n);
    assert(t.rows[row][col] is Finite);
    assert(t.rhs[row] is Finite);
    let p = value_of(t.rows[row][col]);
    let b_r = value_of(t.rhs[row]);
    assert forall|j: int| 0 <= j < n implies value_of(#[trigger] q.rows[row][j]) == value_of(
        t.rows[row][j],
    ) / p by {
        assert(t.rows[row][j] is Finite);
    }
    lemma_dot_divided(t.rows[row], q.rows[row], x, p, n);
    let d_r = dot(q.rows[row], x, n);
    assert(d_r == value_of(q.rhs[row]));
    assert(d_r == b_r / p);
    lemma_times_quotient(b_r, p);
    assert(dot(t.rows[row], x, n) == b_r);
    assert forall|i: int| 0 <= i < m implies #[trigger] dot(t.rows[i], x, n) == value_of(
        t.rhs[i],
    ) by {
        if i != row {
            assert(t.rows[i].len() == n);
            assert(t.rows[i][col] is Finite);
            assert(t.rhs[i] is Finite);
            let a_ic = value_of(t.rows[i][col]);
            assert forall|j: int| 0 <= j < n implies value_of(#[trigger] q.rows[i][j]) == value_of(
                t.rows[i][j],
            ) - times(value_of(q.rows[row][j]), a_ic) by {
                assert(t.rows[row][j] is Finite);
                assert(t.rows[i][j] is Finite);
                reveal(times);
            }
            lemma_dot_reduced(t.rows[i], q.rows[row], q.rows[i], x, a_ic, n);
            assert(dot(q.rows[i], x, n) == value_of(q.rhs[i]));
            assert(value_of(q.rhs[i]) == value_of(t.rhs[i]) - times(b_r / p, a_ic)) by {
                reveal(times);
            }
            lemma_times_linear(b_r / p, a_ic, 0real);
        }
    }
}

/// The numbers that the first `upto` rows give to their basis variables, with
/// zero for every other variable.
pub open spec fn partial_solution(t: TableView, upto: int) -> Seq<real>
    decreases upto,
{
    if upto <= 0 {
        Seq::new(t.costs.len(), |j: int| 0real)
    } else {
        partial_solution(t, upto - 1).update(t.basis[upto - 1], value_of(t.rhs[upto - 1]))
    }
}

/// The basic solution of a table: each basis variable has the right-hand side
/// of its row, every other variable is zero.
pub open spec fn basic_solution(t: TableView) -> Seq<real> {
    partial_solution(t, t.rows.len() as int)
}

/// The sum over the first `upto` rows of the weight of the basis variable
/// times the right-hand side.
pub open spec fn row_sum(w: Seq<ExtRat>, t: TableView, upto: int) -> real
    decreases upto,
{
    if upto <= 0 {
        0real
    } else {
        row_sum(w, t, upto - 1) + times(value_of(w[t.basis[upto - 1]]), value_of(t.rhs[upto - 1]))
    }
}

/// What the partial solution holds: the right-hand side for the basis
/// variable of a row that was counted, zero for a variable of no such row.
pub proof fn lemma_partial_solution(t: TableView, upto: int)
    requires
        table_shaped(t),
        injective_basis(t),
        0 <= upto <= t.rows.len(),
    ensures
        partial_solution(t, upto).len() == t.costs.len(),
        forall|k: int|
            0 <= k < upto ==> partial_solution(t, upto)[#[trigger] t.basis[k]] == value_of(t.rhs[k]),
        forall|j: int|
            0 <= j < t.costs.len() && (forall|k: int| 0 <= k < upto ==> #[trigger] t.basis[k] != j)
                ==> #[trigger] partial_solution(t, upto)[j] == 0real,
    decreases upto,
{
    if upto > 0 {
        lemma_partial_solution(t, upto - 1);
        let b = t.basis[upto - 1];
        assert(0 <= b < t.costs.len());
        assert forall|k: int| 0 <= k < upto implies partial_solution(t, upto)[#[trigger] t.basis[k]]
            == value_of(t.rhs[k]) by {
            if k < upto - 1 {
                assert(t.basis[k] != t.basis[upto - 1]);
                assert(0 <= t.basis[k] < t.costs.len());
            }
        }
        assert forall|j: int|
            0 <= j < t.costs.len() && (forall|k: int|
                0 <= k < upto ==> #[trigger] t.basis[k] != j) implies #[trigger] partial_solution(
            t,
            upto,
        )[j] == 0real by {
            assert(t.basis[upto - 1] != j);
            assert(forall|k: int| 0 <= k < upto - 1 ==> #[trigger] t.basis[k] != j);
        }
    }
}

/// The weights times the partial solution add up to the sum over its rows.
pub proof fn lemma_partial_dot(w: Seq<ExtRat>, t: TableView, upto: int)
    requires
        table_shaped(t),
        injective_basis(t),
        0 <= upto <= t.rows.len(),
    ensures
        dot(w, partial_solution(t, upto), t.costs.len() as int) == row_sum(w, t, upto),
    decreases upto,
{
    let n = t.costs.len() as int;
    if upto > 0 {
        lemma_partial_dot(w, t, upto - 1);
        lemma_partial_solution(t, upto - 1);
        let before = partial_solution(t, upto - 1);
        let b = t.basis[upto - 1];
        assert(0 <= b < n);
        assert forall|k: int| 0 <= k < upto - 1 implies #[trigger] t.basis[k] != b by {
            assert(t.basis[k] != t.basis[upto - 1]);
        }
        assert(before[b] == 0real);
        lemma_dot_update(w, before, b, value_of(t.rhs[upto - 1]), n);
    } else {
        lemma_dot_zero(w, partial_solution(t, upto), n);
    }
}

/// A row of a table in basic form, weighed against the first rows, gives its
/// own right-hand side once it is among them.
pub proof fn lemma_row_sum_unit(t: TableView, i: int, upto: int)
    requires
        basic_form(t),
        0 <= i < t.rows.len(),
        0 <= upto <= t.rows.len(),
    ensures
        row_sum(t.rows[i], t, upto) == if i < upto {
            value_of(t.rhs[i])
        } else {
            0real
        },
    decreases upto,
{
    if upto > 0 {
        lemma_row_sum_unit(t, i, upto - 1);
        assert(t.rows[i][t.basis[upto - 1]] == if i == upto - 1 {
            crate::ratio_ext::ext_one()
        } else {
            ext_zero()
        });
        lemma_times_unit(value_of(t.rhs[upto - 1]));
    }
}

/// The basic solution of a table in basic form meets every row of it, and
/// none of its numbers is negative.
pub proof fn lemma_basic_solution(t: TableView)
    requires
        basic_form(t),
    ensures
        solves(t, basic_solution(t)),
        forall|j: int| 0 <= j < t.costs.len() ==> #[trigger] basic_solution(t)[j] >= 0real,
{
    let m = t.rows.len() as int;
    let n = t.costs.len() as int;
    lemma_basic_form_injective(t);
    lemma_partial_solution(t, m);
    assert forall|i: int| 0 <= i < m implies #[trigger] dot(t.rows[i], basic_solution(t), n)
        == value_of(t.rhs[i]) by {
        lemma_partial_dot(t.rows[i], t, m);
        lemma_row_sum_unit(t, i, m);
    }
    assert forall|j: int| 0 <= j < n implies #[trigger] basic_solution(t)[j] >= 0real by {
        if forall|k: int| 0 <= k < m ==> #[trigger] t.basis[k] != j {
        } else {
            let k = choose|k: int| 0 <= k < m && #[trigger] t.basis[k] == j;
            assert(basic_solution(t)[t.basis[k]] == value_of(t.rhs[k]));
            assert(crate::ratio_ext::ext_ge(t.rhs[k], ext_zero()));
        }
    }
}

/// Where the search for the row of a variable ends.
pub proof fn lemma_basis_row(basis: Seq<int>, var: int, from: int)
    requires
        0 <= from,
    ensures
        basis_row(basis, var, from) matches Some(k) ==> from <= k < basis.len() && basis[k] == var,
        basis_row(basis, var, from) is None ==> forall|k: int|
            from <= k < basis.len() ==> #[trigger] basis[k] != var,
    decreases basis.len() - from,
{
    if from < basis.len() && basis[from] != var {
        lemma_basis_row(basis, var, from + 1);
    }
}

/// The value that a solution shows for a variable is its number in the basic
/// solution.
pub proof fn lemma_basic_value(t: TableView, j: int)
    requires
        basic_form(t),
        0 <= j < t.costs.len(),
    ensures
        basic_value(t, j) == ExtRat::Finite(basic_solution(t)[j]),
{
    let m = t.rows.len() as int;
    lemma_basic_form_injective(t);
    lemma_partial_solution(t, m);
    lemma_basis_row(t.basis, j, 0);
    match basis_row(t.basis, j, 0) {
        Some(k) => {
            assert(basic_solution(t)[t.basis[k]] == value_of(t.rhs[k]));
            assert(t.rhs[k] is Finite);
        },
        None => {},
    }
}

/// The table at which a run of at most `fuel` steps stops.
pub open spec fn final_table(t: TableView, previous: Option<int>, fuel: nat) -> TableView
    decreases fuel,
{
    if fuel == 0 {
        t
    } else {
        let s = step_min(t, previous);
        if s.result is None {
            final_table(s.table, s.pivot_column, (fuel - 1) as nat)
        } else {
            t
        }
    }
}

/// A run that ends with a solution ends at a table in which no column has an
/// estimate above zero.
pub proof fn lemma_solution_ends_at_optimum(t: TableView, previous: Option<int>, fuel: nat)
    ensures
        run(t, previous, fuel) is Ok ==> ends_at_optimum(t, previous, fuel),
    decreases fuel,
{
    if fuel > 0 {
        let s = step_min(t, previous);
        if s.result is None {
            lemma_solution_ends_at_optimum(s.table, s.pivot_column, (fuel - 1) as nat);
        }
    }
}

/// A run from a table in basic form that ends at an optimal table ends at a
/// table in basic form with the same objective, its result is the optimum of
/// that table, and what meets the rows of that table meets the rows of the
/// table at the start.
pub proof fn lemma_run_final(t: TableView, previous: Option<int>, fuel: nat)
    requires
        basic_form(t),
        ends_at_optimum(t, previous, fuel),
    ensures
        basic_form(final_table(t, previous, fuel)),
        run(t, previous, fuel) == optimum(final_table(t, previous, fuel)),
        final_table(t, previous, fuel).costs == t.costs,
        final_table(t, previous, fuel).n_significant == t.n_significant,
        final_table(t, previous, fuel).rows.len() == t.rows.len(),
        entering_column(
            final_table(t, previous, fuel),
            final_table(t, previous, fuel).costs.len() as int,
        ) is None,
        forall|x: Seq<real>| #[trigger] solves(final_table(t, previous, fuel), x) ==> solves(t, x),
    decreases fuel,
{
    if fuel > 0 {
        let s = step_min(t, previous);
        if s.result is None {
            let m = t.rows.len() as int;
            let n = t.costs.len() as int;
            law_step_keeps_basic_form(t, previous);
            lemma_entering_column(t, n);
            let col = entering_column(t, n)->Some_0;
            lemma_leaving_row(t, col, m);
            let row = leaving_row(t, col, m)->Some_0;
            assert(s.table == pivoted(t, row, col));
            assert(t.rows[row].len() == n);
            assert(t.rows[row][col] is Finite);
            lemma_run_final(s.table, s.pivot_column, (fuel - 1) as nat);
            let f = final_table(t, previous, fuel);
            assert forall|x: Seq<real>| #[trigger] solves(f, x) implies solves(t, x) by {
                assert(solves(s.table, x));
                lemma_pivot_solutions(t, row, col, x);
            }
        }
    }
}

/// Every objective coefficient is made of rational numbers.
pub open spec fn finite_costs(t: TableView) -> bool {
    forall|j: int|
        0 <= j < t.costs.len() ==> (#[trigger] t.costs[j]).big is Finite && t.costs[j].small
            is Finite
}

/// The `M` parts of the objective coefficients.
pub open spec fn big_parts(t: TableView) -> Seq<ExtRat> {
    Seq::new(t.costs.len(), |j: int| t.costs[j].big)
}

/// The plain parts of the objective coefficients.
pub open spec fn small_parts(t: TableView) -> Seq<ExtRat> {
    Seq::new(t.costs.len(), |j: int| t.costs[j].small)
}

/// With rational entries and costs, the basis costs times the right-hand
/// sides are rational in both parts: the sums over the rows.
pub proof fn lemma_estimation_sum(t: TableView, upto: int)
    requires
        table_shaped(t),
        finite_entries(t),
        finite_costs(t),
        0 <= upto <= t.rows.len(),
    ensures
        crate::table::bigm_dot(crate::table::basis_costs(t), t.rhs, upto) == (crate::big_number::BigM {
            big: ExtRat::Finite(row_sum(big_parts(t), t, upto)),
            small: ExtRat::Finite(row_sum(small_parts(t), t, upto)),
        }),
    decreases upto,
{
    if upto > 0 {
        lemma_estimation_sum(t, upto - 1);
        let k = t.basis[upto - 1];
        assert(0 <= k < t.costs.len());
        let c = t.costs[k];
        assert(c.big is Finite && c.small is Finite);
        assert(t.rhs[upto - 1] is Finite);
        let b = value_of(t.rhs[upto - 1]);
        let cb = value_of(c.big);
        let cs = value_of(c.small);
        assert(cb * b + cs * 0real == times(cb, b)) by {
            reveal(times);
            assert(cs * 0real == 0real);
        }
        assert(cs * b == times(cs, b)) by {
            reveal(times);
        }
        assert(crate::table::basis_costs(t)[upto - 1] == c);
    }
}

/// The value of the objective at the basic solution of a table in basic form
/// with rational costs: in each part, the costs times the basic solution.
pub proof fn lemma_function_estimation(t: TableView)
    requires
        basic_form(t),
        finite_costs(t),
    ensures
        crate::table::function_estimation(t) == (crate::big_number::BigM {
            big: ExtRat::Finite(dot(big_parts(t), basic_solution(t), t.costs.len() as int)),
            small: ExtRat::Finite(dot(small_parts(t), basic_solution(t), t.costs.len() as int)),
        }),
{
    let m = t.rows.len() as int;
    lemma_basic_form_injective(t);
    lemma_estimation_sum(t, m);
    lemma_partial_dot(big_parts(t), t, m);
    lemma_partial_dot(small_parts(t), t, m);
}

/// The columns from `first` on are the artificial ones: their objective
/// coefficients have an `M` part of one, those before them none.
pub open spec fn artificial_from(t: TableView, first: int) -> bool {
    &&& 0 <= first <= t.costs.len()
    &&& forall|j: int| 0 <= j < first ==> (#[trigger] t.costs[j]).big == ext_zero()
    &&& forall|j: int|
        first <= j < t.costs.len() ==> (#[trigger] t.costs[j]).big == crate::ratio_ext::ext_one()
}

/// An optimal table in basic form gives a solution exactly when every
/// artificial variable is zero in its basic solution; otherwise the value of
/// the objective keeps an `M` part, and the result is `Infinite`.
pub proof fn law_optimum_is_finite(t: TableView, first: int)
    requires
        basic_form(t),
        finite_costs(t),
        artificial_from(t, first),
    ensures
        optimum(t) is Ok <==> forall|j: int|
            first <= j < t.costs.len() ==> #[trigger] basic_solution(t)[j] == 0real,
        optimum(t) is Err ==> optimum(t) == Err::<SolutionView, SolutionError>(
            SolutionError::Infinite,
        ),
{
    let n = t.costs.len() as int;
    let x = basic_solution(t);
    let bigs = big_parts(t);
    lemma_basic_solution(t);
    lemma_function_estimation(t);
    assert forall|j: int| 0 <= j < n implies value_of(#[trigger] bigs[j]) >= 0real by {
        if j < first {
            assert(t.costs[j].big == ext_zero());
        } else {
            assert(t.costs[j].big == crate::ratio_ext::ext_one());
        }
    }
    lemma_dot_nonnegative(bigs, x, n);
    if optimum(t) is Ok {
        assert forall|j: int| first <= j < n implies #[trigger] x[j] == 0real by {
            assert(t.costs[j].big == crate::ratio_ext::ext_one());
            assert(times(value_of(bigs[j]), x[j]) == 0real);
            lemma_times_unit(x[j]);
        }
    }
    if forall|j: int| first <= j < n ==> #[trigger] x[j] == 0real {
        assert forall|j: int| 0 <= j < first implies value_of(#[trigger] bigs[j]) == 0real by {
            assert(t.costs[j].big == ext_zero());
        }
        lemma_dot_prefix(bigs, x, 0, first);
        lemma_dot_prefix_zero(bigs, x, first, n);
    }
}

/// The numbers that finite values hold.
pub open spec fn reals(vars: Seq<ExtRat>) -> Seq<real> {
    Seq::new(vars.len(), |j: int| value_of(vars[j]))
}

/// The constraint holds of the values `vars` of the variables: its
/// coefficients times the values stand to its right-hand side as its sign
/// says.
pub open spec fn constraint_holds(c: ConstraintView, vars: Seq<ExtRat>) -> bool {
    let lhs = dot(c.coefficients, reals(vars), c.coefficients.len() as int);
    match c.sign {
        Sign::Less => lhs <= value_of(c.rhs),
        Sign::Equals => lhs == value_of(c.rhs),
        Sign::Greater => lhs >= value_of(c.rhs),
    }
}

/// A program of rational numbers in which no objective coefficient is zero
/// and no constraint has more coefficients than the objective.
pub open spec fn finite_program(costs: Seq<ExtRat>, cs: Seq<ConstraintView>) -> bool {
    &&& forall|j: int|
        0 <= j < costs.len() ==> (#[trigger] costs[j]) is Finite && costs[j] != ext_zero()
    &&& forall|i: int|
        0 <= i < cs.len() ==> (#[trigger] cs[i]).rhs is Finite && cs[i].coefficients.len()
            <= costs.len()
    &&& forall|i: int, j: int|
        0 <= i < cs.len() && 0 <= j < cs[i].coefficients.len() ==> #[trigger] cs[i].coefficients[j]
            is Finite
}

/// The table that a minimized rational program starts from is in basic form,
/// with rational costs.
pub proof fn lemma_initial_basic_form(n_significant: nat, costs: Seq<ExtRat>, cs: Seq<ConstraintView>)
    requires
        finite_program(costs, cs),
        n_significant <= costs.len(),
    ensures
        basic_form(initial_table(normalized(n_significant, costs, true, cs))),
        finite_costs(initial_table(normalized(n_significant, costs, true, cs))),
        max_width(costs.len(), cs) == costs.len(),
{
    let p = normalized(n_significant, costs, true, cs);
    let t = initial_table(p);
    let w = costs.len();
    let m = cs.len() as int;
    crate::problem::lemma_max_width_base(costs.len(), cs);
    law_normalized_is_canonical(n_significant, costs, true, cs);
    lemma_initial_table_shaped(p);
    law_normalized_rhs(n_significant, costs, true, cs);
    let n = p.coefficients.len() as int;
    assert forall|i: int, j: int| 0 <= i < m && 0 <= j < n implies #[trigger] t.rows[i][j]
        is Finite by {
        assert(cs[i].rhs is Finite);
        if j < w && j < cs[i].coefficients.len() {
            assert(cs[i].coefficients[j] is Finite);
        }
    }
    assert forall|i: int| 0 <= i < m implies #[trigger] t.rhs[i] is Finite by {
        assert(cs[i].rhs is Finite);
    }
    assert forall|i: int, r: int| 0 <= i < m && 0 <= r < m implies #[trigger] t.rows[r][t.basis[i]]
        == if r == i {
        crate::ratio_ext::ext_one()
    } else {
        ext_zero()
    } by {
        assert(t.basis[i] == n - m + i);
        assert(p.rows[r][n - m + i] == if r == i {
            crate::ratio_ext::ext_one()
        } else {
            ext_zero()
        });
    }
    assert forall|j: int| 0 <= j < n implies (#[trigger] t.costs[j]).big is Finite
        && t.costs[j].small is Finite by {
        if j < w {
            assert(costs[j] is Finite);
        }
    }
}

/// The constraint holds of the first numbers of `x`.
pub open spec fn constraint_meets(c: ConstraintView, x: Seq<real>) -> bool {
    let lhs = dot(c.coefficients, x, c.coefficients.len() as int);
    match c.sign {
        Sign::Less => lhs <= value_of(c.rhs),
        Sign::Equals => lhs == value_of(c.rhs),
        Sign::Greater => lhs >= value_of(c.rhs),
    }
}

/// What the slack variable of row `i` adds to the row: nothing for an
/// equality, its value for a row that is `Less` in canonical form, its value
/// with a minus sign for one that is `Greater`.
pub open spec fn slack_part(cs: Seq<ConstraintView>, w: int, i: int, x: Seq<real>) -> real {
    if cs[i].sign == Sign::Equals {
        0real
    } else if oriented(cs[i]).sign == Sign::Less {
        x[w + slack_count(cs, i)]
    } else {
        -x[w + slack_count(cs, i)]
    }
}

/// The left-hand side of a constraint as the canonical form holds it: with
/// its sign changed where the right-hand side was below zero.
pub open spec fn oriented_lhs(c: ConstraintView, x: Seq<real>) -> real {
    let lhs = dot(c.coefficients, x, c.coefficients.len() as int);
    if ext_lt(c.rhs, ext_zero()) {
        -lhs
    } else {
        lhs
    }
}

/// The right-hand side of a constraint as the canonical form holds it.
pub open spec fn oriented_rhs(c: ConstraintView) -> real {
    if ext_lt(c.rhs, ext_zero()) {
        -value_of(c.rhs)
    } else {
        value_of(c.rhs)
    }
}

/// Row `i` of the canonical form, against numbers that are zero for the
/// artificial variables, is the left-hand side of constraint `i` and its
/// slack variable.
pub proof fn lemma_row_parts(
    n_significant: nat,
    costs: Seq<ExtRat>,
    cs: Seq<ConstraintView>,
    i: int,
    x: Seq<real>,
)
    requires
        finite_program(costs, cs),
        0 <= i < cs.len(),
        max_width(costs.len(), cs) == costs.len(),
        x.len() == normalized(n_significant, costs, true, cs).coefficients.len(),
        forall|j: int|
            costs.len() + slack_count(cs, cs.len() as int) <= j < x.len() ==> #[trigger] x[j]
                == 0real,
    ensures
        dot(normalized(n_significant, costs, true, cs).rows[i], x, x.len() as int) == oriented_lhs(
            cs[i],
            x,
        ) + slack_part(cs, costs.len() as int, i, x),
        value_of(normalized(n_significant, costs, true, cs).rhs[i]) == oriented_rhs(cs[i]),
        cs[i].sign != Sign::Equals ==> costs.len() <= costs.len() + slack_count(cs, i)
            < costs.len() + slack_count(cs, cs.len() as int),
{
    let p = normalized(n_significant, costs, true, cs);
    let w = costs.len() as int;
    let m = cs.len() as int;
    let s = slack_count(cs, m) as int;
    let n = w + s + m;
    let row = p.rows[i];
    let c = cs[i];
    let o = oriented(c);
    let len = c.coefficients.len() as int;
    assert(c.rhs is Finite);
    assert(len <= w);
    lemma_slack_count_grows(cs, 0, m);
    lemma_slack_count_grows(cs, i, i + 1);
    lemma_slack_count_grows(cs, i + 1, m);
    // the artificial variables are zero
    lemma_dot_prefix_zero(row, x, w + s, n);
    // the slack variable of the row
    if c.sign != Sign::Equals {
        let at = w + slack_count(cs, i);
        assert forall|j: int| w <= j < w + s && j != at implies value_of(#[trigger] row[j])
            == 0real by {}
        lemma_dot_single(row, x, w, w + s, at);
        lemma_times_unit(x[at]);
        lemma_times_linear(1real, x[at], 0real);
    } else {
        assert forall|j: int| w <= j < w + s implies value_of(#[trigger] row[j]) == 0real by {}
        lemma_dot_prefix(row, x, w, w + s);
    }
    assert(dot(row, x, w + s) == dot(row, x, w) + slack_part(cs, w, i, x));
    // the padding
    assert forall|j: int| len <= j < w implies value_of(#[trigger] row[j]) == 0real by {}
    lemma_dot_prefix(row, x, len, w);
    // the coefficients as they stand in the row
    assert forall|j: int| 0 <= j < len implies value_of(#[trigger] row[j]) == value_of(
        o.coefficients[j],
    ) by {}
    lemma_dot_same(row, o.coefficients, x, x, len);
    if ext_lt(c.rhs, ext_zero()) {
        assert forall|j: int| 0 <= j < len implies value_of(#[trigger] o.coefficients[j])
            == -value_of(c.coefficients[j]) by {
            assert(c.coefficients[j] is Finite);
            crate::ratio_ext::lemma_mul_minus_one(c.coefficients[j]);
        }
        lemma_dot_negated(c.coefficients, o.coefficients, x, len);
        crate::ratio_ext::lemma_mul_minus_one(c.rhs);
    }
}

/// Numbers that meet row `i` of the canonical form, none of them negative and
/// those of the artificial variables zero, meet constraint `i` as it was
/// given.
pub proof fn lemma_constraint_from_row(
    n_significant: nat,
    costs: Seq<ExtRat>,
    cs: Seq<ConstraintView>,
    i: int,
    x: Seq<real>,
)
    requires
        finite_program(costs, cs),
        0 <= i < cs.len(),
        max_width(costs.len(), cs) == costs.len(),
        x.len() == normalized(n_significant, costs, true, cs).coefficients.len(),
        forall|j: int| 0 <= j < x.len() ==> #[trigger] x[j] >= 0real,
        forall|j: int|
            costs.len() + slack_count(cs, cs.len() as int) <= j < x.len() ==> #[trigger] x[j]
                == 0real,
        dot(normalized(n_significant, costs, true, cs).rows[i], x, x.len() as int) == value_of(
            normalized(n_significant, costs, true, cs).rhs[i],
        ),
    ensures
        constraint_meets(cs[i], x),
{
    lemma_row_parts(n_significant, costs, cs, i, x);
    if cs[i].sign != Sign::Equals {
        assert(x[costs.len() as int + slack_count(cs, i)] >= 0real);
    }
    assert(cs[i].rhs is Finite);
    crate::ratio_ext::lemma_mul_minus_one(cs[i].rhs);
}

/// A point of a program: a number for each column, none negative, those of
/// the artificial columns zero, that meets every row.
pub open spec fn point_of(p: ProblemView, x: Seq<real>) -> bool {
    &&& x.len() == p.coefficients.len()
    &&& forall|j: int| 0 <= j < x.len() ==> #[trigger] x[j] >= 0real
    &&& forall|j: int|
        p.coefficients.len() - p.rows.len() <= j < p.coefficients.len() ==> #[trigger] x[j] == 0real
    &&& forall|i: int|
        0 <= i < p.rows.len() ==> #[trigger] dot(p.rows[i], x, p.coefficients.len() as int)
            == value_of(p.rhs[i])
}

/// A minimized program of rational numbers in canonical form whose
/// significant variables cost what `costs` says, whose slack variables cost
/// nothing, and whose right-hand sides are not below zero.
pub open spec fn standard(p: ProblemView, costs: Seq<ExtRat>) -> bool {
    let n = p.coefficients.len() as int;
    let m = p.rows.len() as int;
    &&& canonical(p)
    &&& p.minimization
    &&& p.n_significant == costs.len()
    &&& forall|j: int| 0 <= j < costs.len() ==> (#[trigger] costs[j]) is Finite
    &&& forall|j: int|
        0 <= j < costs.len() ==> #[trigger] p.coefficients[j] == crate::big_number::bigm_from(
            costs[j],
        )
    &&& forall|j: int|
        costs.len() <= j < n - m ==> #[trigger] p.coefficients[j] == crate::big_number::bigm_zero()
    &&& forall|i: int, j: int| 0 <= i < m && 0 <= j < n ==> #[trigger] p.rows[i][j] is Finite
    &&& forall|i: int|
        0 <= i < m ==> (#[trigger] p.rhs[i]) is Finite && value_of(p.rhs[i]) >= 0real
}

/// The table that a standard program starts from is in basic form, with
/// rational costs.
pub proof fn lemma_standard_table(p: ProblemView, costs: Seq<ExtRat>)
    requires
        standard(p, costs),
    ensures
        basic_form(initial_table(p)),
        finite_costs(initial_table(p)),
{
    let t = initial_table(p);
    let m = p.rows.len() as int;
    let n = p.coefficients.len() as int;
    lemma_initial_table_shaped(p);
    assert forall|i: int, r: int| 0 <= i < m && 0 <= r < m implies #[trigger] t.rows[r][t.basis[i]]
        == if r == i {
        crate::ratio_ext::ext_one()
    } else {
        ext_zero()
    } by {
        assert(t.basis[i] == n - m + i);
        assert(p.rows[r][n - m + i] == if r == i {
            crate::ratio_ext::ext_one()
        } else {
            ext_zero()
        });
    }
    assert forall|i: int| 0 <= i < m implies crate::ratio_ext::ext_ge(
        #[trigger] t.rhs[i],
        ext_zero(),
    ) by {
        assert(p.rhs[i] is Finite && value_of(p.rhs[i]) >= 0real);
    }
    assert forall|i: int| 0 <= i < m implies #[trigger] t.rhs[i] is Finite by {
        assert(p.rhs[i] is Finite && value_of(p.rhs[i]) >= 0real);
    }
    assert forall|j: int| 0 <= j < n implies (#[trigger] t.costs[j]).big is Finite
        && t.costs[j].small is Finite by {
        if j < costs.len() {
            assert(costs[j] is Finite);
            assert(p.coefficients[j] == crate::big_number::bigm_from(costs[j]));
        } else if j < n - m {
            assert(p.coefficients[j] == crate::big_number::bigm_zero());
        } else {
            assert(p.coefficients[n - m + (j - (n - m))] == crate::problem::penalty(true));
        }
    }
}

/// The basic solution of the table at which the simplex method stops on a
/// program.
pub open spec fn relaxation_point(p: ProblemView) -> Seq<real> {
    basic_solution(final_table(initial_table(p), None, STEP_LIMIT as nat))
}

/// The solution of the simplex method on a standard program shows a point of
/// the program: the values of the significant variables are its first
/// numbers, and the value of the objective is what they cost.
pub proof fn law_relaxation_point(p: ProblemView, costs: Seq<ExtRat>, s: SolutionView)
    requires
        standard(p, costs),
        lp_result(p) == Ok::<SolutionView, SolutionError>(s),
    ensures
        point_of(p, relaxation_point(p)),
        s.vars == Seq::new(costs.len(), |j: int| ExtRat::Finite(relaxation_point(p)[j])),
        s.fn_val == ExtRat::Finite(dot(costs, relaxation_point(p), costs.len() as int)),
{
    let w = costs.len() as int;
    let m = p.rows.len() as int;
    let t = initial_table(p);
    let n = p.coefficients.len() as int;
    lemma_standard_table(p, costs);
    lemma_solution_ends_at_optimum(t, None, STEP_LIMIT as nat);
    lemma_run_final(t, None, STEP_LIMIT as nat);
    let f = final_table(t, None, STEP_LIMIT as nat);
    let x = basic_solution(f);
    lemma_basic_solution(f);
    assert(solves(t, x));
    lemma_function_estimation(f);
    assert(optimum(f) == Ok::<SolutionView, SolutionError>(s));
    // the values of the variables
    assert forall|j: int| 0 <= j < s.vars.len() implies #[trigger] s.vars[j] == ExtRat::Finite(
        x[j],
    ) by {
        lemma_basic_value(f, j);
    }
    assert(s.vars =~= Seq::new(costs.len(), |j: int| ExtRat::Finite(x[j])));
    // the artificial variables are zero, since the objective has no M part
    let bigs = big_parts(f);
    assert forall|j: int| 0 <= j < n implies value_of(#[trigger] bigs[j]) >= 0real by {
        if j < w {
            assert(p.coefficients[j] == crate::big_number::bigm_from(costs[j]));
        } else if j < n - m {
            assert(p.coefficients[j] == crate::big_number::bigm_zero());
        } else {
            assert(p.coefficients[n - m + (j - (n - m))] == crate::problem::penalty(true));
        }
    }
    lemma_dot_nonnegative(bigs, x, n);
    assert forall|j: int| n - m <= j < n implies #[trigger] x[j] == 0real by {
        assert(p.coefficients[n - m + (j - (n - m))] == crate::problem::penalty(true));
        assert(value_of(bigs[j]) == 1real);
        assert(times(value_of(bigs[j]), x[j]) == 0real);
        lemma_times_unit(x[j]);
    }
    assert forall|i: int| 0 <= i < m implies #[trigger] dot(p.rows[i], x, n) == value_of(
        p.rhs[i],
    ) by {
        assert(dot(t.rows[i], x, n) == value_of(t.rhs[i]));
    }
    // the objective
    let smalls = small_parts(f);
    assert forall|j: int| w <= j < n implies value_of(#[trigger] smalls[j]) == 0real by {
        if j < n - m {
            assert(p.coefficients[j] == crate::big_number::bigm_zero());
        } else {
            assert(p.coefficients[n - m + (j - (n - m))] == crate::problem::penalty(true));
        }
    }
    lemma_dot_prefix(smalls, x, w, n);
    assert forall|j: int| 0 <= j < w implies value_of(#[trigger] smalls[j]) == value_of(
        costs[j],
    ) by {
        assert(p.coefficients[j] == crate::big_number::bigm_from(costs[j]));
    }
    lemma_dot_same(smalls, costs, x, x, w);
}

/// The canonical form of a rational program whose objective has no zero
/// coefficient and is as wide as its widest constraint is standard, and all
/// its objective coefficients count as significant.
pub proof fn lemma_normalized_standard(costs: Seq<ExtRat>, cs: Seq<ConstraintView>)
    requires
        finite_program(costs, cs),
    ensures
        standard(normalized(costs.len(), costs, true, cs), costs),
        max_width(costs.len(), cs) == costs.len(),
        count_nonzero(costs) == costs.len(),
{
    assert forall|j: int| 0 <= j < costs.len() implies !crate::ratio_ext::ext_eq(
        #[trigger] costs[j],
        ext_zero(),
    ) by {
        assert(costs[j] is Finite && costs[j] != ext_zero());
    }
    crate::problem::lemma_count_nonzero_full(costs);
    let p = normalized(costs.len(), costs, true, cs);
    let m = cs.len() as int;
    let n = p.coefficients.len() as int;
    lemma_initial_basic_form(costs.len(), costs, cs);
    law_normalized_is_canonical(costs.len(), costs, true, cs);
    lemma_slack_count_grows(cs, 0, m);
    assert forall|i: int, j: int| 0 <= i < m && 0 <= j < n implies #[trigger] p.rows[i][j]
        is Finite by {
        assert(initial_table(p).rows[i][j] is Finite);
    }
    assert forall|i: int| 0 <= i < m implies (#[trigger] p.rhs[i]) is Finite && value_of(p.rhs[i])
        >= 0real by {
        assert(initial_table(p).rhs[i] is Finite);
        assert(crate::ratio_ext::ext_ge(initial_table(p).rhs[i], ext_zero()));
    }
}

/// On termination of the simplex method with a solution, for a minimized
/// program of rational numbers whose objective has no zero coefficient and
/// is as wide as its widest constraint: every variable has a rational value
/// that is not negative, the values meet every constraint as it was given,
/// and the value of the objective is the sum of the coefficients times the
/// values.
pub proof fn law_solution_is_feasible(costs: Seq<ExtRat>, cs: Seq<ConstraintView>, s: SolutionView)
    requires
        finite_program(costs, cs),
        lp_result(normalized(count_nonzero(costs), costs, true, cs)) == Ok::<
            SolutionView,
            SolutionError,
        >(s),
    ensures
        s.vars.len() == costs.len(),
        forall|j: int|
            0 <= j < s.vars.len() ==> (#[trigger] s.vars[j]) is Finite && value_of(s.vars[j])
                >= 0real,
        forall|i: int| 0 <= i < cs.len() ==> constraint_holds(#[trigger] cs[i], s.vars),
        s.fn_val == ExtRat::Finite(dot(costs, reals(s.vars), costs.len() as int)),
{
    let p = normalized(costs.len(), costs, true, cs);
    let x = relaxation_point(p);
    lemma_normalized_standard(costs, cs);
    law_relaxation_point(p, costs, s);
    lemma_point_meets_constraints(costs, cs, x);
    assert forall|j: int| 0 <= j < s.vars.len() implies (#[trigger] s.vars[j]) is Finite
        && value_of(s.vars[j]) >= 0real by {
        assert(x[j] >= 0real);
    }
    assert forall|i: int| 0 <= i < cs.len() implies constraint_holds(#[trigger] cs[i], s.vars) by {
        assert(constraint_meets(cs[i], x));
        assert(cs[i].coefficients.len() <= costs.len());
        lemma_dot_same(
            cs[i].coefficients,
            cs[i].coefficients,
            x,
            reals(s.vars),
            cs[i].coefficients.len() as int,
        );
    }
    lemma_dot_same(costs, costs, x, reals(s.vars), costs.len() as int);
}

/// A point of the canonical form of a rational program meets every constraint
/// of the program as it was given.
pub proof fn lemma_point_meets_constraints(costs: Seq<ExtRat>, cs: Seq<ConstraintView>, x: Seq<real>)
    requires
        finite_program(costs, cs),
        point_of(normalized(costs.len(), costs, true, cs), x),
    ensures
        forall|i: int| 0 <= i < cs.len() ==> constraint_meets(#[trigger] cs[i], x),
{
    let p = normalized(costs.len(), costs, true, cs);
    lemma_normalized_standard(costs, cs);
    assert forall|i: int| 0 <= i < cs.len() implies constraint_meets(#[trigger] cs[i], x) by {
        assert(dot(p.rows[i], x, p.coefficients.len() as int) == value_of(p.rhs[i]));
        lemma_constraint_from_row(costs.len(), costs, cs, i, x);
    }
}

} // verus!
