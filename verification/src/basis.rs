//! The basic form of a simplex table, and what a pivot keeps of it.

use vstd::prelude::*;
use crate::big_number::{bigm_gt, bigm_zero, BigM};
use crate::ratio_ext::{ext_ge, ext_gt, ext_lt, ext_mul, ext_one, ext_zero, ExtRat};
use crate::solver::lemma_pivot_shaped;
use crate::table::{
    basis_costs, bigm_dot, column, column_estimation, entering_column, leaving_row, pivoted, ratio,
    step_min, table_shaped, TableView,
};

verus! {

/// The number that a finite value holds.
pub open spec fn value_of(x: ExtRat) -> real {
    match x {
        ExtRat::Finite(v) => v,
        _ => 0real,
    }
}

/// Every entry and every right-hand side is a rational number.
pub open spec fn finite_entries(t: TableView) -> bool {
    &&& forall|i: int, j: int|
        0 <= i < t.rows.len() && 0 <= j < t.costs.len() ==> #[trigger] t.rows[i][j] is Finite
    &&& forall|i: int| 0 <= i < t.rhs.len() ==> #[trigger] t.rhs[i] is Finite
}

/// No two rows have the same basis column.
pub open spec fn injective_basis(t: TableView) -> bool {
    forall|a: int, b: int|
        0 <= a < t.basis.len() && 0 <= b < t.basis.len() && a != b ==> #[trigger] t.basis[a]
            != #[trigger] t.basis[b]
}

/// The basis column of each row holds a one in that row and zeros in the
/// others.
pub open spec fn unit_basis_columns(t: TableView) -> bool {
    forall|i: int, r: int|
        0 <= i < t.rows.len() && 0 <= r < t.rows.len() ==> #[trigger] t.rows[r][t.basis[i]] == if r
            == i {
            ext_one()
        } else {
            ext_zero()
        }
}

/// No right-hand side is below zero.
pub open spec fn nonnegative_rhs(t: TableView) -> bool {
    forall|i: int| 0 <= i < t.rhs.len() ==> ext_ge(#[trigger] t.rhs[i], ext_zero())
}

/// The basic form of a table of a feasible program: rational entries, a unit
/// column for the basis variable of each row, and no negative right-hand side.
pub open spec fn basic_form(t: TableView) -> bool {
    &&& table_shaped(t)
    &&& finite_entries(t)
    &&& unit_basis_columns(t)
    &&& nonnegative_rhs(t)
}

/// A table in basic form has no basis column twice.
pub proof fn lemma_basic_form_injective(t: TableView)
    requires
        basic_form(t),
    ensures
        injective_basis(t),
{
    assert forall|a: int, b: int|
        0 <= a < t.basis.len() && 0 <= b < t.basis.len() && a != b implies #[trigger] t.basis[a]
        != #[trigger] t.basis[b] by {
        assert(t.rows[a][t.basis[a]] == ext_one());
        assert(t.rows[a][t.basis[b]] == ext_zero());
    }
}

/// `x` is `NaN` or equal to `v`.
pub open spec fn nan_or(x: ExtRat, v: ExtRat) -> bool {
    x is Nan || x == v
}

/// The basis costs times a unit column give, in each part, the cost of the
/// row of the one, unless they give `NaN`.
proof fn lemma_dot_unit_column(costs: Seq<BigM>, unit: Seq<ExtRat>, at: int, upto: int)
    requires
        0 <= upto <= costs.len(),
        costs.len() == unit.len(),
        0 <= at < unit.len(),
        forall|r: int|
            0 <= r < unit.len() ==> #[trigger] unit[r] == if r == at {
                ext_one()
            } else {
                ext_zero()
            },
    ensures
        nan_or(
            bigm_dot(costs, unit, upto).big,
            if at < upto {
                costs[at].big
            } else {
                ext_zero()
            },
        ),
        nan_or(
            bigm_dot(costs, unit, upto).small,
            if at < upto {
                costs[at].small
            } else {
                ext_zero()
            },
        ),
    decreases upto,
{
    if upto > 0 {
        lemma_dot_unit_column(costs, unit, at, upto - 1);
        let c = costs[upto - 1];
        assert(unit[upto - 1] == if upto - 1 == at {
            ext_one()
        } else {
            ext_zero()
        });
        crate::ratio_ext::law_mul_one(c.big);
        crate::ratio_ext::law_mul_one(c.small);
        lemma_mul_zero(c.big);
        lemma_mul_zero(c.small);
    }
}

/// A value times zero is zero, unless the value is `NaN`.
pub proof fn lemma_mul_zero(x: ExtRat)
    ensures
        nan_or(ext_mul(x, ext_zero()), ext_zero()),
        !(x is Nan) ==> ext_mul(x, ext_zero()) == ext_zero(),
{
    if let ExtRat::Finite(v) = x {
        assert(v * 0real == 0real);
    }
}

/// The estimate of a basis column is not above zero.
pub proof fn lemma_basis_estimate(t: TableView, i: int)
    requires
        table_shaped(t),
        unit_basis_columns(t),
        0 <= i < t.rows.len(),
    ensures
        !bigm_gt(column_estimation(t, t.basis[i]), bigm_zero()),
{
    let k = t.basis[i];
    let unit = column(t.rows, k);
    assert forall|r: int| 0 <= r < unit.len() implies #[trigger] unit[r] == if r == i {
        ext_one()
    } else {
        ext_zero()
    } by {
        assert(t.rows[r][t.basis[i]] == if r == i {
            ext_one()
        } else {
            ext_zero()
        });
    }
    lemma_dot_unit_column(basis_costs(t), unit, i, t.rows.len() as int);
}

/// The entering column exists and has an estimate above zero. Where there is
/// no entering column, no column has an estimate above zero.
pub proof fn lemma_entering_column(t: TableView, upto: int)
    ensures
        entering_column(t, upto) matches Some(c) ==> 0 <= c < upto && bigm_gt(
            column_estimation(t, c),
            bigm_zero(),
        ),
        entering_column(t, upto) is None ==> forall|j: int|
            0 <= j < upto ==> !bigm_gt(#[trigger] column_estimation(t, j), bigm_zero()),
    decreases upto,
{
    if upto > 0 {
        lemma_entering_column(t, upto - 1);
    }
}

/// `<` on extended rationals is transitive and holds of no value and itself.
pub proof fn lemma_lt_order(a: ExtRat, b: ExtRat, c: ExtRat)
    ensures
        ext_lt(a, b) && ext_lt(b, c) ==> ext_lt(a, c),
        !ext_lt(a, a),
{
}

/// The leaving row has an entry above zero in the entering column, and no
/// other such row has a smaller ratio. Where there is no leaving row, no row
/// has an entry above zero in the entering column.
pub proof fn lemma_leaving_row(t: TableView, col: int, upto: int)
    ensures
        leaving_row(t, col, upto) matches Some(r) ==> 0 <= r < upto && ext_gt(
            t.rows[r][col],
            ext_zero(),
        ) && forall|i: int|
            0 <= i < upto && ext_gt(#[trigger] t.rows[i][col], ext_zero()) ==> !ext_lt(
                ratio(t, col, i),
                ratio(t, col, r),
            ),
        leaving_row(t, col, upto) is None ==> forall|i: int|
            0 <= i < upto ==> !ext_gt(#[trigger] t.rows[i][col], ext_zero()),
    decreases upto,
{
    if upto > 0 {
        lemma_leaving_row(t, col, upto - 1);
        let u = upto - 1;
        let before = leaving_row(t, col, u);
        if ext_gt(t.rows[u][col], ext_zero()) {
            let r = leaving_row(t, col, upto)->Some_0;
            assert forall|i: int|
                0 <= i < upto && ext_gt(#[trigger] t.rows[i][col], ext_zero()) implies !ext_lt(
                ratio(t, col, i),
                ratio(t, col, r),
            ) by {
                lemma_lt_order(ratio(t, col, u), ratio(t, col, u), ratio(t, col, u));
                if let Some(b) = before {
                    lemma_lt_order(ratio(t, col, i), ratio(t, col, u), ratio(t, col, b));
                }
            }
        }
    }
}

/// A pivot on an entry above zero in the row with the smallest ratio keeps
/// the right-hand side of row `i` from falling below zero.
proof fn lemma_pivot_rhs(b_i: real, a_ic: real, b_r: real, p: real)
    requires
        b_i >= 0real,
        b_r >= 0real,
        p > 0real,
        a_ic > 0real ==> b_r / p <= b_i / a_ic,
    ensures
        b_i - (b_r / p) * a_ic >= 0real,
        b_r / p >= 0real,
{
    assert(b_r / p >= 0real) by (nonlinear_arith)
        requires
            b_r >= 0real,
            p > 0real,
    ;
    let q = b_r / p;
    if a_ic > 0real {
        assert(q * a_ic <= b_i) by (nonlinear_arith)
            requires
                a_ic > 0real,
                q <= b_i / a_ic,
        ;
    } else {
        assert(q * a_ic <= 0real) by (nonlinear_arith)
            requires
                a_ic <= 0real,
                q >= 0real,
        ;
    }
}

/// Dividing a number by itself and clearing it from another row.
proof fn lemma_pivot_column(a: real, p: real)
    requires
        p != 0real,
    ensures
        p / p == 1real,
        a - (p / p) * a == 0real,
        0real / p == 0real,
        a - (0real / p) * a == a,
{
    assert(p / p == 1real) by (nonlinear_arith)
        requires
            p != 0real,
    ;
    assert(0real / p == 0real) by (nonlinear_arith)
        requires
            p != 0real,
    ;
    assert(a - 1real * a == 0real);
    assert(a - 0real * a == a);
}

/// A pivot on a rational entry above zero keeps the basic form, provided that
/// the column is not in the basis and that no row with an entry above zero in
/// it has a smaller ratio than the pivot row.
pub proof fn lemma_pivot_basic_form(t: TableView, row: int, col: int)
    requires
        basic_form(t),
        0 <= row < t.rows.len(),
        0 <= col < t.costs.len(),
        ext_gt(t.rows[row][col], ext_zero()),
        forall|i: int| 0 <= i < t.basis.len() ==> #[trigger] t.basis[i] != col,
        forall|i: int|
            0 <= i < t.rows.len() && ext_gt(#[trigger] t.rows[i][col], ext_zero()) ==> !ext_lt(
                ratio(t, col, i),
                ratio(t, col, row),
            ),
    ensures
        basic_form(pivoted(t, row, col)),
{
    let q = pivoted(t, row, col);
    let m = t.rows.len() as int;
    let n = t.costs.len() as int;
    lemma_pivot_shaped(t, row, col);
    assert(t.rows[row][col] is Finite);
    let p = value_of(t.rows[row][col]);
    assert(p > 0real);
    assert(t.rhs[row] is Finite);
    let b_r = value_of(t.rhs[row]);
    assert(ext_ge(t.rhs[row], ext_zero()));
    assert forall|i: int, j: int| 0 <= i < m && 0 <= j < n implies #[trigger] q.rows[i][j]
        is Finite by {
        assert(t.rows[row].len() == n);
        assert(t.rows[i].len() == n);
        assert(t.rows[row][j] is Finite);
        assert(t.rows[i][j] is Finite);
        assert(t.rows[i][col] is Finite);
    }
    assert forall|i: int| 0 <= i < m implies #[trigger] q.rhs[i] is Finite && ext_ge(
        q.rhs[i],
        ext_zero(),
    ) by {
        assert(t.rhs[i] is Finite);
        assert(t.rows[i].len() == n);
        assert(t.rows[i][col] is Finite);
        assert(ext_ge(t.rhs[i], ext_zero()));
        let b_i = value_of(t.rhs[i]);
        let a_ic = value_of(t.rows[i][col]);
        if a_ic > 0real {
            assert(ext_gt(t.rows[i][col], ext_zero()));
            assert(!ext_lt(ratio(t, col, i), ratio(t, col, row)));
        }
        lemma_pivot_rhs(b_i, a_ic, b_r, p);
    }
    assert forall|i: int, r: int| 0 <= i < m && 0 <= r < m implies #[trigger] q.rows[r][q.basis[i]]
        == if r == i {
        ext_one()
    } else {
        ext_zero()
    } by {
        assert(t.rows[row].len() == n);
        assert(t.rows[r].len() == n);
        assert(t.rows[r][col] is Finite);
        let a_rc = value_of(t.rows[r][col]);
        lemma_pivot_column(a_rc, p);
        if i == row {
            assert(q.basis[i] == col);
        } else {
            let k = t.basis[i];
            assert(q.basis[i] == k);
            assert(k != col);
            assert(0 <= k < n);
            assert(t.rows[row][k] == ext_zero());
            assert(t.rows[r][k] == if r == i {
                ext_one()
            } else {
                ext_zero()
            });
        }
    }
}

/// After any pivot step on a table in basic form the table is in basic form
/// again: the basis columns are unit columns, so that no column is the basis
/// of two rows, and no right-hand side is below zero.
pub proof fn law_step_keeps_basic_form(t: TableView, previous: Option<int>)
    requires
        basic_form(t),
        step_min(t, previous).result is None,
    ensures
        basic_form(step_min(t, previous).table),
        injective_basis(step_min(t, previous).table),
{
    let m = t.rows.len() as int;
    let n = t.costs.len() as int;
    lemma_entering_column(t, n);
    let col = entering_column(t, n)->Some_0;
    lemma_leaving_row(t, col, m);
    let row = leaving_row(t, col, m)->Some_0;
    assert forall|i: int| 0 <= i < t.basis.len() implies #[trigger] t.basis[i] != col by {
        lemma_basis_estimate(t, i);
    }
    lemma_pivot_basic_form(t, row, col);
    lemma_basic_form_injective(pivoted(t, row, col));
}

} // verus!
