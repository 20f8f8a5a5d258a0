//! The simplex tableau and its pivoting rules.

use vstd::prelude::*;
use crate::big_number::{
    bigm_add, bigm_eq, bigm_from, bigm_gt, bigm_mul, bigm_one_big, bigm_sub, bigm_total_gt,
    bigm_values, bigm_zero, BigM, BigNumber,
};
use crate::matrix::RatioMatrix;
use crate::problem::{canonical, penalty, Problem, ProblemView};
use crate::ratio_ext::{
    ext_div, ext_gt, ext_lt, ext_mul, ext_sub, ext_zero, values, ExtRat, RatioExt,
};
use crate::solution::{Solution, SolutionError, SolutionResult, SolutionView};

verus! {

/// The mathematical value of a [`SimplexTable`].
pub struct TableView {
    pub n_significant: nat,
    /// For each row, the column of its basis variable.
    pub basis: Seq<int>,
    pub rows: Seq<Seq<ExtRat>>,
    pub rhs: Seq<ExtRat>,
    /// The objective coefficient of each column.
    pub costs: Seq<BigM>,
    pub minimization: bool,
}

/// The table has a basis column and a right-hand side for each row, an
/// objective coefficient for each column, and every basis column exists.
pub open spec fn table_shaped(t: TableView) -> bool {
    &&& t.rows.len() == t.rhs.len()
    &&& t.rows.len() == t.basis.len()
    &&& t.n_significant <= t.costs.len()
    &&& forall|i: int| 0 <= i < t.rows.len() ==> (#[trigger] t.rows[i]).len() == t.costs.len()
    &&& forall|i: int| 0 <= i < t.basis.len() ==> 0 <= #[trigger] t.basis[i] < t.costs.len()
}

/// The columns whose objective coefficient equals `M` among the first `upto`,
/// in rising order.
pub open spec fn m_columns(costs: Seq<BigM>, upto: int) -> Seq<int>
    decreases upto,
{
    if upto <= 0 {
        Seq::empty()
    } else if bigm_eq(costs[upto - 1], bigm_one_big()) {
        m_columns(costs, upto - 1).push(upto - 1)
    } else {
        m_columns(costs, upto - 1)
    }
}

/// The table that a program starts from: its matrix, right-hand sides and
/// objective, with the columns priced at `M` as the basis.
pub open spec fn initial_table(p: ProblemView) -> TableView {
    TableView {
        n_significant: p.n_significant,
        basis: m_columns(p.coefficients, p.coefficients.len() as int),
        rows: p.rows,
        rhs: p.rhs,
        costs: p.coefficients,
        minimization: p.minimization,
    }
}

/// The objective coefficients of the basis variables, row by row.
pub open spec fn basis_costs(t: TableView) -> Seq<BigM> {
    Seq::new(t.basis.len(), |i: int| t.costs[t.basis[i]])
}

/// The column `j` of a matrix.
pub open spec fn column(rows: Seq<Seq<ExtRat>>, j: int) -> Seq<ExtRat> {
    Seq::new(rows.len(), |i: int| rows[i][j])
}

/// The sum of the products of the first `upto` pairs of `a` and `b`, added up
/// from zero in rising order.
pub open spec fn bigm_dot(a: Seq<BigM>, b: Seq<ExtRat>, upto: int) -> BigM
    decreases upto,
{
    if upto <= 0 {
        bigm_zero()
    } else {
        bigm_add(bigm_dot(a, b, upto - 1), bigm_mul(a[upto - 1], bigm_from(b[upto - 1])))
    }
}

/// The value of the objective at the basic solution: the basis costs times
/// the right-hand sides.
pub open spec fn function_estimation(t: TableView) -> BigM {
    bigm_dot(basis_costs(t), t.rhs, t.rhs.len() as int)
}

/// The estimate of column `j`: the basis costs times the column, less the
/// objective coefficient of the column.
pub open spec fn column_estimation(t: TableView, j: int) -> BigM {
    bigm_sub(bigm_dot(basis_costs(t), column(t.rows, j), t.rows.len() as int), t.costs[j])
}

/// The entering column among the first `upto`: the one with the largest
/// estimate above zero, and of several such the first.
pub open spec fn entering_column(t: TableView, upto: int) -> Option<int>
    decreases upto,
{
    if upto <= 0 {
        None
    } else {
        let before = entering_column(t, upto - 1);
        let z = column_estimation(t, upto - 1);
        if bigm_gt(z, bigm_zero()) {
            match before {
                None => Some(upto - 1),
                Some(b) => if bigm_total_gt(z, column_estimation(t, b)) {
                    Some(upto - 1)
                } else {
                    Some(b)
                },
            }
        } else {
            before
        }
    }
}

/// The ratio of row `i` for the entering column `col`: its right-hand side
/// over its entry in that column.
pub open spec fn ratio(t: TableView, col: int, i: int) -> ExtRat {
    ext_div(t.rhs[i], t.rows[i][col])
}

/// The leaving row among the first `upto`: of the rows with an entry above
/// zero in the entering column, the one with the smallest ratio, and of
/// several such the first.
pub open spec fn leaving_row(t: TableView, col: int, upto: int) -> Option<int>
    decreases upto,
{
    if upto <= 0 {
        None
    } else {
        let before = leaving_row(t, col, upto - 1);
        if ext_gt(t.rows[upto - 1][col], ext_zero()) {
            match before {
                None => Some(upto - 1),
                Some(b) => if ext_lt(ratio(t, col, upto - 1), ratio(t, col, b)) {
                    Some(upto - 1)
                } else {
                    Some(b)
                },
            }
        } else {
            before
        }
    }
}

/// The pivot row after the step: each entry divided by the pivot element.
pub open spec fn pivot_row(t: TableView, row: int, col: int) -> Seq<ExtRat> {
    Seq::new(t.rows[row].len(), |j: int| ext_div(t.rows[row][j], t.rows[row][col]))
}

/// Row `i` after the step: the pivot row itself, or the row less the pivot row
/// times the row's entry in the pivot column.
pub open spec fn pivoted_row(t: TableView, row: int, col: int, i: int) -> Seq<ExtRat> {
    if i == row {
        pivot_row(t, row, col)
    } else {
        Seq::new(
            t.rows[i].len(),
            |j: int| ext_sub(t.rows[i][j], ext_mul(pivot_row(t, row, col)[j], t.rows[i][col])),
        )
    }
}

/// The right-hand side of row `i` after the step.
pub open spec fn pivoted_rhs(t: TableView, row: int, col: int, i: int) -> ExtRat {
    let at_pivot = ext_div(t.rhs[row], t.rows[row][col]);
    if i == row {
        at_pivot
    } else {
        ext_sub(t.rhs[i], ext_mul(at_pivot, t.rows[i][col]))
    }
}

/// The table after a pivot on `(row, col)`: the pivot row divided by the pivot
/// element, the pivot column cleared from the other rows, and `col` in the
/// basis for `row`.
pub open spec fn pivoted(t: TableView, row: int, col: int) -> TableView {
    TableView {
        n_significant: t.n_significant,
        basis: t.basis.update(row, col),
        rows: Seq::new(t.rows.len(), |i: int| pivoted_row(t, row, col, i)),
        rhs: Seq::new(t.rhs.len(), |i: int| pivoted_rhs(t, row, col, i)),
        costs: t.costs,
        minimization: t.minimization,
    }
}

/// The first row at or behind `from` whose basis variable is `var`.
pub open spec fn basis_row(basis: Seq<int>, var: int, from: int) -> Option<int>
    decreases basis.len() - from,
{
    if from < 0 || from >= basis.len() {
        None
    } else if basis[from] == var {
        Some(from)
    } else {
        basis_row(basis, var, from + 1)
    }
}

/// The value of variable `var` in the basic solution: the right-hand side of
/// its row if it is in the basis, zero otherwise.
pub open spec fn basic_value(t: TableView, var: int) -> ExtRat {
    match basis_row(t.basis, var, 0) {
        Some(k) => t.rhs[k],
        None => ext_zero(),
    }
}

/// What an optimal table gives: the values of the significant variables and
/// the value of the objective, or `Infinite` where that value keeps an `M`
/// part.
pub open spec fn optimum(t: TableView) -> Result<SolutionView, SolutionError> {
    if function_estimation(t).big == ext_zero() {
        Ok(
            SolutionView {
                fn_val: function_estimation(t).small,
                vars: Seq::new(t.n_significant, |i: int| basic_value(t, i)),
            },
        )
    } else {
        Err(SolutionError::Infinite)
    }
}

/// What one step of the method does to a table, and what it reports.
pub struct StepView {
    /// The table after the step.
    pub table: TableView,
    /// The result, where the step ended the run.
    pub result: Option<Result<SolutionView, SolutionError>>,
    /// The entering column, where there was one.
    pub pivot_column: Option<int>,
}

/// One step of the method for a minimized program.
///
/// Without an entering column the table is optimal. An entering column that
/// was the entering column of the step before means a stall: `Absent`. An
/// entering column without a leaving row means that the objective is
/// unbounded: `Infinite`. Otherwise the table is pivoted.
pub open spec fn step_min(t: TableView, previous: Option<int>) -> StepView {
    match entering_column(t, t.costs.len() as int) {
        None => StepView { table: t, result: Some(optimum(t)), pivot_column: None },
        Some(col) => if previous == Some(col) {
            StepView {
                table: t,
                result: Some(Err(SolutionError::Absent)),
                pivot_column: Some(col),
            }
        } else {
            match leaving_row(t, col, t.rows.len() as int) {
                None => StepView {
                    table: t,
                    result: Some(Err(SolutionError::Infinite)),
                    pivot_column: Some(col),
                },
                Some(row) => StepView {
                    table: pivoted(t, row, col),
                    result: None,
                    pivot_column: Some(col),
                },
            }
        },
    }
}

/// The working state of the simplex method.
#[derive(Debug)]
pub struct SimplexTable {
    n_significant_variables: usize,
    /// Indices of basis vectors
    basis: Vec<usize>,
    /// The coefficients of the constraints, a row for each
    tableau: RatioMatrix,
    rhs: Vec<RatioExt>,
    coefficients: Vec<BigNumber<RatioExt>>,
    minimization: bool,
}

impl View for SimplexTable {
    type V = TableView;

    closed spec fn view(&self) -> TableView {
        TableView {
            n_significant: self.n_significant_variables as nat,
            basis: Seq::new(self.basis@.len(), |i: int| self.basis@[i] as int),
            rows: self.tableau@,
            rhs: values(self.rhs@),
            costs: bigm_values(self.coefficients@),
            minimization: self.minimization,
        }
    }
}

/// In canonical form the columns priced at `M` among the first `upto` are the
/// artificial ones, as long as the program is minimized.
pub proof fn lemma_m_columns_canonical(p: ProblemView, upto: int)
    requires
        canonical(p),
        p.minimization,
        0 <= upto <= p.coefficients.len(),
    ensures
        m_columns(p.coefficients, upto) == if upto <= p.coefficients.len() - p.rows.len() {
            Seq::<int>::empty()
        } else {
            Seq::new(
                (upto - (p.coefficients.len() - p.rows.len())) as nat,
                |i: int| p.coefficients.len() - p.rows.len() + i,
            )
        },
    decreases upto,
{
    let n = p.coefficients.len() as int;
    let m = p.rows.len() as int;
    if upto > 0 {
        lemma_m_columns_canonical(p, upto - 1);
        if upto - 1 < n - m {
            assert(p.coefficients[upto - 1].big == ext_zero());
        } else {
            assert(p.coefficients[n - m + (upto - 1 - (n - m))] == penalty(p.minimization));
            assert(m_columns(p.coefficients, upto) =~= Seq::new(
                (upto - (n - m)) as nat,
                |i: int| n - m + i,
            ));
        }
    }
}

/// The table of a minimized program in canonical form has the shape of a
/// table, with the artificial variables as its basis.
pub proof fn lemma_initial_table_shaped(p: ProblemView)
    requires
        canonical(p),
        p.minimization,
    ensures
        table_shaped(initial_table(p)),
        initial_table(p).basis == Seq::new(
            p.rows.len(),
            |i: int| p.coefficients.len() - p.rows.len() + i,
        ),
{
    lemma_m_columns_canonical(p, p.coefficients.len() as int);
}

impl SimplexTable {
    /// The table has a shape that the steps can work on.
    pub closed spec fn wf(&self) -> bool {
        &&& self.tableau.wf()
        &&& self.tableau.spec_ncols() == self.coefficients@.len()
        &&& table_shaped(self@)
    }

    /// The table that the program starts from. Its basis is made of the
    /// columns whose objective coefficient equals `M`.
    pub fn new(problem: Problem) -> (t: Self)
        requires
            problem.wf(),
        ensures
            t@ == initial_table(problem@),
            problem@.minimization ==> t.wf(),
    {
        proof {
            problem.lemma_wf_canonical();
            problem.lemma_wf_matrix();
        }
        let Problem { objective_function, constraints, rhs } = problem;
        let n_significant_variables = objective_function.n_significant_variables();
        let minimization = objective_function.minimization;
        let coefficients = objective_function.coefficients;
        let ghost costs = bigm_values(coefficients@);
        let one_big = BigNumber::one_big();
        let mut basis: Vec<usize> = Vec::new();
        let mut j: usize = 0;
        while j < coefficients.len()
            invariant
                j <= coefficients.len(),
                one_big@ == bigm_one_big(),
                costs == bigm_values(coefficients@),
                basis.len() <= j,
                Seq::new(basis@.len(), |i: int| basis@[i] as int) == m_columns(costs, j as int),
            decreases coefficients.len() - j,
        {
            let ghost before = Seq::new(basis@.len(), |i: int| basis@[i] as int);
            if coefficients[j] == one_big {
                basis.push(j);
                assert(Seq::new(basis@.len(), |i: int| basis@[i] as int) =~= before.push(j as int));
            }
            j += 1;
        }
        let t = SimplexTable {
            n_significant_variables,
            basis,
            tableau: constraints,
            coefficients,
            rhs,
            minimization,
        };
        proof {
            if problem@.minimization {
                lemma_initial_table_shaped(problem@);
            }
        }
        t
    }

    /// The basis: for each row, the column of its basis variable.
    pub fn basis(&self) -> (r: &Vec<usize>)
        ensures
            r@.len() == self@.basis.len(),
            forall|i: int| 0 <= i < r@.len() ==> #[trigger] r@[i] == self@.basis[i],
    {
        &self.basis
    }

    /// The objective coefficients of the basis variables, row by row.
    pub fn basis_coefficients(&self) -> (r: Vec<BigNumber<RatioExt>>)
        requires
            self.wf(),
        ensures
            bigm_values(r@) == basis_costs(self@),
    {
        let mut r: Vec<BigNumber<RatioExt>> = Vec::new();
        let mut i: usize = 0;
        while i < self.basis.len()
            invariant
                i <= self.basis.len(),
                self.wf(),
                r.len() == i,
                forall|k: int| 0 <= k < i ==> (#[trigger] r@[k])@ == basis_costs(self@)[k],
            decreases self.basis.len() - i,
        {
            assert(0 <= self@.basis[i as int] < self@.costs.len());
            r.push(self.coefficients[self.basis[i]].clone());
            i += 1;
        }
        assert(bigm_values(r@) =~= basis_costs(self@));
        r
    }
}

impl SimplexTable {
    /// The value of the objective at the basic solution.
    pub fn function_estimation(&self) -> (r: BigNumber<RatioExt>)
        requires
            self.wf(),
        ensures
            r@ == function_estimation(self@),
    {
        let mut sum = BigNumber::zero();
        let mut i: usize = 0;
        while i < self.basis.len()
            invariant
                i <= self.basis.len(),
                self.wf(),
                sum@ == bigm_dot(basis_costs(self@), self@.rhs, i as int),
            decreases self.basis.len() - i,
        {
            assert(0 <= self@.basis[i as int] < self@.costs.len());
            let lifted = BigNumber::from(self.rhs[i].clone());
            let term = self.coefficients[self.basis[i]].mul(&lifted);
            sum = sum.add(&term);
            i += 1;
        }
        sum
    }

    /// The estimate of column `index`, where there is such a column.
    pub fn column_estimation(&self, index: usize) -> (r: Option<BigNumber<RatioExt>>)
        requires
            self.wf(),
        ensures
            match r {
                Some(z) => index < self@.costs.len() && z@ == column_estimation(
                    self@,
                    index as int,
                ),
                None => index >= self@.costs.len(),
            },
    {
        if index >= self.coefficients.len() {
            return None;
        }
        Some(self.column_estimation_unchecked(index))
    }

    /// The estimate of an existing column.
    fn column_estimation_unchecked(&self, index: usize) -> (r: BigNumber<RatioExt>)
        requires
            self.wf(),
            index < self@.costs.len(),
        ensures
            r@ == column_estimation(self@, index as int),
    {
        let mut sum = BigNumber::zero();
        let mut i: usize = 0;
        while i < self.basis.len()
            invariant
                i <= self.basis.len(),
                self.wf(),
                index < self@.costs.len(),
                sum@ == bigm_dot(basis_costs(self@), column(self@.rows, index as int), i as int),
            decreases self.basis.len() - i,
        {
            assert(0 <= self@.basis[i as int] < self@.costs.len());
            assert(self@.rows[i as int].len() == self@.costs.len());
            let lifted = BigNumber::from(self.tableau.get(i, index).clone());
            let term = self.coefficients[self.basis[i]].mul(&lifted);
            sum = sum.add(&term);
            i += 1;
        }
        sum.sub(&self.coefficients[index])
    }

    /// The entering column: the one with the largest estimate above zero.
    fn find_entering(&self) -> (r: Option<usize>)
        requires
            self.wf(),
        ensures
            match r {
                Some(c) => c < self@.costs.len() && entering_column(
                    self@,
                    self@.costs.len() as int,
                ) == Some(c as int),
                None => entering_column(self@, self@.costs.len() as int) is None,
            },
    {
        let zero = BigNumber::zero();
        let mut best: Option<(usize, BigNumber<RatioExt>)> = None;
        let mut j: usize = 0;
        while j < self.coefficients.len()
            invariant
                j <= self.coefficients.len(),
                self.wf(),
                zero@ == bigm_zero(),
                match best {
                    Some((c, z)) => c < j && entering_column(self@, j as int) == Some(c as int)
                        && z@ == column_estimation(self@, c as int),
                    None => entering_column(self@, j as int) is None,
                },
            decreases self.coefficients.len() - j,
        {
            let estimation = self.column_estimation_unchecked(j);
            if estimation.gt(&zero) {
                let better = match &best {
                    None => true,
                    Some((_, z)) => estimation.total_gt(z),
                };
                if better {
                    best = Some((j, estimation));
                }
            }
            j += 1;
        }
        match best {
            Some((c, _)) => Some(c),
            None => None,
        }
    }

    /// The leaving row for the entering column `col`: the one with the
    /// smallest ratio among the rows with an entry above zero in that column.
    fn find_leaving(&self, col: usize) -> (r: Option<usize>)
        requires
            self.wf(),
            col < self@.costs.len(),
        ensures
            match r {
                Some(k) => k < self@.rows.len() && leaving_row(
                    self@,
                    col as int,
                    self@.rows.len() as int,
                ) == Some(k as int),
                None => leaving_row(self@, col as int, self@.rows.len() as int) is None,
            },
    {
        let zero = RatioExt::zero();
        let mut best: Option<(usize, RatioExt)> = None;
        let mut i: usize = 0;
        while i < self.rhs.len()
            invariant
                i <= self.rhs.len(),
                self.wf(),
                col < self@.costs.len(),
                zero@ == ext_zero(),
                match best {
                    Some((k, q)) => k < i && leaving_row(self@, col as int, i as int) == Some(
                        k as int,
                    ) && q@ == ratio(self@, col as int, k as int),
                    None => leaving_row(self@, col as int, i as int) is None,
                },
            decreases self.rhs.len() - i,
        {
            assert(self@.rows[i as int].len() == self@.costs.len());
            let entry = self.tableau.get(i, col);
            if entry.gt(&zero) {
                let quotient = self.rhs[i].div(entry);
                let better = match &best {
                    None => true,
                    Some((_, q)) => quotient.lt(q),
                };
                if better {
                    best = Some((i, quotient));
                }
            }
            i += 1;
        }
        match best {
            Some((k, _)) => Some(k),
            None => None,
        }
    }
}

impl SimplexTable {
    /// Pivots the table on `(row, col)`.
    fn pivot(&mut self, row: usize, col: usize)
        requires
            old(self).wf(),
            row < old(self)@.rows.len(),
            col < old(self)@.costs.len(),
        ensures
            final(self).wf(),
            final(self)@ == pivoted(old(self)@, row as int, col as int),
    {
        let ghost t = self@;
        let m = self.rhs.len();
        assert(t.rows[row as int].len() == t.costs.len());
        let pivot_el = self.tableau.get(row, col).clone();
        // divide all elements in a row by pivot element
        let at_pivot = self.rhs[row].div(&pivot_el);
        self.rhs.set(row, at_pivot);
        self.tableau.divide_row(row, &pivot_el);
        // subtract pivot row from other rows till all of elements in pivot column except of
        // pivot element are zero
        let mut i: usize = 0;
        while i < m
            invariant
                i <= m,
                m == t.rows.len(),
                row < m,
                col < t.costs.len(),
                table_shaped(t),
                self.tableau.wf(),
                self.tableau.spec_ncols() == t.costs.len(),
                self.tableau@.len() == m,
                self.rhs@.len() == m,
                self.coefficients == old(self).coefficients,
                self.basis == old(self).basis,
                self.n_significant_variables == old(self).n_significant_variables,
                self.minimization == old(self).minimization,
                t == old(self)@,
                forall|r: int| 0 <= r < i || r == row ==> #[trigger] self.tableau@[r] == pivoted_row(t, row as int, col as int, r),
                forall|r: int| i <= r < m && r != row ==> #[trigger] self.tableau@[r] == t.rows[r],
                forall|r: int| 0 <= r < i || r == row ==> (#[trigger] self.rhs@[r])@ == pivoted_rhs(t, row as int, col as int, r),
                forall|r: int| i <= r < m && r != row ==> (#[trigger] self.rhs@[r])@ == t.rhs[r],
            decreases m - i,
        {
            if i != row {
                assert(t.rows[i as int].len() == t.costs.len());
                let multiplier = self.tableau.get(i, col).clone();
                let value = self.rhs[i].sub(&self.rhs[row].mul(&multiplier));
                self.rhs.set(i, value);
                let ghost before = self.tableau@;
                self.tableau.subtract_scaled_row(i, row, &multiplier);
                proof {
                    assert(self.tableau@[i as int] =~= pivoted_row(t, row as int, col as int, i as int));
                    assert forall|r: int| 0 <= r < m && r != i implies #[trigger] self.tableau@[r] == before[r] by {}
                }
            }
            i += 1;
        }
        self.basis.set(row, col);
        proof {
            let expected = pivoted(t, row as int, col as int);
            assert(self@.rows =~= expected.rows);
            assert(self@.rhs =~= expected.rhs);
            assert(self@.basis =~= expected.basis);
            assert(self@.costs == expected.costs);
        }
    }

    /// The value of variable `var` in the basic solution.
    fn basic_value(&self, var: usize) -> (r: RatioExt)
        requires
            self.wf(),
        ensures
            r@ == basic_value(self@, var as int),
    {
        let mut k: usize = 0;
        while k < self.basis.len()
            invariant
                k <= self.basis.len(),
                self.wf(),
                basis_row(self@.basis, var as int, 0) == basis_row(self@.basis, var as int, k as int),
            decreases self.basis.len() - k,
        {
            if self.basis[k] == var {
                return self.rhs[k].clone();
            }
            k += 1;
        }
        RatioExt::zero()
    }

    /// What the table gives once it is optimal.
    fn optimum(&self) -> (r: SolutionResult)
        requires
            self.wf(),
        ensures
            crate::solution::result_view(r) == optimum(self@),
    {
        let mut vars: Vec<RatioExt> = Vec::new();
        let mut i: usize = 0;
        while i < self.n_significant_variables
            invariant
                i <= self.n_significant_variables,
                self.wf(),
                vars.len() == i,
                forall|k: int| 0 <= k < i ==> (#[trigger] vars@[k])@ == basic_value(self@, k),
            decreases self.n_significant_variables - i,
        {
            vars.push(self.basic_value(i));
            i += 1;
        }
        match self.function_estimation().to_rational() {
            Ok(fn_val) => {
                let solution = Solution { fn_val, vars };
                assert(solution@.vars =~= Seq::new(
                    self@.n_significant,
                    |i: int| basic_value(self@, i),
                ));
                Ok(solution)
            },
            Err(_) => Err(SolutionError::Infinite),
        }
    }

    /// One step of the method on a minimized program: the result, where the
    /// step ended the run, and the entering column, where there was one.
    pub fn step(&mut self, prev_pivot_column: Option<usize>) -> (r: (
        Option<SolutionResult>,
        Option<usize>,
    ))
        requires
            old(self).wf(),
            old(self)@.minimization,
        ensures
            final(self).wf(),
            final(self)@.minimization,
            step_outcome(*final(self), r) == step_min(
                old(self)@,
                column_index(prev_pivot_column),
            ),
    {
        self.step_min(prev_pivot_column)
    }

    /// One step of the method for minimization.
    pub fn step_min(&mut self, prev_pivot_column: Option<usize>) -> (r: (
        Option<SolutionResult>,
        Option<usize>,
    ))
        requires
            old(self).wf(),
        ensures
            final(self).wf(),
            final(self)@.minimization == old(self)@.minimization,
            step_outcome(*final(self), r) == step_min(
                old(self)@,
                column_index(prev_pivot_column),
            ),
    {
        let pivot_col = self.find_entering();
        match pivot_col {
            Some(col) => {
                if prev_pivot_column == Some(col) {
                    return (Some(Err(SolutionError::Absent)), pivot_col);
                }
                match self.find_leaving(col) {
                    Some(row) => {
                        self.pivot(row, col);
                        (None, Some(col))
                    },
                    None => (Some(Err(SolutionError::Infinite)), pivot_col),
                }
            },
            None => (Some(self.optimum()), pivot_col),
        }
    }
}

/// A column index as a number.
pub open spec fn column_index(c: Option<usize>) -> Option<int> {
    match c {
        Some(j) => Some(j as int),
        None => None,
    }
}

/// What a step left behind and gave back, by value.
pub open spec fn step_outcome(table: SimplexTable, r: (Option<SolutionResult>, Option<usize>)) -> StepView {
    StepView {
        table: table@,
        result: match r.0 {
            Some(result) => Some(crate::solution::result_view(result)),
            None => None,
        },
        pivot_column: column_index(r.1),
    }
}

} // verus!
