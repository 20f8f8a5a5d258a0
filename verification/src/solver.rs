//! Solving a program: the simplex run, and branch and bound for whole-number
//! solutions.

use vstd::prelude::*;
use crate::problem::{with_cut, Problem, ProblemView, Sign};
use crate::ratio_ext::{
    ext_add, ext_floor, ext_ge, ext_gt, ext_is_integer, ext_le, ext_lt, ext_one, values, ExtRat,
    RatioExt,
};
use crate::solution::{
    all_integer, result_view, Solution, SolutionError, SolutionResult, SolutionView,
};
use crate::table::{
    initial_table, pivoted, step_min, step_outcome, table_shaped, SimplexTable, TableView,
};

verus! {

/// The largest number of steps that one simplex run makes.
pub const STEP_LIMIT: u32 = 4294967295;

/// The result of the simplex method on table `t` within `fuel` steps, where
/// `previous` is the entering column of the step before. A run that does not
/// end within its steps is given up as `Absent`.
pub open spec fn run(t: TableView, previous: Option<int>, fuel: nat) -> Result<
    SolutionView,
    SolutionError,
>
    decreases fuel,
{
    if fuel == 0 {
        Err(SolutionError::Absent)
    } else {
        let s = step_min(t, previous);
        match s.result {
            Some(r) => r,
            None => run(s.table, s.pivot_column, (fuel - 1) as nat),
        }
    }
}

/// The run ends, within its steps, at a table in which no column has an
/// estimate above zero.
pub open spec fn ends_at_optimum(t: TableView, previous: Option<int>, fuel: nat) -> bool
    decreases fuel,
{
    if fuel == 0 {
        false
    } else {
        let s = step_min(t, previous);
        if s.result is None {
            ends_at_optimum(s.table, s.pivot_column, (fuel - 1) as nat)
        } else {
            crate::table::entering_column(t, t.costs.len() as int) is None
        }
    }
}

/// The result of the simplex method on a program.
pub open spec fn lp_result(p: ProblemView) -> Result<SolutionView, SolutionError> {
    run(initial_table(p), None, STEP_LIMIT as nat)
}

/// The first variable at or behind `from` whose value is not a whole number.
pub open spec fn first_fractional(vars: Seq<ExtRat>, from: int) -> Option<int>
    decreases vars.len() - from,
{
    if from < 0 || from >= vars.len() {
        None
    } else if !ext_is_integer(vars[from]) {
        Some(from)
    } else {
        first_fractional(vars, from + 1)
    }
}

/// A program to which one more constraint can be added without its size
/// leaving the range of the machine.
pub open spec fn fits(p: ProblemView) -> bool {
    p.rows.len() < usize::MAX && (p.rows.len() + 1) * (p.coefficients.len() + 2) <= usize::MAX
}

/// Whether a branch with objective value `branch` cannot improve on the
/// incumbent with value `best`.
pub open spec fn no_better(minimization: bool, best: ExtRat, branch: ExtRat) -> bool {
    if minimization {
        ext_le(best, branch)
    } else {
        ext_ge(best, branch)
    }
}

/// Whether the objective value `found` beats the incumbent's value `best`.
pub open spec fn strictly_better(minimization: bool, found: ExtRat, best: ExtRat) -> bool {
    if minimization {
        ext_lt(found, best)
    } else {
        ext_gt(found, best)
    }
}

/// The incumbent after the solution `found` of the relaxation of the branch
/// `q` was looked at, where `best` was the incumbent before.
///
/// Without an incumbent a whole-number solution is taken, and a fractional
/// one is improved first. With an incumbent the branch is skipped if it is no
/// better; else a whole-number solution of it is taken, and an improvement of
/// a fractional one only if it beats the incumbent and is whole.
pub open spec fn settled(q: ProblemView, found: SolutionView, best: Option<SolutionView>) -> Option<
    SolutionView,
>
    decreases usize::MAX - q.rows.len(), 2nat,
{
    match best {
        None => if all_integer(found.vars) {
            Some(found)
        } else {
            match improved(q, found) {
                Ok(better) => Some(better),
                Err(_) => None,
            }
        },
        Some(incumbent) => if no_better(q.minimization, incumbent.fn_val, found.fn_val) {
            best
        } else if all_integer(found.vars) {
            Some(found)
        } else {
            match improved(q, found) {
                Ok(better) => if strictly_better(q.minimization, better.fn_val, incumbent.fn_val)
                    && all_integer(better.vars) {
                    Some(better)
                } else {
                    best
                },
                Err(_) => best,
            }
        },
    }
}

/// The incumbent after the branch of `p` with the cut `x_i  sign  rhs` was
/// searched, where `best` was the incumbent before. A branch that cannot be
/// solved leaves the incumbent.
pub open spec fn branch_result(
    p: ProblemView,
    i: int,
    sign: Sign,
    rhs: ExtRat,
    best: Option<SolutionView>,
) -> Option<SolutionView>
    decreases usize::MAX - p.rows.len(), 0nat,
{
    if !fits(p) {
        best
    } else {
        let q = with_cut(p, i, sign, rhs);
        match lp_result(q) {
            Err(_) => best,
            Ok(found) => settled(q, found, best),
        }
    }
}

/// The whole-number solution that branch and bound reaches from the solution
/// `s` of the relaxation of `p`: `s` itself where it is whole; else the
/// incumbent after the two branches on the first fractional variable `x_i`,
/// first `x_i <= floor(x_i)` and then `x_i >= floor(x_i) + 1`; `Absent` where
/// neither branch gave one.
pub open spec fn improved(p: ProblemView, s: SolutionView) -> Result<SolutionView, SolutionError>
    decreases usize::MAX - p.rows.len(), 1nat,
{
    match first_fractional(s.vars, 0) {
        None => Ok(s),
        Some(i) => {
            let whole = ext_floor(s.vars[i]);
            let left = branch_result(p, i, Sign::Less, whole, None);
            let right = branch_result(p, i, Sign::Greater, ext_add(whole, ext_one()), left);
            match right {
                Some(best) => Ok(best),
                None => Err(SolutionError::Absent),
            }
        },
    }
}

/// The whole-number optimum of a program: the solution of its relaxation,
/// improved by branch and bound.
pub open spec fn integer_result(p: ProblemView) -> Result<SolutionView, SolutionError> {
    match lp_result(p) {
        Err(e) => Err(e),
        Ok(s) => improved(p, s),
    }
}

/// The search from the solution `s` of the relaxation of `p` gave up no
/// branch: every program on its way fitted the machine, and every relaxation
/// on its way ended at an optimal table.
pub open spec fn complete_improve(p: ProblemView, s: SolutionView) -> bool
    decreases usize::MAX - p.rows.len(), 1nat,
{
    match first_fractional(s.vars, 0) {
        None => true,
        Some(i) => {
            let whole = ext_floor(s.vars[i]);
            let left = branch_result(p, i, Sign::Less, whole, None);
            complete_branch(p, i, Sign::Less, whole, None) && complete_branch(
                p,
                i,
                Sign::Greater,
                ext_add(whole, ext_one()),
                left,
            )
        },
    }
}

/// The search of the branch of `p` with the cut `x_i  sign  rhs` gave up
/// nothing.
pub open spec fn complete_branch(
    p: ProblemView,
    i: int,
    sign: Sign,
    rhs: ExtRat,
    best: Option<SolutionView>,
) -> bool
    decreases usize::MAX - p.rows.len(), 0nat,
{
    fits(p) && {
        let q = with_cut(p, i, sign, rhs);
        match lp_result(q) {
            Err(_) => ends_at_optimum(initial_table(q), None, STEP_LIMIT as nat),
            Ok(found) => complete_settle(q, found, best),
        }
    }
}

/// The search below the solution `found` of the relaxation of `q` gave up
/// nothing.
pub open spec fn complete_settle(q: ProblemView, found: SolutionView, best: Option<SolutionView>) -> bool
    decreases usize::MAX - q.rows.len(), 2nat,
{
    match best {
        None => all_integer(found.vars) || complete_improve(q, found),
        Some(incumbent) => no_better(q.minimization, incumbent.fn_val, found.fn_val)
            || all_integer(found.vars) || complete_improve(q, found),
    }
}

/// The search on a program gave up no branch.
pub open spec fn search_is_complete(p: ProblemView) -> bool {
    lp_result(p) matches Ok(s) ==> complete_improve(p, s)
}

/// A pivot keeps the shape of a table.
pub proof fn lemma_pivot_shaped(t: TableView, row: int, col: int)
    requires
        table_shaped(t),
        0 <= row < t.rows.len(),
        0 <= col < t.costs.len(),
    ensures
        table_shaped(pivoted(t, row, col)),
{
    let q = pivoted(t, row, col);
    assert forall|i: int| 0 <= i < q.rows.len() implies (#[trigger] q.rows[i]).len()
        == q.costs.len() by {
        assert(t.rows[i].len() == t.costs.len());
        assert(t.rows[row].len() == t.costs.len());
    }
    assert forall|i: int| 0 <= i < q.basis.len() implies 0 <= #[trigger] q.basis[i]
        < q.costs.len() by {
        if i != row {
            assert(0 <= t.basis[i] < t.costs.len());
        }
    }
}

/// A solution that a run ends with has a value for each significant variable.
pub proof fn lemma_run_vars(t: TableView, previous: Option<int>, fuel: nat)
    ensures
        run(t, previous, fuel) matches Ok(s) ==> s.vars.len() == t.n_significant,
    decreases fuel,
{
    if fuel > 0 {
        let s = step_min(t, previous);
        if s.result is None {
            lemma_run_vars(s.table, s.pivot_column, (fuel - 1) as nat);
        }
    }
}

/// No variable is fractional exactly when all are whole.
pub proof fn lemma_first_fractional(vars: Seq<ExtRat>, from: int)
    requires
        0 <= from,
    ensures
        first_fractional(vars, from) is None <==> forall|k: int|
            from <= k < vars.len() ==> ext_is_integer(#[trigger] vars[k]),
        first_fractional(vars, from) matches Some(i) ==> from <= i < vars.len() && !ext_is_integer(
            vars[i],
        ),
    decreases vars.len() - from,
{
    if from < vars.len() {
        lemma_first_fractional(vars, from + 1);
        if ext_is_integer(vars[from]) {
            assert forall|k: int| from <= k < vars.len() && (forall|j: int|
                from + 1 <= j < vars.len() ==> ext_is_integer(#[trigger] vars[j]))
                implies ext_is_integer(#[trigger] vars[k]) by {}
        }
    }
}

/// A solution fit to be an incumbent for program `p`: whole in every variable,
/// with a value for each significant variable.
pub open spec fn whole_solution(p: ProblemView, s: SolutionView) -> bool {
    all_integer(s.vars) && s.vars.len() == p.n_significant
}

/// Every solution that branch and bound gives is whole in every variable.
pub proof fn law_improved_is_whole(p: ProblemView, s: SolutionView)
    requires
        s.vars.len() == p.n_significant,
    ensures
        improved(p, s) matches Ok(x) ==> whole_solution(p, x),
    decreases usize::MAX - p.rows.len(), 1nat,
{
    lemma_first_fractional(s.vars, 0);
    match first_fractional(s.vars, 0) {
        None => {},
        Some(i) => {
            let whole = ext_floor(s.vars[i]);
            let left = branch_result(p, i, Sign::Less, whole, None);
            law_branch_is_whole(p, i, Sign::Less, whole, None);
            law_branch_is_whole(p, i, Sign::Greater, ext_add(whole, ext_one()), left);
        },
    }
}

/// The incumbent stays whole in every variable through the search of a
/// branch.
pub proof fn law_branch_is_whole(
    p: ProblemView,
    i: int,
    sign: Sign,
    rhs: ExtRat,
    best: Option<SolutionView>,
)
    requires
        best matches Some(b) ==> whole_solution(p, b),
    ensures
        branch_result(p, i, sign, rhs, best) matches Some(x) ==> whole_solution(p, x),
    decreases usize::MAX - p.rows.len(), 0nat,
{
    if fits(p) {
        let q = with_cut(p, i, sign, rhs);
        lemma_run_vars(initial_table(q), None, STEP_LIMIT as nat);
        if let Ok(found) = lp_result(q) {
            if !all_integer(found.vars) {
                law_improved_is_whole(q, found);
            }
        }
    }
}

/// The whole-number optimum of a program is whole in every variable.
pub proof fn law_integer_result_is_whole(p: ProblemView)
    ensures
        integer_result(p) matches Ok(x) ==> whole_solution(p, x),
{
    lemma_run_vars(initial_table(p), None, STEP_LIMIT as nat);
    if let Ok(s) = lp_result(p) {
        law_improved_is_whole(p, s);
    }
}

/// The value of a solution, where there is one.
pub open spec fn option_view(s: Option<Solution>) -> Option<SolutionView> {
    match s {
        Some(x) => Some(x@),
        None => None,
    }
}

/// The first of the numbers that is not whole.
pub fn find_fractional(vars: &Vec<RatioExt>) -> (r: Option<usize>)
    ensures
        crate::table::column_index(r) == first_fractional(values(vars@), 0),
        r matches Some(i) ==> i < vars.len(),
{
    let mut i: usize = 0;
    while i < vars.len()
        invariant
            i <= vars.len(),
            first_fractional(values(vars@), 0) == first_fractional(values(vars@), i as int),
        decreases vars.len() - i,
    {
        if !vars[i].is_integer() {
            return Some(i);
        }
        i += 1;
    }
    None
}

impl Problem {
    /// Solves the program by the simplex method, without regard to whole
    /// numbers. A run of more than [`STEP_LIMIT`] steps is given up as
    /// `Absent`.
    pub fn solve(self) -> (r: SolutionResult)
        requires
            self.wf(),
            self@.minimization,
        ensures
            result_view(r) == lp_result(self@),
    {
        self.solve_noting().0
    }

    /// Solves the program by the simplex method, and tells whether the run
    /// ended at an optimal table, rather than with a stall, an unbounded
    /// column, or the end of its steps.
    pub fn solve_noting(self) -> (r: (SolutionResult, bool))
        requires
            self.wf(),
            self@.minimization,
        ensures
            result_view(r.0) == lp_result(self@),
            r.1 == ends_at_optimum(initial_table(self@), None, STEP_LIMIT as nat),
    {
        let ghost program = self@;
        let ghost start = initial_table(program);
        let mut table = SimplexTable::new(self);
        let mut previous: Option<usize> = None;
        let mut steps: u32 = 0;
        while steps < STEP_LIMIT
            invariant
                steps <= STEP_LIMIT,
                table.wf(),
                table@.minimization,
                program == self@,
                start == initial_table(program),
                run(start, None, STEP_LIMIT as nat) == run(
                    table@,
                    crate::table::column_index(previous),
                    (STEP_LIMIT - steps) as nat,
                ),
                ends_at_optimum(start, None, STEP_LIMIT as nat) == ends_at_optimum(
                    table@,
                    crate::table::column_index(previous),
                    (STEP_LIMIT - steps) as nat,
                ),
            decreases STEP_LIMIT - steps,
        {
            let ghost before = table@;
            let (result, pivot) = table.step(previous);
            proof {
                let s = step_min(before, crate::table::column_index(previous));
                assert(step_outcome(table, (result, pivot)) == s);
                assert(run(before, crate::table::column_index(previous), (STEP_LIMIT - steps) as nat)
                    == match s.result {
                    Some(r) => r,
                    None => run(s.table, s.pivot_column, (STEP_LIMIT - steps - 1) as nat),
                });
                assert(ends_at_optimum(
                    before,
                    crate::table::column_index(previous),
                    (STEP_LIMIT - steps) as nat,
                ) == if s.result is None {
                    ends_at_optimum(s.table, s.pivot_column, (STEP_LIMIT - steps - 1) as nat)
                } else {
                    crate::table::entering_column(before, before.costs.len() as int) is None
                });
            }
            if let Some(r) = result {
                return (r, pivot.is_none());
            }
            previous = pivot;
            steps += 1;
        }
        (Err(SolutionError::Absent), false)
    }

    /// Whether one more constraint can be added without the size of the
    /// program leaving the range of the machine.
    pub fn fits(&self) -> (b: bool)
        requires
            self.wf(),
        ensures
            b == fits(self@),
    {
        proof {
            self.lemma_wf_canonical();
        }
        let rows = self.rhs.len();
        let columns = self.objective_function.coefficients.len();
        if rows == usize::MAX {
            return false;
        }
        match columns.checked_add(2) {
            None => {
                assert((rows + 1) * (columns + 2) > usize::MAX) by (nonlinear_arith)
                    requires
                        columns + 2 > usize::MAX,
                        rows >= 0,
                ;
                false
            },
            Some(wide) => (rows + 1).checked_mul(wide).is_some(),
        }
    }

    /// Solves the program for whole numbers: the simplex method, then branch
    /// and bound on the variables whose values are not whole.
    pub fn solve_with_whole(self) -> (r: SolutionResult)
        requires
            self.wf(),
            self@.minimization,
        ensures
            result_view(r) == integer_result(self@),
    {
        self.solve_with_whole_noting().0
    }

    /// Solves the program for whole numbers, and tells whether the search gave
    /// up no branch. A solution of a search that gave up nothing is a
    /// whole-number optimum.
    pub fn solve_with_whole_noting(self) -> (r: (SolutionResult, bool))
        requires
            self.wf(),
            self@.minimization,
        ensures
            result_view(r.0) == integer_result(self@),
            r.1 == search_is_complete(self@),
    {
        proof {
            lemma_run_vars(initial_table(self@), None, STEP_LIMIT as nat);
        }
        let solution = match self.clone().solve() {
            Ok(solution) => solution,
            Err(e) => return (Err(e), true),
        };
        self.improve_noting(solution)
    }

    /// Branch and bound from the solution of the relaxation.
    pub fn improve(self, solution: Solution) -> (r: SolutionResult)
        requires
            self.wf(),
            self@.minimization,
            solution@.vars.len() == self@.n_significant,
        ensures
            result_view(r) == improved(self@, solution@),
    {
        self.improve_noting(solution).0
    }

    /// Branch and bound from the solution of the relaxation, with the note
    /// whether it gave up no branch.
    pub fn improve_noting(self, solution: Solution) -> (r: (SolutionResult, bool))
        requires
            self.wf(),
            self@.minimization,
            solution@.vars.len() == self@.n_significant,
        ensures
            result_view(r.0) == improved(self@, solution@),
            r.1 == complete_improve(self@, solution@),
        decreases usize::MAX - self@.rows.len(), 1nat,
    {
        let i = match find_fractional(&solution.vars) {
            Some(i) => i,
            None => return (Ok(solution), true),
        };
        let whole_part = solution.vars[i].floor();
        let above = whole_part.add(&RatioExt::one());
        // Left branch
        let (best_sol, left) = Self::add_branch_noting(&self, i, Sign::Less, whole_part, None);
        // Right branch
        let (best_sol, right) = Self::add_branch_noting(&self, i, Sign::Greater, above, best_sol);
        match best_sol {
            Some(best) => (Ok(best), left && right),
            None => (Err(SolutionError::Absent), left && right),
        }
    }

    /// Adds the cut `x_i  constraint_sign  rhs` to a copy of `problem` and
    /// solves its relaxation. Nothing where the enlarged program would not fit
    /// the machine or has no solution.
    pub fn cut_and_solve(problem: &Problem, i: usize, constraint_sign: Sign, rhs: RatioExt) -> (r:
        Option<(Problem, Solution)>)
        requires
            problem.wf(),
            problem@.minimization,
            i < problem@.n_significant,
        ensures
            match r {
                Some((branch, found)) => fits(problem@) && branch.wf() && branch@ == with_cut(
                    problem@,
                    i as int,
                    constraint_sign,
                    rhs@,
                ) && lp_result(branch@) == Ok::<SolutionView, SolutionError>(found@),
                None => !fits(problem@) || lp_result(
                    with_cut(problem@, i as int, constraint_sign, rhs@),
                ) is Err,
            },
    {
        Self::cut_and_solve_noting(problem, i, constraint_sign, rhs).0
    }

    /// Adds a cut to a copy of `problem` and solves its relaxation, with the
    /// note whether the enlarged program fitted the machine and the run ended
    /// at an optimal table.
    pub fn cut_and_solve_noting(
        problem: &Problem,
        i: usize,
        constraint_sign: Sign,
        rhs: RatioExt,
    ) -> (r: (Option<(Problem, Solution)>, bool))
        requires
            problem.wf(),
            problem@.minimization,
            i < problem@.n_significant,
        ensures
            match r.0 {
                Some((branch, found)) => fits(problem@) && branch.wf() && branch@ == with_cut(
                    problem@,
                    i as int,
                    constraint_sign,
                    rhs@,
                ) && lp_result(branch@) == Ok::<SolutionView, SolutionError>(found@),
                None => !fits(problem@) || lp_result(
                    with_cut(problem@, i as int, constraint_sign, rhs@),
                ) is Err,
            },
            r.1 == (fits(problem@) && ends_at_optimum(
                initial_table(with_cut(problem@, i as int, constraint_sign, rhs@)),
                None,
                STEP_LIMIT as nat,
            )),
    {
        if !problem.fits() {
            return (None, false);
        }
        let mut branch = problem.clone();
        branch.add_constraint_on_var(i, constraint_sign, rhs);
        let (result, ended) = branch.clone().solve_noting();
        match result {
            Ok(found) => (Some((branch, found)), ended),
            Err(_) => (None, ended),
        }
    }

    /// Gives the incumbent after the solution `found` of the relaxation of
    /// `branch` was looked at.
    pub fn settle(branch: Problem, found: Solution, best_sol: Option<Solution>) -> (r: Option<
        Solution,
    >)
        requires
            branch.wf(),
            branch@.minimization,
            found@.vars.len() == branch@.n_significant,
        ensures
            option_view(r) == settled(branch@, found@, option_view(best_sol)),
    {
        Self::settle_noting(branch, found, best_sol).0
    }

    /// Gives the incumbent after the solution `found` of the relaxation of
    /// `branch` was looked at, with the note whether the search below it gave
    /// up no branch.
    pub fn settle_noting(branch: Problem, found: Solution, best_sol: Option<Solution>) -> (r: (
        Option<Solution>,
        bool,
    ))
        requires
            branch.wf(),
            branch@.minimization,
            found@.vars.len() == branch@.n_significant,
        ensures
            option_view(r.0) == settled(branch@, found@, option_view(best_sol)),
            r.1 == complete_settle(branch@, found@, option_view(best_sol)),
        decreases usize::MAX - branch@.rows.len(), 2nat,
    {
        let minimization = branch.objective_function.minimization;
        match best_sol {
            None => {
                if found.is_integer() {
                    return (Some(found), true);
                }
                match branch.improve_noting(found) {
                    (Ok(improved_sol), complete) => (Some(improved_sol), complete),
                    (Err(_), complete) => (None, complete),
                }
            },
            Some(best) => {
                if minimization && best.fn_val.le(&found.fn_val) {
                    return (Some(best), true);
                } else if !minimization && best.fn_val.ge(&found.fn_val) {
                    return (Some(best), true);
                }
                if found.is_integer() {
                    return (Some(found), true);
                }
                match branch.improve_noting(found) {
                    (Ok(maybe_improved_sol), complete) => {
                        let beats = (minimization && maybe_improved_sol.fn_val.lt(&best.fn_val)) || (
                        !minimization && maybe_improved_sol.fn_val.gt(&best.fn_val));
                        if beats && maybe_improved_sol.is_integer() {
                            (Some(maybe_improved_sol), complete)
                        } else {
                            (Some(best), complete)
                        }
                    },
                    (Err(_), complete) => (Some(best), complete),
                }
            },
        }
    }

    /// Searches the branch of `problem` with the cut `x_i  constraint_sign
    /// rhs` and gives the incumbent after it.
    pub fn add_branch(
        problem: &Problem,
        i: usize,
        constraint_sign: Sign,
        rhs: RatioExt,
        best_sol: Option<Solution>,
    ) -> (r: Option<Solution>)
        requires
            problem.wf(),
            problem@.minimization,
            i < problem@.n_significant,
        ensures
            option_view(r) == branch_result(
                problem@,
                i as int,
                constraint_sign,
                rhs@,
                option_view(best_sol),
            ),
    {
        Self::add_branch_noting(problem, i, constraint_sign, rhs, best_sol).0
    }

    /// Searches a branch and gives the incumbent after it, with the note
    /// whether the search gave up nothing.
    pub fn add_branch_noting(
        problem: &Problem,
        i: usize,
        constraint_sign: Sign,
        rhs: RatioExt,
        best_sol: Option<Solution>,
    ) -> (r: (Option<Solution>, bool))
        requires
            problem.wf(),
            problem@.minimization,
            i < problem@.n_significant,
        ensures
            option_view(r.0) == branch_result(
                problem@,
                i as int,
                constraint_sign,
                rhs@,
                option_view(best_sol),
            ),
            r.1 == complete_branch(
                problem@,
                i as int,
                constraint_sign,
                rhs@,
                option_view(best_sol),
            ),
        decreases usize::MAX - problem@.rows.len(), 0nat,
    {
        proof {
            lemma_run_vars(
                initial_table(with_cut(problem@, i as int, constraint_sign, rhs@)),
                None,
                STEP_LIMIT as nat,
            );
            crate::soundness::lemma_solution_ends_at_optimum(
                initial_table(with_cut(problem@, i as int, constraint_sign, rhs@)),
                None,
                STEP_LIMIT as nat,
            );
        }
        match Self::cut_and_solve_noting(problem, i, constraint_sign, rhs) {
            (Some((branch, found)), _) => Self::settle_noting(branch, found, best_sol),
            (None, ended) => (best_sol, ended),
        }
    }
}

} // verus!
