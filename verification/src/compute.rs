//! Assigning ships of several types to regular lines at the lowest cost.
//!
//! The variable `x[i][j]` is the number of ships of type `j` on line `i`;
//! the variables are numbered row by row.

use vstd::prelude::*;
use vstd::arithmetic::div_mod::lemma_fundamental_div_mod_converse;
use crate::matrix::RatioMatrix;
use crate::problem::{
    constraint_views, count_nonzero, max_width, normalized, Constraint, ConstraintView,
    ObjectiveFunction, Problem, Sign,
};
use crate::ratio_ext::{ext_one, ext_zero, values, ExtRat, RatioExt};
use crate::solver::integer_result;
use crate::text::{concat, decimal, decimal_text};

verus! {

/// The entries of a matrix of `ncols` columns, row by row.
pub open spec fn flattened(rows: Seq<Seq<ExtRat>>, ncols: nat) -> Seq<ExtRat> {
    Seq::new(rows.len() * ncols, |k: int| rows[k / ncols as int][k % ncols as int])
}

/// The constraint of line `i`: what the ships on it carry is at least the
/// line's minimum.
pub open spec fn line_constraint(
    transport_rate: Seq<Seq<ExtRat>>,
    min_transport_per_line: Seq<ExtRat>,
    n_ships: nat,
    i: int,
) -> ConstraintView {
    ConstraintView {
        coefficients: Seq::new(
            transport_rate.len() * n_ships,
            |k: int|
                if k / n_ships as int == i {
                    transport_rate[i][k % n_ships as int]
                } else {
                    ext_zero()
                },
        ),
        sign: Sign::Greater,
        rhs: min_transport_per_line[i],
    }
}

/// The constraint of ship type `j`: the ships of that type on all lines are as
/// many as there are.
pub open spec fn ship_constraint(
    ships_count_per_type: Seq<u16>,
    n_ships: nat,
    n_lines: nat,
    j: int,
) -> ConstraintView {
    ConstraintView {
        coefficients: Seq::new(
            n_lines * n_ships,
            |k: int|
                if k % n_ships as int == j {
                    ext_one()
                } else {
                    ext_zero()
                },
        ),
        sign: Sign::Equals,
        rhs: ExtRat::Finite(ships_count_per_type[j] as real),
    }
}

/// The constraints of the assignment: one for each line, then one for each
/// ship type.
pub open spec fn assignment_constraints(
    transport_rate: Seq<Seq<ExtRat>>,
    min_transport_per_line: Seq<ExtRat>,
    ships_count_per_type: Seq<u16>,
) -> Seq<ConstraintView> {
    let n_lines = transport_rate.len();
    let n_ships = ships_count_per_type.len();
    Seq::new(
        n_lines + n_ships,
        |r: int|
            if r < n_lines {
                line_constraint(transport_rate, min_transport_per_line, n_ships, r)
            } else {
                ship_constraint(ships_count_per_type, n_ships, n_lines, r - n_lines)
            },
    )
}

/// The place of ship type `j` on line `i` among the variables.
proof fn lemma_place(n_ships: int, i: int, j: int)
    requires
        0 <= i,
        0 <= j < n_ships,
    ensures
        (i * n_ships + j) / n_ships == i,
        (i * n_ships + j) % n_ships == j,
{
    lemma_fundamental_div_mod_converse(i * n_ships + j, n_ships, i, j);
}

/// The constraint of line `i`.
fn line_row(
    transport_rate: &RatioMatrix,
    min_transport_per_line: &Vec<RatioExt>,
    n_ships: usize,
    n_lines: usize,
    i: usize,
) -> (c: Constraint)
    requires
        transport_rate.wf(),
        transport_rate@.len() == n_lines,
        transport_rate.spec_ncols() == n_ships,
        min_transport_per_line.len() == n_lines,
        n_lines * n_ships <= usize::MAX,
        i < n_lines,
    ensures
        c@ == line_constraint(
            transport_rate@,
            values(min_transport_per_line@),
            n_ships as nat,
            i as int,
        ),
{
    let mut coefficients: Vec<RatioExt> = Vec::new();
    let mut l: usize = 0;
    while l < n_lines
        invariant
            l <= n_lines,
            i < n_lines,
            transport_rate.wf(),
            transport_rate@.len() == n_lines,
            transport_rate.spec_ncols() == n_ships,
            n_lines * n_ships <= usize::MAX,
            coefficients.len() == l * n_ships,
            forall|k: int|
                0 <= k < l * n_ships ==> (#[trigger] coefficients@[k])@ == if k / n_ships as int
                    == i {
                    transport_rate@[i as int][k % n_ships as int]
                } else {
                    ext_zero()
                },
        decreases n_lines - l,
    {
        let mut j: usize = 0;
        while j < n_ships
            invariant
                j <= n_ships,
                l < n_lines,
                i < n_lines,
                transport_rate.wf(),
                transport_rate@.len() == n_lines,
                transport_rate.spec_ncols() == n_ships,
                n_lines * n_ships <= usize::MAX,
                coefficients.len() == l * n_ships + j,
                forall|k: int|
                    0 <= k < l * n_ships + j ==> (#[trigger] coefficients@[k])@ == if k
                        / n_ships as int == i {
                        transport_rate@[i as int][k % n_ships as int]
                    } else {
                        ext_zero()
                    },
            decreases n_ships - j,
        {
            proof {
                lemma_place(n_ships as int, l as int, j as int);
                assert(l * n_ships + j < n_lines * n_ships) by (nonlinear_arith)
                    requires
                        l < n_lines,
                        j < n_ships,
                ;
            }
            let value = if l == i {
                transport_rate.get(i, j).clone()
            } else {
                RatioExt::zero()
            };
            coefficients.push(value);
            j += 1;
        }
        assert((l + 1) * n_ships == l * n_ships + n_ships) by (nonlinear_arith);
        l += 1;
    }
    let c = Constraint::new(coefficients, Sign::Greater, min_transport_per_line[i].clone());
    assert(c@.coefficients =~= line_constraint(
        transport_rate@,
        values(min_transport_per_line@),
        n_ships as nat,
        i as int,
    ).coefficients);
    c
}

/// The constraint of ship type `j`.
fn ship_row(ships_count_per_type: &Vec<u16>, n_ships: usize, n_lines: usize, j: usize) -> (c:
    Constraint)
    requires
        ships_count_per_type.len() == n_ships,
        n_lines * n_ships <= usize::MAX,
        j < n_ships,
    ensures
        c@ == ship_constraint(ships_count_per_type@, n_ships as nat, n_lines as nat, j as int),
{
    let mut coefficients: Vec<RatioExt> = Vec::new();
    let mut l: usize = 0;
    while l < n_lines
        invariant
            l <= n_lines,
            j < n_ships,
            n_lines * n_ships <= usize::MAX,
            coefficients.len() == l * n_ships,
            forall|k: int|
                0 <= k < l * n_ships ==> (#[trigger] coefficients@[k])@ == if k % n_ships as int
                    == j {
                    ext_one()
                } else {
                    ext_zero()
                },
        decreases n_lines - l,
    {
        let mut t: usize = 0;
        while t < n_ships
            invariant
                t <= n_ships,
                l < n_lines,
                j < n_ships,
                n_lines * n_ships <= usize::MAX,
                coefficients.len() == l * n_ships + t,
                forall|k: int|
                    0 <= k < l * n_ships + t ==> (#[trigger] coefficients@[k])@ == if k
                        % n_ships as int == j {
                        ext_one()
                    } else {
                        ext_zero()
                    },
            decreases n_ships - t,
        {
            proof {
                lemma_place(n_ships as int, l as int, t as int);
                assert(l * n_ships + t < n_lines * n_ships) by (nonlinear_arith)
                    requires
                        l < n_lines,
                        t < n_ships,
                ;
            }
            let value = if t == j {
                RatioExt::one()
            } else {
                RatioExt::zero()
            };
            coefficients.push(value);
            t += 1;
        }
        assert((l + 1) * n_ships == l * n_ships + n_ships) by (nonlinear_arith);
        l += 1;
    }
    let count = RatioExt::from_u64(ships_count_per_type[j] as u64);
    let c = Constraint::new(coefficients, Sign::Equals, count);
    assert(c@.coefficients =~= ship_constraint(
        ships_count_per_type@,
        n_ships as nat,
        n_lines as nat,
        j as int,
    ).coefficients);
    c
}

/// The constraints of the assignment: for each line, that its ships carry at
/// least its minimum; for each ship type, that all its ships are assigned.
pub fn construct_constraints(
    transport_rate: &RatioMatrix,
    min_transport_per_line: &Vec<RatioExt>,
    ships_count_per_type: &Vec<u16>,
    n_ships: usize,
    n_lines: usize,
) -> (r: Vec<Constraint>)
    requires
        transport_rate.wf(),
        transport_rate@.len() == n_lines,
        transport_rate.spec_ncols() == n_ships,
        min_transport_per_line.len() == n_lines,
        ships_count_per_type.len() == n_ships,
        n_lines * n_ships <= usize::MAX,
        n_lines + n_ships <= usize::MAX,
    ensures
        constraint_views(r@) == assignment_constraints(
            transport_rate@,
            values(min_transport_per_line@),
            ships_count_per_type@,
        ),
{
    let ghost expected = assignment_constraints(
        transport_rate@,
        values(min_transport_per_line@),
        ships_count_per_type@,
    );
    let mut r: Vec<Constraint> = Vec::new();
    let mut i: usize = 0;
    while i < n_lines
        invariant
            i <= n_lines,
            transport_rate.wf(),
            transport_rate@.len() == n_lines,
            transport_rate.spec_ncols() == n_ships,
            min_transport_per_line.len() == n_lines,
            ships_count_per_type.len() == n_ships,
            n_lines * n_ships <= usize::MAX,
            expected == assignment_constraints(
                transport_rate@,
                values(min_transport_per_line@),
                ships_count_per_type@,
            ),
            r.len() == i,
            forall|k: int| 0 <= k < i ==> (#[trigger] r@[k])@ == expected[k],
        decreases n_lines - i,
    {
        r.push(line_row(transport_rate, min_transport_per_line, n_ships, n_lines, i));
        i += 1;
    }
    let mut j: usize = 0;
    while j < n_ships
        invariant
            j <= n_ships,
            transport_rate@.len() == n_lines,
            ships_count_per_type.len() == n_ships,
            n_lines * n_ships <= usize::MAX,
            n_lines + n_ships <= usize::MAX,
            expected == assignment_constraints(
                transport_rate@,
                values(min_transport_per_line@),
                ships_count_per_type@,
            ),
            r.len() == n_lines + j,
            forall|k: int| 0 <= k < n_lines + j ==> (#[trigger] r@[k])@ == expected[k],
        decreases n_ships - j,
    {
        r.push(ship_row(ships_count_per_type, n_ships, n_lines, j));
        j += 1;
    }
    assert(constraint_views(r@) =~= expected);
    r
}

/// The entries of a matrix in one row, row by row.
pub fn flatten(matrix: &RatioMatrix) -> (r: Vec<RatioExt>)
    requires
        matrix.wf(),
        matrix@.len() * matrix.spec_ncols() <= usize::MAX,
    ensures
        values(r@) == flattened(matrix@, matrix.spec_ncols()),
{
    let nrows = matrix.nrows();
    let ncols = matrix.ncols();
    let mut r: Vec<RatioExt> = Vec::new();
    let mut i: usize = 0;
    while i < nrows
        invariant
            i <= nrows,
            matrix.wf(),
            nrows == matrix@.len(),
            ncols == matrix.spec_ncols(),
            nrows * ncols <= usize::MAX,
            r.len() == i * ncols,
            forall|k: int|
                0 <= k < i * ncols ==> (#[trigger] r@[k])@ == matrix@[k / ncols as int][k
                    % ncols as int],
        decreases nrows - i,
    {
        let mut j: usize = 0;
        while j < ncols
            invariant
                j <= ncols,
                i < nrows,
                matrix.wf(),
                nrows == matrix@.len(),
                ncols == matrix.spec_ncols(),
                nrows * ncols <= usize::MAX,
                r.len() == i * ncols + j,
                forall|k: int|
                    0 <= k < i * ncols + j ==> (#[trigger] r@[k])@ == matrix@[k / ncols as int][k
                        % ncols as int],
            decreases ncols - j,
        {
            proof {
                lemma_place(ncols as int, i as int, j as int);
                assert(i * ncols + j < nrows * ncols) by (nonlinear_arith)
                    requires
                        i < nrows,
                        j < ncols,
                ;
            }
            r.push(matrix.get(i, j).clone());
            j += 1;
        }
        assert((i + 1) * ncols == i * ncols + ncols) by (nonlinear_arith);
        i += 1;
    }
    assert(values(r@) =~= flattened(matrix@, matrix.spec_ncols()));
    r
}

/// The text of a shape: rows and columns in round brackets.
pub open spec fn shape_text(nrows: int, ncols: int) -> Seq<char> {
    "("@ + decimal_text(nrows) + ", "@ + decimal_text(ncols) + ")"@
}

/// The text of the shape of a matrix.
fn shape_of(matrix: &RatioMatrix) -> (s: String)
    ensures
        s@ == shape_text(matrix@.len() as int, matrix.spec_ncols() as int),
{
    let open = concat("(", decimal(matrix.nrows()).as_str());
    let comma = concat(open.as_str(), ", ");
    let both = concat(comma.as_str(), decimal(matrix.ncols()).as_str());
    concat(both.as_str(), ")")
}

/// Whether the four inputs of an assignment fit each other: the two matrices
/// have one shape, with a column for each ship type and a row for each line.
pub open spec fn shapes_agree(
    transport_rate: RatioMatrix,
    cost_rate: RatioMatrix,
    n_min: nat,
    n_counts: nat,
) -> bool {
    &&& transport_rate@.len() == cost_rate@.len()
    &&& transport_rate.spec_ncols() == cost_rate.spec_ncols()
    &&& n_counts == transport_rate.spec_ncols()
    &&& n_min == transport_rate@.len()
}

/// The message for the first of the shapes that does not fit.
pub open spec fn shape_error(
    transport_rate: RatioMatrix,
    cost_rate: RatioMatrix,
    n_min: nat,
    n_counts: nat,
) -> Seq<char> {
    if transport_rate@.len() != cost_rate@.len() || transport_rate.spec_ncols()
        != cost_rate.spec_ncols() {
        crate::text::mismatch_text(
            "transport_rate.shape()"@,
            "cost_rate.shape()"@,
            shape_text(transport_rate@.len() as int, transport_rate.spec_ncols() as int),
            shape_text(cost_rate@.len() as int, cost_rate.spec_ncols() as int),
        )
    } else if n_counts != transport_rate.spec_ncols() {
        crate::text::mismatch_text(
            "ships_count_per_type.ncols()"@,
            "transport_rate.ncols()"@,
            decimal_text(n_counts as int),
            decimal_text(transport_rate.spec_ncols() as int),
        )
    } else {
        crate::text::mismatch_text(
            "min_transport_per_line.nrows()"@,
            "transport_rate.nrows()"@,
            decimal_text(n_min as int),
            decimal_text(transport_rate@.len() as int),
        )
    }
}

/// Checks that the four inputs of an assignment fit each other.
pub fn check_shapes(
    transport_rate: &RatioMatrix,
    cost_rate: &RatioMatrix,
    min_transport_per_line: &Vec<RatioExt>,
    ships_count_per_type: &Vec<u16>,
) -> (r: Result<(), String>)
    ensures
        match r {
            Ok(_) => shapes_agree(
                *transport_rate,
                *cost_rate,
                min_transport_per_line@.len(),
                ships_count_per_type@.len(),
            ),
            Err(msg) => !shapes_agree(
                *transport_rate,
                *cost_rate,
                min_transport_per_line@.len(),
                ships_count_per_type@.len(),
            ) && msg@ == shape_error(
                *transport_rate,
                *cost_rate,
                min_transport_per_line@.len(),
                ships_count_per_type@.len(),
            ),
        },
{
    if transport_rate.nrows() != cost_rate.nrows() || transport_rate.ncols() != cost_rate.ncols() {
        return Err(
            crate::text::mismatch(
                "transport_rate.shape()",
                "cost_rate.shape()",
                shape_of(transport_rate).as_str(),
                shape_of(cost_rate).as_str(),
            ),
        );
    }
    if ships_count_per_type.len() != transport_rate.ncols() {
        return Err(
            crate::text::mismatch(
                "ships_count_per_type.ncols()",
                "transport_rate.ncols()",
                decimal(ships_count_per_type.len()).as_str(),
                decimal(transport_rate.ncols()).as_str(),
            ),
        );
    }
    if min_transport_per_line.len() != transport_rate.nrows() {
        return Err(
            crate::text::mismatch(
                "min_transport_per_line.nrows()",
                "transport_rate.nrows()",
                decimal(min_transport_per_line.len()).as_str(),
                decimal(transport_rate.nrows()).as_str(),
            ),
        );
    }
    Ok(())
}

/// The program of an assignment: the costs, row by row, are to be minimized
/// under the constraints of the lines and of the ship types.
pub open spec fn assignment_program(
    transport_rate: RatioMatrix,
    cost_rate: RatioMatrix,
    min_transport_per_line: Seq<ExtRat>,
    ships_count_per_type: Seq<u16>,
) -> crate::problem::ProblemView {
    let costs = flattened(cost_rate@, cost_rate.spec_ncols());
    normalized(
        count_nonzero(costs),
        costs,
        true,
        assignment_constraints(transport_rate@, min_transport_per_line, ships_count_per_type),
    )
}

/// An assignment that can be planned: there is a line and a ship type, no
/// cost is zero, and the program fits the machine.
pub open spec fn plannable(cost_rate: RatioMatrix) -> bool {
    let n_lines = cost_rate@.len();
    let n_ships = cost_rate.spec_ncols();
    &&& n_lines > 0
    &&& n_ships > 0
    &&& (n_lines + n_ships) * (n_lines * n_ships + 2 * (n_lines + n_ships)) <= usize::MAX
    &&& count_nonzero(flattened(cost_rate@, n_ships)) == n_lines * n_ships
}

/// Plans the assignment of ships to lines at the lowest cost: for each line
/// and ship type the number of ships, and the cost of it all. Shapes that do
/// not fit each other, and a program without a whole-number optimum, give the
/// message that says so.
pub fn compute(
    transport_rate: &RatioMatrix,
    cost_rate: &RatioMatrix,
    min_transport_per_line: &Vec<RatioExt>,
    ships_count_per_type: &Vec<u16>,
) -> (r: Result<(RatioMatrix, RatioExt), String>)
    requires
        transport_rate.wf(),
        cost_rate.wf(),
        shapes_agree(
            *transport_rate,
            *cost_rate,
            min_transport_per_line@.len(),
            ships_count_per_type@.len(),
        ) ==> plannable(*cost_rate),
    ensures
        match r {
            Ok((plan, cost)) => {
                &&& shapes_agree(
                    *transport_rate,
                    *cost_rate,
                    min_transport_per_line@.len(),
                    ships_count_per_type@.len(),
                )
                &&& integer_result(
                    assignment_program(
                        *transport_rate,
                        *cost_rate,
                        values(min_transport_per_line@),
                        ships_count_per_type@,
                    ),
                ) matches Ok(s) && cost@ == s.fn_val && plan.wf() && plan@.len()
                    == transport_rate@.len() && plan.spec_ncols() == transport_rate.spec_ncols()
                    && values_in_rows(plan, s.vars)
            },
            Err(msg) => if shapes_agree(
                *transport_rate,
                *cost_rate,
                min_transport_per_line@.len(),
                ships_count_per_type@.len(),
            ) {
                integer_result(
                    assignment_program(
                        *transport_rate,
                        *cost_rate,
                        values(min_transport_per_line@),
                        ships_count_per_type@,
                    ),
                ) matches Err(e) && msg@ == crate::solution::error_text(e)
            } else {
                msg@ == shape_error(
                    *transport_rate,
                    *cost_rate,
                    min_transport_per_line@.len(),
                    ships_count_per_type@.len(),
                )
            },
        },
{
    match check_shapes(transport_rate, cost_rate, min_transport_per_line, ships_count_per_type) {
        Err(msg) => return Err(msg),
        Ok(_) => {},
    }
    let n_lines = min_transport_per_line.len();
    let n_ships = ships_count_per_type.len();
    proof {
        assert(n_lines * n_ships <= (n_lines + n_ships) * (n_lines * n_ships + 2 * (n_lines
            + n_ships))) by (nonlinear_arith)
            requires
                n_lines > 0,
                n_ships > 0,
        ;
        assert(n_lines + n_ships <= (n_lines + n_ships) * (n_lines * n_ships + 2 * (n_lines
            + n_ships))) by (nonlinear_arith)
            requires
                n_lines > 0,
                n_ships > 0,
        ;
    }
    let costs = flatten(cost_rate);
    let objective = ObjectiveFunction::new(costs, true);
    let constraints = construct_constraints(
        transport_rate,
        min_transport_per_line,
        ships_count_per_type,
        n_ships,
        n_lines,
    );
    proof {
        let cs = constraint_views(constraints@);
        crate::problem::lemma_max_width_base((n_lines * n_ships) as nat, cs);
        assert(n_lines * n_ships > 0) by (nonlinear_arith)
            requires
                n_lines > 0,
                n_ships > 0,
        ;
    }
    let problem = Problem::new(objective, constraints);
    proof {
        crate::solver::law_integer_result_is_whole(problem@);
    }
    match problem.solve_with_whole() {
        Ok(solution) => {
            let mut plan = RatioMatrix::filled(n_lines, n_ships, RatioExt::zero());
            let mut i: usize = 0;
            while i < n_lines
                invariant
                    i <= n_lines,
                    plan.wf(),
                    plan@.len() == n_lines,
                    plan.spec_ncols() == n_ships,
                    solution.vars.len() == n_lines * n_ships,
                    forall|a: int, b: int|
                        0 <= a < i && 0 <= b < n_ships ==> #[trigger] plan.at(a, b)
                            == solution@.vars[a * n_ships + b],
                decreases n_lines - i,
            {
                let mut j: usize = 0;
                while j < n_ships
                    invariant
                        j <= n_ships,
                        i < n_lines,
                        plan.wf(),
                        plan@.len() == n_lines,
                        plan.spec_ncols() == n_ships,
                        solution.vars.len() == n_lines * n_ships,
                        forall|a: int, b: int|
                            0 <= a < i && 0 <= b < n_ships ==> #[trigger] plan.at(a, b)
                                == solution@.vars[a * n_ships + b],
                        forall|b: int|
                            0 <= b < j ==> #[trigger] plan.at(i as int, b) == solution@.vars[i
                                * n_ships + b],
                    decreases n_ships - j,
                {
                    proof {
                        assert(i * n_ships + j < n_lines * n_ships) by (nonlinear_arith)
                            requires
                                i < n_lines,
                                j < n_ships,
                        ;
                    }
                    let ghost before = plan;
                    plan.set(i, j, solution.vars[i * n_ships + j].clone());
                    proof {
                        assert(before@[i as int].len() == n_ships);
                        assert forall|a: int, b: int|
                            0 <= a < n_lines && 0 <= b < n_ships && !(a == i
                                && b == j) implies #[trigger] plan.at(a, b) == before.at(a, b) by {}
                    }
                    j += 1;
                }
                i += 1;
            }
            Ok((plan, solution.fn_val))
        },
        Err(non_compliant) => Err(non_compliant.as_str()),
    }
}

/// The matrix holds the numbers of `vars`, row by row.
pub open spec fn values_in_rows(plan: RatioMatrix, vars: Seq<ExtRat>) -> bool {
    forall|a: int, b: int|
        0 <= a < plan@.len() && 0 <= b < plan.spec_ncols() ==> #[trigger] plan.at(a, b) == vars[a
            * plan.spec_ncols() + b]
}

} // verus!
