use bigm_simplex::compute::{check_shapes, compute, construct_constraints, flatten};
use bigm_simplex::matrix::RatioMatrix;
use bigm_simplex::problem::{Constraint, ObjectiveFunction, Problem, Sign};
use bigm_simplex::ratio_ext::RatioExt;
use bigm_simplex::rational::Rational;
use bigm_simplex::solution::{Solution, SolutionError};
use bigm_simplex::table::SimplexTable;
use num_bigint::BigInt;

fn whole(n: i64) -> RatioExt {
    RatioExt::from_i64(n)
}

fn ratio(numer: i64, denom: i64) -> RatioExt {
    RatioExt::Finite(Rational::from_parts(BigInt::from(numer), BigInt::from(denom)).unwrap())
}

fn wholes(values: &[i64]) -> Vec<RatioExt> {
    values.iter().map(|v| whole(*v)).collect()
}

fn matrix(rows: &[&[i64]]) -> RatioMatrix {
    let ncols = rows[0].len();
    let mut m = RatioMatrix::filled(rows.len(), ncols, RatioExt::zero());
    for (i, row) in rows.iter().enumerate() {
        for (j, v) in row.iter().enumerate() {
            m.set(i, j, whole(*v));
        }
    }
    m
}

fn texts(values: &[RatioExt]) -> Vec<String> {
    values.iter().map(|v| v.to_string()).collect()
}

fn program(costs: &[i64], constraints: Vec<(Vec<i64>, Sign, i64)>) -> Problem {
    Problem::new(
        ObjectiveFunction::new(wholes(costs), true),
        constraints
            .into_iter()
            .map(|(coefficients, sign, rhs)| Constraint::new(wholes(&coefficients), sign, whole(rhs)))
            .collect(),
    )
}

const TRANSPORT: [[i64; 4]; 3] = [[25, 25, 35, 20], [30, 50, 40, 30], [15, 15, 25, 10]];
const COST: [[i64; 4]; 3] = [[15, 30, 10, 30], [20, 70, 20, 25], [40, 30, 15, 20]];
const MIN_TRANSPORT: [i64; 3] = [600, 2000, 1200];
const SHIPS: [u16; 4] = [40, 60, 20, 70];

fn ship_program() -> Problem {
    let transport_rate = matrix(&[&TRANSPORT[0], &TRANSPORT[1], &TRANSPORT[2]]);
    let cost_rate = matrix(&[&COST[0], &COST[1], &COST[2]]);
    let constraints =
        construct_constraints(&transport_rate, &wholes(&MIN_TRANSPORT), &SHIPS.to_vec(), 4, 3);
    Problem::new(ObjectiveFunction::new(flatten(&cost_rate), true), constraints)
}

fn assert_ship_assignment(vars: &[RatioExt], value: &RatioExt, whole_numbers: bool) {
    assert_eq!(vars.len(), 12);
    let mut total = RatioExt::zero();
    for i in 0..3 {
        let mut carried = RatioExt::zero();
        for j in 0..4 {
            let x = &vars[i * 4 + j];
            if whole_numbers {
                assert!(x.is_integer());
            }
            assert!(x.ge(&RatioExt::zero()));
            carried.add_assign(&x.mul(&whole(TRANSPORT[i][j])));
            total.add_assign(&x.mul(&whole(COST[i][j])));
        }
        assert!(carried.ge(&whole(MIN_TRANSPORT[i])));
    }
    for j in 0..4 {
        let mut used = RatioExt::zero();
        for i in 0..3 {
            used.add_assign(&vars[i * 4 + j]);
        }
        assert!(used == whole(SHIPS[j] as i64));
    }
    assert!(total == *value);
}

#[test]
fn ship_constraints_have_a_row_for_each_line_and_ship_type() {
    let transport_rate = matrix(&[&TRANSPORT[0], &TRANSPORT[1], &TRANSPORT[2]]);
    let constraints =
        construct_constraints(&transport_rate, &wholes(&MIN_TRANSPORT), &SHIPS.to_vec(), 4, 3);
    assert_eq!(constraints.len(), 7);
    assert_eq!(
        texts(constraints[1].coefficients()),
        vec!["0", "0", "0", "0", "30", "50", "40", "30", "0", "0", "0", "0"]
    );
    assert_eq!(constraints[1].sign(), Sign::Greater);
    assert_eq!(constraints[1].rhs().to_string(), "2000");
    assert_eq!(
        texts(constraints[5].coefficients()),
        vec!["0", "0", "1", "0", "0", "0", "1", "0", "0", "0", "1", "0"]
    );
    assert_eq!(constraints[5].sign(), Sign::Equals);
    assert_eq!(constraints[5].rhs().to_string(), "20");
}

#[test]
fn ship_relaxation_is_feasible_and_costs_13000_thirds() {
    let solution = ship_program().solve().unwrap();
    assert_eq!(solution.fn_val.to_string(), "13000/3");
    assert_ship_assignment(&solution.vars, &solution.fn_val, false);
}

#[test]
fn small_program_reaches_its_whole_optimum() {
    // minimize 2x + 3y, x + y >= 7/2 rounded up by the search, x <= 2
    let problem = Problem::new(
        ObjectiveFunction::new(wholes(&[2, 3]), true),
        vec![
            Constraint::new(wholes(&[2, 2]), Sign::Greater, whole(7)),
            Constraint::new(wholes(&[1, 0]), Sign::Less, whole(2)),
        ],
    );
    let relaxed = problem.clone().solve().unwrap();
    assert_eq!(texts(&relaxed.vars), vec!["2", "3/2"]);
    assert_eq!(relaxed.fn_val.to_string(), "17/2");
    let solution = problem.solve_with_whole().unwrap();
    assert_eq!(texts(&solution.vars), vec!["2", "2"]);
    assert_eq!(solution.fn_val.to_string(), "10");
    assert!(solution.is_integer());
}

#[test]
fn whole_relaxation_is_returned_as_it_is() {
    let problem = program(&[1, 1], vec![(vec![1, 1], Sign::Greater, 4), (vec![1, 0], Sign::Less, 1)]);
    let solution = problem.solve_with_whole().unwrap();
    assert_eq!(solution.fn_val.to_string(), "4");
    assert!(solution.is_integer());
}

#[test]
fn infeasible_program_is_infinite() {
    let problem = program(&[1, 1], vec![(vec![1, 1], Sign::Less, 1), (vec![1, 1], Sign::Greater, 3)]);
    assert_eq!(problem.clone().solve().unwrap_err(), SolutionError::Infinite);
    assert_eq!(problem.solve_with_whole().unwrap_err(), SolutionError::Infinite);
}

#[test]
fn unbounded_program_is_infinite() {
    let problem = Problem::new(
        ObjectiveFunction::new(wholes(&[-1, 1]), true),
        vec![Constraint::new(wholes(&[1, -1]), Sign::Greater, whole(1))],
    );
    assert_eq!(problem.solve().unwrap_err(), SolutionError::Infinite);
}

#[test]
fn ship_assignment_without_enough_ships_is_infinite() {
    let transport_rate = matrix(&[&TRANSPORT[0], &TRANSPORT[1], &TRANSPORT[2]]);
    let cost_rate = matrix(&[&COST[0], &COST[1], &COST[2]]);
    let result =
        compute(&transport_rate, &cost_rate, &wholes(&[1_000_000_000, 0, 0]), &SHIPS.to_vec());
    assert_eq!(result.unwrap_err(), SolutionError::Infinite.as_str());
    assert_eq!(SolutionError::Infinite.as_str(), "Розв'язок нескінченний");
    assert_eq!(SolutionError::Absent.as_str(), "Розв'язок відсутній");
}

#[test]
fn program_without_whole_point_is_absent() {
    // 2x = 1 has the solution 1/2 and no whole one
    let problem = program(&[1], vec![(vec![2], Sign::Equals, 1)]);
    assert_eq!(problem.clone().solve().unwrap().fn_val.to_string(), "1/2");
    assert_eq!(problem.solve_with_whole().unwrap_err(), SolutionError::Absent);
}

#[test]
fn repeated_entering_column_is_absent() {
    let problem = program(&[1, 1], vec![(vec![1, 1], Sign::Greater, 4)]);
    let mut table = SimplexTable::new(problem);
    let (result, pivot) = table.step(None);
    assert!(result.is_none());
    let mut again = SimplexTable::new(program(&[1, 1], vec![(vec![1, 1], Sign::Greater, 4)]));
    let (result, same) = again.step(pivot);
    assert_eq!(same, pivot);
    assert_eq!(result.unwrap().unwrap_err(), SolutionError::Absent);
}

#[test]
fn cut_at_zero_is_an_equality() {
    let base = program(&[1, 1], vec![(vec![1, 1], Sign::Greater, 4)]);
    let mut promoted = base.clone();
    promoted.add_constraint_on_var(0, Sign::Less, RatioExt::zero());
    let mut plain = base.clone();
    plain.add_constraint_on_var(0, Sign::Less, RatioExt::one());
    // the equality brings an artificial column only, the inequality a slack column too
    assert_eq!(promoted.constraints().ncols(), base.constraints().ncols() + 1);
    assert_eq!(plain.constraints().ncols(), base.constraints().ncols() + 2);
    assert_eq!(promoted.constraints().nrows(), 2);
    let row: Vec<String> =
        (0..5).map(|j| promoted.constraints().entry(1, j).unwrap().to_string()).collect();
    assert_eq!(row, vec!["1", "0", "0", "0", "1"]);
}

#[test]
fn branch_at_zero_finds_the_ship_optimum() {
    // the branch x[1][3] >= 27, x[0][0] = 0 of the ship assignment
    let mut branch = ship_program();
    branch.add_constraint_on_var(7, Sign::Greater, whole(27));
    branch.add_constraint_on_var(0, Sign::Less, RatioExt::zero());
    let solution = branch.solve().unwrap();
    assert!(solution.is_integer());
    assert_eq!(solution.fn_val.to_string(), "4335");
    assert_ship_assignment(&solution.vars, &solution.fn_val, true);
    assert_eq!(
        texts(&solution.vars),
        vec!["0", "0", "20", "0", "40", "0", "0", "27", "0", "60", "0", "43"]
    );
}

#[test]
fn first_step_takes_the_largest_estimate() {
    let problem = program(&[1, 1], vec![(vec![1, 2], Sign::Greater, 4)]);
    let mut table = SimplexTable::new(problem);
    assert_eq!(table.basis().clone(), vec![3]);
    assert_eq!(table.function_estimation().to_string(), "4M");
    assert_eq!(table.column_estimation(0).unwrap().to_string(), "M-1");
    assert_eq!(table.column_estimation(1).unwrap().to_string(), "2M-1");
    assert_eq!(table.column_estimation(2).unwrap().to_string(), "-M");
    assert_eq!(table.column_estimation(3).unwrap().to_string(), "0");
    assert!(table.column_estimation(4).is_none());
    assert_eq!(table.basis_coefficients()[0].to_string(), "M");
    let (result, pivot) = table.step(None);
    assert!(result.is_none());
    assert_eq!(pivot, Some(1));
    assert_eq!(table.basis().clone(), vec![1]);
    assert_eq!(table.function_estimation().to_string(), "2");
    let (result, pivot) = table.step(pivot);
    assert_eq!(pivot, None);
    let solution = result.unwrap().unwrap();
    assert_eq!(texts(&solution.vars), vec!["0", "2"]);
    assert_eq!(solution.fn_val.to_string(), "2");
}

#[test]
fn ties_go_to_the_first_column_and_the_first_row() {
    let problem = program(
        &[1, 1],
        vec![(vec![1, 1], Sign::Greater, 2), (vec![1, 1], Sign::Greater, 2)],
    );
    let mut table = SimplexTable::new(problem);
    let (_, pivot) = table.step(None);
    assert_eq!(pivot, Some(0));
    assert_eq!(table.basis().clone(), vec![0, 5]);
}

#[test]
fn shapes_that_do_not_fit_are_reported() {
    let transport_rate = matrix(&[&TRANSPORT[0], &TRANSPORT[1], &TRANSPORT[2]]);
    let cost_rate = matrix(&[&COST[0], &COST[1]]);
    let min = wholes(&MIN_TRANSPORT);
    assert_eq!(
        compute(&transport_rate, &cost_rate, &min, &SHIPS.to_vec()).unwrap_err(),
        "transport_rate.shape() != cost_rate.shape()\ntransport_rate.shape() = (3, 4)\ncost_rate.shape() = (2, 4)"
    );
    let cost_rate = matrix(&[&COST[0], &COST[1], &COST[2]]);
    assert_eq!(
        check_shapes(&transport_rate, &cost_rate, &min, &vec![1, 2]).unwrap_err(),
        "ships_count_per_type.ncols() != transport_rate.ncols()\nships_count_per_type.ncols() = 2\ntransport_rate.ncols() = 4"
    );
    assert_eq!(
        check_shapes(&transport_rate, &cost_rate, &wholes(&[1]), &SHIPS.to_vec()).unwrap_err(),
        "min_transport_per_line.nrows() != transport_rate.nrows()\nmin_transport_per_line.nrows() = 1\ntransport_rate.nrows() = 3"
    );
    assert!(check_shapes(&transport_rate, &cost_rate, &min, &SHIPS.to_vec()).is_ok());
}

#[test]
fn small_assignment_is_planned_in_whole_ships() {
    let transport: [[i64; 2]; 2] = [[3, 2], [2, 5]];
    let cost: [[i64; 2]; 2] = [[4, 3], [2, 6]];
    let transport_rate = matrix(&[&transport[0], &transport[1]]);
    let cost_rate = matrix(&[&cost[0], &cost[1]]);
    let (plan, value) =
        compute(&transport_rate, &cost_rate, &wholes(&[4, 7]), &vec![3, 2]).unwrap();
    assert_eq!(plan.nrows(), 2);
    assert_eq!(plan.ncols(), 2);
    let mut total = RatioExt::zero();
    for i in 0..2 {
        for j in 0..2 {
            let x = plan.entry(i, j).unwrap();
            assert!(x.is_integer());
            total.add_assign(&x.mul(&whole(cost[i][j])));
        }
    }
    assert!(total == value);
    let placed: Vec<String> = (0..4).map(|k| plan.entry(k / 2, k % 2).unwrap().to_string()).collect();
    assert_eq!(placed, vec!["1", "1", "2", "1"]);
    assert_eq!(value.to_string(), "17");
}

#[test]
fn solution_text_lists_the_variables() {
    let solution = Solution { fn_val: ratio(17, 2), vars: vec![whole(2), ratio(3, 2)] };
    assert_eq!(solution.as_str(), "Змінні:\n[2, 3/2]\nЗначення функції: 17/2");
    let (value, vars) = solution.unwrap_finite_ref();
    assert_eq!(value.to_string(), "17/2");
    assert_eq!(vars.len(), 2);
    let (value, vars) = solution.clone().unwrap_finite();
    assert_eq!(value.to_string(), "17/2");
    assert_eq!(texts(&vars), vec!["2", "3/2"]);
}

#[test]
fn left_branch_of_the_ship_assignment_is_searched_to_whole_numbers() {
    // the relaxation has x[1][3] = 80/3; this is its branch x[1][3] <= 26
    let root = ship_program();
    let incumbent = Problem::add_branch(&root, 7, Sign::Less, whole(26), None).unwrap();
    assert!(incumbent.is_integer());
    assert_eq!(incumbent.fn_val.to_string(), "4340");
    assert_ship_assignment(&incumbent.vars, &incumbent.fn_val, true);
    assert!(incumbent.vars[7].le(&whole(26)));
}

#[test]
fn incumbent_that_is_no_worse_is_kept() {
    let root = ship_program();
    let cheap = Solution { fn_val: whole(4000), vars: wholes(&[0; 12]) };
    let kept = Problem::add_branch(&root, 7, Sign::Less, whole(26), Some(cheap)).unwrap();
    assert_eq!(kept.fn_val.to_string(), "4000");
    let (branch, found) = Problem::cut_and_solve(&root, 7, Sign::Less, whole(26)).unwrap();
    assert_eq!(found.fn_val.to_string(), "4335");
    assert_eq!(branch.constraints().nrows(), 8);
    let equal = Solution { fn_val: whole(4335), vars: wholes(&[0; 12]) };
    let kept = Problem::settle(branch, found, Some(equal)).unwrap();
    assert_eq!(texts(&kept.vars), vec!["0"; 12]);
}

#[test]
fn pivots_keep_the_basis_injective_and_the_rhs_not_negative() {
    let mut table = SimplexTable::new(ship_program());
    let mut previous = None;
    let mut steps = 0;
    loop {
        let basis = table.basis().clone();
        for a in 0..basis.len() {
            for b in 0..a {
                assert_ne!(basis[a], basis[b]);
            }
        }
        let (result, pivot) = table.step(previous);
        if let Some(result) = result {
            let solution = result.unwrap();
            assert_eq!(solution.fn_val.to_string(), "13000/3");
            for value in &solution.vars {
                assert!(value.ge(&RatioExt::zero()));
            }
            break;
        }
        previous = pivot;
        steps += 1;
        assert!(steps < 100);
    }
    assert_eq!(steps, 16);
}

#[test]
fn no_cheaper_point_than_the_relaxation_on_a_grid() {
    // minimize 2x + 3y with 2x + 2y >= 7 and x <= 2: the relaxation costs 17/2
    let relaxed = program(&[2, 3], vec![(vec![2, 2], Sign::Greater, 7), (vec![1, 0], Sign::Less, 2)])
        .solve()
        .unwrap();
    for x in 0..=8 {
        for y in 0..=16 {
            // the point (x/2, y/2)
            if 2 * x + 2 * y >= 14 && x <= 4 {
                let cost = ratio(2 * x + 3 * y, 2);
                assert!(relaxed.fn_val.le(&cost));
            }
        }
    }
}

#[test]
fn whole_optimum_is_the_cheapest_whole_point() {
    let solution =
        program(&[2, 3], vec![(vec![2, 2], Sign::Greater, 7), (vec![1, 0], Sign::Less, 2)])
            .solve_with_whole()
            .unwrap();
    let mut cheapest: Option<i64> = None;
    for x in 0..=10 {
        for y in 0..=10 {
            if 2 * x + 2 * y >= 7 && x <= 2 {
                let cost = 2 * x + 3 * y;
                cheapest = Some(cheapest.map_or(cost, |c: i64| c.min(cost)));
            }
        }
    }
    assert!(solution.fn_val == whole(cheapest.unwrap()));
}

#[test]
fn program_that_no_longer_fits_is_not_cut() {
    let root = program(&[1], vec![(vec![2], Sign::Equals, 1)]);
    assert!(root.fits());
}

#[test]
fn zero_objective_coefficient_is_not_counted_as_a_variable() {
    // minimize 0x + y with x + y >= 1: only one coefficient is significant
    let problem = program(&[0, 1], vec![(vec![1, 1], Sign::Greater, 1)]);
    assert_eq!(problem.objective_function().n_significant_variables(), 1);
    let solution = problem.solve().unwrap();
    assert_eq!(texts(&solution.vars), vec!["1"]);
    assert_eq!(solution.fn_val.to_string(), "0");
}

#[test]
fn search_that_gave_up_nothing_says_so() {
    let (result, complete) =
        program(&[2, 3], vec![(vec![2, 2], Sign::Greater, 7), (vec![1, 0], Sign::Less, 2)])
            .solve_with_whole_noting();
    assert!(complete);
    assert_eq!(result.unwrap().fn_val.to_string(), "10");
    let (result, complete) = program(&[1], vec![(vec![2], Sign::Equals, 1)]).solve_with_whole_noting();
    assert!(complete);
    assert_eq!(result.unwrap_err(), SolutionError::Absent);
    let (result, ended) = ship_program().solve_noting();
    assert!(ended);
    assert_eq!(result.unwrap().fn_val.to_string(), "13000/3");
}

#[test]
fn run_that_ends_without_an_optimal_table_says_so() {
    // minimize -x with x >= 1: the objective falls without end
    let unbounded = Problem::new(
        ObjectiveFunction::new(wholes(&[-1, 1]), true),
        vec![Constraint::new(wholes(&[1, -1]), Sign::Greater, whole(1))],
    );
    let (result, ended) = unbounded.solve_noting();
    assert_eq!(result.unwrap_err(), SolutionError::Infinite);
    assert!(!ended);
    // x <= 1 and x >= 3 have no point: the run ends at an optimal table with an M part
    let empty = program(&[1, 1], vec![(vec![1, 1], Sign::Less, 1), (vec![1, 1], Sign::Greater, 3)]);
    let (result, ended) = empty.solve_noting();
    assert_eq!(result.unwrap_err(), SolutionError::Infinite);
    assert!(ended);
}

#[test]
fn branches_note_whether_they_were_searched_to_the_end() {
    let root = ship_program();
    let (incumbent, complete) = Problem::add_branch_noting(&root, 7, Sign::Less, whole(26), None);
    assert!(complete);
    assert_eq!(incumbent.unwrap().fn_val.to_string(), "4340");
    let (cut, ended) = Problem::cut_and_solve_noting(&root, 7, Sign::Greater, whole(27));
    assert!(ended);
    let (branch, found) = cut.unwrap();
    assert_eq!(found.fn_val.to_string(), "13000/3");
    let (kept, complete) =
        Problem::settle_noting(branch, found, Some(Solution { fn_val: whole(4000), vars: wholes(&[0; 12]) }));
    assert!(complete);
    assert_eq!(kept.unwrap().fn_val.to_string(), "4000");
    let relaxed = root.clone().solve().unwrap();
    let (same, complete) = program(&[1, 1], vec![(vec![1, 1], Sign::Greater, 4)])
        .improve_noting(Solution { fn_val: whole(4), vars: wholes(&[4, 0]) });
    assert!(complete);
    assert_eq!(same.unwrap().fn_val.to_string(), "4");
    assert_eq!(relaxed.vars.len(), 12);
}

#[test]
fn variable_without_cost_is_not_searched() {
    // minimize 0x + y with 2x + 2y >= 1 and x <= 0: y = 1/2 is not a significant variable
    let problem =
        program(&[0, 1], vec![(vec![2, 2], Sign::Greater, 1), (vec![1, 0], Sign::Less, 0)]);
    let solution = problem.solve_with_whole().unwrap();
    assert_eq!(texts(&solution.vars), vec!["0"]);
    assert_eq!(solution.fn_val.to_string(), "1/2");
}
