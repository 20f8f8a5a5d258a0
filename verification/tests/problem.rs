use bigm_simplex::big_number::BigNumber;
use bigm_simplex::problem::{Constraint, ObjectiveFunction, Problem, Sign};
use bigm_simplex::ratio_ext::RatioExt;
use bigm_simplex::rational::Rational;
use num_rational::BigRational;

fn from_float(f: f64) -> RatioExt {
    match BigRational::from_float(f) {
        Some(ratio) => {
            let (numer, denom) = ratio.into_raw();
            RatioExt::Finite(Rational::from_parts(numer, denom).unwrap())
        }
        None => {
            if f.is_nan() {
                RatioExt::Nan
            } else if f.is_sign_positive() {
                RatioExt::Inf
            } else {
                RatioExt::MinusInf
            }
        }
    }
}

fn row(values: [f64; 12]) -> Vec<RatioExt> {
    values.into_iter().map(from_float).collect()
}

fn prepare_problem() -> Problem {
    Problem::normalize(
        ObjectiveFunction::new(
            row([15., 70., 40., 20., 23., 70., 25., 15., 40., 40., 45., 65.]),
            true,
        ),
        vec![
            Constraint::new(
                row([15., 30., 25., 0., 0., 0., 0., 0., 0., 0., 0., 0.]),
                Sign::Greater,
                from_float(300.),
            ),
            Constraint::new(
                row([0., 0., 0., 10., 25., 50., 0., 0., 0., 0., 0., 0.]),
                Sign::Greater,
                from_float(200.),
            ),
            Constraint::new(
                row([0., 0., 0., 0., 0., 0., 20., 10., 30., 0., 0., 0.]),
                Sign::Greater,
                from_float(1000.),
            ),
            Constraint::new(
                row([0., 0., 0., 0., 0., 0., 0., 0., 0., 50., 17., 45.]),
                Sign::Greater,
                from_float(500.),
            ),
            Constraint::new(
                row([1., 0., 0., 1., 0., 0., 1., 0., 0., 1., 0., 0.]),
                Sign::Equals,
                from_float(50.),
            ),
            Constraint::new(
                row([0., 1., 0., 0., 1., 0., 0., 1., 0., 0., 1., 0.]),
                Sign::Equals,
                from_float(20.),
            ),
            Constraint::new(
                row([0., 0., 1., 0., 0., 1., 0., 0., 1., 0., 0., 1.]),
                Sign::Equals,
                from_float(30.),
            ),
        ],
    )
}

fn assert_constraints(problem: &Problem, nrows: usize, ncols: usize, expected: &[f64]) {
    let matrix = problem.constraints();
    assert_eq!(matrix.nrows(), nrows);
    assert_eq!(matrix.ncols(), ncols);
    assert_eq!(expected.len(), nrows * ncols);
    for i in 0..nrows {
        for j in 0..ncols {
            assert_eq!(
                matrix.entry(i, j).unwrap().to_string(),
                expected[i * ncols + j].to_string(),
                "entry ({i}, {j})"
            );
        }
    }
}

fn assert_rhs(problem: &Problem, expected: &[f64]) {
    let rhs: Vec<String> = problem.rhs().iter().map(|x| x.to_string()).collect();
    let expected: Vec<String> = expected.iter().map(|x| x.to_string()).collect();
    assert_eq!(rhs, expected);
}

fn assert_objective(problem: &Problem, expected: Vec<BigNumber<RatioExt>>) {
    let found: Vec<String> =
        problem.objective_function().coefficients().iter().map(|c| c.to_string()).collect();
    let expected: Vec<String> = expected.iter().map(|c| c.to_string()).collect();
    assert_eq!(found, expected);
}

fn lifted(values: &[f64]) -> Vec<BigNumber<RatioExt>> {
    values.iter().map(|v| BigNumber::from(from_float(*v))).collect()
}

fn penalties(count: usize) -> Vec<BigNumber<RatioExt>> {
    (0..count).map(|_| BigNumber::one_big()).collect()
}

#[test]
fn problem_add_constraint_on_var_works_for_3_less_0() {
    let mut problem = prepare_problem();

    problem.add_constraint_on_var(3, Sign::Less, RatioExt::zero());

    assert_constraints(
        &problem,
        8,
        24,
        &[
            15., 30., 25., 0., 0., 0., 0., 0., 0., 0., 0., 0., -1., 0., 0., 0., 1., 0., 0., 0.,
            0., 0., 0., 0., //
            0., 0., 0., 10., 25., 50., 0., 0., 0., 0., 0., 0., 0., -1., 0., 0., 0., 1., 0., 0.,
            0., 0., 0., 0., //
            0., 0., 0., 0., 0., 0., 20., 10., 30., 0., 0., 0., 0., 0., -1., 0., 0., 0., 1., 0.,
            0., 0., 0., 0., //
            0., 0., 0., 0., 0., 0., 0., 0., 0., 50., 17., 45., 0., 0., 0., -1., 0., 0., 0., 1.,
            0., 0., 0., 0., //
            1., 0., 0., 1., 0., 0., 1., 0., 0., 1., 0., 0., 0., 0., 0., 0., 0., 0., 0., 0., 1.,
            0., 0., 0., //
            0., 1., 0., 0., 1., 0., 0., 1., 0., 0., 1., 0., 0., 0., 0., 0., 0., 0., 0., 0., 0.,
            1., 0., 0., //
            0., 0., 1., 0., 0., 1., 0., 0., 1., 0., 0., 1., 0., 0., 0., 0., 0., 0., 0., 0., 0.,
            0., 1., 0., //
            0., 0., 0., 1., 0., 0., 0., 0., 0., 0., 0., 0., 0., 0., 0., 0., 0., 0., 0., 0., 0.,
            0., 0., 1., //
        ],
    );
    assert_rhs(&problem, &[300., 200., 1000., 500., 50., 20., 30., 0.]);
    let mut expected =
        lifted(&[15., 70., 40., 20., 23., 70., 25., 15., 40., 40., 45., 65., 0., 0., 0., 0.]);
    expected.extend(penalties(8));
    assert_objective(&problem, expected);
}

#[test]
fn problem_add_constraint_on_var_works_for_3_less_1() {
    let mut problem = prepare_problem();

    problem.add_constraint_on_var(3, Sign::Less, RatioExt::one());

    assert_constraints(
        &problem,
        8,
        25,
        &[
            15., 30., 25., 0., 0., 0., 0., 0., 0., 0., 0., 0., 0., -1., 0., 0., 0., 1., 0., 0.,
            0., 0., 0., 0., 0., //
            0., 0., 0., 10., 25., 50., 0., 0., 0., 0., 0., 0., 0., 0., -1., 0., 0., 0., 1., 0.,
            0., 0., 0., 0., 0., //
            0., 0., 0., 0., 0., 0., 20., 10., 30., 0., 0., 0., 0., 0., 0., -1., 0., 0., 0., 1.,
            0., 0., 0., 0., 0., //
            0., 0., 0., 0., 0., 0., 0., 0., 0., 50., 17., 45., 0., 0., 0., 0., -1., 0., 0., 0.,
            1., 0., 0., 0., 0., //
            1., 0., 0., 1., 0., 0., 1., 0., 0., 1., 0., 0., 0., 0., 0., 0., 0., 0., 0., 0., 0.,
            1., 0., 0., 0., //
            0., 1., 0., 0., 1., 0., 0., 1., 0., 0., 1., 0., 0., 0., 0., 0., 0., 0., 0., 0., 0.,
            0., 1., 0., 0., //
            0., 0., 1., 0., 0., 1., 0., 0., 1., 0., 0., 1., 0., 0., 0., 0., 0., 0., 0., 0., 0.,
            0., 0., 1., 0., //
            0., 0., 0., 1., 0., 0., 0., 0., 0., 0., 0., 0., 1., 0., 0., 0., 0., 0., 0., 0., 0.,
            0., 0., 0., 1., //
        ],
    );
    assert_rhs(&problem, &[300., 200., 1000., 500., 50., 20., 30., 1.]);
    let mut expected = lifted(&[
        15., 70., 40., 20., 23., 70., 25., 15., 40., 40., 45., 65., 0., 0., 0., 0., 0.,
    ]);
    expected.extend(penalties(8));
    assert_objective(&problem, expected);
}

#[test]
fn problem_add_constraint_on_var_works_for_3_greater_2() {
    let mut problem = prepare_problem();

    problem.add_constraint_on_var(3, Sign::Greater, from_float(2.));

    assert_constraints(
        &problem,
        8,
        25,
        &[
            15., 30., 25., 0., 0., 0., 0., 0., 0., 0., 0., 0., 0., -1., 0., 0., 0., 1., 0., 0.,
            0., 0., 0., 0., 0., //
            0., 0., 0., 10., 25., 50., 0., 0., 0., 0., 0., 0., 0., 0., -1., 0., 0., 0., 1., 0.,
            0., 0., 0., 0., 0., //
            0., 0., 0., 0., 0., 0., 20., 10., 30., 0., 0., 0., 0., 0., 0., -1., 0., 0., 0., 1.,
            0., 0., 0., 0., 0., //
            0., 0., 0., 0., 0., 0., 0., 0., 0., 50., 17., 45., 0., 0., 0., 0., -1., 0., 0., 0.,
            1., 0., 0., 0., 0., //
            1., 0., 0., 1., 0., 0., 1., 0., 0., 1., 0., 0., 0., 0., 0., 0., 0., 0., 0., 0., 0.,
            1., 0., 0., 0., //
            0., 1., 0., 0., 1., 0., 0., 1., 0., 0., 1., 0., 0., 0., 0., 0., 0., 0., 0., 0., 0.,
            0., 1., 0., 0., //
            0., 0., 1., 0., 0., 1., 0., 0., 1., 0., 0., 1., 0., 0., 0., 0., 0., 0., 0., 0., 0.,
            0., 0., 1., 0., //
            0., 0., 0., 1., 0., 0., 0., 0., 0., 0., 0., 0., -1., 0., 0., 0., 0., 0., 0., 0.,
            0., 0., 0., 0., 1., //
        ],
    );
    assert_rhs(&problem, &[300., 200., 1000., 500., 50., 20., 30., 2.]);
    let mut expected = lifted(&[
        15., 70., 40., 20., 23., 70., 25., 15., 40., 40., 45., 65., 0., 0., 0., 0., 0.,
    ]);
    expected.extend(penalties(8));
    assert_objective(&problem, expected);
}

#[test]
fn problem_normalize_works_with_my_variant() {
    let problem = prepare_problem();
    let mut expected =
        lifted(&[15., 70., 40., 20., 23., 70., 25., 15., 40., 40., 45., 65., 0., 0., 0., 0.]);
    expected.extend(penalties(7));
    assert_objective(&problem, expected);
    assert_constraints(
        &problem,
        7,
        23,
        &[
            15., 30., 25., 0., 0., 0., 0., 0., 0., 0., 0., 0., -1., 0., 0., 0., 1., 0., 0., 0.,
            0., 0., 0., //
            0., 0., 0., 10., 25., 50., 0., 0., 0., 0., 0., 0., 0., -1., 0., 0., 0., 1., 0., 0.,
            0., 0., 0., //
            0., 0., 0., 0., 0., 0., 20., 10., 30., 0., 0., 0., 0., 0., -1., 0., 0., 0., 1., 0.,
            0., 0., 0., //
            0., 0., 0., 0., 0., 0., 0., 0., 0., 50., 17., 45., 0., 0., 0., -1., 0., 0., 0., 1.,
            0., 0., 0., //
            1., 0., 0., 1., 0., 0., 1., 0., 0., 1., 0., 0., 0., 0., 0., 0., 0., 0., 0., 0., 1.,
            0., 0., //
            0., 1., 0., 0., 1., 0., 0., 1., 0., 0., 1., 0., 0., 0., 0., 0., 0., 0., 0., 0., 0.,
            1., 0., //
            0., 0., 1., 0., 0., 1., 0., 0., 1., 0., 0., 1., 0., 0., 0., 0., 0., 0., 0., 0., 0.,
            0., 1., //
        ],
    );
    assert_rhs(&problem, &[300., 200., 1000., 500., 50., 20., 30.]);
}

fn whole(n: i64) -> RatioExt {
    RatioExt::from_i64(n)
}

fn wholes(values: &[i64]) -> Vec<RatioExt> {
    values.iter().map(|v| whole(*v)).collect()
}

fn texts(values: &[RatioExt]) -> Vec<String> {
    values.iter().map(|v| v.to_string()).collect()
}

fn matrix_rows(problem: &Problem) -> Vec<Vec<String>> {
    let matrix = problem.constraints();
    (0..matrix.nrows())
        .map(|i| (0..matrix.ncols()).map(|j| matrix.entry(i, j).unwrap().to_string()).collect())
        .collect()
}

#[test]
fn constraint_times_one_is_unchanged() {
    let c = Constraint::new(wholes(&[3, -4, 0]), Sign::Less, whole(-7));
    let same = c.clone().mul(&RatioExt::one());
    assert_eq!(texts(same.coefficients()), vec!["3", "-4", "0"]);
    assert_eq!(same.sign(), Sign::Less);
    assert_eq!(same.rhs().to_string(), "-7");
}

#[test]
fn constraint_times_minus_one_flips_and_negates() {
    let c = Constraint::new(wholes(&[3, -4, 0]), Sign::Less, whole(-7));
    let flipped = c.clone().mul(&RatioExt::minus_one());
    assert_eq!(texts(flipped.coefficients()), vec!["-3", "4", "0"]);
    assert_eq!(flipped.sign(), Sign::Greater);
    assert_eq!(flipped.rhs().to_string(), "7");
    let back = flipped.mul(&RatioExt::minus_one());
    assert_eq!(texts(back.coefficients()), vec!["3", "-4", "0"]);
    assert_eq!(back.sign(), Sign::Less);
    assert_eq!(back.rhs().to_string(), "-7");
    let mut assigned = c;
    assigned.mul_assign(&whole(-2));
    assert_eq!(texts(assigned.coefficients()), vec!["-6", "8", "0"]);
    assert_eq!(assigned.sign(), Sign::Greater);
    assert_eq!(assigned.rhs().to_string(), "14");
}

#[test]
fn sign_times_a_number() {
    assert_eq!(Sign::Less.mul(&whole(2)), Sign::Less);
    assert_eq!(Sign::Less.mul(&whole(0)), Sign::Less);
    assert_eq!(Sign::Less.mul(&whole(-2)), Sign::Greater);
    assert_eq!(Sign::Greater.mul(&whole(-2)), Sign::Less);
    assert_eq!(Sign::Equals.mul(&whole(-2)), Sign::Equals);
    assert_eq!(Sign::Less.mul(&RatioExt::Inf), Sign::Less);
    assert_eq!(Sign::Less.mul(&RatioExt::MinusInf), Sign::Greater);
    assert_eq!(Sign::Less.mul(&RatioExt::Nan), Sign::Greater);
    let mut sign = Sign::Greater;
    sign.mul_assign(&whole(-1));
    assert_eq!(sign, Sign::Less);
    assert!(Sign::Less.is_less() && Sign::Equals.is_equals() && Sign::Greater.is_greater());
}

#[test]
fn objective_counts_the_coefficients_that_are_not_zero() {
    let f = ObjectiveFunction::new(wholes(&[3, 0, -1, 0, 5]), false);
    assert_eq!(f.n_significant_variables(), 3);
    assert_eq!(f.coefficients().len(), 5);
    assert!(!f.minimization());
    let g = ObjectiveFunction::new(vec![RatioExt::Nan, RatioExt::Inf, RatioExt::zero()], true);
    assert_eq!(g.n_significant_variables(), 2);
}

#[test]
fn normalization_pads_negates_and_adds_columns() {
    // x + 2y <= -4 becomes -x - 2y >= 4; z = 3 is padded; 5x >= 2 stays
    let problem = Problem::new(
        ObjectiveFunction::new(wholes(&[1, 2, 3]), true),
        vec![
            Constraint::new(wholes(&[1, 2]), Sign::Less, whole(-4)),
            Constraint::new(wholes(&[0, 0, 1]), Sign::Equals, whole(3)),
            Constraint::new(wholes(&[5]), Sign::Greater, whole(2)),
        ],
    );
    assert_eq!(
        matrix_rows(&problem),
        vec![
            vec!["-1", "-2", "0", "-1", "0", "1", "0", "0"],
            vec!["0", "0", "1", "0", "0", "0", "1", "0"],
            vec!["5", "0", "0", "0", "-1", "0", "0", "1"],
        ]
    );
    assert_eq!(texts(problem.rhs()), vec!["4", "3", "2"]);
    let objective: Vec<String> =
        problem.objective_function().coefficients().iter().map(|c| c.to_string()).collect();
    assert_eq!(objective, vec!["1", "2", "3", "0", "0", "M", "M", "M"]);
    assert_eq!(problem.objective_function().n_significant_variables(), 3);
}

#[test]
fn maximization_prices_artificial_variables_at_minus_m() {
    let problem = Problem::new(
        ObjectiveFunction::new(wholes(&[1, 2]), false),
        vec![Constraint::new(wholes(&[1, 1]), Sign::Less, whole(4))],
    );
    let objective: Vec<String> =
        problem.objective_function().coefficients().iter().map(|c| c.to_string()).collect();
    assert_eq!(objective, vec!["1", "2", "0", "-M"]);
}

#[test]
fn every_row_has_a_basis_column_after_normalization() {
    let problem = prepare_problem();
    let rows = matrix_rows(&problem);
    let rhs = problem.rhs();
    for i in 0..rows.len() {
        let basis = (0..rows[i].len()).find(|j| {
            (0..rows.len()).all(|r| rows[r][*j] == if r == i { "1" } else { "0" })
        });
        assert!(basis.is_some(), "row {i}");
        assert!(rows[i].iter().any(|entry| entry != "0"));
        assert!(rhs[i].ge(&RatioExt::zero()));
    }
}

#[test]
fn normalizing_normal_constraints_appends_the_identity() {
    let problem = Problem::new(
        ObjectiveFunction::new(wholes(&[4, 5]), true),
        vec![
            Constraint::new(wholes(&[1, 2]), Sign::Equals, whole(3)),
            Constraint::new(wholes(&[6, 7]), Sign::Equals, whole(0)),
        ],
    );
    assert_eq!(
        matrix_rows(&problem),
        vec![vec!["1", "2", "1", "0"], vec!["6", "7", "0", "1"]]
    );
    assert_eq!(texts(problem.rhs()), vec!["3", "0"]);
}

#[test]
fn equality_cut_on_a_program() {
    let mut problem = prepare_problem();
    problem.add_constraint_on_var(11, Sign::Equals, whole(5));
    let rows = matrix_rows(&problem);
    assert_eq!(rows.len(), 8);
    assert_eq!(rows[7].len(), 24);
    for j in 0..24 {
        assert_eq!(rows[7][j], if j == 11 || j == 23 { "1" } else { "0" });
    }
    assert_eq!(problem.rhs()[7].to_string(), "5");
}

#[test]
fn nan_right_hand_side_stays_nan() {
    let problem = Problem::new(
        ObjectiveFunction::new(wholes(&[1]), true),
        vec![Constraint::new(wholes(&[1]), Sign::Less, RatioExt::Nan)],
    );
    assert!(problem.rhs()[0].is_nan());
    assert!(!problem.rhs()[0].ge(&RatioExt::zero()));
    assert_eq!(matrix_rows(&problem), vec![vec!["1", "1", "1"]]);
}

#[test]
fn infinite_right_hand_sides_are_turned_to_plus_infinity() {
    let problem = Problem::new(
        ObjectiveFunction::new(wholes(&[1]), true),
        vec![
            Constraint::new(wholes(&[1]), Sign::Less, RatioExt::MinusInf),
            Constraint::new(wholes(&[1]), Sign::Less, RatioExt::Inf),
        ],
    );
    assert!(problem.rhs()[0].is_inf());
    assert!(problem.rhs()[1].is_inf());
    assert_eq!(
        matrix_rows(&problem),
        vec![vec!["-1", "-1", "0", "1", "0"], vec!["1", "0", "1", "0", "1"]]
    );
}
