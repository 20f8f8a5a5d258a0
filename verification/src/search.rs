//! What the whole-number search gives back.

use vstd::prelude::*;
use crate::basis::value_of;
use crate::cuts::{
    cut_holds, lemma_cut_point, lemma_cut_standard, lemma_point_cut, with_cut_columns, without_cut,
};
use crate::linear::{dot, lemma_dot_same};
use crate::optimality::{extended, law_relaxation_bound, law_relaxation_empty, lemma_extended_point};
use crate::problem::{count_nonzero, normalized, with_cut, ConstraintView, ProblemView, Sign};
use crate::ratio_ext::{ext_add, ext_floor, ext_one, ExtRat};
use crate::rational::is_integral;
use crate::solution::{all_integer, SolutionError, SolutionView};
use crate::solver::{
    branch_result, complete_branch, complete_improve, complete_settle, first_fractional, fits,
    improved, integer_result, lemma_first_fractional, lp_result, no_better, search_is_complete,
    settled,
};
use crate::soundness::{
    constraint_holds, constraint_meets, finite_program, law_relaxation_point,
    lemma_normalized_standard, lemma_point_meets_constraints, point_of, reals, relaxation_point,
    standard,
};

verus! {

/// A solution in whole numbers whose values, none negative, have the property
/// `good`, and whose objective value is what the values cost.
pub open spec fn sound(costs: Seq<ExtRat>, good: spec_fn(Seq<real>) -> bool, r: SolutionView) -> bool {
    &&& r.vars.len() == costs.len()
    &&& all_integer(r.vars)
    &&& forall|j: int|
        0 <= j < r.vars.len() ==> (#[trigger] r.vars[j]) is Finite && value_of(r.vars[j]) >= 0real
    &&& good(reals(r.vars))
    &&& r.fn_val == ExtRat::Finite(dot(costs, reals(r.vars), costs.len() as int))
}

/// Every point of the program has, in its significant variables, the property
/// `good`.
pub open spec fn all_good(p: ProblemView, good: spec_fn(Seq<real>) -> bool) -> bool {
    forall|x: Seq<real>| #[trigger] point_of(p, x) ==> good(x.take(p.n_significant as int))
}

/// The solution of the relaxation of a standard program has rational values,
/// none negative, with the property that every point of the program has, and
/// its objective value is what they cost.
pub proof fn lemma_relaxation_good(
    p: ProblemView,
    costs: Seq<ExtRat>,
    good: spec_fn(Seq<real>) -> bool,
    s: SolutionView,
)
    requires
        standard(p, costs),
        all_good(p, good),
        lp_result(p) == Ok::<SolutionView, SolutionError>(s),
    ensures
        s.vars.len() == costs.len(),
        forall|j: int|
            0 <= j < s.vars.len() ==> (#[trigger] s.vars[j]) is Finite && value_of(s.vars[j])
                >= 0real,
        good(reals(s.vars)),
        s.fn_val == ExtRat::Finite(dot(costs, reals(s.vars), costs.len() as int)),
{
    let x = relaxation_point(p);
    law_relaxation_point(p, costs, s);
    assert(point_of(p, x));
    assert(reals(s.vars) =~= x.take(p.n_significant as int));
    assert forall|j: int| 0 <= j < s.vars.len() implies (#[trigger] s.vars[j]) is Finite
        && value_of(s.vars[j]) >= 0real by {
        assert(x[j] >= 0real);
    }
    lemma_dot_same(costs, costs, x, reals(s.vars), costs.len() as int);
}

/// A cut keeps the property that every point of the program has.
pub proof fn lemma_cut_good(
    p: ProblemView,
    costs: Seq<ExtRat>,
    good: spec_fn(Seq<real>) -> bool,
    i: int,
    sign: Sign,
    rhs: ExtRat,
)
    requires
        standard(p, costs),
        all_good(p, good),
        0 <= i < costs.len(),
        rhs is Finite,
        value_of(rhs) >= 0real,
    ensures
        standard(with_cut(p, i, sign, rhs), costs),
        all_good(with_cut(p, i, sign, rhs), good),
{
    let q = with_cut(p, i, sign, rhs);
    lemma_cut_standard(p, costs, i, sign, rhs);
    assert forall|x: Seq<real>| #[trigger] point_of(q, x) implies good(
        x.take(q.n_significant as int),
    ) by {
        lemma_cut_point(p, costs, i, sign, rhs, x);
        let y = without_cut(p, sign, rhs, x);
        assert(point_of(p, y));
        assert(y.take(p.n_significant as int) =~= x.take(q.n_significant as int));
    }
}

/// What branch and bound gives from the solution of the relaxation of a
/// standard program is a solution in whole numbers with the property that
/// every point of the program has.
pub proof fn law_improved_is_sound(
    p: ProblemView,
    costs: Seq<ExtRat>,
    good: spec_fn(Seq<real>) -> bool,
    s: SolutionView,
)
    requires
        standard(p, costs),
        all_good(p, good),
        lp_result(p) == Ok::<SolutionView, SolutionError>(s),
    ensures
        improved(p, s) matches Ok(r) ==> sound(costs, good, r),
    decreases usize::MAX - p.rows.len(), 1nat,
{
    lemma_relaxation_good(p, costs, good, s);
    lemma_first_fractional(s.vars, 0);
    match first_fractional(s.vars, 0) {
        None => {},
        Some(i) => {
            let whole = ext_floor(s.vars[i]);
            assert(s.vars[i] is Finite && value_of(s.vars[i]) >= 0real);
            let left = branch_result(p, i, Sign::Less, whole, None);
            law_branch_is_sound(p, costs, good, i, Sign::Less, whole, None);
            law_branch_is_sound(p, costs, good, i, Sign::Greater, ext_add(whole, ext_one()), left);
        },
    }
}

/// The incumbent stays a solution in whole numbers with the property `good`
/// through the search of a branch.
pub proof fn law_branch_is_sound(
    p: ProblemView,
    costs: Seq<ExtRat>,
    good: spec_fn(Seq<real>) -> bool,
    i: int,
    sign: Sign,
    rhs: ExtRat,
    best: Option<SolutionView>,
)
    requires
        standard(p, costs),
        all_good(p, good),
        0 <= i < costs.len(),
        rhs is Finite,
        value_of(rhs) >= 0real,
        best matches Some(b) ==> sound(costs, good, b),
    ensures
        branch_result(p, i, sign, rhs, best) matches Some(r) ==> sound(costs, good, r),
    decreases usize::MAX - p.rows.len(), 0nat,
{
    if fits(p) {
        let q = with_cut(p, i, sign, rhs);
        lemma_cut_good(p, costs, good, i, sign, rhs);
        if let Ok(found) = lp_result(q) {
            law_settled_is_sound(q, costs, good, found, best);
        }
    }
}

/// The incumbent stays a solution in whole numbers with the property `good`
/// when the solution of the relaxation of a branch is looked at.
pub proof fn law_settled_is_sound(
    q: ProblemView,
    costs: Seq<ExtRat>,
    good: spec_fn(Seq<real>) -> bool,
    found: SolutionView,
    best: Option<SolutionView>,
)
    requires
        standard(q, costs),
        all_good(q, good),
        lp_result(q) == Ok::<SolutionView, SolutionError>(found),
        best matches Some(b) ==> sound(costs, good, b),
    ensures
        settled(q, found, best) matches Some(r) ==> sound(costs, good, r),
    decreases usize::MAX - q.rows.len(), 2nat,
{
    lemma_relaxation_good(q, costs, good, found);
    if !all_integer(found.vars) {
        law_improved_is_sound(q, costs, good, found);
    }
}

/// On termination of the whole-number search with a solution, for a minimized
/// program of rational numbers whose objective has no zero coefficient and is
/// as wide as its widest constraint: every variable has a whole value that is
/// not negative, the values meet every constraint as it was given, and the
/// value of the objective is the sum of the coefficients times the values.
pub proof fn law_integer_result_is_feasible(
    costs: Seq<ExtRat>,
    cs: Seq<ConstraintView>,
    r: SolutionView,
)
    requires
        finite_program(costs, cs),
        integer_result(normalized(count_nonzero(costs), costs, true, cs)) == Ok::<
            SolutionView,
            SolutionError,
        >(r),
    ensures
        r.vars.len() == costs.len(),
        all_integer(r.vars),
        forall|j: int|
            0 <= j < r.vars.len() ==> (#[trigger] r.vars[j]) is Finite && value_of(r.vars[j])
                >= 0real,
        forall|i: int| 0 <= i < cs.len() ==> constraint_holds(#[trigger] cs[i], r.vars),
        r.fn_val == ExtRat::Finite(dot(costs, reals(r.vars), costs.len() as int)),
{
    let p = normalized(costs.len(), costs, true, cs);
    let good = |y: Seq<real>| forall|i: int| 0 <= i < cs.len() ==> constraint_meets(#[trigger] cs[i], y);
    lemma_normalized_standard(costs, cs);
    assert forall|x: Seq<real>| #[trigger] point_of(p, x) implies good(
        x.take(p.n_significant as int),
    ) by {
        lemma_point_meets_constraints(costs, cs, x);
        let y = x.take(p.n_significant as int);
        assert forall|i: int| 0 <= i < cs.len() implies constraint_meets(#[trigger] cs[i], y) by {
            assert(constraint_meets(cs[i], x));
            assert(cs[i].coefficients.len() <= costs.len());
            lemma_dot_same(
                cs[i].coefficients,
                cs[i].coefficients,
                x,
                y,
                cs[i].coefficients.len() as int,
            );
        }
    }
    let s = lp_result(p)->Ok_0;
    law_improved_is_sound(p, costs, good, s);
}

/// Every number of `y` is whole.
pub open spec fn whole_vector(y: Seq<real>) -> bool {
    forall|j: int| 0 <= j < y.len() ==> is_integral(#[trigger] y[j])
}

/// Every vector of the region is the values of the significant variables of
/// a point of the program, and `lift` gives such a point.
pub open spec fn lifts(
    p: ProblemView,
    inside: Set<Seq<real>>,
    lift: spec_fn(Seq<real>) -> Seq<real>,
) -> bool {
    forall|y: Seq<real>| #[trigger]
        inside.contains(y) ==> y.len() == p.n_significant && point_of(p, lift(y)) && lift(y).take(
            p.n_significant as int,
        ) == y
}

/// The incumbent costs no more than any whole vector of the region; without
/// an incumbent the region holds no whole vector.
pub open spec fn bounds(costs: Seq<ExtRat>, best: Option<SolutionView>, region: Set<Seq<real>>) -> bool {
    match best {
        Some(r) => r.fn_val is Finite && forall|y: Seq<real>| #[trigger]
            region.contains(y) && whole_vector(y) ==> value_of(r.fn_val) <= dot(
                costs,
                y,
                costs.len() as int,
            ),
        None => forall|y: Seq<real>| #[trigger] region.contains(y) ==> !whole_vector(y),
    }
}

/// The vectors of the region that meet the cut `y[i]  sign  rhs`.
pub open spec fn cut_region(inside: Set<Seq<real>>, i: int, sign: Sign, rhs: ExtRat) -> Set<
    Seq<real>,
> {
    Set::new(|y: Seq<real>| inside.contains(y) && cut_holds(sign, rhs, y[i]))
}

/// The result of a search as an incumbent.
pub open spec fn found_or_none(r: Result<SolutionView, SolutionError>) -> Option<SolutionView> {
    match r {
        Ok(x) => Some(x),
        Err(_) => None,
    }
}

/// The solution of the relaxation costs no more than any vector of the
/// region.
proof fn lemma_relaxation_bounds(
    p: ProblemView,
    costs: Seq<ExtRat>,
    inside: Set<Seq<real>>,
    lift: spec_fn(Seq<real>) -> Seq<real>,
    s: SolutionView,
)
    requires
        standard(p, costs),
        lifts(p, inside, lift),
        lp_result(p) == Ok::<SolutionView, SolutionError>(s),
    ensures
        s.fn_val is Finite,
        forall|y: Seq<real>| #[trigger]
            inside.contains(y) ==> value_of(s.fn_val) <= dot(costs, y, costs.len() as int),
{
    law_relaxation_point(p, costs, s);
    assert forall|y: Seq<real>| #[trigger] inside.contains(y) implies value_of(s.fn_val) <= dot(
        costs,
        y,
        costs.len() as int,
    ) by {
        let x = lift(y);
        assert(point_of(p, x));
        law_relaxation_bound(p, costs, s, x);
        assert(x.take(p.n_significant as int) == y);
        assert forall|j: int| 0 <= j < costs.len() implies #[trigger] x[j] == y[j] by {
            assert(x.take(p.n_significant as int)[j] == x[j]);
        }
        lemma_dot_same(costs, costs, x, y, costs.len() as int);
    }
}

/// A search from the solution of the relaxation of a standard program that
/// gave up no branch ends with a solution that costs no more than any whole
/// vector of the region of the program, or, where the region holds no whole
/// vector, without one.
pub proof fn law_improved_is_optimal(
    p: ProblemView,
    costs: Seq<ExtRat>,
    inside: Set<Seq<real>>,
    lift: spec_fn(Seq<real>) -> Seq<real>,
    s: SolutionView,
)
    requires
        standard(p, costs),
        lifts(p, inside, lift),
        lp_result(p) == Ok::<SolutionView, SolutionError>(s),
        complete_improve(p, s),
    ensures
        bounds(costs, found_or_none(improved(p, s)), inside),
    decreases usize::MAX - p.rows.len(), 1nat,
{
    let everything = |y: Seq<real>| true;
    lemma_relaxation_good(p, costs, everything, s);
    lemma_relaxation_bounds(p, costs, inside, lift, s);
    lemma_first_fractional(s.vars, 0);
    match first_fractional(s.vars, 0) {
        None => {},
        Some(i) => {
            let whole = ext_floor(s.vars[i]);
            let above = ext_add(whole, ext_one());
            assert(s.vars[i] is Finite && value_of(s.vars[i]) >= 0real);
            let floor = value_of(s.vars[i]).floor();
            assert(whole == ExtRat::Finite(floor as real));
            assert(above == ExtRat::Finite(floor as real + 1real));
            let nothing = Set::<Seq<real>>::empty();
            let left = branch_result(p, i, Sign::Less, whole, None);
            law_branch_is_optimal(p, costs, inside, lift, i, Sign::Less, whole, None, nothing);
            let left_region = nothing.union(cut_region(inside, i, Sign::Less, whole));
            law_branch_is_optimal(p, costs, inside, lift, i, Sign::Greater, above, left, left_region);
            let both = left_region.union(cut_region(inside, i, Sign::Greater, above));
            let right = branch_result(p, i, Sign::Greater, above, left);
            assert(bounds(costs, right, both));
            assert forall|y: Seq<real>| #[trigger] inside.contains(y) && whole_vector(
                y,
            ) implies both.contains(y) by {
                assert(point_of(p, lift(y)));
                assert(lift(y).take(p.n_significant as int)[i] == lift(y)[i]);
                assert(y[i] >= 0real);
                assert(is_integral(y[i]));
                let k = y[i].floor();
                assert(k <= floor || k >= floor + 1);
                if k <= floor {
                    assert(cut_holds(Sign::Less, whole, y[i]));
                    assert(cut_region(inside, i, Sign::Less, whole).contains(y));
                } else {
                    assert(cut_holds(Sign::Greater, above, y[i]));
                    assert(cut_region(inside, i, Sign::Greater, above).contains(y));
                }
            }
        },
    }
}

/// The search of a branch that gave up nothing leaves an incumbent that
/// costs no more than any whole vector of what was searched before and of the
/// branch.
pub proof fn law_branch_is_optimal(
    p: ProblemView,
    costs: Seq<ExtRat>,
    inside: Set<Seq<real>>,
    lift: spec_fn(Seq<real>) -> Seq<real>,
    i: int,
    sign: Sign,
    rhs: ExtRat,
    best: Option<SolutionView>,
    covered: Set<Seq<real>>,
)
    requires
        standard(p, costs),
        lifts(p, inside, lift),
        0 <= i < costs.len(),
        rhs is Finite,
        value_of(rhs) >= 0real,
        complete_branch(p, i, sign, rhs, best),
        bounds(costs, best, covered),
    ensures
        bounds(
            costs,
            branch_result(p, i, sign, rhs, best),
            covered.union(cut_region(inside, i, sign, rhs)),
        ),
    decreases usize::MAX - p.rows.len(), 0nat,
{
    let q = with_cut(p, i, sign, rhs);
    let region = cut_region(inside, i, sign, rhs);
    let lift_q = |y: Seq<real>| with_cut_columns(p, i, sign, rhs, lift(y));
    lemma_cut_standard(p, costs, i, sign, rhs);
    assert forall|y: Seq<real>| #[trigger] region.contains(y) implies y.len() == q.n_significant
        && point_of(q, lift_q(y)) && lift_q(y).take(q.n_significant as int) == y by {
        assert(inside.contains(y));
        let x = lift(y);
        assert(x.take(p.n_significant as int)[i] == x[i]);
        lemma_point_cut(p, costs, i, sign, rhs, x);
        assert(lift_q(y).take(q.n_significant as int) =~= x.take(p.n_significant as int));
    }
    assert(lifts(q, region, lift_q));
    match lp_result(q) {
        Err(_) => {
            assert forall|y: Seq<real>| #[trigger] region.contains(y) implies false by {
                law_relaxation_empty(q, costs, lift_q(y));
            }
        },
        Ok(found) => {
            law_settled_is_optimal(q, costs, region, lift_q, found, best, covered);
        },
    }
}

/// Looking at the solution of the relaxation of a branch, in a search that
/// gave up nothing, leaves an incumbent that costs no more than any whole
/// vector of what was searched before and of the branch.
pub proof fn law_settled_is_optimal(
    q: ProblemView,
    costs: Seq<ExtRat>,
    region: Set<Seq<real>>,
    lift: spec_fn(Seq<real>) -> Seq<real>,
    found: SolutionView,
    best: Option<SolutionView>,
    covered: Set<Seq<real>>,
)
    requires
        standard(q, costs),
        lifts(q, region, lift),
        lp_result(q) == Ok::<SolutionView, SolutionError>(found),
        complete_settle(q, found, best),
        bounds(costs, best, covered),
    ensures
        bounds(costs, settled(q, found, best), covered.union(region)),
    decreases usize::MAX - q.rows.len(), 2nat,
{
    let everything = |y: Seq<real>| true;
    lemma_relaxation_good(q, costs, everything, found);
    lemma_relaxation_bounds(q, costs, region, lift, found);
    match best {
        None => {
            if !all_integer(found.vars) {
                law_improved_is_optimal(q, costs, region, lift, found);
                law_improved_is_sound(q, costs, everything, found);
            }
        },
        Some(incumbent) => {
            if no_better(q.minimization, incumbent.fn_val, found.fn_val) {
            } else if all_integer(found.vars) {
            } else {
                law_improved_is_optimal(q, costs, region, lift, found);
                law_improved_is_sound(q, costs, everything, found);
            }
        },
    }
}

/// On termination with a solution of a whole-number search that gave up no
/// branch, for a minimized program of rational numbers whose objective has no
/// zero coefficient and is as wide as its widest constraint: no vector of
/// whole numbers, none negative, that meets every constraint costs less than
/// the solution.
pub proof fn law_integer_result_is_optimal(
    costs: Seq<ExtRat>,
    cs: Seq<ConstraintView>,
    r: SolutionView,
    y: Seq<real>,
)
    requires
        finite_program(costs, cs),
        integer_result(normalized(count_nonzero(costs), costs, true, cs)) == Ok::<
            SolutionView,
            SolutionError,
        >(r),
        search_is_complete(normalized(count_nonzero(costs), costs, true, cs)),
        y.len() == costs.len(),
        whole_vector(y),
        forall|j: int| 0 <= j < y.len() ==> #[trigger] y[j] >= 0real,
        forall|i: int| 0 <= i < cs.len() ==> constraint_meets(#[trigger] cs[i], y),
    ensures
        r.fn_val is Finite,
        value_of(r.fn_val) <= dot(costs, y, costs.len() as int),
{
    let p = normalized(costs.len(), costs, true, cs);
    let inside = Set::new(
        |z: Seq<real>|
            z.len() == costs.len() && (forall|j: int| 0 <= j < z.len() ==> #[trigger] z[j] >= 0real)
                && (forall|i: int| 0 <= i < cs.len() ==> constraint_meets(#[trigger] cs[i], z)),
    );
    let lift = |z: Seq<real>| extended(cs, z, cs.len() as int);
    lemma_normalized_standard(costs, cs);
    assert forall|z: Seq<real>| #[trigger] inside.contains(z) implies z.len() == p.n_significant
        && point_of(p, lift(z)) && lift(z).take(p.n_significant as int) == z by {
        lemma_extended_point(costs, cs, z);
        assert(lift(z).take(p.n_significant as int) =~= z);
    }
    let s = lp_result(p)->Ok_0;
    law_improved_is_optimal(p, costs, inside, lift, s);
    assert(inside.contains(y));
}

} // verus!
