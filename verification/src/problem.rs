//! Linear programs: the objective, the constraints, and their canonical form.

use vstd::prelude::*;
use crate::big_number::{
    bigm_from, bigm_neg, bigm_one_big, bigm_values, bigm_zero, clone_bigm_values, BigM, BigNumber,
};
use crate::matrix::RatioMatrix;
use crate::ratio_ext::{
    clone_values, ext_eq, ext_ge, ext_lt, ext_minus_one, ext_mul, ext_one, ext_zero, values, ExtRat,
    RatioExt,
};

verus! {

/// The relation between the two sides of a constraint.
#[derive(Debug, Clone, Copy, PartialEq, Eq, PartialOrd, Ord, Hash, Structural)]
pub enum Sign {
    Less,
    Equals,
    Greater,
}

/// A relation with its sides exchanged.
pub open spec fn sign_flip(sign: Sign) -> Sign {
    match sign {
        Sign::Less => Sign::Greater,
        Sign::Equals => Sign::Equals,
        Sign::Greater => Sign::Less,
    }
}

/// The relation that holds after both sides were multiplied by `k`: the same
/// for `k >= 0`, the flipped one otherwise.
pub open spec fn sign_mul(sign: Sign, k: ExtRat) -> Sign {
    if ext_ge(k, ext_zero()) {
        sign
    } else {
        sign_flip(sign)
    }
}

impl Sign {
    /// Whether this is `Less`.
    pub fn is_less(&self) -> (b: bool)
        ensures
            b == (*self == Sign::Less),
    {
        matches!(self, Sign::Less)
    }

    /// Whether this is `Equals`.
    pub fn is_equals(&self) -> (b: bool)
        ensures
            b == (*self == Sign::Equals),
    {
        matches!(self, Sign::Equals)
    }

    /// Whether this is `Greater`.
    pub fn is_greater(&self) -> (b: bool)
        ensures
            b == (*self == Sign::Greater),
    {
        matches!(self, Sign::Greater)
    }

    /// The relation after both sides were multiplied by `rhs`.
    pub fn mul(self, rhs: &RatioExt) -> (r: Sign)
        ensures
            r == sign_mul(self, rhs@),
    {
        if rhs.ge(&RatioExt::zero()) {
            return self;
        }
        match self {
            Sign::Less => Sign::Greater,
            Sign::Equals => self,
            Sign::Greater => Sign::Less,
        }
    }

    /// Replaces the relation by the one after a multiplication by `rhs`.
    pub fn mul_assign(&mut self, rhs: &RatioExt)
        ensures
            *final(self) == sign_mul(*old(self), rhs@),
    {
        *self = self.mul(rhs);
    }
}

/// Every number of `v` multiplied by `k`.
pub open spec fn scaled(v: Seq<ExtRat>, k: ExtRat) -> Seq<ExtRat> {
    Seq::new(v.len(), |j: int| ext_mul(v[j], k))
}

/// Every number of `v` multiplied by `k`.
pub fn scale_all(v: &Vec<RatioExt>, k: &RatioExt) -> (r: Vec<RatioExt>)
    ensures
        values(r@) == scaled(values(v@), k@),
{
    let mut r: Vec<RatioExt> = Vec::new();
    let mut j: usize = 0;
    while j < v.len()
        invariant
            j <= v.len(),
            r.len() == j,
            forall|t: int| 0 <= t < j ==> (#[trigger] r@[t])@ == ext_mul(v@[t]@, k@),
        decreases v.len() - j,
    {
        r.push(v[j].mul(k));
        j += 1;
    }
    assert(values(r@) =~= scaled(values(v@), k@));
    r
}

/// The mathematical value of a [`Constraint`].
pub struct ConstraintView {
    pub coefficients: Seq<ExtRat>,
    pub sign: Sign,
    pub rhs: ExtRat,
}

/// A constraint with both sides multiplied by `k`.
pub open spec fn constraint_mul(c: ConstraintView, k: ExtRat) -> ConstraintView {
    ConstraintView {
        coefficients: scaled(c.coefficients, k),
        sign: sign_mul(c.sign, k),
        rhs: ext_mul(c.rhs, k),
    }
}

/// A linear constraint: coefficients, a relation, and a right-hand side.
#[derive(Debug)]
pub struct Constraint {
    coefficients: Vec<RatioExt>,
    sign: Sign,
    rhs: RatioExt,
}

impl View for Constraint {
    type V = ConstraintView;

    closed spec fn view(&self) -> ConstraintView {
        ConstraintView { coefficients: values(self.coefficients@), sign: self.sign, rhs: self.rhs@ }
    }
}

impl Constraint {
    /// The constraint `coefficients · x  sign  rhs`.
    pub fn new(coefficients: Vec<RatioExt>, sign: Sign, rhs: RatioExt) -> (c: Constraint)
        ensures
            c@ == (ConstraintView { coefficients: values(coefficients@), sign, rhs: rhs@ }),
    {
        Constraint { coefficients, sign, rhs }
    }

    /// The coefficients.
    pub fn coefficients(&self) -> (r: &Vec<RatioExt>)
        ensures
            values(r@) == self@.coefficients,
    {
        &self.coefficients
    }

    /// The relation.
    pub fn sign(&self) -> (r: Sign)
        ensures
            r == self@.sign,
    {
        self.sign
    }

    /// The right-hand side.
    pub fn rhs(&self) -> (r: &RatioExt)
        ensures
            r@ == self@.rhs,
    {
        &self.rhs
    }

    /// The constraint with both sides multiplied by `rhs`.
    pub fn mul(self, rhs: &RatioExt) -> (c: Constraint)
        ensures
            c@ == constraint_mul(self@, rhs@),
    {
        Constraint {
            coefficients: scale_all(&self.coefficients, rhs),
            rhs: self.rhs.mul(rhs),
            sign: self.sign.mul(rhs),
        }
    }

    /// Multiplies both sides by `rhs`.
    pub fn mul_assign(&mut self, rhs: &RatioExt)
        ensures
            final(self)@ == constraint_mul(old(self)@, rhs@),
    {
        self.coefficients = scale_all(&self.coefficients, rhs);
        self.rhs.mul_assign(rhs);
        self.sign.mul_assign(rhs);
    }
}

impl Clone for Constraint {
    fn clone(&self) -> (r: Self)
        ensures
            r@ == self@,
    {
        let coefficients = clone_values(&self.coefficients);
        Constraint { coefficients, sign: self.sign, rhs: self.rhs.clone() }
    }
}

/// Multiplying a constraint by one changes nothing.
pub proof fn law_constraint_mul_one(c: ConstraintView)
    ensures
        constraint_mul(c, ext_one()) == c,
{
    assert forall|j: int| 0 <= j < c.coefficients.len() implies ext_mul(
        #[trigger] c.coefficients[j],
        ext_one(),
    ) == c.coefficients[j] by {
        crate::ratio_ext::law_mul_one(c.coefficients[j]);
    }
    crate::ratio_ext::law_mul_one(c.rhs);
    assert(scaled(c.coefficients, ext_one()) =~= c.coefficients);
}

/// Multiplying a constraint by minus one flips the relation and negates the
/// coefficients and the right-hand side; doing it twice changes nothing.
pub proof fn law_constraint_mul_minus_one(c: ConstraintView)
    ensures
        constraint_mul(c, ext_minus_one()).sign == sign_flip(c.sign),
        constraint_mul(c, ext_minus_one()).rhs == crate::ratio_ext::ext_neg(c.rhs),
        constraint_mul(c, ext_minus_one()).coefficients.len() == c.coefficients.len(),
        forall|j: int|
            0 <= j < c.coefficients.len() ==> #[trigger] constraint_mul(
                c,
                ext_minus_one(),
            ).coefficients[j] == crate::ratio_ext::ext_neg(c.coefficients[j]),
        constraint_mul(constraint_mul(c, ext_minus_one()), ext_minus_one()) == c,
{
    crate::ratio_ext::lemma_mul_minus_one(c.rhs);
    assert forall|j: int| 0 <= j < c.coefficients.len() implies ext_mul(
        #[trigger] c.coefficients[j],
        ext_minus_one(),
    ) == crate::ratio_ext::ext_neg(c.coefficients[j]) && ext_mul(
        ext_mul(c.coefficients[j], ext_minus_one()),
        ext_minus_one(),
    ) == c.coefficients[j] by {
        crate::ratio_ext::lemma_mul_minus_one(c.coefficients[j]);
    }
    assert(scaled(scaled(c.coefficients, ext_minus_one()), ext_minus_one()) =~= c.coefficients);
}

/// How many numbers of `v` are not equal to zero. `NaN` and the infinities
/// count.
pub open spec fn count_nonzero(v: Seq<ExtRat>) -> nat
    decreases v.len(),
{
    if v.len() == 0 {
        0
    } else {
        count_nonzero(v.drop_last()) + if ext_eq(v.last(), ext_zero()) {
            0nat
        } else {
            1nat
        }
    }
}

/// Numbers of which none is zero are all counted.
pub proof fn lemma_count_nonzero_full(v: Seq<ExtRat>)
    requires
        forall|j: int| 0 <= j < v.len() ==> !ext_eq(#[trigger] v[j], ext_zero()),
    ensures
        count_nonzero(v) == v.len(),
    decreases v.len(),
{
    if v.len() > 0 {
        assert forall|j: int| 0 <= j < v.drop_last().len() implies !ext_eq(
            #[trigger] v.drop_last()[j],
            ext_zero(),
        ) by {
            assert(v.drop_last()[j] == v[j]);
        }
        lemma_count_nonzero_full(v.drop_last());
        assert(v.last() == v[v.len() - 1]);
    }
}

/// An objective: a row of coefficients, a direction, and the number of
/// coefficients that were not zero when it was made.
#[derive(Debug)]
pub struct ObjectiveFunction<T> {
    pub(crate) n_significant_variables: usize,
    pub(crate) coefficients: Vec<T>,
    pub(crate) minimization: bool,
}

impl<T> ObjectiveFunction<T> {
    #[verifier::type_invariant]
    spec fn counted(self) -> bool {
        self.n_significant_variables <= self.coefficients.len()
    }

    /// The number of coefficients that were not zero when the objective was
    /// made.
    pub open(crate) spec fn spec_n_significant(&self) -> nat {
        self.n_significant_variables as nat
    }

    /// The coefficients.
    pub open(crate) spec fn spec_coefficients(&self) -> Seq<T> {
        self.coefficients@
    }

    /// Whether the objective is to be minimized.
    pub open(crate) spec fn spec_minimization(&self) -> bool {
        self.minimization
    }

    /// The number of coefficients that were not zero when the objective was
    /// made.
    pub fn n_significant_variables(&self) -> (n: usize)
        ensures
            n == self.spec_n_significant(),
            n <= self.spec_coefficients().len(),
    {
        proof {
            use_type_invariant(self);
        }
        self.n_significant_variables
    }

    /// The coefficients.
    pub fn coefficients(&self) -> (r: &Vec<T>)
        ensures
            r@ == self.spec_coefficients(),
    {
        &self.coefficients
    }

    /// Whether the objective is to be minimized.
    pub fn minimization(&self) -> (b: bool)
        ensures
            b == self.spec_minimization(),
    {
        self.minimization
    }
}

impl ObjectiveFunction<RatioExt> {
    /// The objective with these coefficients and this direction.
    pub fn new(coefficients: Vec<RatioExt>, minimization: bool) -> (f: Self)
        ensures
            f.spec_coefficients() == coefficients@,
            f.spec_minimization() == minimization,
            f.spec_n_significant() == count_nonzero(values(coefficients@)),
    {
        let mut count: usize = 0;
        let mut j: usize = 0;
        let zero = RatioExt::zero();
        while j < coefficients.len()
            invariant
                j <= coefficients.len(),
                count <= j,
                zero@ == ext_zero(),
                count == count_nonzero(values(coefficients@).take(j as int)),
            decreases coefficients.len() - j,
        {
            proof {
                let next = values(coefficients@).take(j + 1);
                assert(next.drop_last() =~= values(coefficients@).take(j as int));
                assert(next.last() == coefficients@[j as int]@);
            }
            if coefficients[j] != zero {
                count += 1;
            }
            j += 1;
        }
        assert(values(coefficients@).take(j as int) =~= values(coefficients@));
        ObjectiveFunction { n_significant_variables: count, coefficients, minimization }
    }
}

/// The values of a sequence of constraints.
pub open spec fn constraint_views(v: Seq<Constraint>) -> Seq<ConstraintView> {
    Seq::new(v.len(), |i: int| v[i]@)
}

/// The largest number of coefficients among `base` and the constraints.
pub open spec fn max_width(base: nat, cs: Seq<ConstraintView>) -> nat
    decreases cs.len(),
{
    if cs.len() == 0 {
        base
    } else {
        let rest = max_width(base, cs.drop_last());
        if cs.last().coefficients.len() > rest {
            cs.last().coefficients.len()
        } else {
            rest
        }
    }
}

/// A constraint as the canonical form holds it: multiplied by minus one where
/// its right-hand side is below zero.
pub open spec fn oriented(c: ConstraintView) -> ConstraintView {
    if ext_lt(c.rhs, ext_zero()) {
        constraint_mul(c, ext_minus_one())
    } else {
        c
    }
}

/// The number at place `j` of `v`, or zero behind its end.
pub open spec fn padded(v: Seq<ExtRat>, j: int) -> ExtRat {
    if 0 <= j < v.len() {
        v[j]
    } else {
        ext_zero()
    }
}

/// How many of the first `upto` constraints are inequalities.
pub open spec fn slack_count(cs: Seq<ConstraintView>, upto: int) -> nat
    decreases upto,
{
    if upto <= 0 {
        0
    } else {
        slack_count(cs, upto - 1) + if cs[upto - 1].sign != Sign::Equals {
            1nat
        } else {
            0nat
        }
    }
}

/// The entry in row `i` and column `j` of the canonical matrix, whose first
/// `w` columns hold the given coefficients. Behind them stands one slack
/// column for each inequality, in the order of the constraints, with `1` for
/// `Less` and `-1` for `Greater` in the row of its constraint; then one
/// artificial column for each constraint, with `1` in its row.
pub open spec fn normalized_entry(cs: Seq<ConstraintView>, w: nat, i: int, j: int) -> ExtRat {
    let s = slack_count(cs, cs.len() as int);
    if j < w {
        padded(oriented(cs[i]).coefficients, j)
    } else if j < w + s {
        if cs[i].sign != Sign::Equals && slack_count(cs, i) == j - w {
            if oriented(cs[i]).sign == Sign::Less {
                ext_one()
            } else {
                ext_minus_one()
            }
        } else {
            ext_zero()
        }
    } else {
        if j - w - s == i {
            ext_one()
        } else {
            ext_zero()
        }
    }
}

/// The price of an artificial variable: `M` when minimizing, `-M` when
/// maximizing.
pub open spec fn penalty(minimization: bool) -> BigM {
    if minimization {
        bigm_one_big()
    } else {
        bigm_neg(bigm_one_big())
    }
}

/// The objective coefficient of column `j` in the canonical form: the given
/// coefficient, zero for a slack column, the penalty for an artificial one.
pub open spec fn normalized_cost(
    coefficients: Seq<ExtRat>,
    minimization: bool,
    w: nat,
    s: nat,
    j: int,
) -> BigM {
    if j < w {
        bigm_from(padded(coefficients, j))
    } else if j < w + s {
        bigm_zero()
    } else {
        penalty(minimization)
    }
}

/// The mathematical value of a [`Problem`].
pub struct ProblemView {
    pub n_significant: nat,
    pub minimization: bool,
    pub coefficients: Seq<BigM>,
    pub rows: Seq<Seq<ExtRat>>,
    pub rhs: Seq<ExtRat>,
}

/// The canonical form of the program with the given objective and constraints.
pub open spec fn normalized(
    n_significant: nat,
    coefficients: Seq<ExtRat>,
    minimization: bool,
    cs: Seq<ConstraintView>,
) -> ProblemView {
    let w = max_width(coefficients.len(), cs);
    let s = slack_count(cs, cs.len() as int);
    let n = w + s + cs.len();
    ProblemView {
        n_significant,
        minimization,
        coefficients: Seq::new(n, |j: int| normalized_cost(coefficients, minimization, w, s, j)),
        rows: Seq::new(cs.len(), |i: int| Seq::new(n, |j: int| normalized_entry(cs, w, i, j))),
        rhs: Seq::new(cs.len(), |i: int| oriented(cs[i]).rhs),
    }
}

/// The relation of a cut: `Less` with a zero right-hand side becomes `Equals`,
/// since no variable is negative.
pub open spec fn cut_sign(sign: Sign, rhs: ExtRat) -> Sign {
    if sign == Sign::Less && ext_eq(rhs, ext_zero()) {
        Sign::Equals
    } else {
        sign
    }
}

/// The row of a cut on variable `i`: one at `i`, `slack` at `slack_at` where
/// that is a column, one in the last column, zero elsewhere.
pub open spec fn cut_row(len: nat, i: int, slack_at: int, slack: ExtRat) -> Seq<ExtRat> {
    Seq::new(
        len,
        |j: int|
            if j == slack_at {
                slack
            } else if j == i || j == len - 1 {
                ext_one()
            } else {
                ext_zero()
            },
    )
}

/// A program with the constraint `x_i  sign  rhs` added in canonical form.
///
/// An equality brings one new column, its artificial variable, at the end. An
/// inequality brings a slack column as well, put in behind the significant
/// variables, with `1` for `Less` and `-1` for `Greater`.
pub open spec fn with_cut(p: ProblemView, i: int, sign: Sign, rhs: ExtRat) -> ProblemView {
    let sign = cut_sign(sign, rhs);
    let n = p.coefficients.len();
    let at = p.n_significant as int;
    if sign == Sign::Equals {
        ProblemView {
            n_significant: p.n_significant,
            minimization: p.minimization,
            coefficients: p.coefficients.push(penalty(p.minimization)),
            rows: Seq::new(p.rows.len(), |r: int| p.rows[r].push(ext_zero())).push(
                cut_row(n + 1, i, -1, ext_zero()),
            ),
            rhs: p.rhs.push(rhs),
        }
    } else {
        ProblemView {
            n_significant: p.n_significant,
            minimization: p.minimization,
            coefficients: p.coefficients.insert(at, bigm_zero()).push(penalty(p.minimization)),
            rows: Seq::new(
                p.rows.len(),
                |r: int| p.rows[r].push(ext_zero()).insert(at, ext_zero()),
            ).push(
                cut_row(
                    n + 2,
                    i,
                    at,
                    if sign == Sign::Less {
                        ext_one()
                    } else {
                        ext_minus_one()
                    },
                ),
            ),
            rhs: p.rhs.push(rhs),
        }
    }
}

/// A linear program in canonical form: every constraint an equality with its
/// own artificial variable, and the objective in Big-M numbers.
#[derive(Debug)]
pub struct Problem {
    pub(crate) objective_function: ObjectiveFunction<BigNumber<RatioExt>>,
    pub(crate) constraints: RatioMatrix,
    pub(crate) rhs: Vec<RatioExt>,
}

impl View for Problem {
    type V = ProblemView;

    open(crate) spec fn view(&self) -> ProblemView {
        ProblemView {
            n_significant: self.objective_function.spec_n_significant(),
            minimization: self.objective_function.spec_minimization(),
            coefficients: bigm_values(self.objective_function.spec_coefficients()),
            rows: self.constraints@,
            rhs: values(self.rhs@),
        }
    }
}

/// The matrix has one row for each right-hand side and one column for each
/// objective coefficient.
pub open spec fn well_shaped(p: ProblemView) -> bool {
    &&& p.rows.len() == p.rhs.len()
    &&& forall|i: int| 0 <= i < p.rows.len() ==> (#[trigger] p.rows[i]).len() == p.coefficients.len()
}

/// The canonical form: behind the significant variables and the slack
/// variables, whose objective coefficients have no `M` part, stands one
/// artificial column for each row, priced at the penalty, with a one in its
/// row and zeros in the others.
pub open spec fn canonical(p: ProblemView) -> bool {
    let m = p.rows.len() as int;
    let n = p.coefficients.len() as int;
    &&& well_shaped(p)
    &&& p.n_significant + m <= n
    &&& forall|j: int| 0 <= j < n - m ==> (#[trigger] p.coefficients[j]).big == ext_zero()
    &&& forall|i: int| 0 <= i < m ==> #[trigger] p.coefficients[n - m + i] == penalty(p.minimization)
    &&& forall|r: int, i: int|
        0 <= r < m && 0 <= i < m ==> #[trigger] p.rows[r][n - m + i] == if r == i {
            ext_one()
        } else {
            ext_zero()
        }
}

/// Normalization gives the canonical form: every row has its own unit column.
pub proof fn law_normalized_is_canonical(
    n_significant: nat,
    coefficients: Seq<ExtRat>,
    minimization: bool,
    cs: Seq<ConstraintView>,
)
    requires
        n_significant <= coefficients.len(),
    ensures
        canonical(normalized(n_significant, coefficients, minimization, cs)),
{
    lemma_max_width_bound(coefficients.len(), cs, 0);
}

/// Column `j` holds a one in row `i` and zeros in the other rows.
pub open spec fn unit_column(rows: Seq<Seq<ExtRat>>, j: int, i: int) -> bool {
    forall|r: int|
        0 <= r < rows.len() ==> #[trigger] rows[r][j] == if r == i {
            ext_one()
        } else {
            ext_zero()
        }
}

/// Row `i` has a basis column: a column with a one in that row and zeros in
/// the others.
pub open spec fn has_basis_column(p: ProblemView, i: int) -> bool {
    exists|j: int| 0 <= j < p.coefficients.len() && #[trigger] unit_column(p.rows, j, i)
}

/// Row `i` holds an entry that is not zero.
pub open spec fn row_is_not_zero(p: ProblemView, i: int) -> bool {
    exists|j: int| 0 <= j < p.rows[i].len() && #[trigger] p.rows[i][j] != ext_zero()
}

/// In canonical form every row has a basis column, and no row is all zero.
pub proof fn law_canonical_rows(p: ProblemView)
    requires
        canonical(p),
    ensures
        forall|i: int| 0 <= i < p.rows.len() ==> #[trigger] has_basis_column(p, i),
        forall|i: int| 0 <= i < p.rows.len() ==> #[trigger] row_is_not_zero(p, i),
{
    let m = p.rows.len() as int;
    let n = p.coefficients.len() as int;
    assert forall|i: int| 0 <= i < m implies #[trigger] has_basis_column(p, i) by {
        assert forall|r: int| 0 <= r < m implies #[trigger] p.rows[r][n - m + i] == if r == i {
            ext_one()
        } else {
            ext_zero()
        } by {}
        assert(unit_column(p.rows, n - m + i, i));
    }
    assert forall|i: int| 0 <= i < m implies #[trigger] row_is_not_zero(p, i) by {
        assert(p.rows[i][n - m + i] == ext_one());
        assert(p.rows[i].len() == n);
    }
}

/// After normalization no right-hand side is below zero, as long as none was
/// `NaN`.
pub proof fn law_normalized_rhs(
    n_significant: nat,
    coefficients: Seq<ExtRat>,
    minimization: bool,
    cs: Seq<ConstraintView>,
)
    requires
        forall|i: int| 0 <= i < cs.len() ==> !((#[trigger] cs[i]).rhs is Nan),
    ensures
        forall|i: int|
            0 <= i < cs.len() ==> ext_ge(
                #[trigger] normalized(n_significant, coefficients, minimization, cs).rhs[i],
                ext_zero(),
            ),
{
    let p = normalized(n_significant, coefficients, minimization, cs);
    assert forall|i: int| 0 <= i < cs.len() implies ext_ge(#[trigger] p.rhs[i], ext_zero()) by {
        assert(!(cs[i].rhs is Nan));
        crate::ratio_ext::lemma_mul_minus_one(cs[i].rhs);
    }
}

/// Row `i` of the identity matrix of size `m`.
pub open spec fn identity_row(m: nat, i: int) -> Seq<ExtRat> {
    Seq::new(
        m,
        |j: int|
            if j == i {
                ext_one()
            } else {
                ext_zero()
            },
    )
}

/// Constraints that are in normal form already: equalities of one width whose
/// right-hand sides are not below zero.
pub open spec fn already_normal(cs: Seq<ConstraintView>, width: nat) -> bool {
    forall|i: int|
        0 <= i < cs.len() ==> (#[trigger] cs[i]).sign == Sign::Equals && !ext_lt(
            cs[i].rhs,
            ext_zero(),
        ) && cs[i].coefficients.len() == width
}

/// No inequality is counted among equalities.
proof fn lemma_no_slack(cs: Seq<ConstraintView>, upto: int)
    requires
        0 <= upto <= cs.len(),
        forall|i: int| 0 <= i < cs.len() ==> (#[trigger] cs[i]).sign == Sign::Equals,
    ensures
        slack_count(cs, upto) == 0,
    decreases upto,
{
    if upto > 0 {
        lemma_no_slack(cs, upto - 1);
    }
}

/// Where no constraint is wider than `base`, the largest width is `base`.
pub proof fn lemma_max_width_base(base: nat, cs: Seq<ConstraintView>)
    requires
        forall|i: int| 0 <= i < cs.len() ==> (#[trigger] cs[i]).coefficients.len() <= base,
    ensures
        max_width(base, cs) == base,
    decreases cs.len(),
{
    if cs.len() > 0 {
        assert forall|i: int| 0 <= i < cs.drop_last().len() implies (#[trigger] cs.drop_last()[i]).coefficients.len()
            <= base by {
            assert(cs.drop_last()[i] == cs[i]);
        }
        lemma_max_width_base(base, cs.drop_last());
        assert(cs.last() == cs[cs.len() - 1]);
    }
}

/// Normalizing constraints that are in normal form already changes none of
/// them: each row is the given row with its row of the identity matrix behind
/// it, and the right-hand sides are the given ones.
pub proof fn law_normalize_normalized(
    n_significant: nat,
    coefficients: Seq<ExtRat>,
    minimization: bool,
    cs: Seq<ConstraintView>,
)
    requires
        already_normal(cs, coefficients.len()),
    ensures
        normalized(n_significant, coefficients, minimization, cs).rhs == Seq::new(
            cs.len(),
            |i: int| cs[i].rhs,
        ),
        normalized(n_significant, coefficients, minimization, cs).rows == Seq::new(
            cs.len(),
            |i: int| cs[i].coefficients + identity_row(cs.len(), i),
        ),
        normalized(n_significant, coefficients, minimization, cs).coefficients == Seq::new(
            coefficients.len(),
            |j: int| bigm_from(coefficients[j]),
        ) + Seq::new(cs.len(), |j: int| penalty(minimization)),
{
    let p = normalized(n_significant, coefficients, minimization, cs);
    let w = coefficients.len();
    let m = cs.len();
    lemma_no_slack(cs, m as int);
    lemma_max_width_base(w, cs);
    assert(p.rhs =~= Seq::new(m, |i: int| cs[i].rhs));
    assert forall|i: int| 0 <= i < m implies #[trigger] p.rows[i] == cs[i].coefficients
        + identity_row(m, i) by {
        assert(cs[i].sign == Sign::Equals);
        assert(p.rows[i] =~= cs[i].coefficients + identity_row(m, i));
    }
    assert(p.rows =~= Seq::new(m, |i: int| cs[i].coefficients + identity_row(m, i)));
    assert(p.coefficients =~= Seq::new(w, |j: int| bigm_from(coefficients[j])) + Seq::new(
        m,
        |j: int| penalty(minimization),
    ));
}

/// A cut on a significant variable keeps the canonical form.
pub proof fn law_cut_is_canonical(p: ProblemView, i: int, sign: Sign, rhs: ExtRat)
    requires
        canonical(p),
        0 <= i < p.n_significant,
    ensures
        canonical(with_cut(p, i, sign, rhs)),
{
    let q = with_cut(p, i, sign, rhs);
    let m = p.rows.len() as int;
    let n = p.coefficients.len() as int;
    let at = p.n_significant as int;
    if cut_sign(sign, rhs) == Sign::Equals {
        assert forall|r: int, k: int| 0 <= r < m + 1 && 0 <= k < m + 1 implies #[trigger] q.rows[r][n
            + 1 - (m + 1) + k] == if r == k {
            ext_one()
        } else {
            ext_zero()
        } by {
            if r < m && k < m {
                assert(p.rows[r][n - m + k] == if r == k {
                    ext_one()
                } else {
                    ext_zero()
                });
            }
        }
        assert forall|j: int| 0 <= j < n + 1 - (m + 1) implies (#[trigger] q.coefficients[j]).big
            == ext_zero() by {
            assert(p.coefficients[j].big == ext_zero());
        }
        assert forall|k: int| 0 <= k < m + 1 implies #[trigger] q.coefficients[n + 1 - (m + 1) + k]
            == penalty(q.minimization) by {
            if k < m {
                assert(p.coefficients[n - m + k] == penalty(p.minimization));
            }
        }
    } else {
        assert forall|r: int, k: int| 0 <= r < m + 1 && 0 <= k < m + 1 implies #[trigger] q.rows[r][n
            + 2 - (m + 1) + k] == if r == k {
            ext_one()
        } else {
            ext_zero()
        } by {
            if r < m && k < m {
                assert(p.rows[r][n - m + k] == if r == k {
                    ext_one()
                } else {
                    ext_zero()
                });
            }
        }
        assert forall|j: int| 0 <= j < n + 2 - (m + 1) implies (#[trigger] q.coefficients[j]).big
            == ext_zero() by {
            if j < at {
                assert(p.coefficients[j].big == ext_zero());
            } else if j > at {
                assert(p.coefficients[j - 1].big == ext_zero());
            }
        }
        assert forall|k: int| 0 <= k < m + 1 implies #[trigger] q.coefficients[n + 2 - (m + 1) + k]
            == penalty(q.minimization) by {
            if k < m {
                assert(p.coefficients[n - m + k] == penalty(p.minimization));
            }
        }
    }
}

impl Clone for Problem {
    fn clone(&self) -> (r: Self)
        ensures
            r@ == self@,
            self.wf() ==> r.wf(),
    {
        proof {
            use_type_invariant(&self.objective_function);
        }
        let coefficients = clone_bigm_values(&self.objective_function.coefficients);
        Problem {
            objective_function: ObjectiveFunction {
                n_significant_variables: self.objective_function.n_significant_variables,
                coefficients,
                minimization: self.objective_function.minimization,
            },
            constraints: self.constraints.clone(),
            rhs: clone_values(&self.rhs),
        }
    }
}

/// The widest row is at least as wide as the objective and as each constraint.
pub proof fn lemma_max_width_bound(base: nat, cs: Seq<ConstraintView>, i: int)
    ensures
        base <= max_width(base, cs),
        0 <= i < cs.len() ==> cs[i].coefficients.len() <= max_width(base, cs),
    decreases cs.len(),
{
    if cs.len() > 0 {
        lemma_max_width_bound(base, cs.drop_last(), i);
    }
}

/// The count of inequalities grows with the number of constraints counted,
/// by at most one for each.
pub proof fn lemma_slack_count_grows(cs: Seq<ConstraintView>, a: int, b: int)
    requires
        0 <= a <= b,
    ensures
        slack_count(cs, a) <= slack_count(cs, b),
        slack_count(cs, b) - slack_count(cs, a) <= b - a,
    decreases b - a,
{
    if a < b {
        lemma_slack_count_grows(cs, a, b - 1);
    }
}

/// The largest number of coefficients among `base` and the constraints.
fn widest(base: usize, constraints: &Vec<Constraint>) -> (w: usize)
    ensures
        w == max_width(base as nat, constraint_views(constraints@)),
{
    let mut w = base;
    let mut i: usize = 0;
    let ghost cs = constraint_views(constraints@);
    while i < constraints.len()
        invariant
            i <= constraints.len(),
            cs == constraint_views(constraints@),
            w == max_width(base as nat, cs.take(i as int)),
        decreases constraints.len() - i,
    {
        proof {
            assert(cs.take(i + 1).drop_last() =~= cs.take(i as int));
            assert(cs.take(i + 1).last() == constraints@[i as int]@);
        }
        let len = constraints[i].coefficients.len();
        if len > w {
            w = len;
        }
        i += 1;
    }
    assert(cs.take(i as int) =~= cs);
    w
}

/// How many of the constraints are inequalities.
fn count_slack(constraints: &Vec<Constraint>) -> (s: usize)
    ensures
        s == slack_count(constraint_views(constraints@), constraints.len() as int),
{
    let mut s: usize = 0;
    let mut i: usize = 0;
    while i < constraints.len()
        invariant
            i <= constraints.len(),
            s <= i,
            s == slack_count(constraint_views(constraints@), i as int),
        decreases constraints.len() - i,
    {
        if !constraints[i].sign.is_equals() {
            s += 1;
        }
        i += 1;
    }
    s
}

/// Writes row `i` of the canonical matrix into a row that holds only zeros.
fn fill_row(
    matrix: &mut RatioMatrix,
    constraint: &Constraint,
    i: usize,
    w: usize,
    s: usize,
    k: usize,
    Ghost(cs): Ghost<Seq<ConstraintView>>,
)
    requires
        old(matrix).wf(),
        i < old(matrix)@.len(),
        old(matrix)@.len() == cs.len(),
        old(matrix).spec_ncols() == w + s + cs.len(),
        w + s + cs.len() <= usize::MAX,
        cs[i as int] == constraint@,
        constraint@.coefficients.len() <= w,
        s == slack_count(cs, cs.len() as int),
        k == slack_count(cs, i as int),
        forall|j: int|
            0 <= j < w + s + cs.len() ==> #[trigger] old(matrix).at(i as int, j) == ext_zero(),
    ensures
        final(matrix).wf(),
        final(matrix)@.len() == old(matrix)@.len(),
        final(matrix).spec_ncols() == old(matrix).spec_ncols(),
        forall|r: int| 0 <= r < cs.len() && r != i ==> final(matrix)@[r] == old(matrix)@[r],
        forall|j: int|
            0 <= j < w + s + cs.len() ==> #[trigger] final(matrix).at(i as int, j)
                == normalized_entry(cs, w as nat, i as int, j),
{
    let negate = constraint.rhs.lt(&RatioExt::zero());
    let minus_one = RatioExt::minus_one();
    let len = constraint.coefficients.len();
    let ghost n = w + s + cs.len();
    let mut j: usize = 0;
    while j < len
        invariant
            j <= len,
            len == constraint.coefficients.len(),
            len <= w,
            n == w + s + cs.len(),
            matrix.wf(),
            matrix@.len() == old(matrix)@.len(),
            matrix@.len() == cs.len(),
            matrix.spec_ncols() == n,
            i < matrix@.len(),
            cs[i as int] == constraint@,
            minus_one@ == ext_minus_one(),
            negate == ext_lt(constraint@.rhs, ext_zero()),
            forall|r: int| 0 <= r < cs.len() && r != i ==> matrix@[r] == old(matrix)@[r],
            forall|t: int|
                0 <= t < j ==> #[trigger] matrix.at(i as int, t) == padded(
                    oriented(cs[i as int]).coefficients,
                    t,
                ),
            forall|t: int| j <= t < n ==> #[trigger] matrix.at(i as int, t) == ext_zero(),
        decreases len - j,
    {
        proof {
            crate::ratio_ext::lemma_mul_minus_one(constraint.coefficients@[j as int]@);
        }
        let value = if negate {
            constraint.coefficients[j].mul(&minus_one)
        } else {
            constraint.coefficients[j].clone()
        };
        let ghost before = *matrix;
        let ghost placed = value@;
        matrix.set(i, j, value);
        proof {
            assert(before@[i as int].len() == n);
            assert(matrix@[i as int] == before@[i as int].update(j as int, placed));
            assert(placed == padded(oriented(cs[i as int]).coefficients, j as int));
            assert forall|t: int| 0 <= t < n && t != j implies #[trigger] matrix.at(i as int, t)
                == before.at(i as int, t) by {}
            assert(matrix.at(i as int, j as int) == placed);
        }
        j += 1;
    }
    proof {
        lemma_slack_count_grows(cs, i as int, i + 1);
        lemma_slack_count_grows(cs, i + 1, cs.len() as int);
    }
    if !constraint.sign.is_equals() {
        let flipped = if negate {
            constraint.sign.mul(&minus_one)
        } else {
            constraint.sign
        };
        let value = if flipped.is_less() {
            RatioExt::one()
        } else {
            RatioExt::minus_one()
        };
        let ghost before = *matrix;
        let ghost placed = value@;
        matrix.set(i, w + k, value);
        proof {
            assert(before@[i as int].len() == n);
            assert(matrix@[i as int] == before@[i as int].update(w + k, placed));
            assert forall|t: int| 0 <= t < n && t != w + k implies #[trigger] matrix.at(
                i as int,
                t,
            ) == before.at(i as int, t) by {}
            assert(matrix.at(i as int, w + k) == placed);
        }
    }
    let ghost before = *matrix;
    matrix.set(i, w + s + i, RatioExt::one());
    proof {
        assert(before@[i as int].len() == n);
        assert(matrix@[i as int] == before@[i as int].update(w + s + i, ext_one()));
        assert forall|t: int| 0 <= t < n && t != w + s + i implies #[trigger] matrix.at(
            i as int,
            t,
        ) == before.at(i as int, t) by {}
        assert(matrix.at(i as int, w + s + i) == ext_one());
        assert forall|t: int| 0 <= t < n implies #[trigger] matrix.at(i as int, t)
            == normalized_entry(cs, w as nat, i as int, t) by {
            if t < w {
                if t >= len {
                    assert(before.at(i as int, t) == matrix.at(i as int, t));
                }
            }
        }
    }
}

impl Problem {
    /// The program is well shaped, and its sizes fit the machine.
    pub closed spec fn wf(&self) -> bool {
        &&& self.constraints.wf()
        &&& self.constraints.spec_ncols() == self.objective_function.spec_coefficients().len()
        &&& canonical(self@)
    }

    /// A well-formed program is in canonical form.
    pub proof fn lemma_wf_canonical(&self)
        requires
            self.wf(),
        ensures
            canonical(self@),
    {
    }

    /// The matrix of a well-formed program has as many columns as the
    /// objective has coefficients.
    pub(crate) proof fn lemma_wf_matrix(&self)
        requires
            self.wf(),
        ensures
            self.constraints.wf(),
            self.constraints.spec_ncols() == self@.coefficients.len(),
    {
    }

    /// The objective, in Big-M numbers.
    pub fn objective_function(&self) -> (r: &ObjectiveFunction<BigNumber<RatioExt>>)
        ensures
            r.spec_n_significant() == self@.n_significant,
            r.spec_minimization() == self@.minimization,
            bigm_values(r.spec_coefficients()) == self@.coefficients,
    {
        &self.objective_function
    }

    /// The constraint matrix.
    pub fn constraints(&self) -> (r: &RatioMatrix)
        ensures
            r@ == self@.rows,
            self.wf() ==> r.wf() && r.spec_ncols() == self@.coefficients.len(),
    {
        &self.constraints
    }

    /// The right-hand sides.
    pub fn rhs(&self) -> (r: &Vec<RatioExt>)
        ensures
            values(r@) == self@.rhs,
    {
        &self.rhs
    }

    /// Adds the constraint `x_i  sign  rhs` on the significant variable `i`,
    /// in canonical form. `Less` with a zero right-hand side is added as
    /// `Equals`.
    pub fn add_constraint_on_var(&mut self, i: usize, sign: Sign, rhs: RatioExt)
        requires
            old(self).wf(),
            i < old(self)@.n_significant,
            (old(self)@.rows.len() + 1) * (old(self)@.coefficients.len() + 2) <= usize::MAX,
        ensures
            final(self).wf(),
            final(self)@ == with_cut(old(self)@, i as int, sign, rhs@),
    {
        let given = sign;
        let sign = if given.is_equals() || (given.is_less() && rhs == RatioExt::zero()) {
            Sign::Equals
        } else {
            given
        };
        let n_coefs = self.objective_function.coefficients.len();
        let n_constr = self.constraints.nrows();
        let n_significant = self.objective_function.n_significant_variables();
        let minimization = self.objective_function.minimization;
        let ghost before = self@;
        let ghost expected = with_cut(before, i as int, given, rhs@);
        proof {
            law_cut_is_canonical(before, i as int, given, rhs@);
            assert(sign == cut_sign(given, rhs@));
            assert(n_constr * (n_coefs + 1) <= (n_constr + 1) * (n_coefs + 2)) by (nonlinear_arith);
            assert(n_constr * (n_coefs + 2) <= (n_constr + 1) * (n_coefs + 2)) by (nonlinear_arith);
            assert((n_constr + 1) * (n_coefs + 1) <= (n_constr + 1) * (n_coefs + 2))
                by (nonlinear_arith);
            assert(n_coefs + 2 <= (n_constr + 1) * (n_coefs + 2)) by (nonlinear_arith);
        }
        let mut matrix = RatioMatrix::filled(0, 0, RatioExt::zero());
        std::mem::swap(&mut self.constraints, &mut matrix);
        let mut matrix = matrix.insert_column(n_coefs, RatioExt::zero());
        let mut coefficients = clone_bigm_values(&self.objective_function.coefficients);
        let penalty = if minimization {
            BigNumber::one_big()
        } else {
            BigNumber::one_big().neg()
        };
        match sign {
            Sign::Equals => {
                matrix = matrix.insert_row(n_constr, RatioExt::zero());
                matrix.set(n_constr, i, RatioExt::one());
                // Artificial variable
                matrix.set(n_constr, n_coefs, RatioExt::one());
                coefficients.push(penalty);
            },
            _ => {
                matrix = matrix.insert_column(n_significant, RatioExt::zero());
                matrix = matrix.insert_row(n_constr, RatioExt::zero());
                matrix.set(n_constr, i, RatioExt::one());
                // Slack variable
                let slack = if sign.is_less() {
                    RatioExt::one()
                } else {
                    RatioExt::minus_one()
                };
                matrix.set(n_constr, n_significant, slack);
                // Artificial variable
                matrix.set(n_constr, n_coefs + 1, RatioExt::one());
                coefficients.insert(n_significant, BigNumber::zero());
                coefficients.push(penalty);
            },
        }
        self.objective_function = ObjectiveFunction {
            n_significant_variables: n_significant,
            coefficients,
            minimization,
        };
        self.constraints = matrix;
        self.rhs.push(rhs);
        proof {
            assert(self@.coefficients =~= expected.coefficients);
            assert(self@.rhs =~= expected.rhs);
            assert(self@.rows.len() == expected.rows.len());
            assert forall|r: int| 0 <= r < expected.rows.len() implies #[trigger] self@.rows[r]
                =~= expected.rows[r] by {}
            assert(self@.rows =~= expected.rows);
        }
    }

    /// The canonical form of the program with this objective and these
    /// constraints.
    pub fn new(objective_function: ObjectiveFunction<RatioExt>, constraints: Vec<Constraint>) -> (p:
        Self)
        requires
            constraints.len() > 0,
            max_width(
                objective_function.spec_coefficients().len(),
                constraint_views(constraints@),
            ) > 0,
            constraints.len() * (max_width(
                objective_function.spec_coefficients().len(),
                constraint_views(constraints@),
            ) + 2 * constraints.len()) <= usize::MAX,
        ensures
            p.wf(),
            p@ == normalized(
                objective_function.spec_n_significant(),
                values(objective_function.spec_coefficients()),
                objective_function.spec_minimization(),
                constraint_views(constraints@),
            ),
    {
        Self::normalize(objective_function, constraints)
    }

    /// Brings the program into canonical form: rows padded with zeros to one
    /// width, constraints with a negative right-hand side multiplied by minus
    /// one, a slack column for each inequality, the objective lifted to Big-M
    /// numbers, and an artificial column for each constraint.
    pub fn normalize(
        objective_function: ObjectiveFunction<RatioExt>,
        constraints: Vec<Constraint>,
    ) -> (p: Self)
        requires
            constraints.len() > 0,
            max_width(
                objective_function.spec_coefficients().len(),
                constraint_views(constraints@),
            ) > 0,
            constraints.len() * (max_width(
                objective_function.spec_coefficients().len(),
                constraint_views(constraints@),
            ) + 2 * constraints.len()) <= usize::MAX,
        ensures
            p.wf(),
            p@ == normalized(
                objective_function.spec_n_significant(),
                values(objective_function.spec_coefficients()),
                objective_function.spec_minimization(),
                constraint_views(constraints@),
            ),
    {
        let ghost cs = constraint_views(constraints@);
        let ghost costs = values(objective_function.spec_coefficients());
        let m = constraints.len();
        let w = widest(objective_function.coefficients.len(), &constraints);
        let s = count_slack(&constraints);
        proof {
            use_type_invariant(&objective_function);
            lemma_max_width_bound(objective_function.spec_coefficients().len(), cs, 0);
            lemma_slack_count_grows(cs, 0, m as int);
            assert(m * (w + 2 * m) <= usize::MAX);
            assert(w + 2 * m <= usize::MAX) by (nonlinear_arith)
                requires
                    m >= 1,
                    m * (w + 2 * m) <= usize::MAX,
            ;
            assert(m * (w + s + m) <= m * (w + 2 * m)) by (nonlinear_arith)
                requires
                    s <= m,
            ;
        }
        let n = w + s + m;
        let mut matrix = RatioMatrix::filled(m, n, RatioExt::zero());
        let mut rhs: Vec<RatioExt> = Vec::new();
        let minus_one = RatioExt::minus_one();
        let mut k: usize = 0;
        let mut i: usize = 0;
        while i < m
            invariant
                i <= m,
                m == constraints.len(),
                cs == constraint_views(constraints@),
                w == max_width(objective_function.spec_coefficients().len(), cs),
                s == slack_count(cs, m as int),
                n == w + s + m,
                k == slack_count(cs, i as int),
                matrix.wf(),
                matrix@.len() == m,
                matrix.spec_ncols() == n,
                minus_one@ == ext_minus_one(),
                rhs.len() == i,
                forall|r: int| 0 <= r < i ==> (#[trigger] rhs@[r])@ == oriented(cs[r]).rhs,
                forall|r: int, j: int|
                    0 <= r < i && 0 <= j < n ==> matrix.at(r, j) == normalized_entry(
                        cs,
                        w as nat,
                        r,
                        j,
                    ),
                forall|r: int, j: int| i <= r < m && 0 <= j < n ==> matrix.at(r, j) == ext_zero(),
            decreases m - i,
        {
            let constraint = &constraints[i];
            proof {
                lemma_max_width_bound(objective_function.spec_coefficients().len(), cs, i as int);
                lemma_slack_count_grows(cs, i as int, i + 1);
                lemma_slack_count_grows(cs, i + 1, m as int);
            }
            let ghost before = matrix;
            fill_row(&mut matrix, constraint, i, w, s, k, Ghost(cs));
            proof {
                crate::ratio_ext::lemma_mul_minus_one(constraint.rhs@);
                assert forall|r: int, j: int| 0 <= r < m && r != i && 0 <= j < n implies matrix.at(
                    r,
                    j,
                ) == before.at(r, j) by {
                    assert(matrix@[r] == before@[r]);
                }
            }
            let value = if constraint.rhs.lt(&RatioExt::zero()) {
                constraint.rhs.mul(&minus_one)
            } else {
                constraint.rhs.clone()
            };
            rhs.push(value);
            if !constraint.sign.is_equals() {
                k += 1;
            }
            i += 1;
        }
        let minimization = objective_function.minimization;
        let mut coefficients: Vec<BigNumber<RatioExt>> = Vec::new();
        let mut j: usize = 0;
        while j < n
            invariant
                j <= n,
                n == w + s + m,
                w >= objective_function.spec_coefficients().len(),
                costs == values(objective_function.spec_coefficients()),
                minimization == objective_function.spec_minimization(),
                coefficients.len() == j,
                forall|t: int|
                    0 <= t < j ==> (#[trigger] coefficients@[t])@ == normalized_cost(
                        costs,
                        minimization,
                        w as nat,
                        s as nat,
                        t,
                    ),
            decreases n - j,
        {
            let cost = if j < objective_function.coefficients.len() {
                BigNumber::from(objective_function.coefficients[j].clone())
            } else if j < w + s {
                BigNumber::zero()
            } else if minimization {
                BigNumber::one_big()
            } else {
                BigNumber::one_big().neg()
            };
            coefficients.push(cost);
            j += 1;
        }
        let p = Problem {
            objective_function: ObjectiveFunction {
                n_significant_variables: objective_function.n_significant_variables,
                coefficients,
                minimization,
            },
            constraints: matrix,
            rhs,
        };
        proof {
            let expected = normalized(
                objective_function.spec_n_significant(),
                costs,
                minimization,
                cs,
            );
            law_normalized_is_canonical(
                objective_function.spec_n_significant(),
                costs,
                minimization,
                cs,
            );
            assert(p@.coefficients =~= expected.coefficients);
            assert(p@.rhs =~= expected.rhs);
            assert forall|r: int| 0 <= r < m implies #[trigger] p@.rows[r] =~= expected.rows[r] by {
                assert forall|c: int| 0 <= c < n implies p@.rows[r][c] == expected.rows[r][c] by {
                    assert(matrix.at(r, c) == normalized_entry(cs, w as nat, r, c));
                }
            }
            assert(p@.rows =~= expected.rows);
        }
        p
    }
}

} // verus!
