//! What a solver run gives back.

use vstd::prelude::*;
use crate::ratio_ext::{ext_is_integer, ext_text, values, ExtRat, RatioExt};
use crate::text::concat;

verus! {

/// Why a program has no solution to give.
#[derive(Debug, Clone, Copy, PartialEq, Eq, Structural)]
pub enum SolutionError {
    /// The objective is unbounded, or an artificial variable could not be
    /// driven out, so that the value of the objective keeps an `M` part.
    Infinite,
    /// The simplex method stalled, or no branch held a whole-number solution.
    Absent,
}

/// The message for an error.
pub open spec fn error_text(e: SolutionError) -> Seq<char> {
    match e {
        SolutionError::Infinite => "Розв'язок нескінченний"@,
        SolutionError::Absent => "Розв'язок відсутній"@,
    }
}

impl SolutionError {
    /// The message for the error.
    pub fn as_str(&self) -> (s: String)
        ensures
            s@ == error_text(*self),
    {
        match self {
            SolutionError::Infinite => "Розв'язок нескінченний".to_owned(),
            SolutionError::Absent => "Розв'язок відсутній".to_owned(),
        }
    }
}

/// The texts of the first `upto` numbers, with a comma and a space between
/// each two.
pub open spec fn joined_text(vars: Seq<RatioExt>, upto: int) -> Seq<char>
    decreases upto,
{
    if upto <= 0 {
        ""@
    } else if upto == 1 {
        ext_text(vars[0])
    } else {
        joined_text(vars, upto - 1) + ", "@ + ext_text(vars[upto - 1])
    }
}

/// The text of a solution: the variables in square brackets, and the value of
/// the objective.
pub open spec fn solution_text(s: Solution) -> Seq<char> {
    "Змінні:\n["@ + joined_text(s.vars@, s.vars@.len() as int) + "]\nЗначення функції: "@
        + ext_text(s.fn_val)
}

/// The mathematical value of a [`Solution`].
pub struct SolutionView {
    pub fn_val: ExtRat,
    pub vars: Seq<ExtRat>,
}

/// Every number of `vars` is whole.
pub open spec fn all_integer(vars: Seq<ExtRat>) -> bool {
    forall|i: int| 0 <= i < vars.len() ==> ext_is_integer(#[trigger] vars[i])
}

/// The value of the objective and the values of the significant variables.
#[derive(Debug)]
pub struct Solution {
    pub fn_val: RatioExt,
    pub vars: Vec<RatioExt>,
}

impl View for Solution {
    type V = SolutionView;

    open spec fn view(&self) -> SolutionView {
        SolutionView { fn_val: self.fn_val@, vars: values(self.vars@) }
    }
}

/// A solution, or the reason why there is none.
pub type SolutionResult = Result<Solution, SolutionError>;

/// The value of a result.
pub open spec fn result_view(r: SolutionResult) -> Result<SolutionView, SolutionError> {
    match r {
        Ok(s) => Ok(s@),
        Err(e) => Err(e),
    }
}

impl Solution {
    /// The value of the objective and the values of the variables.
    pub fn unwrap_finite(self) -> (r: (RatioExt, Vec<RatioExt>))
        ensures
            r.0@ == self@.fn_val,
            values(r.1@) == self@.vars,
    {
        (self.fn_val, self.vars)
    }

    /// References to the value of the objective and to the values of the
    /// variables.
    pub fn unwrap_finite_ref(&self) -> (r: (&RatioExt, &Vec<RatioExt>))
        ensures
            r.0@ == self@.fn_val,
            values(r.1@) == self@.vars,
    {
        (&self.fn_val, &self.vars)
    }

    /// The text of the solution.
    pub fn as_str(&self) -> (s: String)
        ensures
            s@ == solution_text(*self),
    {
        let mut list = "".to_owned();
        let mut i: usize = 0;
        while i < self.vars.len()
            invariant
                i <= self.vars.len(),
                list@ == joined_text(self.vars@, i as int),
            decreases self.vars.len() - i,
        {
            let ghost before = list@;
            if i > 0 {
                list = concat(list.as_str(), ", ");
            }
            list = concat(list.as_str(), self.vars[i].to_string().as_str());
            proof {
                reveal_strlit("");
                if i == 0 {
                    assert(before =~= Seq::<char>::empty());
                    assert(list@ =~= ext_text(self.vars@[0]));
                } else {
                    assert(list@ =~= before + ", "@ + ext_text(self.vars@[i as int]));
                }
            }
            i += 1;
        }
        let head = concat("Змінні:\n[", list.as_str());
        let body = concat(head.as_str(), "]\nЗначення функції: ");
        concat(body.as_str(), self.fn_val.to_string().as_str())
    }

    /// Whether every variable has a whole value.
    pub fn is_integer(&self) -> (b: bool)
        ensures
            b == all_integer(self@.vars),
    {
        let mut i: usize = 0;
        while i < self.vars.len()
            invariant
                i <= self.vars.len(),
                forall|t: int| 0 <= t < i ==> ext_is_integer(#[trigger] values(self.vars@)[t]),
            decreases self.vars.len() - i,
        {
            if !self.vars[i].is_integer() {
                assert(!ext_is_integer(values(self.vars@)[i as int]));
                return false;
            }
            i += 1;
        }
        true
    }
}

impl Clone for Solution {
    fn clone(&self) -> (r: Self)
        ensures
            r@ == self@,
    {
        Solution { fn_val: self.fn_val.clone(), vars: crate::ratio_ext::clone_values(&self.vars) }
    }
}

} // verus!
