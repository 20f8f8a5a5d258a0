//! An exact Big-M simplex method with branch and bound.
//!
//! The numbers are rational, extended by the infinities and `NaN`
//! ([`ratio_ext`]), or pairs of such numbers that stand for `big · M + small`
//! with `M` larger than every finite quantity ([`big_number`]). A linear
//! program is brought into canonical form ([`problem`]), solved on a tableau
//! ([`table`]), and searched for a whole-number optimum ([`solver`]). The
//! module [`compute`] plans the assignment of ships to lines with it.
//!
//! Every function states what it returns. On top of that the crate proves
//! what the results mean for programs of rational numbers:
//! - a pivot keeps the table in basic form ([`basis`]);
//! - a solution of the simplex method meets every constraint and costs what
//!   the objective says ([`soundness`]), and no point that meets the
//!   constraints costs less ([`optimality`]);
//! - a solution of the whole-number search is whole and meets every
//!   constraint, and where the search gave up no branch, no whole point costs
//!   less ([`search`], with [`cuts`] and [`linear`] beneath).

pub mod rational;
pub mod ratio_ext;
pub mod big_number;
pub mod text;
pub mod matrix;
pub mod problem;
pub mod solution;
pub mod table;
pub mod solver;
pub mod compute;
pub mod basis;
pub mod linear;
pub mod soundness;
pub mod optimality;
pub mod cuts;
pub mod search;
