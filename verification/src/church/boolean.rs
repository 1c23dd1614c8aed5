//! Church-encoded booleans.

use vstd::prelude::*;
use crate::term::{Term, abs, spec_abs, spec_var};
use crate::term::Term::Var;

verus! {

/// The term of the Church-encoded `true`.
pub open spec fn spec_tru() -> Term {
    spec_abs(spec_abs(spec_var(2)))
}

/// The term of the Church-encoded `false`.
pub open spec fn spec_fls() -> Term {
    spec_abs(spec_abs(spec_var(1)))
}

/// Produces a Church-encoded `true`.
///
/// TRUE := λab.a = λ λ 2
pub fn tru() -> (r: Term)
    ensures
        r == spec_tru(),
{
    abs(abs(Var(2)))
}

/// Produces a Church-encoded `false`.
///
/// FALSE := λab.b = λ λ 1
pub fn fls() -> (r: Term)
    ensures
        r == spec_fls(),
{
    abs(abs(Var(1)))
}

} // verus!
