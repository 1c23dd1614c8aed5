//! [Standard terms](https://en.wikipedia.org/wiki/Lambda_calculus#Standard_terms)
//!
//! * [SKI](https://en.wikipedia.org/wiki/SKI_combinator_calculus)
//! * [Iota](https://en.wikipedia.org/wiki/Iota_and_Jot)
//! * [BCKW](https://en.wikipedia.org/wiki/B,_C,_K,_W_system)
//! * the looping combinator ω and the divergent combinator Ω
//! * [the fixed-point combinator Y](https://en.wikipedia.org/wiki/Fixed-point_combinator)

use vstd::prelude::*;
use crate::term::{Term, abs, app, spec_abs, spec_app, spec_var};
use crate::term::Term::Var;

verus! {

/// The term of the I combinator.
pub open spec fn spec_i() -> Term {
    spec_abs(spec_var(1))
}

/// The term of the K combinator.
pub open spec fn spec_k() -> Term {
    spec_abs(spec_abs(spec_var(2)))
}

/// The term of the S combinator.
pub open spec fn spec_s() -> Term {
    spec_abs(
        spec_abs(
            spec_abs(
                spec_app(spec_app(spec_var(3), spec_var(1)), spec_app(spec_var(2), spec_var(1))),
            ),
        ),
    )
}

/// The term of the ω combinator.
pub open spec fn spec_om() -> Term {
    spec_abs(spec_app(spec_var(1), spec_var(1)))
}

/// I - the identity combinator.
///
/// I := λx.x = λ 1
pub fn i() -> (r: Term)
    ensures
        r == spec_i(),
{
    abs(Var(1))
}

/// K - the constant / discarding combinator.
///
/// K := λxy.x = λ λ 2 = true
pub fn k() -> (r: Term)
    ensures
        r == spec_k(),
{
    abs(abs(Var(2)))
}

/// S - the substitution combinator.
///
/// S := λxyz.x z (y z) = λ λ λ 3 1 (2 1)
pub fn s() -> (r: Term)
    ensures
        r == spec_s(),
{
    abs(abs(abs(Var(3).app(Var(1)).app(Var(2).app(Var(1))))))
}

/// Iota - the universal combinator.
///
/// ι := λx.x S K = λ 1 S K
pub fn iota() -> (r: Term)
    ensures
        r == spec_abs(spec_app(spec_app(spec_var(1), spec_s()), spec_k())),
{
    abs(Var(1).app(s()).app(k()))
}

/// B - the composition combinator.
///
/// B := λxyz.x (y z) = λ λ λ 3 (2 1)
pub fn b() -> (r: Term)
    ensures
        r == spec_abs(spec_abs(spec_abs(spec_app(spec_var(3), spec_app(spec_var(2), spec_var(1)))))),
{
    abs(abs(abs(Var(3).app(Var(2).app(Var(1))))))
}

/// C - the swapping combinator.
///
/// C := λxyz.x z y = λ λ λ 3 1 2
pub fn c() -> (r: Term)
    ensures
        r == spec_abs(
            spec_abs(spec_abs(spec_app(spec_app(spec_var(3), spec_var(1)), spec_var(2)))),
        ),
{
    abs(abs(abs(Var(3).app(Var(1)).app(Var(2)))))
}

/// W - the duplicating combinator.
///
/// W := λxy.x y y = λ λ 2 1 1
pub fn w() -> (r: Term)
    ensures
        r == spec_abs(spec_abs(spec_app(spec_app(spec_var(2), spec_var(1)), spec_var(1)))),
{
    abs(abs(Var(2).app(Var(1)).app(Var(1))))
}

/// ω - the looping combinator.
///
/// ω := λx.x x
pub fn om() -> (r: Term)
    ensures
        r == spec_om(),
{
    abs(Var(1).app(Var(1)))
}

/// Ω - the divergent combinator.
///
/// Ω := ω ω
pub fn omm() -> (r: Term)
    ensures
        r == spec_app(spec_om(), spec_om()),
{
    om().app(om())
}

/// Y - the fixed-point combinator.
///
/// Y := λg.(λx.g (x x)) (λx.g (x x)) = λ (λ 2 (1 1)) (λ 2 (1 1))
pub fn y() -> (r: Term)
    ensures
        r == spec_abs(
            spec_app(
                spec_abs(spec_app(spec_var(2), spec_app(spec_var(1), spec_var(1)))),
                spec_abs(spec_app(spec_var(2), spec_app(spec_var(1), spec_var(1)))),
            ),
        ),
{
    abs(app(abs(Var(2).app(Var(1).app(Var(1)))), abs(Var(2).app(Var(1).app(Var(1))))))
}

} // verus!
