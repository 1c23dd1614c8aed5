//! Church-encoded option type

use vstd::prelude::*;
use crate::term::{Term, abs, app, spec_abs, spec_app, spec_var};
use crate::term::Term::Var;
use crate::church::boolean::{tru, fls, spec_tru, spec_fls};

verus! {

/// Produces a Church-encoded empty option.
///
/// NONE := λns.n = λ λ 2
pub fn none() -> (r: Term)
    ensures
        r == spec_tru(),
{
    tru()
}

/// Applied to an argument it consumes it and produces a Church-encoded option
/// that contains it.
///
/// SOME := λans.s a = λ λ λ 1 3
pub fn some() -> (r: Term)
    ensures
        r == spec_abs(spec_abs(spec_abs(spec_app(spec_var(1), spec_var(3))))),
{
    abs(abs(abs(app(Var(1), Var(3)))))
}

/// Applied to a Church-encoded option it produces a Church-encoded boolean
/// indicating whether it is empty.
///
/// IS_NONE := λa.a TRUE (λx.FALSE) = λ 1 TRUE (λ FALSE)
pub fn is_none() -> (r: Term)
    ensures
        r == spec_abs(
            spec_app(spec_app(spec_var(1), spec_tru()), spec_abs(spec_fls())),
        ),
{
    abs(Var(1).app(tru()).app(abs(fls())))
}

/// Applied to a Church-encoded option it produces a Church-encoded boolean
/// indicating whether it is not empty.
///
/// IS_SOME := λa.a FALSE (λx.TRUE) = λ 1 FALSE (λ TRUE)
pub fn is_some() -> (r: Term)
    ensures
        r == spec_abs(
            spec_app(spec_app(spec_var(1), spec_fls()), spec_abs(spec_tru())),
        ),
{
    abs(Var(1).app(fls()).app(abs(tru())))
}

/// Applied to a function and a Church-encoded option it applies the function
/// to the contents of the option, returning the empty option if the option
/// does not contain a value.
///
/// MAP := λfm.m NONE (λx.SOME (f x)) = λ λ 1 NONE (λ SOME (3 1))
pub fn map() -> (r: Term)
    ensures
        r == spec_abs(
            spec_abs(
                spec_app(
                    spec_app(spec_var(1), spec_tru()),
                    spec_abs(
                        spec_abs(
                            spec_abs(
                                spec_app(spec_var(1), spec_app(spec_var(5), spec_var(3))),
                            ),
                        ),
                    ),
                ),
            ),
        ),
{
    abs(abs(Var(1).app(none()).app(abs(abs(abs(app(Var(1), app(Var(5), Var(3)))))))))
}

/// Applied to two arguments and a Church-encoded option it returns the second
/// argument applied to the contents of the option if it contains a value or
/// the first argument if it doesn't.
///
/// MAP_OR := λdfm.m d f = λ λ λ 3 1 2
pub fn map_or() -> (r: Term)
    ensures
        r == spec_abs(
            spec_abs(spec_abs(spec_app(spec_app(spec_var(1), spec_var(3)), spec_var(2)))),
        ),
{
    abs(abs(abs(Var(1).app(Var(3)).app(Var(2)))))
}

/// Applied to one argument and a Church-encoded option it returns the value
/// inside the option or the first argument if the option doesn't contain a
/// value.
///
/// UNWRAP_OR := λdm.m d I = λ λ 1 2 I
pub fn unwrap_or() -> (r: Term)
    ensures
        r == spec_abs(
            spec_abs(spec_app(spec_app(spec_var(1), spec_var(2)), spec_abs(spec_var(1)))),
        ),
{
    abs(abs(Var(1).app(Var(2)).app(abs(Var(1)))))
}

} // verus!
