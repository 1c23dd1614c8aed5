//! [Church numerals](https://en.wikipedia.org/wiki/Church_encoding#Church_numerals)
//! and arithmetic on them.

use vstd::prelude::*;
use crate::term::{Term, abs, app, spec_abs, spec_app, spec_var};
use crate::term::Term::Var;

verus! {

/// The body of the Church numeral `n`: the inner variable under `n`
/// applications of the outer one.
pub open spec fn spec_church_body(n: nat) -> Term
    decreases n,
{
    if n == 0 {
        spec_var(1)
    } else {
        spec_app(spec_var(2), spec_church_body((n - 1) as nat))
    }
}

/// The Church numeral `n`.
pub open spec fn spec_cnum(n: nat) -> Term {
    spec_abs(spec_abs(spec_church_body(n)))
}

/// The Church numeral zero.
///
/// ZERO := λfx.x = λ λ 1
pub fn zero() -> (r: Term)
    ensures
        r == spec_cnum(0),
{
    abs(abs(Var(1)))
}

/// The Church numeral one.
///
/// ONE := λfx.f x = λ λ 2 1
pub fn one() -> (r: Term)
    ensures
        r == spec_cnum(1),
{
    proof {
        reveal_with_fuel(spec_church_body, 2);
    }
    abs(abs(Var(2).app(Var(1))))
}

/// The Church numeral `n`.
pub fn to_cnum(n: usize) -> (r: Term)
    ensures
        r == spec_cnum(n as nat),
{
    let mut body = Var(1);
    let mut j: usize = 0;
    while j < n
        invariant
            j <= n,
            body == spec_church_body(j as nat),
        decreases n - j,
    {
        body = app(Var(2), body);
        j += 1;
    }
    abs(abs(body))
}

/// The successor of a Church numeral.
///
/// SUCC := λnfx.f (n f x) = λ λ λ 2 (3 2 1)
pub fn succ() -> (r: Term)
    ensures
        r == spec_abs(
            spec_abs(
                spec_abs(
                    spec_app(
                        spec_var(2),
                        spec_app(spec_app(spec_var(3), spec_var(2)), spec_var(1)),
                    ),
                ),
            ),
        ),
{
    abs(abs(abs(Var(2).app(Var(3).app(Var(2)).app(Var(1))))))
}

} // verus!
