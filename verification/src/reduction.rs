//! [Beta reduction](https://en.wikipedia.org/wiki/Beta_normal_form) of terms
//! under the normal (leftmost-outermost) evaluation order.

use vstd::prelude::*;
use crate::term::Term;

verus! {

/// How many reduction steps `normalize` attempts before giving the term back
/// as it stands.
pub const NORMALIZE_LIMIT: usize = 1000000;

/// `i + 1`, saturating at the largest index instead of wrapping; the
/// saturation point is unreachable for any term that fits in memory.
pub open spec fn spec_bump(i: usize) -> usize {
    if i == usize::MAX {
        i
    } else {
        (i + 1) as usize
    }
}

/// `i + 1`, saturating at the largest index.
fn bump(i: usize) -> (r: usize)
    ensures
        r == spec_bump(i),
{
    if i == usize::MAX {
        i
    } else {
        i + 1
    }
}

/// `t` with every variable of index at least `cutoff` shifted up by one, as
/// when a term is carried under one more binder.
pub open spec fn spec_shift_up(t: Term, cutoff: usize) -> Term
    decreases t,
{
    match t {
        Term::Var(i) => if i >= cutoff {
            Term::Var(spec_bump(i))
        } else {
            t
        },
        Term::Abs(b) => Term::Abs(Box::new(spec_shift_up(*b, spec_bump(cutoff)))),
        Term::App(f, a) => Term::App(
            Box::new(spec_shift_up(*f, cutoff)),
            Box::new(spec_shift_up(*a, cutoff)),
        ),
    }
}

/// `t` with `arg` substituted for the variable `n`: occurrences of `n`
/// become `arg` (shifted once for every binder passed on the way down), and
/// every free variable above `n` moves down by one, its binder being gone.
pub open spec fn spec_subst(t: Term, n: usize, arg: Term) -> Term
    decreases t,
{
    match t {
        Term::Var(i) => if i == n {
            arg
        } else if i > n {
            Term::Var((i - 1) as usize)
        } else {
            t
        },
        Term::Abs(b) => Term::Abs(Box::new(spec_subst(*b, spec_bump(n), spec_shift_up(arg, 1)))),
        Term::App(f, a) => Term::App(
            Box::new(spec_subst(*f, n, arg)),
            Box::new(spec_subst(*a, n, arg)),
        ),
    }
}

/// One beta-reduction step in normal (leftmost-outermost) order, or `None`
/// when `t` is already in normal form.
pub open spec fn spec_step(t: Term) -> Option<Term>
    decreases t,
{
    match t {
        Term::Var(_) => None,
        Term::Abs(b) => match spec_step(*b) {
            Some(b2) => Some(Term::Abs(Box::new(b2))),
            None => None,
        },
        Term::App(f, a) => match *f {
            Term::Abs(b) => Some(spec_subst(*b, 1, *a)),
            _ => match spec_step(*f) {
                Some(f2) => Some(Term::App(Box::new(f2), a)),
                None => match spec_step(*a) {
                    Some(a2) => Some(Term::App(f, Box::new(a2))),
                    None => None,
                },
            },
        },
    }
}

/// The term after at most `fuel` normal-order steps: reduction stops early
/// at a normal form.
pub open spec fn spec_normalize(t: Term, fuel: nat) -> Term
    decreases fuel,
{
    if fuel == 0 {
        t
    } else {
        match spec_step(t) {
            None => t,
            Some(t2) => spec_normalize(t2, (fuel - 1) as nat),
        }
    }
}

/// `t` with every variable of index at least `cutoff` shifted up by one.
fn shift_up(t: &Term, cutoff: usize) -> (r: Term)
    ensures
        r == spec_shift_up(*t, cutoff),
    decreases *t,
{
    match t {
        Term::Var(i) => if *i >= cutoff {
            Term::Var(bump(*i))
        } else {
            Term::Var(*i)
        },
        Term::Abs(b) => Term::Abs(Box::new(shift_up(b, bump(cutoff)))),
        Term::App(f, a) => Term::App(Box::new(shift_up(f, cutoff)), Box::new(shift_up(a, cutoff))),
    }
}

/// `t` with `arg` substituted for the variable `n`.
fn subst(t: &Term, n: usize, arg: &Term) -> (r: Term)
    ensures
        r == spec_subst(*t, n, *arg),
    decreases *t,
{
    match t {
        Term::Var(i) => if *i == n {
            arg.clone()
        } else if *i > n {
            Term::Var(*i - 1)
        } else {
            Term::Var(*i)
        },
        Term::Abs(b) => {
            let shifted = shift_up(arg, 1);
            Term::Abs(Box::new(subst(b, bump(n), &shifted)))
        },
        Term::App(f, a) => Term::App(Box::new(subst(f, n, arg)), Box::new(subst(a, n, arg))),
    }
}

/// Performs one beta-reduction step in normal (leftmost-outermost) order;
/// `None` means `t` is already in normal form.
fn step(t: &Term) -> (r: Option<Term>)
    ensures
        r == spec_step(*t),
    decreases *t,
{
    match t {
        Term::Var(_) => None,
        Term::Abs(b) => match step(b) {
            Some(b2) => Some(Term::Abs(Box::new(b2))),
            None => None,
        },
        Term::App(f, a) => match &**f {
            Term::Abs(b) => Some(subst(b, 1, a)),
            _ => match step(f) {
                Some(f2) => Some(Term::App(Box::new(f2), Box::new((**a).clone()))),
                None => match step(a) {
                    Some(a2) => Some(Term::App(Box::new((**f).clone()), Box::new(a2))),
                    None => None,
                },
            },
        },
    }
}

/// Reduces `t` in normal (leftmost-outermost) order until it reaches its
/// normal form, or until `NORMALIZE_LIMIT` steps have been taken; a term
/// without a normal form (such as the Ω combinator) comes back unfinished
/// after that many steps.
pub fn normalize(t: Term) -> (r: Term)
    ensures
        r == spec_normalize(t, NORMALIZE_LIMIT as nat),
{
    let mut cur = t;
    let mut fuel: usize = NORMALIZE_LIMIT;
    while fuel > 0
        invariant
            spec_normalize(t, NORMALIZE_LIMIT as nat) == spec_normalize(cur, fuel as nat),
        decreases fuel,
    {
        match step(&cur) {
            None => {
                return cur;
            },
            Some(t2) => {
                cur = t2;
                fuel -= 1;
            },
        }
    }
    cur
}

} // verus!
