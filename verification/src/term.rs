//! The term representation: variables, abstractions and applications, with
//! variables identified by their De Bruijn index.

use vstd::prelude::*;
use vstd::string::StringExecFns;

verus! {

/// A lambda term over De Bruijn indices: a `Var(i)` counts binder nesting
/// outward, `1` being the nearest enclosing abstraction.
#[derive(Debug, PartialEq, Eq)]
pub enum Term {
    Var(usize),
    Abs(Box<Term>),
    App(Box<Term>, Box<Term>),
}

impl Clone for Term {
    /// Structurally copies the term.
    fn clone(&self) -> (r: Self)
        ensures
            r == *self,
        decreases *self,
    {
        match self {
            Term::Var(i) => Term::Var(*i),
            Term::Abs(body) => Term::Abs(Box::new((**body).clone())),
            Term::App(f, a) => Term::App(Box::new((**f).clone()), Box::new((**a).clone())),
        }
    }
}

impl Term {
    /// Applies `self` to `argument`, producing an application term.
    pub fn app(self, argument: Term) -> (r: Term)
        ensures
            r == Term::App(Box::new(self), Box::new(argument)),
    {
        Term::App(Box::new(self), Box::new(argument))
    }
}

/// Wraps `term` in one abstraction.
pub fn abs(term: Term) -> (r: Term)
    ensures
        r == Term::Abs(Box::new(term)),
{
    Term::Abs(Box::new(term))
}

/// Builds the application of `function` to `argument`.
pub fn app(function: Term, argument: Term) -> (r: Term)
    ensures
        r == Term::App(Box::new(function), Box::new(argument)),
{
    Term::App(Box::new(function), Box::new(argument))
}

/// The variable with De Bruijn index `i`, for stating contracts.
pub open spec fn spec_var(i: usize) -> Term {
    Term::Var(i)
}

/// One abstraction around `t`, for stating contracts.
pub open spec fn spec_abs(t: Term) -> Term {
    Term::Abs(Box::new(t))
}

/// The application of `f` to `a`, for stating contracts.
pub open spec fn spec_app(f: Term, a: Term) -> Term {
    Term::App(Box::new(f), Box::new(a))
}

/// The lower-case hexadecimal digit for `n`, for `n < 16`.
pub open spec fn spec_digit_char(n: int) -> char {
    if n == 0 { '0' } else if n == 1 { '1' } else if n == 2 { '2' } else if n == 3 { '3' }
    else if n == 4 { '4' } else if n == 5 { '5' } else if n == 6 { '6' } else if n == 7 { '7' }
    else if n == 8 { '8' } else if n == 9 { '9' } else if n == 10 { 'a' } else if n == 11 { 'b' }
    else if n == 12 { 'c' } else if n == 13 { 'd' } else if n == 14 { 'e' } else { 'f' }
}

/// The lower-case hexadecimal spelling of `n`, most significant digit first.
pub open spec fn spec_hex(n: int) -> Seq<char>
    decreases n,
{
    if n < 16 {
        seq![spec_digit_char(n)]
    } else {
        spec_hex(n / 16) + seq![spec_digit_char(n % 16)]
    }
}

/// The canonical (minimal) rendering of a term: no whitespace, the lambda
/// glyph for binders, and parentheses exactly around an abstraction in either
/// position of an application and around an application in argument position.
pub open spec fn spec_format(t: Term) -> Seq<char>
    decreases t,
{
    match t {
        Term::Var(i) => spec_hex(i as int),
        Term::Abs(body) => seq!['λ'] + spec_format(*body),
        Term::App(f, a) => {
            let fun = if *f is Abs {
                seq!['('] + spec_format(*f) + seq![')']
            } else {
                spec_format(*f)
            };
            let arg = if *a is Var {
                spec_format(*a)
            } else {
                seq!['('] + spec_format(*a) + seq![')']
            };
            fun + arg
        }
    }
}

/// A one-character string slice holding the hexadecimal digit for `d`.
fn digit_str(d: usize) -> (r: &'static str)
    requires
        d < 16,
    ensures
        r@ == seq![spec_digit_char(d as int)],
{
    proof {
        reveal_strlit("0"); reveal_strlit("1"); reveal_strlit("2"); reveal_strlit("3");
        reveal_strlit("4"); reveal_strlit("5"); reveal_strlit("6"); reveal_strlit("7");
        reveal_strlit("8"); reveal_strlit("9"); reveal_strlit("a"); reveal_strlit("b");
        reveal_strlit("c"); reveal_strlit("d"); reveal_strlit("e"); reveal_strlit("f");
    }
    let r = match d {
        0 => "0", 1 => "1", 2 => "2", 3 => "3",
        4 => "4", 5 => "5", 6 => "6", 7 => "7",
        8 => "8", 9 => "9", 10 => "a", 11 => "b",
        12 => "c", 13 => "d", 14 => "e", _ => "f",
    };
    proof {
        assert(r@ =~= seq![spec_digit_char(d as int)]);
    }
    r
}

/// The lower-case hexadecimal spelling of `n`.
fn hex_string(n: usize) -> (r: String)
    ensures
        r@ == spec_hex(n as int),
    decreases n,
{
    if n < 16 {
        let mut out = String::new();
        out.append(digit_str(n));
        proof {
            assert(out@ =~= spec_hex(n as int));
        }
        out
    } else {
        let mut out = hex_string(n / 16);
        out.append(digit_str(n % 16));
        out
    }
}

impl Term {
    /// Renders the term in its canonical textual form.
    pub fn render(&self) -> (r: String)
        ensures
            r@ == spec_format(*self),
        decreases *self,
    {
        proof {
            reveal_strlit("λ"); reveal_strlit("("); reveal_strlit(")");
        }
        match self {
            Term::Var(i) => hex_string(*i),
            Term::Abs(body) => {
                let mut out = String::new();
                out.append("λ");
                let body_text = body.render();
                out.append(body_text.as_str());
                proof {
                    assert(out@ =~= spec_format(*self));
                }
                out
            },
            Term::App(f, a) => {
                let mut out = String::new();
                match &**f {
                    Term::Abs(_) => {
                        out.append("(");
                        let f_text = f.render();
                        out.append(f_text.as_str());
                        out.append(")");
                    },
                    _ => {
                        let f_text = f.render();
                        out.append(f_text.as_str());
                    },
                }
                match &**a {
                    Term::Var(_) => {
                        let a_text = a.render();
                        out.append(a_text.as_str());
                    },
                    _ => {
                        out.append("(");
                        let a_text = a.render();
                        out.append(a_text.as_str());
                        out.append(")");
                    },
                }
                proof {
                    assert(out@ =~= spec_format(*self));
                }
                out
            },
        }
    }
}

} // verus!
