//! Conversion of plain values into their Church encodings.

use vstd::prelude::*;
use crate::term::{Term, abs, app, spec_abs, spec_app, spec_var};
use crate::term::Term::Var;
use crate::church::boolean::spec_tru;
use crate::church::option::none;

verus! {

/// A value with a Church encoding as a closed lambda term.
pub trait IntoChurch {
    /// The term that encodes `self`.
    spec fn spec_into_church(self) -> Term;

    /// Consumes `self` and produces the term that encodes it.
    fn into_church(self) -> (r: Term) where Self: core::marker::Sized
        ensures
            r == self.spec_into_church(),
    ;
}

impl IntoChurch for Option<Term> {
    open spec fn spec_into_church(self) -> Term {
        match self {
            None => spec_tru(),
            Some(value) => spec_abs(spec_abs(spec_app(spec_var(1), value))),
        }
    }

    fn into_church(self) -> (r: Term) {
        match self {
            None => none(),
            Some(value) => abs(abs(app(Var(1), value))),
        }
    }
}

} // verus!
