use lambda_calculus::church::boolean::{tru, fls};
use lambda_calculus::church::convert::IntoChurch;
use lambda_calculus::church::option::{none, some, is_none, is_some, map_or, unwrap_or};
use lambda_calculus::arithmetic::{zero, one, to_cnum, succ};
use lambda_calculus::reduction::normalize;
use lambda_calculus::term::{abs, app};
use lambda_calculus::term::Term;
use lambda_calculus::term::Term::Var;

/// The Church encoding of `Some(value)` for a closed `value`.
fn some_of(value: Term) -> Term {
    abs(abs(app(Var(1), value)))
}

#[test]
fn option_emptiness() {
    assert_eq!(normalize(app(is_none(), none())), tru());
    assert_eq!(normalize(app(is_none(), some_of(one()))), fls());
    assert_eq!(normalize(app(is_some(), none())), fls());
    assert_eq!(normalize(app(is_some(), some_of(to_cnum(2)))), tru());
}

#[test]
fn option_some_shape() {
    assert_eq!(normalize(app(some(), one())), some_of(one()));
}

#[test]
fn option_unwrap_or() {
    assert_eq!(normalize(app(app(unwrap_or(), to_cnum(2)), some_of(one()))), one());
    assert_eq!(normalize(app(app(unwrap_or(), to_cnum(2)), none())), to_cnum(2));
}

#[test]
fn option_map() {
    let map_term = lambda_calculus::church::option::map();
    assert_eq!(
        normalize(app(app(map_term, succ()), some_of(one()))),
        some_of(to_cnum(2)),
    );
    let map_term = lambda_calculus::church::option::map();
    assert_eq!(normalize(app(app(map_term, succ()), none())), none());
}

#[test]
fn option_map_or() {
    assert_eq!(
        normalize(app(app(app(map_or(), zero()), succ()), some_of(one()))),
        to_cnum(2),
    );
    assert_eq!(
        normalize(app(app(app(map_or(), zero()), succ()), none())),
        zero(),
    );
}

#[test]
fn option_into_church() {
    assert_eq!(Some(one()).into_church(), some_of(one()));
    assert_eq!(None::<Term>.into_church(), none());
}
