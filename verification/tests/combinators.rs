use lambda_calculus::combinators::{i, k, s, iota, b, c, w, om};
use lambda_calculus::arithmetic::{zero, one, to_cnum};
use lambda_calculus::reduction::normalize;

#[test]
fn ski_tests() {
    assert_eq!(normalize(i().app(zero())), zero());
    assert_eq!(normalize(k().app(zero()).app(one())), zero());
    assert_eq!(normalize(s().app(zero()).app(one()).app(to_cnum(2))),
               normalize(zero().app(to_cnum(2)).app(one().app(to_cnum(2)))));
}

#[test]
fn iota_tests() {
    assert_eq!(normalize(iota().app(iota())), i());
    assert_eq!(normalize(iota().app(iota().app(iota().app(iota())))), k());
    assert_eq!(normalize(iota().app(iota().app(iota().app(iota().app(iota()))))), s());
}

#[test]
fn bckw_tests() {
    assert_eq!(normalize(b().app(zero()).app(one()).app(to_cnum(2))),
               normalize(zero().app(one().app(to_cnum(2)))));
    assert_eq!(normalize(c().app(zero()).app(one()).app(to_cnum(2))),
               normalize(zero().app(to_cnum(2)).app(one())));
    assert_eq!(normalize(w().app(zero()).app(one())),
               normalize(zero().app(one()).app(one())));
}

#[test]
fn omega_tests() {
    assert_eq!(normalize(om().app(zero())), normalize(zero().app(zero())));
}
