use lambda_calculus::parser::{parse, tokenize, get_ast};
use lambda_calculus::parser::Error::{InvalidCharacter, EmptyExpression};
use lambda_calculus::parser::Token::{Lambda, Lparen, Rparen, Number};
use lambda_calculus::parser::Expression::{Abstraction, Sequence, Variable};
use lambda_calculus::term::{abs, app};
use lambda_calculus::term::Term::Var;
use lambda_calculus::arithmetic::{succ, to_cnum};
use lambda_calculus::reduction::normalize;

#[test]
fn tokenization_error() {
    assert_eq!(tokenize(&"λλx2"), Err(InvalidCharacter((4, 'x'))))
}

#[test]
fn tokenization_success() {
    let quine = "λ 1 ( (λ 1 1) (λ λ λ λ λ 1 4 (3 (5 5) 2) ) ) 1";
    let tokens = tokenize(&quine);

    assert!(tokens.is_ok());
    assert_eq!(tokens.unwrap(), vec![Lambda, Number(1), Lparen, Lparen, Lambda, Number(1),
        Number(1), Rparen, Lparen, Lambda, Lambda, Lambda, Lambda, Lambda, Number(1),
        Number(4), Lparen, Number(3), Lparen, Number(5), Number(5), Rparen, Number(2),
        Rparen, Rparen, Rparen, Number(1)]);
}

#[test]
fn alternative_lambda_parsing() {
    assert_eq!(parse(&"\\\\\\2(321)"), parse(&"λλλ2(321)"))
}

#[test]
fn succ_ast() {
    let tokens = tokenize(&"λλλ2(321)").unwrap();
    let ast = get_ast(&tokens);

    assert_eq!(ast,
        Ok(Sequence(vec![
            Abstraction,
            Abstraction,
            Abstraction,
            Variable(2),
            Sequence(vec![
                Variable(3),
                Variable(2),
                Variable(1)
            ])
        ])
    ));
}

#[test]
fn parse_y() {
    let y = "λ(λ2(11))(λ2(11))";
    assert_eq!(&*parse(&y).expect("parsing Y failed!").render(), y);
}

#[test]
fn parse_quine() {
    let quine = "λ1((λ11)(λλλλλ14(3(55)2)))1";
    assert_eq!(&*parse(&quine).expect("parsing QUINE failed!").render(), quine);
}

#[test]
fn parse_blc() {
    let blc = "(λ11)(λλλ1(λλλλ3(λ5(3(λ2(3(λλ3(λ123)))(4(λ4(λ31(21))))))(1(2(λ12))\
               (λ4(λ4(λ2(14)))5))))(33)2)(λ1((λ11)(λ11)))";
    assert_eq!(&*parse(&blc).expect("parsing BLC failed!").render(), blc);
}

#[test]
fn parse_succ_term() {
    assert_eq!(parse(&"λλλ2(321)"), Ok(succ()));
    assert_eq!(parse(&"λ λ λ 2 (3 2 1)"), Ok(succ()));
}

#[test]
fn empty_expression() {
    assert_eq!(parse(&""), Err(EmptyExpression));
    assert_eq!(parse(&"   "), Err(EmptyExpression));
    assert_eq!(parse(&"()"), Err(EmptyExpression));
    assert_eq!(parse(&"λ"), Err(EmptyExpression));
}

#[test]
fn unrecognized_symbol() {
    assert_eq!(parse(&"λ λ @"), Err(InvalidCharacter((6, '@'))));
}

#[test]
fn whitespace_insignificance() {
    let spaced = parse(&"λ 1 ( (λ 1 1) )");
    assert!(spaced.is_ok());
    assert_eq!(spaced, parse(&"λ1((λ11))"));
}

#[test]
fn unmatched_parentheses_absorbed() {
    assert_eq!(parse(&"((λ1"), parse(&"λ1"));
    assert_eq!(parse(&"λ1))"), parse(&"λ1"));
}

#[test]
fn hex_digit_indices() {
    assert_eq!(parse(&"a"), Ok(Var(10)));
    assert_eq!(parse(&"F"), Ok(Var(15)));
    assert_eq!(&*parse(&"λa").unwrap().render(), "λa");
}

#[test]
fn curried_application_shape() {
    assert_eq!(parse(&"321"), Ok(app(app(Var(3), Var(2)), Var(1))));
    assert_eq!(parse(&"3(21)"), Ok(app(Var(3), app(Var(2), Var(1)))));
}

#[test]
fn end_to_end_succ_of_two() {
    let s = parse(&"λλλ2(321)").expect("parsing SUCC failed!");
    assert_eq!(normalize(app(s, to_cnum(2))), to_cnum(3));
}

#[test]
fn render_canonical_terms() {
    assert_eq!(&*abs(Var(1)).render(), "λ1");
    assert_eq!(&*app(abs(Var(1)), abs(Var(1))).render(), "(λ1)(λ1)");
    assert_eq!(&*to_cnum(2).render(), "λλ2(21)");
}
