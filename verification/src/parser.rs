//! A parser for lambda expressions with
//! [De Bruijn indices](https://en.wikipedia.org/wiki/De_Bruijn_index): a
//! tokenizer, a nesting-preserving expression-tree builder and a semantic
//! folding pass that resolves implicit application and curried abstraction.

use vstd::prelude::*;
use vstd::string::StrSliceExecFns;
use crate::term::Term;

verus! {

/// A parsing error.
#[derive(Debug, PartialEq)]
pub enum Error {
    /// A character that is no lambda, backslash, parenthesis, hexadecimal
    /// digit or whitespace, together with the position at which it stands;
    /// the lambda glyph counts for two positions, every other character
    /// for one.
    InvalidCharacter((usize, char)),
    /// The expression tree did not come out as a sequence; structurally
    /// unreachable under the present grammar, kept for extensions of it.
    InvalidExpression,
    /// A (possibly nested) expression held no operand at all.
    EmptyExpression,
}

/// One lexical token of a lambda expression.
#[derive(Debug, PartialEq, Clone, Copy)]
pub enum Token {
    Lambda,
    Lparen,
    Rparen,
    Number(usize),
}

/// Whether `c` spells a binder: either the backslash or the lambda glyph.
pub open spec fn is_lambda_char(c: char) -> bool {
    c == '\\' || c == 'λ'
}

/// How far `c` advances the position counter: two for the lambda glyph,
/// one for every other character.
pub open spec fn char_width(c: char) -> int {
    if c == 'λ' {
        2
    } else {
        1
    }
}

/// The value of `c` as a hexadecimal digit, if it is one.
pub open spec fn spec_hex_value(c: char) -> Option<usize> {
    let v = c as int;
    if 48 <= v <= 57 {
        Some((v - 48) as usize)
    } else if 97 <= v <= 102 {
        Some((v - 87) as usize)
    } else if 65 <= v <= 70 {
        Some((v - 55) as usize)
    } else {
        None
    }
}

/// Whether `c` carries the Unicode `White_Space` property.
pub open spec fn is_whitespace_char(c: char) -> bool {
    let v = c as int;
    (9 <= v <= 13) || v == 32 || v == 133 || v == 160 || v == 5760 || (8192 <= v <= 8202)
        || v == 8232 || v == 8233 || v == 8239 || v == 8287 || v == 12288
}

/// The value of `c` as a hexadecimal digit, if it is one.
pub fn hex_value(c: char) -> (r: Option<usize>)
    ensures
        r == spec_hex_value(c),
{
    let v = c as u32;
    if 48 <= v && v <= 57 {
        Some((v - 48) as usize)
    } else if 97 <= v && v <= 102 {
        Some((v - 87) as usize)
    } else if 65 <= v && v <= 70 {
        Some((v - 55) as usize)
    } else {
        None
    }
}

/// Whether `c` carries the Unicode `White_Space` property.
pub fn is_whitespace(c: char) -> (r: bool)
    ensures
        r == is_whitespace_char(c),
{
    let v = c as u32;
    (9 <= v && v <= 13) || v == 32 || v == 133 || v == 160 || v == 5760
        || (8192 <= v && v <= 8202) || v == 8232 || v == 8233 || v == 8239 || v == 8287
        || v == 12288
}

/// The tokens of `s` from character index `i` on, with the position counter
/// at `pos`; the first unrecognized character stops the scan with an
/// `InvalidCharacter` error carrying its position.
pub open spec fn spec_tokenize_from(s: Seq<char>, i: int, pos: int) -> Result<Seq<Token>, Error>
    decreases s.len() - i,
{
    if i < 0 || i >= s.len() {
        Ok(Seq::empty())
    } else {
        let c = s[i];
        let rest = spec_tokenize_from(s, i + 1, pos + char_width(c));
        if is_lambda_char(c) {
            spec_prepend(Token::Lambda, rest)
        } else if c == '(' {
            spec_prepend(Token::Lparen, rest)
        } else if c == ')' {
            spec_prepend(Token::Rparen, rest)
        } else if spec_hex_value(c) is Some {
            spec_prepend(Token::Number(spec_hex_value(c)->Some_0), rest)
        } else if is_whitespace_char(c) {
            rest
        } else {
            Err(Error::InvalidCharacter((pos as usize, c)))
        }
    }
}

/// Puts `t` before the tokens of `r`, keeping an error as it is.
pub open spec fn spec_prepend(t: Token, r: Result<Seq<Token>, Error>) -> Result<
    Seq<Token>,
    Error,
> {
    match r {
        Ok(ts) => Ok(seq![t] + ts),
        Err(e) => Err(e),
    }
}

/// The token sequence of the whole of `s`, or the first character-level error.
pub open spec fn spec_tokenize(s: Seq<char>) -> Result<Seq<Token>, Error> {
    spec_tokenize_from(s, 0, 0)
}

/// Puts the already-scanned tokens `pre` before the outcome `r` of scanning
/// the rest.
pub open spec fn spec_with_prefix(pre: Seq<Token>, r: Result<Seq<Token>, Error>) -> Result<
    Seq<Token>,
    Error,
> {
    match r {
        Ok(ts) => Ok(pre + ts),
        Err(e) => Err(e),
    }
}

/// The sequence view of a token-vector result, for stating contracts.
pub open spec fn token_result_view(r: Result<Vec<Token>, Error>) -> Result<Seq<Token>, Error> {
    match r {
        Ok(v) => Ok(v@),
        Err(e) => Err(e),
    }
}

/// Scans `input` left to right into its token sequence; fails with
/// `InvalidCharacter` on the first character that is no lambda, backslash,
/// parenthesis, hexadecimal digit or whitespace.
pub fn tokenize(input: &str) -> (r: Result<Vec<Token>, Error>)
    requires
        input@.len() < usize::MAX / 2,
    ensures
        token_result_view(r) == spec_tokenize(input@),
{
    let ghost s = input@;
    let len = input.unicode_len();
    let mut tokens: Vec<Token> = Vec::new();
    let mut position: usize = 0;
    let mut i: usize = 0;

    while i < len
        invariant
            s == input@,
            len == s.len(),
            len < usize::MAX / 2,
            i <= len,
            position <= 2 * i,
            spec_tokenize(s) == spec_with_prefix(tokens@, spec_tokenize_from(s, i as int, position as int)),
        decreases len - i,
    {
        let c = input.get_char(i);
        let ghost before = tokens@;
        if c == '\\' || c == 'λ' {
            tokens.push(Token::Lambda);
        } else if c == '(' {
            tokens.push(Token::Lparen);
        } else if c == ')' {
            tokens.push(Token::Rparen);
        } else if let Some(n) = hex_value(c) {
            tokens.push(Token::Number(n));
        } else if is_whitespace(c) {
            // skipped
        } else {
            proof {
                assert(spec_tokenize_from(s, i as int, position as int)
                    == Err::<Seq<Token>, Error>(Error::InvalidCharacter((position, c))));
            }
            return Err(Error::InvalidCharacter((position, c)));
        }
        proof {
            let rest = spec_tokenize_from(s, i + 1, position + char_width(c));
            if let Ok(ts) = rest {
                assert(tokens@ + ts =~= before + spec_tokenize_from(s, i as int, position as int)->Ok_0);
            }
        }
        position += if c == 'λ' { 2 } else { 1 };
        i += 1;
    }
    proof {
        assert(tokens@ + Seq::<Token>::empty() =~= tokens@);
    }
    Ok(tokens)
}

/// One node of the intermediate expression tree: an abstraction marker, a
/// variable leaf, or one parenthesis-nesting level. A `Sequence` does not yet
/// distinguish grouping from application.
#[derive(Debug, PartialEq)]
pub enum Expression {
    Abstraction,
    Sequence(Vec<Expression>),
    Variable(usize),
}

/// The mathematical shape of an `Expression`.
#[verifier::ext_equal]
pub enum SpecExpression {
    Abstraction,
    Sequence(Seq<SpecExpression>),
    Variable(usize),
}

/// The `SpecExpression` that `e` stands for.
pub open spec fn expr_view(e: Expression) -> SpecExpression
    decreases e,
{
    match e {
        Expression::Abstraction => SpecExpression::Abstraction,
        Expression::Variable(i) => SpecExpression::Variable(i),
        Expression::Sequence(v) => SpecExpression::Sequence(
            Seq::new(
                v@.len(),
                |k: int|
                    if 0 <= k < v@.len() {
                        expr_view(v@[k])
                    } else {
                        SpecExpression::Abstraction
                    },
            ),
        ),
    }
}

impl View for Expression {
    type V = SpecExpression;

    open spec fn view(&self) -> SpecExpression {
        expr_view(*self)
    }
}

/// The view of one nesting level under construction.
pub open spec fn level_view(level: Seq<Expression>) -> Seq<SpecExpression> {
    Seq::new(
        level.len(),
        |k: int|
            if 0 <= k < level.len() {
                expr_view(level[k])
            } else {
                SpecExpression::Abstraction
            },
    )
}

/// The view of the whole stack of open nesting levels, outermost first.
pub open spec fn stack_view(stack: Seq<Vec<Expression>>) -> Seq<Seq<SpecExpression>> {
    Seq::new(
        stack.len(),
        |k: int|
            if 0 <= k < stack.len() {
                level_view(stack[k]@)
            } else {
                Seq::empty()
            },
    )
}

/// Appends `e` to the innermost open level of `stack`.
pub open spec fn push_on_top(stack: Seq<Seq<SpecExpression>>, e: SpecExpression) -> Seq<
    Seq<SpecExpression>,
>
    recommends
        stack.len() >= 1,
{
    stack.update(stack.len() - 1, stack.last().push(e))
}

/// Closes every still-open level at the end of the input: an unmatched
/// opening parenthesis is absorbed silently, its level becoming the last
/// element of the level enclosing it.
pub open spec fn spec_collapse(stack: Seq<Seq<SpecExpression>>) -> SpecExpression
    recommends
        stack.len() >= 1,
    decreases stack.len(),
{
    if stack.len() <= 1 {
        SpecExpression::Sequence(
            if stack.len() == 1 {
                stack[0]
            } else {
                Seq::empty()
            },
        )
    } else {
        spec_collapse(push_on_top(stack.drop_last(), SpecExpression::Sequence(stack.last())))
    }
}

/// Runs the tree builder over `toks` from index `i`, with `stack` the open
/// nesting levels built so far (outermost first). A closing parenthesis ends
/// the innermost level; one with no level left open ends the whole walk at
/// once, absorbing the unmatched parenthesis and whatever follows it.
pub open spec fn spec_build(
    toks: Seq<Token>,
    i: int,
    stack: Seq<Seq<SpecExpression>>,
) -> SpecExpression
    recommends
        stack.len() >= 1,
    decreases toks.len() - i,
{
    if i < 0 || i >= toks.len() {
        spec_collapse(stack)
    } else {
        match toks[i] {
            Token::Lambda => spec_build(toks, i + 1, push_on_top(stack, SpecExpression::Abstraction)),
            Token::Number(n) => spec_build(
                toks,
                i + 1,
                push_on_top(stack, SpecExpression::Variable(n)),
            ),
            Token::Lparen => spec_build(toks, i + 1, stack.push(Seq::empty())),
            Token::Rparen => {
                if stack.len() <= 1 {
                    SpecExpression::Sequence(
                        if stack.len() == 1 {
                            stack[0]
                        } else {
                            Seq::empty()
                        },
                    )
                } else {
                    spec_build(
                        toks,
                        i + 1,
                        push_on_top(stack.drop_last(), SpecExpression::Sequence(stack.last())),
                    )
                }
            },
        }
    }
}

/// The expression tree of `toks`: a `Sequence` holding the whole input, or
/// `EmptyExpression` when there are no tokens at all.
pub open spec fn spec_ast(toks: Seq<Token>) -> Result<SpecExpression, Error> {
    if toks.len() == 0 {
        Err(Error::EmptyExpression)
    } else {
        Ok(spec_build(toks, 0, seq![Seq::empty()]))
    }
}

proof fn lemma_expr_view_sequence(v: Vec<Expression>)
    ensures
        expr_view(Expression::Sequence(v)) == SpecExpression::Sequence(level_view(v@)),
{
    assert(expr_view(Expression::Sequence(v))->Sequence_0 =~= level_view(v@));
}

proof fn lemma_stack_view_drop_last(s: Seq<Vec<Expression>>)
    requires
        s.len() >= 1,
    ensures
        stack_view(s.drop_last()) =~= stack_view(s).drop_last(),
{
}

/// Popping the innermost level, appending `e` to it and putting it back is,
/// in the view, `push_on_top`.
proof fn lemma_replace_top(old_stack: Seq<Vec<Expression>>, new_top: Vec<Expression>, e: Expression)
    requires
        old_stack.len() >= 1,
        new_top@ == old_stack.last()@.push(e),
    ensures
        stack_view(old_stack.drop_last().push(new_top)) =~= push_on_top(
            stack_view(old_stack),
            expr_view(e),
        ),
{
    let lhs = stack_view(old_stack.drop_last().push(new_top));
    let rhs = push_on_top(stack_view(old_stack), expr_view(e));
    assert forall|k: int| 0 <= k < lhs.len() implies lhs[k] == rhs[k] by {
        if k == old_stack.len() - 1 {
            assert(level_view(new_top@) =~= stack_view(old_stack).last().push(expr_view(e)));
        } else {
            assert(old_stack.drop_last().push(new_top)[k] == old_stack[k]);
        }
    }
    assert(lhs =~= rhs);
}

/// Builds the nesting-preserving expression tree of `tokens` with an explicit
/// stack of open levels; fails with `EmptyExpression` if given no tokens at
/// all. Unmatched parentheses of either kind are absorbed, never reported.
pub fn get_ast(tokens: &Vec<Token>) -> (r: Result<Expression, Error>)
    ensures
        match r {
            Ok(e) => spec_ast(tokens@) == Ok::<SpecExpression, Error>(e@) && e is Sequence,
            Err(e) => spec_ast(tokens@) == Err::<SpecExpression, Error>(e),
        },
{
    if tokens.len() == 0 {
        return Err(Error::EmptyExpression);
    }
    let ghost toks = tokens@;
    let ghost init = seq![Seq::<SpecExpression>::empty()];
    let mut stack: Vec<Vec<Expression>> = Vec::new();
    stack.push(Vec::new());
    proof {
        assert(stack_view(stack@) =~~= init);
    }
    let mut i: usize = 0;
    while i < tokens.len()
        invariant
            toks == tokens@,
            toks.len() > 0,
            init == seq![Seq::<SpecExpression>::empty()],
            i <= toks.len(),
            stack@.len() >= 1,
            spec_build(toks, 0, init) == spec_build(toks, i as int, stack_view(stack@)),
        decreases toks.len() - i,
    {
        let ghost sv = stack_view(stack@);
        let ghost gs = stack@;
        let t = tokens[i];
        match t {
            Token::Lambda => {
                let mut top = stack.pop().unwrap();
                top.push(Expression::Abstraction);
                stack.push(top);
                proof {
                    lemma_replace_top(gs, stack@.last(), Expression::Abstraction);
                    assert(stack_view(stack@) == push_on_top(sv, SpecExpression::Abstraction));
                }
            },
            Token::Number(n) => {
                let mut top = stack.pop().unwrap();
                top.push(Expression::Variable(n));
                stack.push(top);
                proof {
                    lemma_replace_top(gs, stack@.last(), Expression::Variable(n));
                    assert(stack_view(stack@) == push_on_top(sv, SpecExpression::Variable(n)));
                }
            },
            Token::Lparen => {
                stack.push(Vec::new());
                proof {
                    assert(level_view(stack@.last()@) =~= Seq::<SpecExpression>::empty());
                    assert(stack_view(stack@) =~= sv.push(Seq::empty()));
                }
            },
            Token::Rparen => {
                let top = stack.pop().unwrap();
                if stack.len() == 0 {
                    let ghost tv = level_view(top@);
                    let out = Expression::Sequence(top);
                    proof {
                        lemma_expr_view_sequence(gs.last());
                        assert(sv[0] == tv);
                        assert(out@ == spec_build(toks, i as int, sv));
                    }
                    return Ok(out);
                }
                let ghost top_snapshot = top;
                let mut parent = stack.pop().unwrap();
                parent.push(Expression::Sequence(top));
                stack.push(parent);
                proof {
                    lemma_replace_top(
                        gs.drop_last(),
                        stack@.last(),
                        Expression::Sequence(top_snapshot),
                    );
                    lemma_stack_view_drop_last(gs);
                    lemma_expr_view_sequence(top_snapshot);
                    assert(stack_view(gs).last() == level_view(top_snapshot@));
                    assert(stack_view(stack@) == push_on_top(
                        sv.drop_last(),
                        SpecExpression::Sequence(sv.last()),
                    ));
                }
            },
        }
        i += 1;
    }
    while stack.len() > 1
        invariant
            toks == tokens@,
            toks.len() > 0,
            init == seq![Seq::<SpecExpression>::empty()],
            stack@.len() >= 1,
            spec_build(toks, 0, init) == spec_collapse(stack_view(stack@)),
        decreases stack@.len(),
    {
        let ghost sv = stack_view(stack@);
        let ghost gs = stack@;
        let top = stack.pop().unwrap();
        let ghost top_snapshot = top;
        let mut parent = stack.pop().unwrap();
        parent.push(Expression::Sequence(top));
        stack.push(parent);
        proof {
            lemma_replace_top(gs.drop_last(), stack@.last(), Expression::Sequence(top_snapshot));
            lemma_stack_view_drop_last(gs);
            lemma_expr_view_sequence(top_snapshot);
            assert(stack_view(gs).last() == level_view(top_snapshot@));
            assert(stack_view(stack@) == push_on_top(
                sv.drop_last(),
                SpecExpression::Sequence(sv.last()),
            ));
        }
    }
    let ghost sv_final = stack_view(stack@);
    let ghost gs = stack@;
    let top = stack.pop().unwrap();
    let ghost tv = level_view(top@);
    let out = Expression::Sequence(top);
    proof {
        lemma_expr_view_sequence(gs.last());
        assert(sv_final[0] == tv);
        assert(out@ == spec_collapse(sv_final));
    }
    Ok(out)
}

/// `t` under `m` abstractions.
pub open spec fn spec_abs_wrap(m: nat, t: Term) -> Term
    decreases m,
{
    if m == 0 {
        t
    } else {
        Term::Abs(Box::new(spec_abs_wrap((m - 1) as nat, t)))
    }
}

/// The left-associative application fold: `acc` applied to each of `rest`
/// in turn.
pub open spec fn spec_app_fold(acc: Term, rest: Seq<Term>) -> Term
    decreases rest.len(),
{
    if rest.len() == 0 {
        acc
    } else {
        spec_app_fold(Term::App(Box::new(acc), Box::new(rest[0])), rest.drop_first())
    }
}

/// Folds a list of operands left-associatively into applications; zero
/// operands are an `EmptyExpression` error.
pub open spec fn spec_fold_terms(ops: Seq<Term>) -> Result<Term, Error> {
    if ops.len() == 0 {
        Err(Error::EmptyExpression)
    } else {
        Ok(spec_app_fold(ops[0], ops.drop_first()))
    }
}

/// Puts the already-gathered operands `ops` and marker count `m` before the
/// outcome `r` of scanning the rest of a level.
pub open spec fn scan_combine(
    ops: Seq<Term>,
    m: nat,
    r: Result<(Seq<Term>, nat), Error>,
) -> Result<(Seq<Term>, nat), Error> {
    match r {
        Ok(p) => Ok((ops + p.0, (m + p.1) as nat)),
        Err(e) => Err(e),
    }
}

/// Scans the elements of one nesting level in order: abstraction markers are
/// counted, variables become operands, and each nested level is resolved
/// recursively to a single operand, the first error anywhere aborting the
/// whole scan.
pub open spec fn spec_scan(es: Seq<SpecExpression>) -> Result<(Seq<Term>, nat), Error>
    decreases es, 0int,
{
    if es.len() == 0 {
        Ok((Seq::empty(), 0))
    } else {
        let rest = spec_scan(es.drop_first());
        match es[0] {
            SpecExpression::Variable(i) => match rest {
                Ok(p) => Ok((seq![Term::Var(i)] + p.0, p.1)),
                Err(e) => Err(e),
            },
            SpecExpression::Abstraction => match rest {
                Ok(p) => Ok((p.0, (p.1 + 1) as nat)),
                Err(e) => Err(e),
            },
            SpecExpression::Sequence(sub) => match spec_fold_exprs(sub) {
                Err(e) => Err(e),
                Ok(t) => match rest {
                    Ok(p) => Ok((seq![t] + p.0, p.1)),
                    Err(e) => Err(e),
                },
            },
        }
    }
}

/// Turns one nesting level into a single term: its operands folded
/// left-associatively into applications, wrapped in one abstraction for each
/// marker of the level; a level without operands is an `EmptyExpression`
/// error.
pub open spec fn spec_fold_exprs(es: Seq<SpecExpression>) -> Result<Term, Error>
    decreases es, 1int,
{
    match spec_scan(es) {
        Err(e) => Err(e),
        Ok(p) => match spec_fold_terms(p.0) {
            Err(e) => Err(e),
            Ok(t) => Ok(spec_abs_wrap(p.1, t)),
        },
    }
}

/// What parsing the text `s` yields: the term of its token sequence, or the
/// first error met along the way.
pub open spec fn spec_parse(s: Seq<char>) -> Result<Term, Error> {
    match spec_tokenize(s) {
        Err(e) => Err(e),
        Ok(toks) => match spec_ast(toks) {
            Err(e) => Err(e),
            Ok(ast) => match ast {
                SpecExpression::Sequence(es) => spec_fold_exprs(es),
                _ => Err(Error::InvalidExpression),
            },
        },
    }
}

/// Wrapping the abstractions one by one from the inside out is the same as
/// wrapping them in one pass.
proof fn lemma_abs_wrap_inside(m: nat, t: Term)
    ensures
        spec_abs_wrap(m, Term::Abs(Box::new(t))) == Term::Abs(Box::new(spec_abs_wrap(m, t))),
    decreases m,
{
    if m > 0 {
        lemma_abs_wrap_inside((m - 1) as nat, t);
    }
}

/// Folds the operand list left-associatively into application terms; the
/// first operand is the seed, each later one the argument of an application
/// whose function is the fold so far. Zero operands fail with
/// `EmptyExpression`.
fn fold_terms(terms: Vec<Term>) -> (r: Result<Term, Error>)
    ensures
        match r {
            Ok(t) => spec_fold_terms(terms@) == Ok::<Term, Error>(t),
            Err(e) => spec_fold_terms(terms@) == Err::<Term, Error>(e),
        },
{
    if terms.len() == 0 {
        return Err(Error::EmptyExpression);
    }
    let mut acc = terms[0].clone();
    let mut k: usize = 1;
    while k < terms.len()
        invariant
            1 <= k <= terms@.len(),
            spec_app_fold(terms@[0], terms@.drop_first()) == spec_app_fold(
                acc,
                terms@.subrange(k as int, terms@.len() as int),
            ),
        decreases terms@.len() - k,
    {
        let ghost rest = terms@.subrange(k as int, terms@.len() as int);
        acc = Term::App(Box::new(acc), Box::new(terms[k].clone()));
        proof {
            assert(rest[0] == terms@[k as int]);
            assert(rest.drop_first() =~= terms@.subrange(k + 1, terms@.len() as int));
        }
        k += 1;
    }
    proof {
        assert(terms@.subrange(k as int, terms@.len() as int).len() == 0);
    }
    Ok(acc)
}

/// Resolves one nesting level: gathers its markers and operands (resolving
/// nested levels recursively), folds the operands into applications and
/// wraps the result in the level's abstractions.
fn fold_exprs(exprs: &Vec<Expression>) -> (r: Result<Term, Error>)
    ensures
        match r {
            Ok(t) => spec_fold_exprs(level_view(exprs@)) == Ok::<Term, Error>(t),
            Err(e) => spec_fold_exprs(level_view(exprs@)) == Err::<Term, Error>(e),
        },
    decreases exprs@,
{
    let ghost lv = level_view(exprs@);
    let mut output: Vec<Term> = Vec::new();
    let mut markers: usize = 0;
    let mut k: usize = 0;
    proof {
        assert(lv.subrange(0, lv.len() as int) =~= lv);
        if let Ok(p) = spec_scan(lv) {
            assert(Seq::<Term>::empty() + p.0 =~= p.0);
        }
    }
    while k < exprs.len()
        invariant
            lv == level_view(exprs@),
            k <= exprs@.len(),
            markers <= k,
            spec_scan(lv) == scan_combine(
                output@,
                markers as nat,
                spec_scan(lv.subrange(k as int, lv.len() as int)),
            ),
        decreases exprs@.len() - k,
    {
        let ghost rest = lv.subrange(k as int, lv.len() as int);
        proof {
            assert(rest[0] == lv[k as int]);
            assert(rest.drop_first() =~= lv.subrange(k + 1, lv.len() as int));
        }
        let ghost out_before = output@;
        match &exprs[k] {
            Expression::Abstraction => {
                markers += 1;
            },
            Expression::Variable(i) => {
                output.push(Term::Var(*i));
                proof {
                    if let Ok(p) = spec_scan(rest.drop_first()) {
                        assert(out_before + (seq![Term::Var(*i)] + p.0) =~= output@ + p.0);
                    }
                }
            },
            Expression::Sequence(v) => {
                proof {
                    lemma_expr_view_sequence(exprs@[k as int]->Sequence_0);
                    assert(lv[k as int]->Sequence_0 == level_view(v@));
                }
                match fold_exprs(v) {
                    Ok(t) => {
                        output.push(t);
                        proof {
                            if let Ok(p) = spec_scan(rest.drop_first()) {
                                assert(out_before + (seq![t] + p.0) =~= output@ + p.0);
                            }
                        }
                    },
                    Err(e) => {
                        return Err(e);
                    },
                }
            },
        }
        k += 1;
    }
    proof {
        assert(lv.subrange(k as int, lv.len() as int).len() == 0);
        assert(output@ + Seq::<Term>::empty() =~= output@);
    }
    let ghost m_total = markers as nat;
    let folded = fold_terms(output);
    let mut ret = match folded {
        Ok(t) => t,
        Err(e) => {
            return Err(e);
        },
    };
    let ghost seed = ret;
    while markers > 0
        invariant
            markers as nat <= m_total,
            spec_abs_wrap(m_total, seed) == spec_abs_wrap(markers as nat, ret),
        decreases markers,
    {
        let ghost ret_before = ret;
        ret = Term::Abs(Box::new(ret));
        proof {
            lemma_abs_wrap_inside((markers - 1) as nat, ret_before);
        }
        markers -= 1;
    }
    Ok(ret)
}

/// Parses `input` as a lambda expression with De Bruijn indices to a `Term`;
/// a binder can be spelled either with the lambda glyph or with a backslash,
/// and both spellings of the same structure yield the same term.
pub fn parse(input: &str) -> (r: Result<Term, Error>)
    requires
        input@.len() < usize::MAX / 2,
    ensures
        match r {
            Ok(t) => spec_parse(input@) == Ok::<Term, Error>(t),
            Err(e) => spec_parse(input@) == Err::<Term, Error>(e),
        },
{
    let tokens = match tokenize(input) {
        Ok(ts) => ts,
        Err(e) => return Err(e),
    };
    let ast = match get_ast(&tokens) {
        Ok(a) => a,
        Err(e) => return Err(e),
    };
    match ast {
        Expression::Sequence(exprs) => {
            proof {
                lemma_expr_view_sequence(exprs);
            }
            fold_exprs(&exprs)
        },
        _ => Err(Error::InvalidExpression),
    }
}

/// `s` with every lambda glyph spelled as a backslash instead.
pub open spec fn respell(s: Seq<char>) -> Seq<char> {
    s.map_values(
        |c: char|
            if c == 'λ' {
                '\\'
            } else {
                c
            },
    )
}

/// `s` without its whitespace characters, from index `i` on.
pub open spec fn strip_from(s: Seq<char>, i: int) -> Seq<char>
    decreases s.len() - i,
{
    if i < 0 || i >= s.len() {
        Seq::empty()
    } else if is_whitespace_char(s[i]) {
        strip_from(s, i + 1)
    } else {
        seq![s[i]] + strip_from(s, i + 1)
    }
}

/// `s` without its whitespace characters.
pub open spec fn strip_whitespace(s: Seq<char>) -> Seq<char> {
    strip_from(s, 0)
}

proof fn lemma_tokenize_respell_from(s: Seq<char>, i: int, pos1: int, pos2: int)
    ensures
        spec_tokenize_from(s, i, pos1) is Ok <==> spec_tokenize_from(respell(s), i, pos2) is Ok,
        spec_tokenize_from(s, i, pos1) is Ok ==> spec_tokenize_from(respell(s), i, pos2)
            == spec_tokenize_from(s, i, pos1),
    decreases s.len() - i,
{
    if 0 <= i < s.len() {
        let c = s[i];
        let c2 = respell(s)[i];
        lemma_tokenize_respell_from(s, i + 1, pos1 + char_width(c), pos2 + char_width(c2));
    }
}

/// Spelling equivalence: the lambda glyph and the backslash are
/// interchangeable binder spellings. A text that tokenizes does so with every
/// glyph respelled as a backslash too, yielding the very same tokens and
/// hence the very same parse.
pub proof fn lemma_spelling_equivalence(s: Seq<char>)
    ensures
        spec_tokenize(s) is Ok <==> spec_tokenize(respell(s)) is Ok,
        spec_tokenize(s) is Ok ==> spec_parse(respell(s)) == spec_parse(s),
{
    lemma_tokenize_respell_from(s, 0, 0, 0);
}

proof fn lemma_tok_shift(c: char, tail: Seq<char>, j: int, p: int)
    requires
        0 <= j,
    ensures
        spec_tokenize_from(seq![c] + tail, j + 1, p) == spec_tokenize_from(tail, j, p),
    decreases tail.len() - j,
{
    if j < tail.len() {
        assert((seq![c] + tail)[j + 1] == tail[j]);
        lemma_tok_shift(c, tail, j + 1, p + char_width(tail[j]));
    }
}

proof fn lemma_tokenize_strip_from(s: Seq<char>, i: int, pos1: int, pos2: int)
    requires
        0 <= i,
    ensures
        spec_tokenize_from(s, i, pos1) is Ok ==> spec_tokenize_from(strip_from(s, i), 0, pos2)
            == spec_tokenize_from(s, i, pos1),
    decreases s.len() - i,
{
    if i >= s.len() {
    } else {
        let c = s[i];
        if is_whitespace_char(c) {
            lemma_tokenize_strip_from(s, i + 1, pos1 + char_width(c), pos2);
        } else {
            let rest_stripped = strip_from(s, i + 1);
            lemma_tok_shift(c, rest_stripped, 0, pos2 + char_width(c));
            lemma_tokenize_strip_from(s, i + 1, pos1 + char_width(c), pos2 + char_width(c));
            assert((seq![c] + rest_stripped)[0] == c);
        }
    }
}

/// Whitespace insignificance: whitespace only separates tokens. A text that
/// tokenizes yields the very same tokens with all its whitespace removed, and
/// hence the very same parse.
pub proof fn lemma_whitespace_insignificance(s: Seq<char>)
    ensures
        spec_tokenize(s) is Ok ==> spec_parse(strip_whitespace(s)) == spec_parse(s),
{
    lemma_tokenize_strip_from(s, 0, 0, 0);
}

/// Whether every variable index of `t` fits in one hexadecimal digit, so
/// that the grammar can spell the term at all.
pub open spec fn single_digit_indices(t: Term) -> bool
    decreases t,
{
    match t {
        Term::Var(i) => i < 16,
        Term::Abs(b) => single_digit_indices(*b),
        Term::App(f, a) => single_digit_indices(*f) && single_digit_indices(*a),
    }
}

/// The token sequence of the canonical rendering of `t`.
pub open spec fn spec_term_tokens(t: Term) -> Seq<Token>
    decreases t,
{
    match t {
        Term::Var(i) => seq![Token::Number(i)],
        Term::Abs(b) => seq![Token::Lambda] + spec_term_tokens(*b),
        Term::App(f, a) => {
            let ft = if *f is Abs {
                seq![Token::Lparen] + spec_term_tokens(*f) + seq![Token::Rparen]
            } else {
                spec_term_tokens(*f)
            };
            let at = if *a is Var {
                spec_term_tokens(*a)
            } else {
                seq![Token::Lparen] + spec_term_tokens(*a) + seq![Token::Rparen]
            };
            ft + at
        },
    }
}

proof fn lemma_tok_pos(s: Seq<char>, i: int, p1: int, p2: int)
    ensures
        spec_tokenize_from(s, i, p1) is Ok <==> spec_tokenize_from(s, i, p2) is Ok,
        spec_tokenize_from(s, i, p1) is Ok ==> spec_tokenize_from(s, i, p2) == spec_tokenize_from(
            s,
            i,
            p1,
        ),
    decreases s.len() - i,
{
    if 0 <= i < s.len() {
        lemma_tok_pos(s, i + 1, p1 + char_width(s[i]), p2 + char_width(s[i]));
    }
}

proof fn lemma_tokenize_concat_ok(s1: Seq<char>, s2: Seq<char>, toks1: Seq<Token>)
    requires
        spec_tokenize(s1) == Ok::<Seq<Token>, Error>(toks1),
        spec_tokenize(s2) is Ok,
    ensures
        spec_tokenize(s1 + s2) == spec_with_prefix(toks1, spec_tokenize(s2)),
    decreases s1.len(),
{
    if s1.len() == 0 {
        assert(s1 + s2 =~= s2);
        if let Ok(ts) = spec_tokenize(s2) {
            assert(toks1 + ts =~= ts);
        }
    } else {
        let c = s1[0];
        let tail1 = s1.drop_first();
        assert(s1 =~= seq![c] + tail1);
        assert(seq![c] + (tail1 + s2) =~= s1 + s2);
        // the head of s1 tokenizes error-free, since the whole of s1 does
        lemma_tok_shift(c, tail1, 0, char_width(c));
        lemma_tok_pos(tail1, 0, char_width(c), 0);
        let rest1 = spec_tokenize(tail1);
        assert(rest1 is Ok);
        lemma_tokenize_concat_ok(tail1, s2, rest1->Ok_0);
        lemma_tok_shift(c, tail1 + s2, 0, char_width(c));
        lemma_tok_pos(tail1 + s2, 0, char_width(c), 0);
        if let Ok(ts2) = spec_tokenize(s2) {
            assert(toks1 + ts2 =~= spec_with_prefix(toks1, spec_tokenize(s2))->Ok_0);
            if is_whitespace_char(c) {
                assert(toks1 == rest1->Ok_0);
            } else {
                assert(toks1 =~= seq![toks1[0]] + rest1->Ok_0);
                assert((seq![toks1[0]] + (rest1->Ok_0 + ts2)) =~= toks1 + ts2);
            }
        }
    }
}

/// The canonical rendering of `t` holds at least one character, and it
/// tokenizes, without error, to the token sequence of `t`.
proof fn lemma_format_tokens(t: Term)
    requires
        single_digit_indices(t),
    ensures
        crate::term::spec_format(t).len() >= 1,
        spec_tokenize(crate::term::spec_format(t)) == Ok::<Seq<Token>, Error>(spec_term_tokens(t)),
    decreases t, 0int,
{
    let s = crate::term::spec_format(t);
    match t {
        Term::Var(i) => {
            let c = crate::term::spec_digit_char(i as int);
            assert(s =~= seq![c]);
            assert(spec_hex_value(c) == Some(i));
            assert(spec_tokenize_from(s, 0, 0) == spec_prepend(
                Token::Number(i),
                spec_tokenize_from(s, 1, 1),
            ));
            assert(seq![Token::Number(i)] + Seq::<Token>::empty() =~= seq![Token::Number(i)]);
        },
        Term::Abs(b) => {
            lemma_format_tokens(*b);
            let body = crate::term::spec_format(*b);
            lemma_tokenize_concat_ok(seq!['λ'], body, seq![Token::Lambda]);
            assert(seq!['λ'] + body =~= s);
            assert(spec_tokenize_from(seq!['λ'], 0, 0) == spec_prepend(
                Token::Lambda,
                spec_tokenize_from(seq!['λ'], 1, 2),
            ));
            assert(seq![Token::Lambda] + Seq::<Token>::empty() =~= seq![Token::Lambda]);
            assert(seq![Token::Lambda] + spec_term_tokens(*b) =~= spec_term_tokens(t));
        },
        Term::App(f, a) => {
            lemma_format_tokens(*f);
            lemma_format_tokens(*a);
            let ff = crate::term::spec_format(*f);
            let af = crate::term::spec_format(*a);
            let fs = if *f is Abs {
                seq!['('] + ff + seq![')']
            } else {
                ff
            };
            let aseq = if *a is Var {
                af
            } else {
                seq!['('] + af + seq![')']
            };
            let ft = if *f is Abs {
                seq![Token::Lparen] + spec_term_tokens(*f) + seq![Token::Rparen]
            } else {
                spec_term_tokens(*f)
            };
            let at = if *a is Var {
                spec_term_tokens(*a)
            } else {
                seq![Token::Lparen] + spec_term_tokens(*a) + seq![Token::Rparen]
            };
            lemma_wrap_parens(*f);
            lemma_wrap_parens(*a);
            assert(spec_tokenize(fs) == Ok::<Seq<Token>, Error>(ft));
            assert(spec_tokenize(aseq) == Ok::<Seq<Token>, Error>(at));
            lemma_tokenize_concat_ok(fs, aseq, ft);
            assert(fs + aseq =~= s);
            assert(ft + at =~= spec_term_tokens(t));
        },
    }
}

/// A rendering wrapped in parentheses tokenizes to the same tokens wrapped
/// in parenthesis tokens.
proof fn lemma_wrap_parens(t: Term)
    requires
        single_digit_indices(t),
    ensures
        spec_tokenize(seq!['('] + crate::term::spec_format(t) + seq![')']) == Ok::<
            Seq<Token>,
            Error,
        >(seq![Token::Lparen] + spec_term_tokens(t) + seq![Token::Rparen]),
    decreases t, 1int,
{
    lemma_format_tokens(t);
    let body = crate::term::spec_format(t);
    let bt = spec_term_tokens(t);
    assert(spec_tokenize_from(seq![')'], 0, 0) == spec_prepend(
        Token::Rparen,
        spec_tokenize_from(seq![')'], 1, 1),
    ));
    assert(seq![Token::Rparen] + Seq::<Token>::empty() =~= seq![Token::Rparen]);
    lemma_tokenize_concat_ok(body, seq![')'], bt);
    assert(spec_tokenize(body + seq![')']) == Ok::<Seq<Token>, Error>(bt + seq![Token::Rparen]));
    assert(spec_tokenize_from(seq!['('], 0, 0) == spec_prepend(
        Token::Lparen,
        spec_tokenize_from(seq!['('], 1, 1),
    ));
    assert(seq![Token::Lparen] + Seq::<Token>::empty() =~= seq![Token::Lparen]);
    lemma_tokenize_concat_ok(seq!['('], body + seq![')'], seq![Token::Lparen]);
    assert(seq!['('] + (body + seq![')']) =~= seq!['('] + body + seq![')']);
    assert(seq![Token::Lparen] + (bt + seq![Token::Rparen]) =~= seq![Token::Lparen] + bt + seq![
        Token::Rparen,
    ]);
}

/// The elements that the rendering of `t` contributes to the nesting level
/// in which it stands.
pub open spec fn spec_term_elems(t: Term) -> Seq<SpecExpression>
    decreases t,
{
    match t {
        Term::Var(i) => seq![SpecExpression::Variable(i)],
        Term::Abs(b) => seq![SpecExpression::Abstraction] + spec_term_elems(*b),
        Term::App(f, a) => {
            let fe = if *f is Abs {
                seq![SpecExpression::Sequence(spec_term_elems(*f))]
            } else {
                spec_term_elems(*f)
            };
            let ae = if *a is Var {
                spec_term_elems(*a)
            } else {
                seq![SpecExpression::Sequence(spec_term_elems(*a))]
            };
            fe + ae
        },
    }
}

/// Appends all of `es` to the innermost open level of `stack`.
pub open spec fn push_all_on_top(
    stack: Seq<Seq<SpecExpression>>,
    es: Seq<SpecExpression>,
) -> Seq<Seq<SpecExpression>>
    recommends
        stack.len() >= 1,
{
    stack.update(stack.len() - 1, stack.last() + es)
}

proof fn lemma_term_tokens_nonempty(t: Term)
    ensures
        spec_term_tokens(t).len() >= 1,
    decreases t,
{
    match t {
        Term::Var(_) => {},
        Term::Abs(b) => {},
        Term::App(f, a) => {
            lemma_term_tokens_nonempty(*f);
            lemma_term_tokens_nonempty(*a);
        },
    }
}

proof fn lemma_token_at(s: Seq<Token>, i: int, tt: Seq<Token>, off: int)
    requires
        0 <= i,
        i + tt.len() <= s.len(),
        s.subrange(i, i + tt.len() as int) == tt,
        0 <= off < tt.len(),
    ensures
        s[i + off] == tt[off],
{
    assert(s.subrange(i, i + tt.len() as int)[off] == s[i + off]);
}

proof fn lemma_subwindow(s: Seq<Token>, i: int, tt: Seq<Token>, off: int, sub: Seq<Token>)
    requires
        0 <= i,
        i + tt.len() <= s.len(),
        s.subrange(i, i + tt.len() as int) == tt,
        0 <= off,
        off + sub.len() <= tt.len(),
        forall|k: int| 0 <= k < sub.len() ==> tt[off + k] == sub[k],
    ensures
        s.subrange(i + off, i + off + sub.len() as int) == sub,
{
    assert forall|k: int|
        0 <= k < sub.len() implies s.subrange(i + off, i + off + sub.len() as int)[k] == sub[k] by {
        assert(s.subrange(i, i + tt.len() as int)[off + k] == s[i + (off + k)]);
        assert(s.subrange(i + off, i + off + sub.len() as int)[k] == s[i + off + k]);
    }
    assert(s.subrange(i + off, i + off + sub.len() as int) =~= sub);
}

/// Walking the tree builder over the rendering tokens of `t` appends the
/// elements of `t` to the innermost open level and consumes exactly those
/// tokens.
proof fn lemma_build_run(t: Term, s: Seq<Token>, i: int, stack: Seq<Seq<SpecExpression>>)
    requires
        0 <= i,
        i + spec_term_tokens(t).len() <= s.len(),
        s.subrange(i, i + spec_term_tokens(t).len() as int) == spec_term_tokens(t),
        stack.len() >= 1,
    ensures
        spec_build(s, i, stack) == spec_build(
            s,
            i + spec_term_tokens(t).len(),
            push_all_on_top(stack, spec_term_elems(t)),
        ),
    decreases t, 0int,
{
    let tt = spec_term_tokens(t);
    let l = tt.len() as int;
    match t {
        Term::Var(idx) => {
            lemma_token_at(s, i, tt, 0);
            assert(s[i] == Token::Number(idx));
            assert(stack.last().push(SpecExpression::Variable(idx)) =~= stack.last()
                + spec_term_elems(t));
        },
        Term::Abs(b) => {
            lemma_token_at(s, i, tt, 0);
            assert(s[i] == Token::Lambda);
            let stack2 = push_on_top(stack, SpecExpression::Abstraction);
            let bt = spec_term_tokens(*b);
            lemma_subwindow(s, i, tt, 1, bt);
            lemma_build_run(*b, s, i + 1, stack2);
            assert(stack2.last() + spec_term_elems(*b) =~= stack.last() + spec_term_elems(t));
            assert(push_all_on_top(stack2, spec_term_elems(*b)) =~= push_all_on_top(
                stack,
                spec_term_elems(t),
            ));
        },
        Term::App(f, a) => {
            let ftok = spec_term_tokens(*f);
            let atok = spec_term_tokens(*a);
            let flen: int = if *f is Abs {
                ftok.len() + 2int
            } else {
                ftok.len() as int
            };
            let fe = if *f is Abs {
                seq![SpecExpression::Sequence(spec_term_elems(*f))]
            } else {
                spec_term_elems(*f)
            };
            let ae = if *a is Var {
                spec_term_elems(*a)
            } else {
                seq![SpecExpression::Sequence(spec_term_elems(*a))]
            };
            let stack_f = push_all_on_top(stack, fe);
            let ghost ftfull = seq![Token::Lparen] + ftok + seq![Token::Rparen];
            if *f is Abs {
                lemma_token_at(s, i, tt, 0);
                assert(tt[0] == Token::Lparen);
                lemma_subwindow(s, i, tt, 1, ftok);
                lemma_token_at(s, i, tt, 1 + ftok.len() as int);
                assert(tt[1 + ftok.len() as int] == Token::Rparen);
                assert(s[i + 1 + ftok.len()] == s[i + (1 + ftok.len() as int)]);
                lemma_build_run_wrapped(*f, s, i, stack);
                assert(stack.last().push(SpecExpression::Sequence(spec_term_elems(*f)))
                    =~= stack.last() + fe);
                assert(push_on_top(stack, SpecExpression::Sequence(spec_term_elems(*f)))
                    =~= stack_f);
            } else {
                lemma_subwindow(s, i, tt, 0, ftok);
                lemma_build_run(*f, s, i, stack);
            }
            // now the argument part, from i + flen
            if *a is Var {
                lemma_subwindow(s, i, tt, flen, atok);
                lemma_build_run(*a, s, i + flen, stack_f);
            } else {
                lemma_token_at(s, i, tt, flen);
                assert(tt[flen] == Token::Lparen);
                lemma_subwindow(s, i, tt, flen + 1, atok);
                lemma_token_at(s, i, tt, flen + 1 + atok.len() as int);
                assert(tt[flen + 1 + atok.len() as int] == Token::Rparen);
                assert(s[i + flen + 1 + atok.len()] == s[i + (flen + 1 + atok.len() as int)]);
                lemma_build_run_wrapped(*a, s, i + flen, stack_f);
                assert(stack_f.last().push(SpecExpression::Sequence(spec_term_elems(*a)))
                    =~= stack_f.last() + ae);
                assert(push_on_top(stack_f, SpecExpression::Sequence(spec_term_elems(*a)))
                    =~= push_all_on_top(stack_f, ae));
            }
            assert((stack.last() + fe) + ae =~= stack.last() + spec_term_elems(t));
            assert(push_all_on_top(stack_f, ae) =~= push_all_on_top(stack, spec_term_elems(t)));
        },
    }
}

/// Walking the tree builder over a parenthesized rendering of `t` appends
/// one nested `Sequence` holding the elements of `t`.
proof fn lemma_build_run_wrapped(t: Term, s: Seq<Token>, i: int, stack: Seq<Seq<SpecExpression>>)
    requires
        0 <= i,
        i + spec_term_tokens(t).len() + 2 <= s.len(),
        s[i] == Token::Lparen,
        s.subrange(i + 1, i + 1 + spec_term_tokens(t).len() as int) == spec_term_tokens(t),
        s[i + 1 + spec_term_tokens(t).len()] == Token::Rparen,
        stack.len() >= 1,
    ensures
        spec_build(s, i, stack) == spec_build(
            s,
            i + spec_term_tokens(t).len() + 2,
            push_on_top(stack, SpecExpression::Sequence(spec_term_elems(t))),
        ),
    decreases t, 1int,
{
    let l = spec_term_tokens(t).len() as int;
    let stack2 = stack.push(Seq::empty());
    lemma_build_run(t, s, i + 1, stack2);
    let stack3 = push_all_on_top(stack2, spec_term_elems(t));
    assert(stack3.last() =~= spec_term_elems(t));
    assert(stack3.drop_last() =~= stack);
    assert(spec_build(s, i + 1 + l, stack3) == spec_build(
        s,
        i + l + 2,
        push_on_top(stack3.drop_last(), SpecExpression::Sequence(stack3.last())),
    ));
}

/// The number of leading binders of `t`: the markers its rendering puts
/// before the operands of its level.
pub open spec fn spec_term_marks(t: Term) -> nat
    decreases t,
{
    match t {
        Term::Abs(b) => 1 + spec_term_marks(*b),
        _ => 0,
    }
}

/// The operands of the level of `t`'s rendering: the application spine of
/// the body under its leading binders, each operand a whole subterm.
pub open spec fn spec_term_ops(t: Term) -> Seq<Term>
    decreases t,
{
    match t {
        Term::Var(_) => seq![t],
        Term::Abs(b) => spec_term_ops(*b),
        Term::App(f, a) => (if *f is Abs {
            seq![*f]
        } else {
            spec_term_ops(*f)
        }) + seq![*a],
    }
}

proof fn lemma_app_fold_push(seed: Term, rest: Seq<Term>, x: Term)
    ensures
        spec_app_fold(seed, rest.push(x)) == Term::App(
            Box::new(spec_app_fold(seed, rest)),
            Box::new(x),
        ),
    decreases rest.len(),
{
    if rest.len() == 0 {
        assert(rest.push(x)[0] == x);
        assert(rest.push(x).drop_first() =~= Seq::<Term>::empty());
        assert(spec_app_fold(seed, rest) == seed);
        assert(spec_app_fold(
            Term::App(Box::new(seed), Box::new(x)),
            rest.push(x).drop_first(),
        ) == Term::App(Box::new(seed), Box::new(x)));
    } else {
        assert(rest.push(x)[0] == rest[0]);
        assert(rest.push(x).drop_first() =~= rest.drop_first().push(x));
        lemma_app_fold_push(
            Term::App(Box::new(seed), Box::new(rest[0])),
            rest.drop_first(),
            x,
        );
        assert(spec_app_fold(seed, rest.push(x)) == spec_app_fold(
            Term::App(Box::new(seed), Box::new(rest[0])),
            rest.drop_first().push(x),
        ));
        assert(spec_app_fold(seed, rest) == spec_app_fold(
            Term::App(Box::new(seed), Box::new(rest[0])),
            rest.drop_first(),
        ));
    }
}

/// Folding the operands of `t` and wrapping its markers reproduces `t`.
proof fn lemma_term_ops_fold(t: Term)
    ensures
        spec_term_ops(t).len() >= 1,
        spec_abs_wrap(
            spec_term_marks(t),
            spec_app_fold(spec_term_ops(t)[0], spec_term_ops(t).drop_first()),
        ) == t,
        !(t is Abs) ==> spec_app_fold(spec_term_ops(t)[0], spec_term_ops(t).drop_first()) == t,
    decreases t,
{
    match t {
        Term::Var(_) => {
            assert(spec_term_ops(t).drop_first() =~= Seq::<Term>::empty());
        },
        Term::Abs(b) => {
            lemma_term_ops_fold(*b);
        },
        Term::App(f, a) => {
            let fo = if *f is Abs {
                seq![*f]
            } else {
                spec_term_ops(*f)
            };
            let ops = spec_term_ops(t);
            lemma_term_ops_fold(*f);
            assert(fo.len() >= 1);
            assert(ops[0] == fo[0]);
            assert(ops.drop_first() =~= fo.drop_first().push(*a));
            lemma_app_fold_push(fo[0], fo.drop_first(), *a);
            if *f is Abs {
                assert(fo.drop_first() =~= Seq::<Term>::empty());
                assert(spec_app_fold(fo[0], fo.drop_first()) == *f);
            }
        },
    }
}

proof fn lemma_scan_append(
    es1: Seq<SpecExpression>,
    es2: Seq<SpecExpression>,
    ops1: Seq<Term>,
    m1: nat,
)
    requires
        spec_scan(es1) == Ok::<(Seq<Term>, nat), Error>((ops1, m1)),
    ensures
        spec_scan(es1 + es2) == scan_combine(ops1, m1, spec_scan(es2)),
    decreases es1.len(),
{
    if es1.len() == 0 {
        assert(es1 + es2 =~= es2);
        if let Ok(q) = spec_scan(es2) {
            assert(ops1 + q.0 =~= q.0);
        }
    } else {
        assert((es1 + es2)[0] == es1[0]);
        assert((es1 + es2).drop_first() =~= es1.drop_first() + es2);
        let rest1 = spec_scan(es1.drop_first());
        assert(rest1 is Ok);
        let p = rest1->Ok_0;
        lemma_scan_append(es1.drop_first(), es2, p.0, p.1);
        if let Ok(q) = spec_scan(es2) {
            match es1[0] {
                SpecExpression::Variable(idx) => {
                    assert(seq![Term::Var(idx)] + (p.0 + q.0) =~= ops1 + q.0);
                },
                SpecExpression::Abstraction => {},
                SpecExpression::Sequence(sub) => {
                    let sub_t = spec_fold_exprs(sub)->Ok_0;
                    assert(seq![sub_t] + (p.0 + q.0) =~= ops1 + q.0);
                },
            }
        }
    }
}

/// Scanning the elements of `t`'s rendering yields exactly its operands and
/// its leading-binder markers.
proof fn lemma_elems_scan(t: Term)
    ensures
        spec_scan(spec_term_elems(t)) == Ok::<(Seq<Term>, nat), Error>(
            (spec_term_ops(t), spec_term_marks(t)),
        ),
    decreases t,
{
    match t {
        Term::Var(idx) => {
            reveal_with_fuel(spec_scan, 2);
            let es = spec_term_elems(t);
            assert(es.drop_first() =~= Seq::<SpecExpression>::empty());
            assert(seq![Term::Var(idx)] + Seq::<Term>::empty() =~= spec_term_ops(t));
        },
        Term::Abs(b) => {
            lemma_elems_scan(*b);
            let es = spec_term_elems(t);
            assert(es[0] == SpecExpression::Abstraction);
            assert(es.drop_first() =~= spec_term_elems(*b));
        },
        Term::App(f, a) => {
            let fe = if *f is Abs {
                seq![SpecExpression::Sequence(spec_term_elems(*f))]
            } else {
                spec_term_elems(*f)
            };
            let ae = if *a is Var {
                spec_term_elems(*a)
            } else {
                seq![SpecExpression::Sequence(spec_term_elems(*a))]
            };
            lemma_elems_scan(*f);
            lemma_elems_scan(*a);
            lemma_term_ops_fold(*f);
            lemma_term_ops_fold(*a);
            let fo = if *f is Abs {
                seq![*f]
            } else {
                spec_term_ops(*f)
            };
            // the function part scans to its operands with no markers
            assert(!(*f is Abs) ==> spec_term_marks(*f) == 0);
            if *f is Abs {
                reveal_with_fuel(spec_scan, 2);
                assert(fe.drop_first() =~= Seq::<SpecExpression>::empty());
                assert(spec_fold_exprs(spec_term_elems(*f)) == Ok::<Term, Error>(*f));
                assert(seq![*f] + Seq::<Term>::empty() =~= seq![*f]);
                assert(spec_scan(fe) == Ok::<(Seq<Term>, nat), Error>((fo, 0)));
            } else {
                assert(spec_scan(fe) == Ok::<(Seq<Term>, nat), Error>((fo, 0)));
            }
            // the argument part scans to the single operand `a`
            if *a is Var {
                assert(spec_term_ops(*a) =~= seq![*a]);
                assert(spec_term_marks(*a) == 0);
                assert(spec_scan(ae) == Ok::<(Seq<Term>, nat), Error>((seq![*a], 0)));
            } else {
                reveal_with_fuel(spec_scan, 2);
                assert(ae.drop_first() =~= Seq::<SpecExpression>::empty());
                assert(spec_fold_exprs(spec_term_elems(*a)) == Ok::<Term, Error>(*a));
                assert(seq![*a] + Seq::<Term>::empty() =~= seq![*a]);
                assert(spec_scan(ae) == Ok::<(Seq<Term>, nat), Error>((seq![*a], 0)));
            }
            lemma_scan_append(fe, ae, fo, 0);
            assert(fo + seq![*a] =~= spec_term_ops(t));
        },
    }
}

/// Round trip, term to text and back: parsing the canonical rendering of any
/// term the grammar can spell (every variable index a single hexadecimal
/// digit) yields that term again.
pub proof fn lemma_format_parse_round_trip(t: Term)
    requires
        single_digit_indices(t),
    ensures
        spec_parse(crate::term::spec_format(t)) == Ok::<Term, Error>(t),
{
    let s = crate::term::spec_format(t);
    lemma_format_tokens(t);
    lemma_term_tokens_nonempty(t);
    let toks = spec_term_tokens(t);
    let init = seq![Seq::<SpecExpression>::empty()];
    assert(toks.subrange(0, toks.len() as int) =~= toks);
    lemma_build_run(t, toks, 0, init);
    let built = push_all_on_top(init, spec_term_elems(t));
    assert(built.len() == 1);
    assert(built[0] =~= spec_term_elems(t));
    assert(spec_build(toks, toks.len() as int, built) == SpecExpression::Sequence(
        spec_term_elems(t),
    ));
    lemma_elems_scan(t);
    lemma_term_ops_fold(t);
}

/// Round trip, text to term and back: a string in minimal form — the
/// canonical rendering of some term — parses, and rendering the parsed term
/// gives the very same string.
pub proof fn lemma_parse_format_round_trip(s: Seq<char>, t: Term)
    requires
        single_digit_indices(t),
        s == crate::term::spec_format(t),
    ensures
        spec_parse(s) is Ok,
        crate::term::spec_format(spec_parse(s)->Ok_0) == s,
{
    lemma_format_parse_round_trip(t);
}

} // verus!
