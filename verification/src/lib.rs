//! A small symbolic-computation library for the untyped lambda calculus with
//! [De Bruijn indices](https://en.wikipedia.org/wiki/De_Bruijn_index): terms,
//! a parser, a canonical formatter, standard combinators, Church encodings and
//! a normal-order reduction engine.

pub mod arithmetic;
pub mod church;
pub mod combinators;
pub mod parser;
pub mod reduction;
pub mod term;
