use vstd::prelude::*;

verus! {

/// An expression of the calculator language: numbers, arithmetic and `val`.
#[derive(Debug, PartialEq, Eq)]
pub enum Expr {
    Num(isize),
    Add(Box<Expr>, Box<Expr>),
    Sub(Box<Expr>, Box<Expr>),
    Mul(Box<Expr>, Box<Expr>),
    Div(Box<Expr>, Box<Expr>),
    /// `Val(name, initializer, body)`
    Val(String, Box<Expr>, Box<Expr>),
    Id(String),
}

} // verus!
