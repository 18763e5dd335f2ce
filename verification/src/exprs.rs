//! Expressions of the surface language, and builders for them.

use vstd::prelude::*;
use crate::literal::Literal;

verus! {

/// An expression: a variable, a literal, or a call of a function on
/// argument expressions.
#[derive(Debug, PartialEq, Eq)]
pub enum Expr {
    /// A variable, by name.
    Var(String),
    /// A literal constant.
    Lit(Literal),
    /// A call: the function's name and the arguments.
    Call(String, Vec<Expr>),
}

/// Creates a variable expression.
pub fn var(name: &str) -> (r: Expr)
    ensures
        r matches Expr::Var(v) && v@ == name@,
{
    Expr::Var(name.to_owned())
}

/// Creates an integer literal expression.
pub fn integer(value: i64) -> (r: Expr)
    ensures
        r == Expr::Lit(Literal::Int(value)),
{
    Expr::Lit(Literal::Int(value))
}

/// Creates a string literal expression.
pub fn string(value: &str) -> (r: Expr)
    ensures
        r matches Expr::Lit(Literal::String(s)) && s@ == value@,
{
    Expr::Lit(Literal::String(value.to_owned()))
}

/// Creates a unit literal expression.
pub fn unit() -> (r: Expr)
    ensures
        r == Expr::Lit(Literal::Unit),
{
    Expr::Lit(Literal::Unit)
}

/// Creates a boolean literal expression.
pub fn bool(value: bool) -> (r: Expr)
    ensures
        r == Expr::Lit(Literal::Bool(value)),
{
    Expr::Lit(Literal::Bool(value))
}

/// Creates a function call expression.
pub fn call(f: &str, xs: Vec<Expr>) -> (r: Expr)
    ensures
        r matches Expr::Call(g, args) && g@ == f@ && args == xs,
{
    Expr::Call(f.to_owned(), xs)
}

} // verus!
