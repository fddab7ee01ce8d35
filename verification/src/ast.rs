//! The abstract-syntax-tree data model. The statement parser that would
//! build these values is still a placeholder; only the shapes are fixed.

use vstd::prelude::*;

verus! {

/// A name appearing in the source.
#[derive(Debug)]
pub struct Ident {
    value: String,
}

/// A number literal with the text it was scanned from.
#[derive(Debug)]
pub struct NumberExpr {
    value: usize,
    raw: String,
}

/// A string literal.
#[derive(Debug)]
pub struct StringExpr {
    value: String,
}

/// An expression.
#[derive(Debug)]
pub enum Expression {
    Number(NumberExpr),
    String(StringExpr),
}

/// A `let` binding of an expression to a name.
#[derive(Debug)]
pub struct LetStatement {
    name: Ident,
    expr: Expression,
}

/// A statement.
pub enum Statement {
    Let(LetStatement),
}

} // verus!
