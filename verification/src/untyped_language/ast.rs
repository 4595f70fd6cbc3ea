//! The toy language's parse-tree values.

use vstd::prelude::*;

use crate::parser_combinator::token::Token;

verus! {

/// A literal value: a number, a boolean or a quoted string.
#[derive(Debug, PartialEq)]
pub enum Value {
    Number(i32),
    Bool(bool),
    String(String),
}

/// An expression: a literal, an identifier, a call, a conditional or a
/// range.
#[derive(Debug, PartialEq)]
pub enum Expr {
    Value(Value),
    Ident(String),
    Call(Token<String>, Vec<Token<Expr>>),
    If(Box<Token<Expr>>, Vec<Token<ExprOrStatement>>),
    Range(Box<Token<Expr>>, Box<Token<Expr>>),
}

/// A statement: a let binding or a for loop over a range.
#[derive(Debug, PartialEq)]
pub enum Statement {
    Let(Token<String>, Token<Expr>),
    For(Token<String>, Token<Expr>, Vec<Token<ExprOrStatement>>),
}

/// A body element: either an expression or a statement.
#[derive(Debug, PartialEq)]
pub enum ExprOrStatement {
    Expr(Expr),
    Statement(Statement),
}

/// A function parameter: its name and its type, both with spans.
#[derive(Debug, PartialEq)]
pub struct Parameter(pub Token<String>, pub Token<String>);

/// A function definition: name, parameters, body and return type.
#[derive(Debug)]
pub struct Fun {
    pub name: Token<String>,
    pub params: Vec<Token<Parameter>>,
    pub body: Vec<Token<ExprOrStatement>>,
    pub return_type: Token<String>,
}

} // verus!
