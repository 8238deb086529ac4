//! Statement nodes of the tree, and the program root.
use vstd::prelude::*;

use crate::ast::expressions::{Expression, Ident};
use crate::token::Token;

verus! {

/// The parse root: an ordered sequence of statements.
pub struct Program {
    pub statements: Vec<Statement>,
}

impl Program {
    pub fn new(statements: Vec<Statement>) -> (r: Program)
        ensures
            r == (Program { statements }),
    {
        Program { statements }
    }
}

/// The closed set of statement forms.
pub enum Statement {
    Let(LetStatement),
    Return(ReturnStatement),
    Expression(ExpressionStatement),
    Block(Block),
}

/// `let <name> = <value>;`.
pub struct LetStatement {
    pub token: Token,
    pub name: Ident,
    pub value: Expression,
}

impl LetStatement {
    pub fn new(token: Token, name: Ident, value: Expression) -> (r: LetStatement)
        ensures
            r == (LetStatement { token, name, value }),
    {
        LetStatement { token, name, value }
    }
}

/// `return <value>;`.
pub struct ReturnStatement {
    pub token: Token,
    pub return_exp: Expression,
}

impl ReturnStatement {
    pub fn new(token: Token, return_exp: Expression) -> (r: ReturnStatement)
        ensures
            r == (ReturnStatement { token, return_exp }),
    {
        ReturnStatement { token, return_exp }
    }
}

/// An expression in statement position.
pub struct ExpressionStatement {
    pub expression: Box<Expression>,
}

impl ExpressionStatement {
    pub fn new(expression: Expression) -> (r: ExpressionStatement)
        ensures
            *r.expression == expression,
    {
        ExpressionStatement { expression: Box::new(expression) }
    }
}

/// `{ <statements> }`.
pub struct Block {
    pub token: Token,
    pub statements: Vec<Statement>,
}

impl Block {
    pub fn new(token: Token, statements: Vec<Statement>) -> (r: Block)
        ensures
            r == (Block { token, statements }),
    {
        Block { token, statements }
    }
}

} // verus!
