//! Expression nodes of the tree. Each node owns the token that locates
//! its literal text, plus its child nodes.
use vstd::prelude::*;

use crate::ast::statements::Block;
use crate::token::Token;

verus! {

/// The closed set of expression forms.
pub enum Expression {
    Ident(Ident),
    Int(Int),
    Prefix(Prefix),
    Infix(Infix),
    Bool(Bool),
    If(If),
    Func(Func),
    Call(Call),
    StringLiteral(StringLiteral),
}

pub struct Ident {
    pub token: Token,
}

impl Ident {
    pub fn new(token: Token) -> (r: Ident)
        ensures
            r == (Ident { token }),
    {
        Ident { token }
    }
}

pub struct Int {
    pub token: Token,
    pub value: u32,
}

impl Int {
    pub fn new(token: Token, value: u32) -> (r: Int)
        ensures
            r == (Int { token, value }),
    {
        Int { token, value }
    }
}

/// A prefix operator applied to an expression: `-exp` or `!exp`.
pub struct Prefix {
    pub token: Token,
    pub rhs: Box<Expression>,
}

impl Prefix {
    pub fn new(token: Token, rhs: Expression) -> (r: Prefix)
        ensures
            r.token == token,
            *r.rhs == rhs,
    {
        Prefix { token, rhs: Box::new(rhs) }
    }
}

/// `exp1 operator exp2`.
pub struct Infix {
    pub token: Token,
    pub lhs: Box<Expression>,
    pub operator: String,
    pub rhs: Box<Expression>,
}

impl Infix {
    pub fn new(token: Token, lhs: Expression, operator: String, rhs: Expression) -> (r: Infix)
        ensures
            r.token == token,
            *r.lhs == lhs,
            r.operator == operator,
            *r.rhs == rhs,
    {
        Infix { token, lhs: Box::new(lhs), operator, rhs: Box::new(rhs) }
    }
}

pub struct Bool {
    pub token: Token,
    pub value: bool,
}

impl Bool {
    pub fn new(token: Token, value: bool) -> (r: Bool)
        ensures
            r == (Bool { token, value }),
    {
        Bool { token, value }
    }

    pub fn value(&self) -> (v: bool)
        ensures
            v == self.value,
    {
        self.value
    }
}

/// `if(<condition>) {<consequence>}`, optionally
/// `else {<alternative>}`.
pub struct If {
    pub token: Token,
    pub condition: Box<Expression>,
    pub consequence: Box<Block>,
    pub alternative: Option<Box<Block>>,
}

impl If {
    pub fn new(
        token: Token,
        condition: Box<Expression>,
        consequence: Box<Block>,
        alternative: Option<Box<Block>>,
    ) -> (r: If)
        ensures
            r == (If { token, condition, consequence, alternative }),
    {
        If { token, condition, consequence, alternative }
    }

    /// The parts of the node: condition, consequence, and the
    /// alternative if one was written.
    pub fn parts(self) -> (r: (Expression, Block, Option<Block>))
        ensures
            r.0 == *self.condition,
            r.1 == *self.consequence,
            match self.alternative {
                Some(b) => r.2 == Some(*b),
                None => r.2 is None,
            },
    {
        let If { token, condition, consequence, alternative } = self;
        let alt = match alternative {
            Some(b) => Some(*b),
            None => None,
        };
        (*condition, *consequence, alt)
    }
}

/// A function literal: parameters and an optional body.
pub struct Func {
    pub token: Token,
    pub params: Vec<Ident>,
    pub body: Option<Block>,
}

impl Func {
    pub fn new(token: Token, params: Vec<Ident>, body: Option<Block>) -> (r: Func)
        ensures
            r == (Func { token, params, body }),
    {
        Func { token, params, body }
    }
}

/// A call expression: a callee and its arguments.
pub struct Call {
    pub token: Token,
    pub func: Box<Expression>,
    pub args: Option<Vec<Expression>>,
}

impl Call {
    pub fn new(token: Token, func: Expression, args: Option<Vec<Expression>>) -> (r: Call)
        ensures
            r.token == token,
            *r.func == func,
            r.args == args,
    {
        Call { token, func: Box::new(func), args }
    }
}

pub struct StringLiteral {
    pub token: Token,
    pub value: String,
}

impl StringLiteral {
    pub fn new(token: Token, value: String) -> (r: StringLiteral)
        ensures
            r == (StringLiteral { token, value }),
    {
        StringLiteral { token, value }
    }

    pub fn value(&self) -> (v: String)
        ensures
            v == self.value,
    {
        self.value.clone()
    }
}

} // verus!
