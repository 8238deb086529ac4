//! The mathematical mirror of the tree: the same shapes, with
//! sequences for child lists and character sequences for text, so that
//! contracts can speak of whole trees as values.
use vstd::prelude::*;

use crate::ast::expressions::{
    Bool, Call, Expression, Func, Ident, If, Infix, Int, Prefix, StringLiteral,
};
use crate::ast::statements::{Block, ExpressionStatement, LetStatement, Program, ReturnStatement,
    Statement};
use crate::token::Token;

verus! {

pub struct GIdent {
    pub token: Token,
}

pub struct GInt {
    pub token: Token,
    pub value: u32,
}

pub struct GBool {
    pub token: Token,
    pub value: bool,
}

pub struct GStringLit {
    pub token: Token,
    pub value: Seq<char>,
}

pub struct GPrefix {
    pub token: Token,
    pub rhs: Box<GExpr>,
}

pub struct GInfix {
    pub token: Token,
    pub lhs: Box<GExpr>,
    pub operator: Seq<char>,
    pub rhs: Box<GExpr>,
}

pub struct GIf {
    pub token: Token,
    pub condition: Box<GExpr>,
    pub consequence: GBlock,
    pub alternative: Option<GBlock>,
}

pub struct GFunc {
    pub token: Token,
    pub params: Seq<GIdent>,
    pub body: Option<GBlock>,
}

pub struct GCall {
    pub token: Token,
    pub func: Box<GExpr>,
    pub args: Option<Seq<GExpr>>,
}

pub enum GExpr {
    Ident(GIdent),
    Int(GInt),
    Prefix(GPrefix),
    Infix(GInfix),
    Bool(GBool),
    If(GIf),
    Func(GFunc),
    Call(GCall),
    StringLiteral(GStringLit),
}

pub struct GLet {
    pub token: Token,
    pub name: GIdent,
    pub value: GExpr,
}

pub struct GReturn {
    pub token: Token,
    pub return_exp: GExpr,
}

pub struct GExprStmt {
    pub expression: GExpr,
}

pub struct GBlock {
    pub token: Token,
    pub statements: Seq<GStmt>,
}

pub enum GStmt {
    Let(GLet),
    Return(GReturn),
    Expression(GExprStmt),
    Block(GBlock),
}

pub struct GProgram {
    pub statements: Seq<GStmt>,
}

/// The mirror of an expression node.
pub open spec fn abs_expr(e: Expression) -> GExpr
    decreases e, 0int, 0int,
{
    match e {
        Expression::Ident(n) => GExpr::Ident(GIdent { token: n.token }),
        Expression::Int(n) => GExpr::Int(GInt { token: n.token, value: n.value }),
        Expression::Prefix(n) => GExpr::Prefix(
            GPrefix { token: n.token, rhs: Box::new(abs_expr(*n.rhs)) },
        ),
        Expression::Infix(n) => GExpr::Infix(
            GInfix {
                token: n.token,
                lhs: Box::new(abs_expr(*n.lhs)),
                operator: n.operator@,
                rhs: Box::new(abs_expr(*n.rhs)),
            },
        ),
        Expression::Bool(n) => GExpr::Bool(GBool { token: n.token, value: n.value }),
        Expression::If(n) => GExpr::If(
            GIf {
                token: n.token,
                condition: Box::new(abs_expr(*n.condition)),
                consequence: abs_block(*n.consequence),
                alternative: match n.alternative {
                    Some(b) => Some(abs_block(*b)),
                    None => None,
                },
            },
        ),
        Expression::Func(n) => GExpr::Func(
            GFunc {
                token: n.token,
                params: n.params@.map_values(|p: Ident| GIdent { token: p.token }),
                body: match n.body {
                    Some(b) => Some(abs_block(b)),
                    None => None,
                },
            },
        ),
        Expression::Call(n) => GExpr::Call(
            GCall {
                token: n.token,
                func: Box::new(abs_expr(*n.func)),
                args: match n.args {
                    Some(v) => Some(abs_exprs(v, 0)),
                    None => None,
                },
            },
        ),
        Expression::StringLiteral(n) => GExpr::StringLiteral(
            GStringLit { token: n.token, value: n.value@ },
        ),
    }
}

/// The mirrors of the expressions of a vector, from index `i` on.
pub open spec fn abs_exprs(v: Vec<Expression>, i: int) -> Seq<GExpr>
    decreases v, 1int, v.len() - i,
{
    if i < 0 || i >= v.len() {
        seq![]
    } else {
        seq![abs_expr(v[i])] + abs_exprs(v, i + 1)
    }
}

/// The mirror of a statement node.
pub open spec fn abs_stmt(st: Statement) -> GStmt
    decreases st, 0int, 0int,
{
    match st {
        Statement::Let(n) => GStmt::Let(
            GLet { token: n.token, name: GIdent { token: n.name.token }, value: abs_expr(n.value) },
        ),
        Statement::Return(n) => GStmt::Return(
            GReturn { token: n.token, return_exp: abs_expr(n.return_exp) },
        ),
        Statement::Expression(n) => GStmt::Expression(
            GExprStmt { expression: abs_expr(*n.expression) },
        ),
        Statement::Block(n) => GStmt::Block(abs_block(n)),
    }
}

/// The mirror of a block node.
pub open spec fn abs_block(b: Block) -> GBlock
    decreases b, 2int, 0int,
{
    GBlock { token: b.token, statements: abs_stmts(b.statements, 0) }
}

/// The mirrors of the statements of a vector, from index `i` on.
pub open spec fn abs_stmts(v: Vec<Statement>, i: int) -> Seq<GStmt>
    decreases v, 1int, v.len() - i,
{
    if i < 0 || i >= v.len() {
        seq![]
    } else {
        seq![abs_stmt(v[i])] + abs_stmts(v, i + 1)
    }
}

/// The mirror of a whole program.
pub open spec fn abs_program(p: Program) -> GProgram {
    GProgram { statements: abs_stmts(p.statements, 0) }
}

/// Appending a statement to the vector appends its mirror.
pub proof fn lemma_abs_stmts_push(v: Vec<Statement>, w: Vec<Statement>, st: Statement, i: int)
    requires
        w@ == v@.push(st),
        0 <= i <= v.len(),
    ensures
        abs_stmts(w, i) == abs_stmts(v, i).push(abs_stmt(st)),
    decreases v.len() - i,
{
    if i < v.len() {
        lemma_abs_stmts_push(v, w, st, i + 1);
        assert(w[i] == v[i]);
        assert(abs_stmts(w, i) =~= abs_stmts(v, i).push(abs_stmt(st)));
    } else {
        assert(w.len() == v.len() + 1);
        assert(w[i] == st);
        assert(abs_stmts(w, i + 1) =~= Seq::<GStmt>::empty());
        assert(abs_stmts(v, i) =~= Seq::<GStmt>::empty());
        assert(abs_stmts(w, i) =~= abs_stmts(v, i).push(abs_stmt(st)));
    }
}

} // verus!
