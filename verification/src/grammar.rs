//! The grammar as a mathematical function: for each node form, what a
//! parse at a token position yields — an end position and the mirror of
//! the node — under the parser's ordered-choice, backtracking policy.
use vstd::prelude::*;

use crate::ast::model::{
    GBlock, GBool, GExpr, GExprStmt, GIdent, GIf, GInt, GLet, GPrefix, GProgram, GReturn,
    GStringLit, GStmt,
};
use crate::scan::{SpecToken, SpecValue};
use crate::token::{Token, TokenKind};

verus! {

/// The executable token a model token stands for.
pub open spec fn tok_of(st: SpecToken) -> Token {
    Token { kind: st.kind, start: st.start as usize, end: st.end as usize }
}

/// `IDENT`.
pub open spec fn peg_ident(ts: Seq<SpecToken>, p: int) -> Option<(int, GIdent)> {
    if 0 <= p < ts.len() && ts[p].kind == TokenKind::Ident {
        Some((p + 1, GIdent { token: tok_of(ts[p]) }))
    } else {
        None
    }
}

/// `INT`, carrying its integer payload.
pub open spec fn peg_int(ts: Seq<SpecToken>, p: int) -> Option<(int, GInt)> {
    if 0 <= p < ts.len() && ts[p].kind == TokenKind::Int && (ts[p].value matches Some(
        SpecValue::VInt(_),
    )) {
        Some((p + 1, GInt { token: tok_of(ts[p]), value: ts[p].value->Some_0->VInt_0 }))
    } else {
        None
    }
}

/// `"true" | "false"`.
pub open spec fn peg_bool(ts: Seq<SpecToken>, p: int) -> Option<(int, GBool)> {
    if 0 <= p < ts.len() && ts[p].kind == TokenKind::True {
        Some((p + 1, GBool { token: tok_of(ts[p]), value: true }))
    } else if 0 <= p < ts.len() && ts[p].kind == TokenKind::False {
        Some((p + 1, GBool { token: tok_of(ts[p]), value: false }))
    } else {
        None
    }
}

/// `STRING`, carrying its text payload.
pub open spec fn peg_string(ts: Seq<SpecToken>, p: int) -> Option<(int, GStringLit)> {
    if 0 <= p < ts.len() && ts[p].kind == TokenKind::String && (ts[p].value matches Some(
        SpecValue::VStr(_),
    )) {
        Some((p + 1, GStringLit { token: tok_of(ts[p]), value: ts[p].value->Some_0->VStr_0 }))
    } else {
        None
    }
}

/// `("!" | "-") Expression`.
pub open spec fn peg_prefix(ts: Seq<SpecToken>, p: int) -> Option<(int, GPrefix)>
    decreases ts.len() - p, 1int when 0 <= p <= ts.len()
{
    if p < ts.len() && (ts[p].kind == TokenKind::Neg || ts[p].kind == TokenKind::Minus) {
        match peg_expr(ts, p + 1) {
            Some((e, rhs)) => Some((e, GPrefix { token: tok_of(ts[p]), rhs: Box::new(rhs) })),
            None => None,
        }
    } else {
        None
    }
}

/// `"if" "(" Expression ")" Block ("else" Block)?`; a written `else`
/// whose block fails to parse is rolled back and the alternative is
/// absent.
pub open spec fn peg_if(ts: Seq<SpecToken>, p: int) -> Option<(int, GIf)>
    decreases ts.len() - p, 1int when 0 <= p <= ts.len()
{
    if p < ts.len() && ts[p].kind == TokenKind::If && p + 1 < ts.len() && ts[p + 1].kind
        == TokenKind::LParen {
        match peg_expr(ts, p + 2) {
            Some((e1, cond)) => {
                if e1 < ts.len() && ts[e1].kind == TokenKind::RParen {
                    let bq = if p + 2 < e1 + 1 {
                        e1 + 1
                    } else if p + 3 <= ts.len() {
                        p + 3
                    } else {
                        ts.len() as int
                    };
                    match peg_block(ts, bq) {
                        Some((e2, consequence)) => {
                            if e2 < ts.len() && ts[e2].kind == TokenKind::Else {
                                let aq = if bq < e2 + 1 {
                                    e2 + 1
                                } else if bq + 1 <= ts.len() {
                                    bq + 1
                                } else {
                                    ts.len() as int
                                };
                                match peg_block(ts, aq) {
                                    Some((e3, alt)) => Some(
                                        (
                                            e3,
                                            GIf {
                                                token: tok_of(ts[p]),
                                                condition: Box::new(cond),
                                                consequence,
                                                alternative: Some(alt),
                                            },
                                        ),
                                    ),
                                    None => Some(
                                        (
                                            e2,
                                            GIf {
                                                token: tok_of(ts[p]),
                                                condition: Box::new(cond),
                                                consequence,
                                                alternative: None,
                                            },
                                        ),
                                    ),
                                }
                            } else {
                                Some(
                                    (
                                        e2,
                                        GIf {
                                            token: tok_of(ts[p]),
                                            condition: Box::new(cond),
                                            consequence,
                                            alternative: None,
                                        },
                                    ),
                                )
                            }
                        },
                        None => None,
                    }
                } else {
                    None
                }
            },
            None => None,
        }
    } else {
        None
    }
}

/// `Ident | Int | Bool | StringLiteral | If | Prefix`, tried in this
/// order; the first form that parses wins.
pub open spec fn peg_expr(ts: Seq<SpecToken>, p: int) -> Option<(int, GExpr)>
    decreases ts.len() - p, 2int when 0 <= p <= ts.len()
{
    if peg_ident(ts, p) is Some {
        let (e, n) = peg_ident(ts, p)->Some_0;
        Some((e, GExpr::Ident(n)))
    } else if peg_int(ts, p) is Some {
        let (e, n) = peg_int(ts, p)->Some_0;
        Some((e, GExpr::Int(n)))
    } else if peg_bool(ts, p) is Some {
        let (e, n) = peg_bool(ts, p)->Some_0;
        Some((e, GExpr::Bool(n)))
    } else if peg_string(ts, p) is Some {
        let (e, n) = peg_string(ts, p)->Some_0;
        Some((e, GExpr::StringLiteral(n)))
    } else if peg_if(ts, p) is Some {
        let (e, n) = peg_if(ts, p)->Some_0;
        Some((e, GExpr::If(n)))
    } else if peg_prefix(ts, p) is Some {
        let (e, n) = peg_prefix(ts, p)->Some_0;
        Some((e, GExpr::Prefix(n)))
    } else {
        None
    }
}

/// `"let" Ident "=" Expression ";"`.
pub open spec fn peg_let(ts: Seq<SpecToken>, p: int) -> Option<(int, GLet)>
    decreases ts.len() - p, 3int when 0 <= p <= ts.len()
{
    if p < ts.len() && ts[p].kind == TokenKind::Let {
        match peg_ident(ts, p + 1) {
            Some((e1, name)) => {
                if e1 < ts.len() && ts[e1].kind == TokenKind::Assign {
                    match peg_expr(ts, p + 3) {
                        Some((e2, value)) => {
                            if e2 < ts.len() && ts[e2].kind == TokenKind::Semicolon {
                                Some((e2 + 1, GLet { token: tok_of(ts[p]), name, value }))
                            } else {
                                None
                            }
                        },
                        None => None,
                    }
                } else {
                    None
                }
            },
            None => None,
        }
    } else {
        None
    }
}

/// `"return" Expression ";"`.
pub open spec fn peg_return(ts: Seq<SpecToken>, p: int) -> Option<(int, GReturn)>
    decreases ts.len() - p, 3int when 0 <= p <= ts.len()
{
    if p < ts.len() && ts[p].kind == TokenKind::Return {
        match peg_expr(ts, p + 1) {
            Some((e1, value)) => {
                if e1 < ts.len() && ts[e1].kind == TokenKind::Semicolon {
                    Some((e1 + 1, GReturn { token: tok_of(ts[p]), return_exp: value }))
                } else {
                    None
                }
            },
            None => None,
        }
    } else {
        None
    }
}

/// `Expression ";"`.
pub open spec fn peg_expr_stmt(ts: Seq<SpecToken>, p: int) -> Option<(int, GExprStmt)>
    decreases ts.len() - p, 3int when 0 <= p <= ts.len()
{
    match peg_expr(ts, p) {
        Some((e1, value)) => {
            if e1 < ts.len() && ts[e1].kind == TokenKind::Semicolon {
                Some((e1 + 1, GExprStmt { expression: value }))
            } else {
                None
            }
        },
        None => None,
    }
}

/// `"{" Statement* "}"`.
pub open spec fn peg_block(ts: Seq<SpecToken>, p: int) -> Option<(int, GBlock)>
    decreases ts.len() - p, 4int when 0 <= p <= ts.len()
{
    if p < ts.len() && ts[p].kind == TokenKind::LBrace {
        match peg_block_stmts(ts, p + 1) {
            Some((e, stmts)) => Some((e, GBlock { token: tok_of(ts[p]), statements: stmts })),
            None => None,
        }
    } else {
        None
    }
}

/// The statements of a block, up to and including the closing brace.
pub open spec fn peg_block_stmts(ts: Seq<SpecToken>, p: int) -> Option<(int, Seq<GStmt>)>
    decreases ts.len() - p, 6int when 0 <= p <= ts.len()
{
    if p >= ts.len() {
        None
    } else if ts[p].kind == TokenKind::RBrace {
        Some((p + 1, seq![]))
    } else {
        match peg_stmt(ts, p) {
            Some((e, st)) => {
                let e2 = if p < e && e <= ts.len() {
                    e
                } else {
                    p + 1
                };
                match peg_block_stmts(ts, e2) {
                    Some((e3, rest)) => Some((e3, seq![st] + rest)),
                    None => None,
                }
            },
            None => None,
        }
    }
}

/// `LetStatement | ReturnStatement | ExpressionStatement | Block`,
/// tried in this order.
pub open spec fn peg_stmt(ts: Seq<SpecToken>, p: int) -> Option<(int, GStmt)>
    decreases ts.len() - p, 5int when 0 <= p <= ts.len()
{
    if peg_let(ts, p) is Some {
        let (e, n) = peg_let(ts, p)->Some_0;
        Some((e, GStmt::Let(n)))
    } else if peg_return(ts, p) is Some {
        let (e, n) = peg_return(ts, p)->Some_0;
        Some((e, GStmt::Return(n)))
    } else if peg_expr_stmt(ts, p) is Some {
        let (e, n) = peg_expr_stmt(ts, p)->Some_0;
        Some((e, GStmt::Expression(n)))
    } else if peg_block(ts, p) is Some {
        let (e, n) = peg_block(ts, p)->Some_0;
        Some((e, GStmt::Block(n)))
    } else {
        None
    }
}

/// `Statement*`: statements are taken as long as one parses; the
/// first failure ends the program.
pub open spec fn peg_program_stmts(ts: Seq<SpecToken>, p: int) -> (int, Seq<GStmt>)
    decreases ts.len() - p, 7int when 0 <= p <= ts.len()
{
    if p >= ts.len() {
        (p, seq![])
    } else {
        match peg_stmt(ts, p) {
            Some((e, st)) => {
                let e2 = if p < e && e <= ts.len() {
                    e
                } else {
                    p + 1
                };
                let r = peg_program_stmts(ts, e2);
                (r.0, seq![st] + r.1)
            },
            None => (p, seq![]),
        }
    }
}

/// A whole program: its statements and the position parsing stopped at.
pub open spec fn peg_program(ts: Seq<SpecToken>) -> (int, GProgram) {
    let r = peg_program_stmts(ts, 0);
    (r.0, GProgram { statements: r.1 })
}

/// Every successful parse starts inside the tokens and ends past its
/// start, no further than their end.
pub proof fn lemma_peg_bounds(ts: Seq<SpecToken>, p: int)
    requires
        0 <= p <= ts.len(),
    ensures
        peg_prefix(ts, p) matches Some((e, _)) ==> p < e <= ts.len(),
        peg_if(ts, p) matches Some((e, _)) ==> p < e <= ts.len(),
        peg_expr(ts, p) matches Some((e, _)) ==> p < e <= ts.len(),
        peg_let(ts, p) matches Some((e, _)) ==> p < e <= ts.len(),
        peg_return(ts, p) matches Some((e, _)) ==> p < e <= ts.len(),
        peg_expr_stmt(ts, p) matches Some((e, _)) ==> p < e <= ts.len(),
        peg_block(ts, p) matches Some((e, _)) ==> p < e <= ts.len(),
        peg_block_stmts(ts, p) matches Some((e, _)) ==> p < e <= ts.len(),
        peg_stmt(ts, p) matches Some((e, _)) ==> p < e <= ts.len(),
        ({
            let (e, _) = peg_program_stmts(ts, p);
            p <= e <= ts.len()
        }),
    decreases ts.len() - p, 9int,
{
    lemma_peg_bounds_expr(ts, p);
    lemma_peg_bounds_stmt(ts, p);
    lemma_peg_bounds_block_stmts(ts, p);
    if p < ts.len() {
        match peg_stmt(ts, p) {
            Some((e, _)) => {
                let e2 = if p < e && e <= ts.len() {
                    e
                } else {
                    p + 1
                };
                lemma_peg_bounds(ts, e2);
            },
            None => {},
        }
    }
}

/// Bounds for the statement forms at one position.
proof fn lemma_peg_bounds_stmt(ts: Seq<SpecToken>, p: int)
    requires
        0 <= p <= ts.len(),
    ensures
        peg_let(ts, p) matches Some((e, _)) ==> p < e <= ts.len(),
        peg_return(ts, p) matches Some((e, _)) ==> p < e <= ts.len(),
        peg_expr_stmt(ts, p) matches Some((e, _)) ==> p < e <= ts.len(),
        peg_block(ts, p) matches Some((e, _)) ==> p < e <= ts.len(),
        peg_stmt(ts, p) matches Some((e, _)) ==> p < e <= ts.len(),
    decreases ts.len() - p, 7int,
{
    lemma_peg_bounds_expr(ts, p);
    if p < ts.len() {
        if ts[p].kind == TokenKind::Let {
            match peg_ident(ts, p + 1) {
                Some((e1, _)) => {
                    if e1 < ts.len() && ts[e1].kind == TokenKind::Assign && p + 3 <= ts.len() {
                        lemma_peg_bounds_expr(ts, p + 3);
                    }
                },
                None => {},
            }
        }
        if ts[p].kind == TokenKind::Return {
            lemma_peg_bounds_expr(ts, p + 1);
        }
        if ts[p].kind == TokenKind::LBrace {
            lemma_peg_bounds_block_stmts(ts, p + 1);
        }
    }
}

/// Bounds for a block's statement list.
proof fn lemma_peg_bounds_block_stmts(ts: Seq<SpecToken>, p: int)
    requires
        0 <= p <= ts.len(),
    ensures
        peg_block_stmts(ts, p) matches Some((e, _)) ==> p < e <= ts.len(),
    decreases ts.len() - p, 8int,
{
    if p < ts.len() && ts[p].kind != TokenKind::RBrace {
        lemma_peg_bounds_stmt(ts, p);
        match peg_stmt(ts, p) {
            Some((e, _)) => {
                let e2 = if p < e && e <= ts.len() {
                    e
                } else {
                    p + 1
                };
                lemma_peg_bounds_block_stmts(ts, e2);
            },
            None => {},
        }
    }
}

/// Bounds for the expression forms at one position.
proof fn lemma_peg_bounds_expr(ts: Seq<SpecToken>, p: int)
    requires
        0 <= p <= ts.len(),
    ensures
        peg_prefix(ts, p) matches Some((e, _)) ==> p < e <= ts.len(),
        peg_if(ts, p) matches Some((e, _)) ==> p < e <= ts.len(),
        peg_expr(ts, p) matches Some((e, _)) ==> p < e <= ts.len(),
    decreases ts.len() - p, 3int,
{
    if p < ts.len() {
        if ts[p].kind == TokenKind::Neg || ts[p].kind == TokenKind::Minus {
            lemma_peg_bounds_expr(ts, p + 1);
        }
        if ts[p].kind == TokenKind::If && p + 1 < ts.len() && ts[p + 1].kind == TokenKind::LParen {
            lemma_peg_bounds_expr(ts, p + 2);
            match peg_expr(ts, p + 2) {
                Some((e1, _)) => {
                    if e1 < ts.len() && ts[e1].kind == TokenKind::RParen {
                        let bq = if p + 2 < e1 + 1 {
                            e1 + 1
                        } else {
                            p + 3
                        };
                        if bq <= ts.len() {
                            lemma_peg_bounds_block(ts, bq);
                            match peg_block(ts, bq) {
                                Some((e2, _)) => {
                                    if e2 < ts.len() && ts[e2].kind == TokenKind::Else {
                                        let aq = if bq < e2 + 1 {
                                            e2 + 1
                                        } else {
                                            bq + 1
                                        };
                                        if aq <= ts.len() {
                                            lemma_peg_bounds_block(ts, aq);
                                        }
                                    }
                                },
                                None => {},
                            }
                        }
                    }
                },
                None => {},
            }
        }
    }
}

/// Bounds for a block at one position.
proof fn lemma_peg_bounds_block(ts: Seq<SpecToken>, p: int)
    requires
        0 <= p <= ts.len(),
    ensures
        peg_block(ts, p) matches Some((e, _)) ==> p < e <= ts.len(),
    decreases ts.len() - p, 4int,
{
    if p < ts.len() && ts[p].kind == TokenKind::LBrace {
        lemma_peg_bounds_block_stmts(ts, p + 1);
    }
}

} // verus!
