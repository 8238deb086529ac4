//! The grammar rules as executable parsers: one parse operation per
//! node form, each verified against the grammar model, with rollback
//! on failure.
use vstd::prelude::*;

use crate::ast::expressions::{
    Bool, Expression, Ident, If, Int, Prefix, StringLiteral,
};
use crate::ast::model::{
    abs_block, abs_expr, abs_program, abs_stmt, abs_stmts, GBool, GExprStmt, GIdent, GIf, GInt,
    GLet, GPrefix, GReturn, GStringLit, GStmt,
};
use crate::ast::statements::{Block, ExpressionStatement, LetStatement, Program, ReturnStatement,
    Statement};
use crate::branch::{Branch, BranchData, BranchRoot, Inspect};
use crate::grammar::{
    lemma_peg_bounds, peg_block, peg_block_stmts, peg_bool, peg_expr, peg_expr_stmt, peg_ident,
    peg_if, peg_int, peg_let, peg_prefix, peg_program, peg_program_stmts, peg_return, peg_stmt,
    peg_string, tok_of,
};
use crate::parser::{ParseError, Parser, ParserBranchData};
use crate::scan::{
    lemma_stream_value_kinds, lemma_vals_of_take_mono, lemma_vals_of_take_step, vals_of,
    value_kind_ok, SpecToken,
};
use crate::token::TokenKind;

verus! {

/// What every rule guarantees of the parser: its invariant holds, the
/// source is the same, and the token, value and error lists have only
/// grown at the end.
pub open spec fn rule_frame(pre: Parser, post: Parser) -> bool {
    &&& post.wf()
    &&& post.src() == pre.src()
    &&& post.tokens@.len() >= pre.tokens@.len()
    &&& post.values@.len() >= pre.values@.len()
    &&& post.errors@.len() >= pre.errors@.len()
    &&& pre.tokens@ == post.tokens@.take(pre.tokens@.len() as int)
    &&& pre.values@ == post.values@.take(pre.values@.len() as int)
    &&& pre.errors@ == post.errors@.take(pre.errors@.len() as int)
}

pub proof fn lemma_frame_refl(a: Parser)
    requires
        a.wf(),
    ensures
        rule_frame(a, a),
{
    assert(a.tokens@ =~= a.tokens@.take(a.tokens@.len() as int));
    assert(a.values@ =~= a.values@.take(a.values@.len() as int));
    assert(a.errors@ =~= a.errors@.take(a.errors@.len() as int));
}

pub proof fn lemma_frame_trans(a: Parser, b: Parser, c: Parser)
    requires
        rule_frame(a, b),
        rule_frame(b, c),
    ensures
        rule_frame(a, c),
{
    assert(a.tokens@ =~= c.tokens@.take(a.tokens@.len() as int));
    assert(a.values@ =~= c.values@.take(a.values@.len() as int));
    assert(a.errors@ =~= c.errors@.take(a.errors@.len() as int));
}

/// A list stays a prefix of itself after a push.
proof fn lemma_push_prefix<T>(a: Seq<T>, x: T)
    ensures
        a == a.push(x).take(a.len() as int),
{
    assert(a =~= a.push(x).take(a.len() as int));
}

/// The frame one take step leaves: the caches grew by at most the one
/// demanded token, and the errors by at most one diagnostic.
proof fn lemma_frame_take(pre: Parser, post: Parser)
    requires
        post.wf(),
        post.src() == pre.src(),
        post.tokens@.len() >= pre.tokens@.len(),
        post.values@.len() >= pre.values@.len(),
        pre.tokens@ == post.tokens@.take(pre.tokens@.len() as int),
        pre.values@ == post.values@.take(pre.values@.len() as int),
        post.errors@ == pre.errors@ || post.errors@ == pre.errors@.push(
            ParseError::NoMoreTokens,
        ),
    ensures
        rule_frame(pre, post),
{
    if post.errors@ == pre.errors@ {
        assert(pre.errors@ =~= post.errors@.take(pre.errors@.len() as int));
    } else {
        lemma_push_prefix(pre.errors@, ParseError::NoMoreTokens);
    }
    assert(pre.values@.len() == post.values@.take(pre.values@.len() as int).len());
}

/// Consuming a token without a payload keeps the payload count.
proof fn lemma_no_value_step(ts: Seq<SpecToken>, p: int)
    requires
        0 <= p < ts.len(),
        ts[p].value is None,
    ensures
        vals_of(ts.take(p + 1)) == vals_of(ts.take(p)),
{
    lemma_vals_of_take_step(ts, p);
    assert(vals_of(ts.take(p + 1)) =~= vals_of(ts.take(p)));
}

impl Ident {
    /// `IDENT`.
    pub fn parse<'a>(parser: &mut Parser<'a>, branch: &mut Branch<ParserBranchData>) -> (r: Option<
        Ident,
    >)
        requires
            old(parser).wf(),
            old(parser).data_inv(old(branch).data),
        ensures
            rule_frame(*old(parser), *final(parser)),
            final(parser).data_inv(final(branch).data),
            final(branch).data.token_pos >= old(branch).data.token_pos,
            r is None ==> final(branch).data == old(branch).data,
            match r {
                Some(node) => peg_ident(
                    final(parser).stream(),
                    old(branch).data.token_pos as int,
                ) == Some((final(branch).data.token_pos as int, GIdent { token: node.token })),
                None => peg_ident(final(parser).stream(), old(branch).data.token_pos as int)
                    is None,
            },
    {
        let ghost pre = *parser;
        let ghost p = branch.data.token_pos as int;
        let ident_token = match branch.take_next_token_by_kind(parser, TokenKind::Ident) {
            Some(t) => t,
            None => {
                proof {
                    lemma_frame_take(pre, *parser);
                }
                return None;
            },
        };
        proof {
            lemma_frame_take(pre, *parser);
            lemma_stream_value_kinds(parser.src(), 0);
            assert(value_kind_ok(parser.stream()[p]));
            lemma_no_value_step(parser.stream(), p);
        }
        Some(Ident::new(ident_token))
    }
}

impl Int {
    /// `INT`, with its cached integer payload.
    pub fn parse<'a>(parser: &mut Parser<'a>, branch: &mut Branch<ParserBranchData>) -> (r: Option<
        Int,
    >)
        requires
            old(parser).wf(),
            old(parser).data_inv(old(branch).data),
        ensures
            rule_frame(*old(parser), *final(parser)),
            final(parser).data_inv(final(branch).data),
            final(branch).data.token_pos >= old(branch).data.token_pos,
            r is None ==> final(branch).data == old(branch).data,
            match r {
                Some(node) => peg_int(final(parser).stream(), old(branch).data.token_pos as int)
                    == Some(
                    (
                        final(branch).data.token_pos as int,
                        GInt { token: node.token, value: node.value },
                    ),
                ),
                None => peg_int(final(parser).stream(), old(branch).data.token_pos as int)
                    is None,
            },
    {
        let ghost pre = *parser;
        let ghost bpre = branch.data;
        let ghost p = branch.data.token_pos as int;
        let mut child = Branch::new(branch);
        let token = match child.take_next_token_by_kind(parser, TokenKind::Int) {
            Some(t) => t,
            None => {
                proof {
                    lemma_frame_take(pre, *parser);
                }
                return None;
            },
        };
        proof {
            lemma_frame_take(pre, *parser);
            lemma_stream_value_kinds(parser.src(), 0);
            let full = parser.stream();
            lemma_vals_of_take_step(full, p);
            lemma_vals_of_take_mono(full, p + 1, parser.tokens@.len() as int);
            assert(value_kind_ok(full[p]));
            assert(vals_of(full.take(p + 1)).len() == bpre.value_idx + 1);
            assert(vals_of(full.take(parser.tokens@.len() as int)).len() >= bpre.value_idx + 1);
            assert(vals_of(full.take(parser.tokens@.len() as int))[bpre.value_idx as int]
                == vals_of(full.take(p + 1))[bpre.value_idx as int]);
        }
        let value = match child.take_next_value(parser) {
            Some(v) => v,
            None => {
                proof {
                    // an Int token of the stream always has a cached payload
                    assert(false);
                }
                return None;
            },
        };
        let value = match value.to_int() {
            Some(v) => v,
            None => {
                proof {
                    // and that payload is always an integer
                    assert(false);
                }
                return None;
            },
        };
        child.commit(branch);
        Some(Int::new(token, value))
    }
}

impl Bool {
    /// `"true" | "false"`, by inspecting the kind of the taken token.
    pub fn parse<'a>(parser: &mut Parser<'a>, branch: &mut Branch<ParserBranchData>) -> (r: Option<
        Bool,
    >)
        requires
            old(parser).wf(),
            old(parser).data_inv(old(branch).data),
        ensures
            rule_frame(*old(parser), *final(parser)),
            final(parser).data_inv(final(branch).data),
            final(branch).data.token_pos >= old(branch).data.token_pos,
            r is None ==> final(branch).data == old(branch).data,
            match r {
                Some(node) => peg_bool(final(parser).stream(), old(branch).data.token_pos as int)
                    == Some(
                    (
                        final(branch).data.token_pos as int,
                        GBool { token: node.token, value: node.value },
                    ),
                ),
                None => peg_bool(final(parser).stream(), old(branch).data.token_pos as int)
                    is None,
            },
    {
        let ghost pre = *parser;
        let ghost p = branch.data.token_pos as int;
        let mut child = Branch::new(branch);
        let token = match child.take_next_token(parser) {
            Some(t) => t,
            None => {
                proof {
                    lemma_frame_take(pre, *parser);
                }
                return None;
            },
        };
        let value = match token.kind() {
            TokenKind::True => true,
            TokenKind::False => false,
            _ => {
                proof {
                    lemma_frame_take(pre, *parser);
                }
                return None;
            },
        };
        proof {
            lemma_frame_take(pre, *parser);
            lemma_stream_value_kinds(parser.src(), 0);
            assert(value_kind_ok(parser.stream()[p]));
            lemma_no_value_step(parser.stream(), p);
        }
        child.commit(branch);
        Some(Bool::new(token, value))
    }
}

impl StringLiteral {
    /// `STRING`, with its cached text payload.
    pub fn parse<'a>(parser: &mut Parser<'a>, branch: &mut Branch<ParserBranchData>) -> (r: Option<
        StringLiteral,
    >)
        requires
            old(parser).wf(),
            old(parser).data_inv(old(branch).data),
        ensures
            rule_frame(*old(parser), *final(parser)),
            final(parser).data_inv(final(branch).data),
            final(branch).data.token_pos >= old(branch).data.token_pos,
            r is None ==> final(branch).data == old(branch).data,
            match r {
                Some(node) => peg_string(
                    final(parser).stream(),
                    old(branch).data.token_pos as int,
                ) == Some(
                    (
                        final(branch).data.token_pos as int,
                        GStringLit { token: node.token, value: node.value@ },
                    ),
                ),
                None => peg_string(final(parser).stream(), old(branch).data.token_pos as int)
                    is None,
            },
    {
        let ghost pre = *parser;
        let ghost bpre = branch.data;
        let ghost p = branch.data.token_pos as int;
        let mut child = Branch::new(branch);
        let token = match child.take_next_token_by_kind(parser, TokenKind::String) {
            Some(t) => t,
            None => {
                proof {
                    lemma_frame_take(pre, *parser);
                }
                return None;
            },
        };
        proof {
            lemma_frame_take(pre, *parser);
            lemma_stream_value_kinds(parser.src(), 0);
            let full = parser.stream();
            lemma_vals_of_take_step(full, p);
            lemma_vals_of_take_mono(full, p + 1, parser.tokens@.len() as int);
            assert(value_kind_ok(full[p]));
            assert(vals_of(full.take(p + 1)).len() == bpre.value_idx + 1);
            assert(vals_of(full.take(parser.tokens@.len() as int)).len() >= bpre.value_idx + 1);
            assert(vals_of(full.take(parser.tokens@.len() as int))[bpre.value_idx as int]
                == vals_of(full.take(p + 1))[bpre.value_idx as int]);
        }
        let value = match child.take_next_value(parser) {
            Some(v) => v,
            None => {
                proof {
                    // a String token of the stream always has a cached payload
                    assert(false);
                }
                return None;
            },
        };
        let value = match value.to_string() {
            Some(v) => v,
            None => {
                proof {
                    // and that payload is always a text
                    assert(false);
                }
                return None;
            },
        };
        child.commit(branch);
        Some(StringLiteral::new(token, value))
    }
}

impl Prefix {
    /// `("!" | "-") Expression`.
    pub fn parse<'a>(parser: &mut Parser<'a>, branch: &mut Branch<ParserBranchData>) -> (r: Option<
        Prefix,
    >)
        requires
            old(parser).wf(),
            old(parser).data_inv(old(branch).data),
        ensures
            rule_frame(*old(parser), *final(parser)),
            final(parser).data_inv(final(branch).data),
            final(branch).data.token_pos >= old(branch).data.token_pos,
            r is None ==> final(branch).data == old(branch).data,
            match r {
                Some(node) => peg_prefix(
                    final(parser).stream(),
                    old(branch).data.token_pos as int,
                ) == Some(
                    (
                        final(branch).data.token_pos as int,
                        GPrefix { token: node.token, rhs: Box::new(abs_expr(*node.rhs)) },
                    ),
                ),
                None => peg_prefix(final(parser).stream(), old(branch).data.token_pos as int)
                    is None,
            },
        decreases old(parser).stream().len() - old(branch).data.token_pos, 1int,
    {
        let ghost pre = *parser;
        let ghost ts = parser.stream();
        let ghost p = branch.data.token_pos as int;
        let mut child = Branch::new(branch);
        let prefix_token = match child.take_next_token(parser) {
            Some(t) => t,
            None => {
                proof {
                    lemma_frame_take(pre, *parser);
                }
                return None;
            },
        };
        match prefix_token.kind() {
            TokenKind::Neg => {},
            TokenKind::Minus => {},
            _ => {
                proof {
                    lemma_frame_take(pre, *parser);
                }
                return None;
            },
        }
        proof {
            lemma_frame_take(pre, *parser);
            lemma_stream_value_kinds(parser.src(), 0);
            assert(value_kind_ok(ts[p]));
            lemma_no_value_step(ts, p);
        }
        let ghost m1 = *parser;
        let expression = match Expression::parse(parser, &mut child) {
            Some(v) => v,
            None => {
                proof {
                    lemma_frame_trans(pre, m1, *parser);
                }
                return None;
            },
        };
        proof {
            lemma_frame_trans(pre, m1, *parser);
        }
        child.commit(branch);
        let node = Prefix::new(prefix_token, expression);
        proof {
            assert(tok_of(ts[p]) == prefix_token);
        }
        Some(node)
    }
}

impl If {
    /// `"if" "(" Expression ")" Block ("else" Block)?`; an `else`
    /// whose block fails to parse is rolled back and the alternative
    /// stays absent.
    pub fn parse<'a>(parser: &mut Parser<'a>, branch: &mut Branch<ParserBranchData>) -> (r: Option<
        If,
    >)
        requires
            old(parser).wf(),
            old(parser).data_inv(old(branch).data),
        ensures
            rule_frame(*old(parser), *final(parser)),
            final(parser).data_inv(final(branch).data),
            final(branch).data.token_pos >= old(branch).data.token_pos,
            r is None ==> final(branch).data == old(branch).data,
            match r {
                Some(node) => peg_if(final(parser).stream(), old(branch).data.token_pos as int)
                    == Some(
                    (
                        final(branch).data.token_pos as int,
                        GIf {
                            token: node.token,
                            condition: Box::new(abs_expr(*node.condition)),
                            consequence: abs_block(*node.consequence),
                            alternative: match node.alternative {
                                Some(b) => Some(abs_block(*b)),
                                None => None,
                            },
                        },
                    ),
                ),
                None => peg_if(final(parser).stream(), old(branch).data.token_pos as int)
                    is None,
            },
        decreases old(parser).stream().len() - old(branch).data.token_pos, 1int,
    {
        let ghost pre = *parser;
        let ghost ts = parser.stream();
        let ghost p = branch.data.token_pos as int;
        let mut child = Branch::new(branch);
        let if_token = match child.take_next_token_by_kind(parser, TokenKind::If) {
            Some(t) => t,
            None => {
                proof {
                    lemma_frame_take(pre, *parser);
                }
                return None;
            },
        };
        proof {
            lemma_frame_take(pre, *parser);
            lemma_stream_value_kinds(parser.src(), 0);
            assert(value_kind_ok(ts[p]));
            lemma_no_value_step(ts, p);
        }
        let ghost m1 = *parser;
        let _lparent = match child.take_next_token_by_kind(parser, TokenKind::LParen) {
            Some(t) => t,
            None => {
                proof {
                    lemma_frame_take(m1, *parser);
                    lemma_frame_trans(pre, m1, *parser);
                }
                return None;
            },
        };
        proof {
            lemma_frame_take(m1, *parser);
            lemma_frame_trans(pre, m1, *parser);
            assert(value_kind_ok(ts[p + 1]));
            lemma_no_value_step(ts, p + 1);
        }
        let ghost m2 = *parser;
        let condition = match Expression::parse(parser, &mut child) {
            Some(v) => v,
            None => {
                proof {
                    lemma_frame_trans(pre, m2, *parser);
                }
                return None;
            },
        };
        proof {
            lemma_frame_trans(pre, m2, *parser);
            lemma_peg_bounds(ts, p + 2);
        }
        let ghost e1 = child.data.token_pos as int;
        let ghost m3 = *parser;
        let _rparent = match child.take_next_token_by_kind(parser, TokenKind::RParen) {
            Some(t) => t,
            None => {
                proof {
                    lemma_frame_take(m3, *parser);
                    lemma_frame_trans(pre, m3, *parser);
                }
                return None;
            },
        };
        proof {
            lemma_frame_take(m3, *parser);
            lemma_frame_trans(pre, m3, *parser);
            assert(value_kind_ok(ts[e1]));
            lemma_no_value_step(ts, e1);
        }
        let ghost m4 = *parser;
        let consequence = match Block::parse(parser, &mut child) {
            Some(b) => b,
            None => {
                proof {
                    lemma_frame_trans(pre, m4, *parser);
                }
                return None;
            },
        };
        proof {
            lemma_frame_trans(pre, m4, *parser);
            lemma_peg_bounds(ts, e1 + 1);
        }
        let ghost e2 = child.data.token_pos as int;
        let mut inner = Branch::new(&child);
        let ghost m5 = *parser;
        let alternative: Option<Block> = match inner.take_next_token_by_kind(
            parser,
            TokenKind::Else,
        ) {
            Some(_) => {
                proof {
                    lemma_frame_take(m5, *parser);
                    lemma_frame_trans(pre, m5, *parser);
                    assert(value_kind_ok(ts[e2]));
                    lemma_no_value_step(ts, e2);
                }
                let ghost m6 = *parser;
                match Block::parse(parser, &mut inner) {
                    Some(b) => {
                        proof {
                            lemma_frame_trans(pre, m6, *parser);
                            lemma_peg_bounds(ts, e2 + 1);
                        }
                        inner.commit(&mut child);
                        Some(b)
                    },
                    None => {
                        proof {
                            lemma_frame_trans(pre, m6, *parser);
                        }
                        None
                    },
                }
            },
            None => {
                proof {
                    lemma_frame_take(m5, *parser);
                    lemma_frame_trans(pre, m5, *parser);
                }
                None
            },
        };
        child.commit(branch);
        let alternative = match alternative {
            Some(b) => Some(Box::new(b)),
            None => None,
        };
        let node = If::new(if_token, Box::new(condition), Box::new(consequence), alternative);
        proof {
            assert(tok_of(ts[p]) == if_token);
        }
        Some(node)
    }
}

impl Expression {
    /// `Ident | Int | Bool | StringLiteral | If | Prefix`, tried in
    /// this order; the first form whose branch commits wins.
    #[verifier::rlimit(60)]
    pub fn parse<'a>(parser: &mut Parser<'a>, branch: &mut Branch<ParserBranchData>) -> (r: Option<
        Expression,
    >)
        requires
            old(parser).wf(),
            old(parser).data_inv(old(branch).data),
        ensures
            rule_frame(*old(parser), *final(parser)),
            final(parser).data_inv(final(branch).data),
            final(branch).data.token_pos >= old(branch).data.token_pos,
            r is None ==> final(branch).data == old(branch).data,
            match r {
                Some(node) => peg_expr(final(parser).stream(), old(branch).data.token_pos as int)
                    == Some((final(branch).data.token_pos as int, abs_expr(node))),
                None => peg_expr(final(parser).stream(), old(branch).data.token_pos as int)
                    is None,
            },
        decreases old(parser).stream().len() - old(branch).data.token_pos, 2int,
    {
        let ghost pre = *parser;
        proof {
            lemma_frame_refl(pre);
        }
        let ghost m = *parser;
        match Ident::parse(parser, branch) {
            Some(ident) => {
                proof {
                    lemma_frame_trans(pre, m, *parser);
                }
                return Some(Expression::Ident(ident));
            },
            None => {},
        }
        proof {
            lemma_frame_trans(pre, m, *parser);
        }
        let ghost m = *parser;
        match Int::parse(parser, branch) {
            Some(int_lit) => {
                proof {
                    lemma_frame_trans(pre, m, *parser);
                }
                return Some(Expression::Int(int_lit));
            },
            None => {},
        }
        proof {
            lemma_frame_trans(pre, m, *parser);
        }
        let ghost m = *parser;
        match Bool::parse(parser, branch) {
            Some(boolean) => {
                proof {
                    lemma_frame_trans(pre, m, *parser);
                }
                return Some(Expression::Bool(boolean));
            },
            None => {},
        }
        proof {
            lemma_frame_trans(pre, m, *parser);
        }
        let ghost m = *parser;
        match StringLiteral::parse(parser, branch) {
            Some(string_literal) => {
                proof {
                    lemma_frame_trans(pre, m, *parser);
                }
                return Some(Expression::StringLiteral(string_literal));
            },
            None => {},
        }
        proof {
            lemma_frame_trans(pre, m, *parser);
        }
        let ghost m = *parser;
        match If::parse(parser, branch) {
            Some(st) => {
                proof {
                    lemma_frame_trans(pre, m, *parser);
                }
                return Some(Expression::If(st));
            },
            None => {},
        }
        proof {
            lemma_frame_trans(pre, m, *parser);
        }
        let ghost m = *parser;
        match Prefix::parse(parser, branch) {
            Some(prefix) => {
                proof {
                    lemma_frame_trans(pre, m, *parser);
                }
                return Some(Expression::Prefix(prefix));
            },
            None => {},
        }
        proof {
            lemma_frame_trans(pre, m, *parser);
        }
        None
    }
}

impl LetStatement {
    /// `"let" Ident "=" Expression ";"`.
    pub fn parse<'a>(parser: &mut Parser<'a>, branch: &mut Branch<ParserBranchData>) -> (r: Option<
        LetStatement,
    >)
        requires
            old(parser).wf(),
            old(parser).data_inv(old(branch).data),
        ensures
            rule_frame(*old(parser), *final(parser)),
            final(parser).data_inv(final(branch).data),
            final(branch).data.token_pos >= old(branch).data.token_pos,
            r is None ==> final(branch).data == old(branch).data,
            match r {
                Some(node) => peg_let(final(parser).stream(), old(branch).data.token_pos as int)
                    == Some(
                    (
                        final(branch).data.token_pos as int,
                        GLet {
                            token: node.token,
                            name: GIdent { token: node.name.token },
                            value: abs_expr(node.value),
                        },
                    ),
                ),
                None => peg_let(final(parser).stream(), old(branch).data.token_pos as int)
                    is None,
            },
        decreases old(parser).stream().len() - old(branch).data.token_pos, 3int,
    {
        let ghost pre = *parser;
        let ghost ts = parser.stream();
        let ghost p = branch.data.token_pos as int;
        let mut child = Branch::new(branch);
        let let_token = match child.take_next_token_by_kind(parser, TokenKind::Let) {
            Some(t) => t,
            None => {
                proof {
                    lemma_frame_take(pre, *parser);
                }
                return None;
            },
        };
        proof {
            lemma_frame_take(pre, *parser);
            lemma_stream_value_kinds(parser.src(), 0);
            assert(value_kind_ok(ts[p]));
            lemma_no_value_step(ts, p);
        }
        let ghost m1 = *parser;
        let name = match Ident::parse(parser, &mut child) {
            Some(n) => n,
            None => {
                proof {
                    lemma_frame_trans(pre, m1, *parser);
                }
                return None;
            },
        };
        proof {
            lemma_frame_trans(pre, m1, *parser);
        }
        let ghost m2 = *parser;
        let _assign = match child.take_next_token_by_kind(parser, TokenKind::Assign) {
            Some(t) => t,
            None => {
                proof {
                    lemma_frame_take(m2, *parser);
                    lemma_frame_trans(pre, m2, *parser);
                }
                return None;
            },
        };
        proof {
            lemma_frame_take(m2, *parser);
            lemma_frame_trans(pre, m2, *parser);
            assert(value_kind_ok(ts[p + 2]));
            lemma_no_value_step(ts, p + 2);
        }
        let ghost m3 = *parser;
        let value = match Expression::parse(parser, &mut child) {
            Some(v) => v,
            None => {
                proof {
                    lemma_frame_trans(pre, m3, *parser);
                }
                return None;
            },
        };
        proof {
            lemma_frame_trans(pre, m3, *parser);
        }
        let ghost e2 = child.data.token_pos as int;
        let ghost m4 = *parser;
        let _semicolon = match child.take_next_token_by_kind(parser, TokenKind::Semicolon) {
            Some(t) => t,
            None => {
                proof {
                    lemma_frame_take(m4, *parser);
                    lemma_frame_trans(pre, m4, *parser);
                }
                return None;
            },
        };
        proof {
            lemma_frame_take(m4, *parser);
            lemma_frame_trans(pre, m4, *parser);
            assert(value_kind_ok(ts[e2]));
            lemma_no_value_step(ts, e2);
        }
        child.commit(branch);
        let node = LetStatement::new(let_token, name, value);
        proof {
            assert(tok_of(ts[p]) == let_token);
        }
        Some(node)
    }
}

impl ReturnStatement {
    /// `"return" Expression ";"`.
    pub fn parse<'a>(parser: &mut Parser<'a>, branch: &mut Branch<ParserBranchData>) -> (r: Option<
        ReturnStatement,
    >)
        requires
            old(parser).wf(),
            old(parser).data_inv(old(branch).data),
        ensures
            rule_frame(*old(parser), *final(parser)),
            final(parser).data_inv(final(branch).data),
            final(branch).data.token_pos >= old(branch).data.token_pos,
            r is None ==> final(branch).data == old(branch).data,
            match r {
                Some(node) => peg_return(
                    final(parser).stream(),
                    old(branch).data.token_pos as int,
                ) == Some(
                    (
                        final(branch).data.token_pos as int,
                        GReturn { token: node.token, return_exp: abs_expr(node.return_exp) },
                    ),
                ),
                None => peg_return(final(parser).stream(), old(branch).data.token_pos as int)
                    is None,
            },
        decreases old(parser).stream().len() - old(branch).data.token_pos, 3int,
    {
        let ghost pre = *parser;
        let ghost ts = parser.stream();
        let ghost p = branch.data.token_pos as int;
        let mut child = Branch::new(branch);
        let return_token = match child.take_next_token_by_kind(parser, TokenKind::Return) {
            Some(t) => t,
            None => {
                proof {
                    lemma_frame_take(pre, *parser);
                }
                return None;
            },
        };
        proof {
            lemma_frame_take(pre, *parser);
            lemma_stream_value_kinds(parser.src(), 0);
            assert(value_kind_ok(ts[p]));
            lemma_no_value_step(ts, p);
        }
        let ghost m1 = *parser;
        let return_exp = match Expression::parse(parser, &mut child) {
            Some(v) => v,
            None => {
                proof {
                    lemma_frame_trans(pre, m1, *parser);
                }
                return None;
            },
        };
        proof {
            lemma_frame_trans(pre, m1, *parser);
        }
        let ghost e1 = child.data.token_pos as int;
        let ghost m2 = *parser;
        let _semicolon = match child.take_next_token_by_kind(parser, TokenKind::Semicolon) {
            Some(t) => t,
            None => {
                proof {
                    lemma_frame_take(m2, *parser);
                    lemma_frame_trans(pre, m2, *parser);
                }
                return None;
            },
        };
        proof {
            lemma_frame_take(m2, *parser);
            lemma_frame_trans(pre, m2, *parser);
            assert(value_kind_ok(ts[e1]));
            lemma_no_value_step(ts, e1);
        }
        child.commit(branch);
        let node = ReturnStatement::new(return_token, return_exp);
        proof {
            assert(tok_of(ts[p]) == return_token);
        }
        Some(node)
    }
}

impl ExpressionStatement {
    /// `Expression ";"`.
    pub fn parse<'a>(parser: &mut Parser<'a>, branch: &mut Branch<ParserBranchData>) -> (r: Option<
        ExpressionStatement,
    >)
        requires
            old(parser).wf(),
            old(parser).data_inv(old(branch).data),
        ensures
            rule_frame(*old(parser), *final(parser)),
            final(parser).data_inv(final(branch).data),
            final(branch).data.token_pos >= old(branch).data.token_pos,
            r is None ==> final(branch).data == old(branch).data,
            match r {
                Some(node) => peg_expr_stmt(
                    final(parser).stream(),
                    old(branch).data.token_pos as int,
                ) == Some(
                    (
                        final(branch).data.token_pos as int,
                        GExprStmt { expression: abs_expr(*node.expression) },
                    ),
                ),
                None => peg_expr_stmt(final(parser).stream(), old(branch).data.token_pos as int)
                    is None,
            },
        decreases old(parser).stream().len() - old(branch).data.token_pos, 3int,
    {
        let ghost pre = *parser;
        let ghost ts = parser.stream();
        let ghost p = branch.data.token_pos as int;
        let mut child = Branch::new(branch);
        let expression = match Expression::parse(parser, &mut child) {
            Some(v) => v,
            None => {
                return None;
            },
        };
        let ghost e1 = child.data.token_pos as int;
        let ghost m1 = *parser;
        let _semicolon = match child.take_next_token_by_kind(parser, TokenKind::Semicolon) {
            Some(t) => t,
            None => {
                proof {
                    lemma_frame_take(m1, *parser);
                    lemma_frame_trans(pre, m1, *parser);
                }
                return None;
            },
        };
        proof {
            lemma_frame_take(m1, *parser);
            lemma_frame_trans(pre, m1, *parser);
            lemma_stream_value_kinds(parser.src(), 0);
            assert(value_kind_ok(ts[e1]));
            lemma_no_value_step(ts, e1);
        }
        child.commit(branch);
        Some(ExpressionStatement::new(expression))
    }
}

impl Block {
    /// `"{" Statement* "}"`. When at least one statement has been
    /// accumulated and the next piece is neither a statement nor the
    /// closing brace, an "Expected a statement" diagnostic is recorded
    /// before the rule gives up.
    pub fn parse<'a>(parser: &mut Parser<'a>, branch: &mut Branch<ParserBranchData>) -> (r: Option<
        Block,
    >)
        requires
            old(parser).wf(),
            old(parser).data_inv(old(branch).data),
        ensures
            rule_frame(*old(parser), *final(parser)),
            final(parser).data_inv(final(branch).data),
            final(branch).data.token_pos >= old(branch).data.token_pos,
            r is None ==> final(branch).data == old(branch).data,
            match r {
                Some(node) => peg_block(final(parser).stream(), old(branch).data.token_pos as int)
                    == Some((final(branch).data.token_pos as int, abs_block(node))),
                None => peg_block(final(parser).stream(), old(branch).data.token_pos as int)
                    is None,
            },
            ({
                let ts = final(parser).stream();
                let p = old(branch).data.token_pos as int;
                (r is None && 0 <= p < ts.len() && ts[p].kind == TokenKind::LBrace && peg_stmt(
                    ts,
                    p + 1,
                ) is Some) ==> {
                    &&& final(parser).errors@.len() > old(parser).errors@.len()
                    &&& final(parser).errors@.last() matches ParseError::Msg(m) && m@
                        == "Expected a statement"@
                }
            }),
        decreases old(parser).stream().len() - old(branch).data.token_pos, 3int,
    {
        let ghost pre = *parser;
        let ghost ts = parser.stream();
        let ghost p = branch.data.token_pos as int;
        let mut child = Branch::new(branch);
        let token = match child.take_next_token_by_kind(parser, TokenKind::LBrace) {
            Some(t) => t,
            None => {
                proof {
                    lemma_frame_take(pre, *parser);
                }
                return None;
            },
        };
        proof {
            lemma_frame_take(pre, *parser);
            lemma_stream_value_kinds(parser.src(), 0);
            assert(value_kind_ok(ts[p]));
            lemma_no_value_step(ts, p);
        }
        let mut statements: Vec<Statement> = Vec::new();
        proof {
            assert(abs_stmts(statements, 0) =~= Seq::<GStmt>::empty());
        }
        loop
            invariant
                parser.wf(),
                rule_frame(pre, *parser),
                ts == parser.stream(),
                parser.data_inv(child.data),
                0 <= p < ts.len(),
                ts[p].kind == TokenKind::LBrace,
                token == tok_of(ts[p]),
                p + 1 <= child.data.token_pos <= ts.len(),
                pre == *old(parser),
                p == old(branch).data.token_pos,
                branch.data == old(branch).data,
                old(parser).data_inv(old(branch).data),
                (match peg_block_stmts(ts, child.data.token_pos as int) {
                    Some((e, rest)) => peg_block_stmts(ts, p + 1) == Some(
                        (e, abs_stmts(statements, 0) + rest),
                    ),
                    None => peg_block_stmts(ts, p + 1) is None,
                }),
                statements@.len() == 0 ==> child.data.token_pos == p + 1,
            decreases ts.len() - child.data.token_pos,
        {
            let ghost pc = child.data.token_pos as int;
            let ghost mpre = *parser;
            if let Some(_) = child.take_next_token_by_kind(parser, TokenKind::RBrace) {
                proof {
                    lemma_frame_take(mpre, *parser);
                    lemma_frame_trans(pre, mpre, *parser);
                    lemma_stream_value_kinds(parser.src(), 0);
                    assert(value_kind_ok(ts[pc]));
                    lemma_no_value_step(ts, pc);
                    assert(peg_block_stmts(ts, pc) == Some(((pc + 1) as int, Seq::<
                        GStmt,
                    >::empty())));
                    assert(abs_stmts(statements, 0) + Seq::<GStmt>::empty() =~= abs_stmts(
                        statements,
                        0,
                    ));
                }
                child.commit(branch);
                let node = Block::new(token, statements);
                proof {
                    assert(tok_of(ts[p]) == token);
                }
                return Some(node);
            }
            proof {
                lemma_frame_take(mpre, *parser);
                lemma_frame_trans(pre, mpre, *parser);
            }
            let ghost m2 = *parser;
            match Statement::parse(parser, &mut child) {
                Some(st) => {
                    proof {
                        lemma_frame_trans(pre, m2, *parser);
                        lemma_peg_bounds(ts, pc);
                    }
                    let ghost v0 = statements;
                    statements.push(st);
                    proof {
                        crate::ast::model::lemma_abs_stmts_push(v0, statements, st, 0);
                        let e = child.data.token_pos as int;
                        match peg_block_stmts(ts, e) {
                            Some((e3, rest)) => {
                                assert(peg_block_stmts(ts, pc) == Some(
                                    (e3, seq![abs_stmt(st)] + rest),
                                ));
                                assert(abs_stmts(v0, 0) + (seq![abs_stmt(st)] + rest)
                                    =~= abs_stmts(statements, 0) + rest);
                            },
                            None => {
                                assert(peg_block_stmts(ts, pc) is None);
                            },
                        }
                    }
                },
                None => {
                    proof {
                        lemma_frame_trans(pre, m2, *parser);
                        assert(peg_block_stmts(ts, pc) is None);
                        assert(peg_block(ts, p) is None);
                    }
                    if statements.len() > 0 {
                        let ghost m3 = *parser;
                        let text = "Expected a statement".to_owned();
                        proof {
                            reveal_strlit("Expected a statement");
                        }
                        parser.add_error(ParseError::Msg(text));
                        proof {
                            assert(pre.errors@ =~= parser.errors@.take(pre.errors@.len() as int));
                        }
                    }
                    return None;
                },
            }
        }
    }
}

impl Statement {
    /// `LetStatement | ReturnStatement | ExpressionStatement | Block`,
    /// tried in this order.
    #[verifier::rlimit(60)]
    pub fn parse<'a>(parser: &mut Parser<'a>, branch: &mut Branch<ParserBranchData>) -> (r: Option<
        Statement,
    >)
        requires
            old(parser).wf(),
            old(parser).data_inv(old(branch).data),
        ensures
            rule_frame(*old(parser), *final(parser)),
            final(parser).data_inv(final(branch).data),
            final(branch).data.token_pos >= old(branch).data.token_pos,
            r is None ==> final(branch).data == old(branch).data,
            match r {
                Some(node) => peg_stmt(final(parser).stream(), old(branch).data.token_pos as int)
                    == Some((final(branch).data.token_pos as int, abs_stmt(node))),
                None => peg_stmt(final(parser).stream(), old(branch).data.token_pos as int)
                    is None,
            },
        decreases old(parser).stream().len() - old(branch).data.token_pos, 4int,
    {
        let ghost pre = *parser;
        proof {
            lemma_frame_refl(pre);
        }
        let ghost m = *parser;
        match LetStatement::parse(parser, branch) {
            Some(st) => {
                proof {
                    lemma_frame_trans(pre, m, *parser);
                }
                return Some(Statement::Let(st));
            },
            None => {},
        }
        proof {
            lemma_frame_trans(pre, m, *parser);
        }
        let ghost m = *parser;
        match ReturnStatement::parse(parser, branch) {
            Some(st) => {
                proof {
                    lemma_frame_trans(pre, m, *parser);
                }
                return Some(Statement::Return(st));
            },
            None => {},
        }
        proof {
            lemma_frame_trans(pre, m, *parser);
        }
        let ghost m = *parser;
        match ExpressionStatement::parse(parser, branch) {
            Some(st) => {
                proof {
                    lemma_frame_trans(pre, m, *parser);
                }
                return Some(Statement::Expression(st));
            },
            None => {},
        }
        proof {
            lemma_frame_trans(pre, m, *parser);
        }
        let ghost m = *parser;
        match Block::parse(parser, branch) {
            Some(st) => {
                proof {
                    lemma_frame_trans(pre, m, *parser);
                }
                return Some(Statement::Block(st));
            },
            None => {},
        }
        proof {
            lemma_frame_trans(pre, m, *parser);
        }
        None
    }
}

impl Program {
    /// `Statement*`: statements are accumulated as long as one parses;
    /// the first failure ends the program, which always yields a tree.
    pub fn parse<'a>(parser: &mut Parser<'a>, branch: &mut Branch<ParserBranchData>) -> (r: Option<
        Program,
    >)
        requires
            old(parser).wf(),
            old(parser).data_inv(old(branch).data),
        ensures
            rule_frame(*old(parser), *final(parser)),
            final(parser).data_inv(final(branch).data),
            final(branch).data.token_pos >= old(branch).data.token_pos,
            r matches Some(node) && peg_program_stmts(
                final(parser).stream(),
                old(branch).data.token_pos as int,
            ) == (final(branch).data.token_pos as int, abs_stmts(node.statements, 0)),
            old(branch).data.token_pos == 0 ==> (r matches Some(node) && peg_program(
                final(parser).stream(),
            ) == (final(branch).data.token_pos as int, abs_program(node))),
        decreases old(parser).stream().len() - old(branch).data.token_pos, 5int,
    {
        let ghost pre = *parser;
        let ghost ts = parser.stream();
        let ghost p = branch.data.token_pos as int;
        let mut child = Branch::new(branch);
        let mut statements: Vec<Statement> = Vec::new();
        proof {
            lemma_frame_refl(pre);
            assert(abs_stmts(statements, 0) =~= Seq::<GStmt>::empty());
            assert(abs_stmts(statements, 0) + peg_program_stmts(ts, p).1 =~= peg_program_stmts(
                ts,
                p,
            ).1);
        }
        loop
            invariant
                parser.wf(),
                rule_frame(pre, *parser),
                ts == parser.stream(),
                parser.data_inv(child.data),
                pre == *old(parser),
                p <= child.data.token_pos <= ts.len(),
                peg_program_stmts(ts, p) == (
                    peg_program_stmts(ts, child.data.token_pos as int).0,
                    abs_stmts(statements, 0) + peg_program_stmts(
                        ts,
                        child.data.token_pos as int,
                    ).1,
                ),
            ensures
                parser.wf(),
                rule_frame(pre, *parser),
                ts == parser.stream(),
                parser.data_inv(child.data),
                p <= child.data.token_pos <= ts.len(),
                peg_program_stmts(ts, p) == (
                    child.data.token_pos as int,
                    abs_stmts(statements, 0),
                ),
            decreases ts.len() - child.data.token_pos,
        {
            let ghost pc = child.data.token_pos as int;
            let ghost m = *parser;
            match Statement::parse(parser, &mut child) {
                Some(st) => {
                    proof {
                        lemma_frame_trans(pre, m, *parser);
                        lemma_peg_bounds(ts, pc);
                    }
                    let ghost v0 = statements;
                    statements.push(st);
                    proof {
                        crate::ast::model::lemma_abs_stmts_push(v0, statements, st, 0);
                        let e = child.data.token_pos as int;
                        assert(peg_program_stmts(ts, pc) == (
                            peg_program_stmts(ts, e).0,
                            seq![abs_stmt(st)] + peg_program_stmts(ts, e).1,
                        ));
                        assert(abs_stmts(v0, 0) + (seq![abs_stmt(st)] + peg_program_stmts(
                            ts,
                            e,
                        ).1) =~= abs_stmts(statements, 0) + peg_program_stmts(ts, e).1);
                    }
                },
                None => {
                    proof {
                        lemma_frame_trans(pre, m, *parser);
                        assert(peg_program_stmts(ts, pc) == (pc, Seq::<GStmt>::empty()));
                        assert(abs_stmts(statements, 0) + Seq::<GStmt>::empty() =~= abs_stmts(
                            statements,
                            0,
                        ));
                    }
                    break ;
                },
            }
        }
        child.commit(branch);
        Some(Program::new(statements))
    }
}

impl<'a> Inspect<Parser<'a>> for Ident {
    fn inspect(root: &mut Parser<'a>, branch: &mut Branch<ParserBranchData>) -> (r: Option<
        Ident,
    >) {
        let r = Ident::parse(root, branch);
        proof {
            assert forall|d: ParserBranchData| old(root).data_inv(d) implies #[trigger] root
                .data_inv(d) by {}
        }
        r
    }
}

impl<'a> Inspect<Parser<'a>> for Int {
    fn inspect(root: &mut Parser<'a>, branch: &mut Branch<ParserBranchData>) -> (r: Option<
        Int,
    >) {
        let r = Int::parse(root, branch);
        proof {
            assert forall|d: ParserBranchData| old(root).data_inv(d) implies #[trigger] root
                .data_inv(d) by {}
        }
        r
    }
}

impl<'a> Inspect<Parser<'a>> for Bool {
    fn inspect(root: &mut Parser<'a>, branch: &mut Branch<ParserBranchData>) -> (r: Option<
        Bool,
    >) {
        let r = Bool::parse(root, branch);
        proof {
            assert forall|d: ParserBranchData| old(root).data_inv(d) implies #[trigger] root
                .data_inv(d) by {}
        }
        r
    }
}

impl<'a> Inspect<Parser<'a>> for StringLiteral {
    fn inspect(root: &mut Parser<'a>, branch: &mut Branch<ParserBranchData>) -> (r: Option<
        StringLiteral,
    >) {
        let r = StringLiteral::parse(root, branch);
        proof {
            assert forall|d: ParserBranchData| old(root).data_inv(d) implies #[trigger] root
                .data_inv(d) by {}
        }
        r
    }
}

impl<'a> Inspect<Parser<'a>> for Prefix {
    fn inspect(root: &mut Parser<'a>, branch: &mut Branch<ParserBranchData>) -> (r: Option<
        Prefix,
    >) {
        let r = Prefix::parse(root, branch);
        proof {
            assert forall|d: ParserBranchData| old(root).data_inv(d) implies #[trigger] root
                .data_inv(d) by {}
        }
        r
    }
}

impl<'a> Inspect<Parser<'a>> for If {
    fn inspect(root: &mut Parser<'a>, branch: &mut Branch<ParserBranchData>) -> (r: Option<
        If,
    >) {
        let r = If::parse(root, branch);
        proof {
            assert forall|d: ParserBranchData| old(root).data_inv(d) implies #[trigger] root
                .data_inv(d) by {}
        }
        r
    }
}

impl<'a> Inspect<Parser<'a>> for Expression {
    fn inspect(root: &mut Parser<'a>, branch: &mut Branch<ParserBranchData>) -> (r: Option<
        Expression,
    >) {
        let r = Expression::parse(root, branch);
        proof {
            assert forall|d: ParserBranchData| old(root).data_inv(d) implies #[trigger] root
                .data_inv(d) by {}
        }
        r
    }
}

impl<'a> Inspect<Parser<'a>> for LetStatement {
    fn inspect(root: &mut Parser<'a>, branch: &mut Branch<ParserBranchData>) -> (r: Option<
        LetStatement,
    >) {
        let r = LetStatement::parse(root, branch);
        proof {
            assert forall|d: ParserBranchData| old(root).data_inv(d) implies #[trigger] root
                .data_inv(d) by {}
        }
        r
    }
}

impl<'a> Inspect<Parser<'a>> for ReturnStatement {
    fn inspect(root: &mut Parser<'a>, branch: &mut Branch<ParserBranchData>) -> (r: Option<
        ReturnStatement,
    >) {
        let r = ReturnStatement::parse(root, branch);
        proof {
            assert forall|d: ParserBranchData| old(root).data_inv(d) implies #[trigger] root
                .data_inv(d) by {}
        }
        r
    }
}

impl<'a> Inspect<Parser<'a>> for ExpressionStatement {
    fn inspect(root: &mut Parser<'a>, branch: &mut Branch<ParserBranchData>) -> (r: Option<
        ExpressionStatement,
    >) {
        let r = ExpressionStatement::parse(root, branch);
        proof {
            assert forall|d: ParserBranchData| old(root).data_inv(d) implies #[trigger] root
                .data_inv(d) by {}
        }
        r
    }
}

impl<'a> Inspect<Parser<'a>> for Block {
    fn inspect(root: &mut Parser<'a>, branch: &mut Branch<ParserBranchData>) -> (r: Option<
        Block,
    >) {
        let r = Block::parse(root, branch);
        proof {
            assert forall|d: ParserBranchData| old(root).data_inv(d) implies #[trigger] root
                .data_inv(d) by {}
        }
        r
    }
}

impl<'a> Inspect<Parser<'a>> for Statement {
    fn inspect(root: &mut Parser<'a>, branch: &mut Branch<ParserBranchData>) -> (r: Option<
        Statement,
    >) {
        let r = Statement::parse(root, branch);
        proof {
            assert forall|d: ParserBranchData| old(root).data_inv(d) implies #[trigger] root
                .data_inv(d) by {}
        }
        r
    }
}

impl<'a> Inspect<Parser<'a>> for Program {
    fn inspect(root: &mut Parser<'a>, branch: &mut Branch<ParserBranchData>) -> (r: Option<
        Program,
    >) {
        let r = Program::parse(root, branch);
        proof {
            assert forall|d: ParserBranchData| old(root).data_inv(d) implies #[trigger] root
                .data_inv(d) by {}
        }
        r
    }
}

} // verus!
