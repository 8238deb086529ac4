//! Rendering nodes back to text: every node can be written out again
//! given the original source, in the canonical form of the language.
use vstd::prelude::*;

use crate::ast::expressions::{
    Bool, Call, Expression, Func, Ident, If, Infix, Int, Prefix, StringLiteral,
};
use crate::ast::statements::{Block, ExpressionStatement, LetStatement, Program, ReturnStatement,
    Statement};
use crate::token::Token;
use crate::utils::{byte_off, check_byte_len, char_len, utf8_len};
use vstd::string::StrSliceExecFns;
use vstd::string::StringExecFns;

verus! {

/// The characters of `s` whose byte offsets lie in `[a, b)`, scanning
/// from character index `i` on.
pub open spec fn byte_slice_from(s: Seq<char>, i: int, a: nat, b: nat) -> Seq<char>
    decreases s.len() - i when 0 <= i <= s.len()
{
    if i >= s.len() {
        seq![]
    } else {
        (if a <= byte_off(s, i) < b {
            seq![s[i]]
        } else {
            seq![]
        }) + byte_slice_from(s, i + 1, a, b)
    }
}

/// The text a token's byte span covers in a source.
pub open spec fn token_text(s: Seq<char>, t: Token) -> Seq<char> {
    byte_slice_from(s, 0, t.start as nat, t.end as nat)
}

/// A byte span that lies on character boundaries recovers exactly the
/// characters between those boundaries: slicing by the byte offsets of
/// character positions `i` and `j` yields `s[i..j]`.
pub proof fn lemma_byte_slice_aligned(s: Seq<char>, i: int, j: int)
    requires
        0 <= i <= j <= s.len(),
    ensures
        byte_slice_from(s, 0, byte_off(s, i), byte_off(s, j)) == s.subrange(i, j),
{
    lemma_byte_slice_aligned_from(s, i, j, 0);
    assert(byte_slice_from(s, 0, byte_off(s, i), byte_off(s, j)) =~= s.subrange(i, j));
}

proof fn lemma_byte_slice_aligned_from(s: Seq<char>, i: int, j: int, k: int)
    requires
        0 <= i <= j <= s.len(),
        0 <= k <= s.len(),
    ensures
        byte_slice_from(s, k, byte_off(s, i), byte_off(s, j)) == s.subrange(
            if i >= k {
                i
            } else {
                k
            },
            if j >= k {
                j
            } else {
                k
            },
        ),
    decreases s.len() - k,
{
    let a = byte_off(s, i);
    let b = byte_off(s, j);
    if k < s.len() {
        lemma_byte_slice_aligned_from(s, i, j, k + 1);
        crate::utils::lemma_byte_off_mono(s, if i <= k {
            i
        } else {
            k
        }, if i <= k {
            k
        } else {
            i
        });
        crate::utils::lemma_byte_off_mono(s, if j <= k {
            j
        } else {
            k
        }, if j <= k {
            k
        } else {
            j
        });
        assert((a <= byte_off(s, k) < b) == (i <= k < j));
        let lo = if i >= k {
            i
        } else {
            k
        };
        let hi = if j >= k {
            j
        } else {
            k
        };
        if i <= k < j {
            assert(byte_slice_from(s, k, a, b) =~= s.subrange(lo, hi));
        } else {
            assert(byte_slice_from(s, k, a, b) =~= s.subrange(lo, hi));
        }
    } else {
        assert(byte_slice_from(s, k, a, b) =~= s.subrange(if i >= k {
            i
        } else {
            k
        }, if j >= k {
            j
        } else {
            k
        }));
    }
}

impl Token {
    /// The literal text of this token's span in the source.
    pub fn literal(&self, source: &str) -> (r: String)
        ensures
            r@ == token_text(source@, *self),
    {
        let n = source.unicode_len();
        check_byte_len(source);
        let mut out = String::new();
        let mut i: usize = 0;
        let mut off: usize = 0;
        proof {
            assert(source@.take(0) =~= Seq::<char>::empty());
        }
        while i < n
            invariant
                0 <= i <= n,
                n == source@.len(),
                crate::utils::byte_len(source@) <= usize::MAX,
                off == byte_off(source@, i as int),
                out@ + byte_slice_from(source@, i as int, self.start as nat, self.end as nat)
                    == byte_slice_from(source@, 0, self.start as nat, self.end as nat),
            decreases n - i,
        {
            let c = source.get_char(i);
            proof {
                crate::utils::lemma_byte_off_step(source@, i as int);
                crate::utils::lemma_byte_off_le_total(source@, i + 1);
            }
            if self.start <= off && off < self.end {
                let piece = source.substring_char(i, i + 1);
                proof {
                    assert(piece@ =~= seq![source@[i as int]]);
                    assert((out@ + piece@) + byte_slice_from(
                        source@,
                        i + 1,
                        self.start as nat,
                        self.end as nat,
                    ) =~= out@ + byte_slice_from(
                        source@,
                        i as int,
                        self.start as nat,
                        self.end as nat,
                    ));
                }
                out.append(piece);
            } else {
                proof {
                    assert(out@ + byte_slice_from(
                        source@,
                        i + 1,
                        self.start as nat,
                        self.end as nat,
                    ) =~= out@ + byte_slice_from(
                        source@,
                        i as int,
                        self.start as nat,
                        self.end as nat,
                    ));
                }
            }
            off = off + char_len(c);
            i = i + 1;
        }
        proof {
            assert(out@ =~= out@ + byte_slice_from(
                source@,
                n as int,
                self.start as nat,
                self.end as nat,
            ));
        }
        out
    }
}

/// The decimal digit character for `d`.
pub open spec fn digit_char(d: u32) -> char
    recommends
        d < 10,
{
    ((0x30 + d as int) as char)
}

/// The decimal rendering of an integer, most significant digit first.
pub open spec fn dec_digits(v: u32) -> Seq<char>
    decreases v,
{
    if v < 10 {
        seq![digit_char(v)]
    } else {
        dec_digits(v / 10) + seq![digit_char(v % 10)]
    }
}

/// Appends the decimal rendering of `v`.
fn push_u32(out: &mut String, v: u32)
    ensures
        final(out)@ == old(out)@ + dec_digits(v),
    decreases v,
{
    if v >= 10 {
        push_u32(out, v / 10);
    }
    let d = v % 10;
    let piece = match d {
        0 => "0",
        1 => "1",
        2 => "2",
        3 => "3",
        4 => "4",
        5 => "5",
        6 => "6",
        7 => "7",
        8 => "8",
        _ => "9",
    };
    proof {
        reveal_strlit("0");
        reveal_strlit("1");
        reveal_strlit("2");
        reveal_strlit("3");
        reveal_strlit("4");
        reveal_strlit("5");
        reveal_strlit("6");
        reveal_strlit("7");
        reveal_strlit("8");
        reveal_strlit("9");
        assert(piece@ =~= seq![digit_char(d)]);
        if v >= 10 {
            assert((old(out)@ + dec_digits(v / 10)) + seq![digit_char(d)] =~= old(out)@ + (
            dec_digits(v / 10) + seq![digit_char(v % 10)]));
        } else {
            assert(old(out)@ + seq![digit_char(v)] =~= old(out)@ + dec_digits(v));
        }
    }
    out.append(piece);
}

/// The rendered form of an expression: identifiers and booleans as
/// their source literal, integers as their decimal value, strings as
/// their raw contents, prefix forms as operator then operand, infix
/// forms with single spaces, and `if` in the canonical braced form.
pub open spec fn render_expr(e: Expression, s: Seq<char>) -> Seq<char>
    decreases e, 1int, 0int,
{
    match e {
        Expression::Ident(n) => token_text(s, n.token),
        Expression::Int(n) => dec_digits(n.value),
        Expression::Prefix(n) => token_text(s, n.token) + render_expr(*n.rhs, s),
        Expression::Infix(n) => render_expr(*n.lhs, s) + seq![' '] + n.operator@ + seq![' ']
            + render_expr(*n.rhs, s),
        Expression::Bool(n) => token_text(s, n.token),
        Expression::If(n) => "if("@ + render_expr(*n.condition, s) + ") {"@ + render_block(
            *n.consequence,
            s,
        ) + "}"@ + (match n.alternative {
            Some(b) => " else {"@ + render_block(*b, s) + "}"@,
            None => Seq::<char>::empty(),
        }),
        Expression::Func(n) => token_text(s, n.token) + "("@ + render_idents(n.params, 0, s)
            + ") {"@ + (match n.body {
            Some(b) => render_block(b, s),
            None => Seq::<char>::empty(),
        }) + "}"@,
        Expression::Call(n) => render_expr(*n.func, s) + "("@ + (match n.args {
            Some(v) => render_exprs(v, 0, s),
            None => Seq::<char>::empty(),
        }) + ")"@,
        Expression::StringLiteral(n) => n.value@,
    }
}

/// The parameters of a function literal, joined with `", "`.
pub open spec fn render_idents(v: Vec<Ident>, i: int, s: Seq<char>) -> Seq<char>
    decreases v, 2int, v.len() - i,
{
    if i < 0 || i >= v.len() {
        seq![]
    } else if i + 1 == v.len() {
        token_text(s, v[i].token)
    } else {
        token_text(s, v[i].token) + ", "@ + render_idents(v, i + 1, s)
    }
}

/// The arguments of a call, joined with `", "`.
pub open spec fn render_exprs(v: Vec<Expression>, i: int, s: Seq<char>) -> Seq<char>
    decreases v, 2int, v.len() - i,
{
    if i < 0 || i >= v.len() {
        seq![]
    } else if i + 1 == v.len() {
        render_expr(v[i], s)
    } else {
        render_expr(v[i], s) + ", "@ + render_exprs(v, i + 1, s)
    }
}

/// The rendered form of a statement.
pub open spec fn render_stmt(st: Statement, s: Seq<char>) -> Seq<char>
    decreases st, 2int, 0int,
{
    match st {
        Statement::Let(n) => token_text(s, n.token) + " "@ + token_text(s, n.name.token) + " = "@
            + render_expr(n.value, s),
        Statement::Return(n) => token_text(s, n.token) + " "@ + render_expr(n.return_exp, s),
        Statement::Expression(n) => render_expr(*n.expression, s),
        Statement::Block(n) => render_block(n, s),
    }
}

/// The rendered form of a block: its statements, a `;` after each.
pub open spec fn render_block(b: Block, s: Seq<char>) -> Seq<char>
    decreases b, 3int, 0int,
{
    render_stmts(b.statements, 0, s)
}

/// Statements in order, a `;` after each, the last included.
pub open spec fn render_stmts(v: Vec<Statement>, i: int, s: Seq<char>) -> Seq<char>
    decreases v, 4int, v.len() - i,
{
    if i < 0 || i >= v.len() {
        seq![]
    } else {
        render_stmt(v[i], s) + ";"@ + render_stmts(v, i + 1, s)
    }
}

/// The rendered form of a program: its statements, a `;` after each.
pub open spec fn render_program(p: Program, s: Seq<char>) -> Seq<char> {
    render_stmts(p.statements, 0, s)
}

/// Appends the rendered form of an expression.
fn render_expr_into(e: &Expression, source: &str, out: &mut String)
    ensures
        final(out)@ == old(out)@ + render_expr(*e, source@),
    decreases *e, 1int, 0int,
{
    let ghost s = source@;
    let ghost base = out@;
    match e {
        Expression::Ident(n) => {
            let lit = n.token.literal(source);
            out.append(lit.as_str());
        },
        Expression::Int(n) => {
            push_u32(out, n.value);
        },
        Expression::Prefix(n) => {
            let lit = n.token.literal(source);
            out.append(lit.as_str());
            render_expr_into(&n.rhs, source, out);
            proof {
                assert(out@ =~= base + render_expr(*e, s));
            }
        },
        Expression::Infix(n) => {
            render_expr_into(&n.lhs, source, out);
            out.append(" ");
            out.append(n.operator.as_str());
            out.append(" ");
            render_expr_into(&n.rhs, source, out);
            proof {
                reveal_strlit(" ");
                assert(" "@ =~= seq![' ']);
                assert(out@ =~= base + render_expr(*e, s));
            }
        },
        Expression::Bool(n) => {
            let lit = n.token.literal(source);
            out.append(lit.as_str());
        },
        Expression::If(n) => {
            out.append("if(");
            render_expr_into(&n.condition, source, out);
            out.append(") {");
            render_block_into(&n.consequence, source, out);
            out.append("}");
            match &n.alternative {
                Some(alternative) => {
                    out.append(" else {");
                    render_block_into(alternative, source, out);
                    out.append("}");
                },
                None => {},
            }
            proof {
                assert(out@ =~= base + render_expr(*e, s));
            }
        },
        Expression::Func(n) => {
            let lit = n.token.literal(source);
            out.append(lit.as_str());
            out.append("(");
            render_idents_into(&n.params, source, out);
            out.append(") {");
            match &n.body {
                Some(body) => {
                    render_block_into(body, source, out);
                },
                None => {},
            }
            out.append("}");
            proof {
                assert(out@ =~= base + render_expr(*e, s));
            }
        },
        Expression::Call(n) => {
            render_expr_into(&n.func, source, out);
            out.append("(");
            match &n.args {
                Some(args) => {
                    render_exprs_into(args, source, out);
                },
                None => {},
            }
            out.append(")");
            proof {
                assert(out@ =~= base + render_expr(*e, s));
            }
        },
        Expression::StringLiteral(n) => {
            out.append(n.value.as_str());
        },
    }
}

/// Appends function parameters, joined with `", "`.
fn render_idents_into(v: &Vec<Ident>, source: &str, out: &mut String)
    ensures
        final(out)@ == old(out)@ + render_idents(*v, 0, source@),
    decreases *v, 2int, 0int,
{
    let n = v.len();
    let mut i: usize = 0;
    while i < n
        invariant
            0 <= i <= n,
            n == v.len(),
            out@ + render_idents(*v, i as int, source@) == old(out)@ + render_idents(
                *v,
                0,
                source@,
            ),
        decreases n - i,
    {
        let ghost mid = out@;
        let lit = v[i].token.literal(source);
        out.append(lit.as_str());
        if i + 1 < n {
            out.append(", ");
        }
        proof {
            assert(out@ + render_idents(*v, i + 1, source@) =~= mid + render_idents(
                *v,
                i as int,
                source@,
            ));
        }
        i = i + 1;
    }
    proof {
        assert(out@ =~= out@ + render_idents(*v, n as int, source@));
    }
}

/// Appends call arguments, joined with `", "`.
fn render_exprs_into(v: &Vec<Expression>, source: &str, out: &mut String)
    ensures
        final(out)@ == old(out)@ + render_exprs(*v, 0, source@),
    decreases *v, 2int, 0int,
{
    let n = v.len();
    let mut i: usize = 0;
    while i < n
        invariant
            0 <= i <= n,
            n == v.len(),
            out@ + render_exprs(*v, i as int, source@) == old(out)@ + render_exprs(
                *v,
                0,
                source@,
            ),
        decreases n - i,
    {
        let ghost mid = out@;
        render_expr_into(&v[i], source, out);
        if i + 1 < n {
            out.append(", ");
        }
        proof {
            assert(out@ + render_exprs(*v, i + 1, source@) =~= mid + render_exprs(
                *v,
                i as int,
                source@,
            ));
        }
        i = i + 1;
    }
    proof {
        assert(out@ =~= out@ + render_exprs(*v, n as int, source@));
    }
}

/// Appends the rendered form of a statement.
fn render_stmt_into(st: &Statement, source: &str, out: &mut String)
    ensures
        final(out)@ == old(out)@ + render_stmt(*st, source@),
    decreases *st, 2int, 0int,
{
    let ghost s = source@;
    let ghost base = out@;
    match st {
        Statement::Let(n) => {
            let lit = n.token.literal(source);
            out.append(lit.as_str());
            out.append(" ");
            let name = n.name.token.literal(source);
            out.append(name.as_str());
            out.append(" = ");
            render_expr_into(&n.value, source, out);
            proof {
                assert(out@ =~= base + render_stmt(*st, s));
            }
        },
        Statement::Return(n) => {
            let lit = n.token.literal(source);
            out.append(lit.as_str());
            out.append(" ");
            render_expr_into(&n.return_exp, source, out);
            proof {
                assert(out@ =~= base + render_stmt(*st, s));
            }
        },
        Statement::Expression(n) => {
            render_expr_into(&n.expression, source, out);
        },
        Statement::Block(n) => {
            render_block_into(n, source, out);
        },
    }
}

/// Appends the rendered form of a block.
fn render_block_into(b: &Block, source: &str, out: &mut String)
    ensures
        final(out)@ == old(out)@ + render_block(*b, source@),
    decreases *b, 3int, 0int,
{
    render_stmts_into(&b.statements, source, out);
}

/// Appends statements in order, a `;` after each.
fn render_stmts_into(v: &Vec<Statement>, source: &str, out: &mut String)
    ensures
        final(out)@ == old(out)@ + render_stmts(*v, 0, source@),
    decreases *v, 4int, 0int,
{
    let n = v.len();
    let mut i: usize = 0;
    while i < n
        invariant
            0 <= i <= n,
            n == v.len(),
            out@ + render_stmts(*v, i as int, source@) == old(out)@ + render_stmts(
                *v,
                0,
                source@,
            ),
        decreases n - i,
    {
        let ghost mid = out@;
        render_stmt_into(&v[i], source, out);
        out.append(";");
        proof {
            assert(out@ + render_stmts(*v, i + 1, source@) =~= mid + render_stmts(
                *v,
                i as int,
                source@,
            ));
        }
        i = i + 1;
    }
    proof {
        assert(out@ =~= out@ + render_stmts(*v, n as int, source@));
    }
}

/// A node that renders itself into a buffer, given the source its
/// tokens point into.
pub trait NodeDisplay: Sized {
    /// What the node renders to.
    spec fn render_spec(&self, s: Seq<char>) -> Seq<char>;

    /// Appends the node's rendered form to `out`.
    fn source_fmt(&self, source: &str, out: &mut String)
        ensures
            final(out)@ == old(out)@ + self.render_spec(source@),
    ;
}

/// A node that can name the literal text of its own token.
pub trait AstNode: NodeDisplay {
    /// The text of the node's own token.
    spec fn literal_spec(&self, s: Seq<char>) -> Seq<char>;

    /// The literal text of the node's own token in the source.
    fn token_literal(&self, source: &str) -> (r: String)
        ensures
            r@ == self.literal_spec(source@),
    ;
}

/// Renders a node against its source; what `Display` would be, as a
/// method returning the text.
pub struct NodeFormatter<'n, N> {
    pub source: &'n str,
    pub node: &'n N,
}

impl<'n, N> NodeFormatter<'n, N> {
    pub fn new(source: &'n str, node: &'n N) -> (r: NodeFormatter<'n, N>)
        ensures
            r.source@ == source@,
            r.node == node,
    {
        NodeFormatter { source, node }
    }
}

impl NodeDisplay for Ident {
    open spec fn render_spec(&self, s: Seq<char>) -> Seq<char> {
        token_text(s, self.token)
    }

    fn source_fmt(&self, source: &str, out: &mut String) {
        let lit = self.token.literal(source);
        out.append(lit.as_str());
    }
}

impl AstNode for Ident {
    open spec fn literal_spec(&self, s: Seq<char>) -> Seq<char> {
        token_text(s, self.token)
    }

    fn token_literal(&self, source: &str) -> (r: String) {
        self.token.literal(source)
    }
}

impl NodeDisplay for Int {
    open spec fn render_spec(&self, s: Seq<char>) -> Seq<char> {
        dec_digits(self.value)
    }

    fn source_fmt(&self, source: &str, out: &mut String) {
        push_u32(out, self.value);
    }
}

impl AstNode for Int {
    open spec fn literal_spec(&self, s: Seq<char>) -> Seq<char> {
        token_text(s, self.token)
    }

    fn token_literal(&self, source: &str) -> (r: String) {
        self.token.literal(source)
    }
}

impl NodeDisplay for Prefix {
    open spec fn render_spec(&self, s: Seq<char>) -> Seq<char> {
        token_text(s, self.token) + render_expr(*self.rhs, s)
    }

    fn source_fmt(&self, source: &str, out: &mut String) {
        let ghost base = out@;
        let lit = self.token.literal(source);
        out.append(lit.as_str());
        render_expr_into(&self.rhs, source, out);
        proof {
            assert(out@ =~= base + self.render_spec(source@));
        }
    }
}

impl AstNode for Prefix {
    open spec fn literal_spec(&self, s: Seq<char>) -> Seq<char> {
        token_text(s, self.token)
    }

    fn token_literal(&self, source: &str) -> (r: String) {
        self.token.literal(source)
    }
}

impl NodeDisplay for Infix {
    open spec fn render_spec(&self, s: Seq<char>) -> Seq<char> {
        render_expr(*self.lhs, s) + seq![' '] + self.operator@ + seq![' '] + render_expr(
            *self.rhs,
            s,
        )
    }

    fn source_fmt(&self, source: &str, out: &mut String) {
        let ghost base = out@;
        render_expr_into(&self.lhs, source, out);
        out.append(" ");
        out.append(self.operator.as_str());
        out.append(" ");
        render_expr_into(&self.rhs, source, out);
        proof {
            reveal_strlit(" ");
            assert(" "@ =~= seq![' ']);
            assert(out@ =~= base + self.render_spec(source@));
        }
    }
}

impl AstNode for Infix {
    open spec fn literal_spec(&self, s: Seq<char>) -> Seq<char> {
        token_text(s, self.token)
    }

    fn token_literal(&self, source: &str) -> (r: String) {
        self.token.literal(source)
    }
}

impl NodeDisplay for Bool {
    open spec fn render_spec(&self, s: Seq<char>) -> Seq<char> {
        token_text(s, self.token)
    }

    fn source_fmt(&self, source: &str, out: &mut String) {
        let lit = self.token.literal(source);
        out.append(lit.as_str());
    }
}

impl AstNode for Bool {
    open spec fn literal_spec(&self, s: Seq<char>) -> Seq<char> {
        token_text(s, self.token)
    }

    fn token_literal(&self, source: &str) -> (r: String) {
        self.token.literal(source)
    }
}

impl NodeDisplay for If {
    open spec fn render_spec(&self, s: Seq<char>) -> Seq<char> {
        render_expr(Expression::If(If { ..*self }), s)
    }

    fn source_fmt(&self, source: &str, out: &mut String) {
        let ghost base = out@;
        out.append("if(");
        render_expr_into(&self.condition, source, out);
        out.append(") {");
        render_block_into(&self.consequence, source, out);
        out.append("}");
        match &self.alternative {
            Some(alternative) => {
                out.append(" else {");
                render_block_into(alternative, source, out);
                out.append("}");
            },
            None => {},
        }
        proof {
            assert(out@ =~= base + self.render_spec(source@));
        }
    }
}

impl AstNode for If {
    open spec fn literal_spec(&self, s: Seq<char>) -> Seq<char> {
        token_text(s, self.token)
    }

    fn token_literal(&self, source: &str) -> (r: String) {
        self.token.literal(source)
    }
}

impl NodeDisplay for Func {
    open spec fn render_spec(&self, s: Seq<char>) -> Seq<char> {
        render_expr(Expression::Func(Func { ..*self }), s)
    }

    fn source_fmt(&self, source: &str, out: &mut String) {
        let ghost base = out@;
        let lit = self.token.literal(source);
        out.append(lit.as_str());
        out.append("(");
        render_idents_into(&self.params, source, out);
        out.append(") {");
        match &self.body {
            Some(body) => {
                render_block_into(body, source, out);
            },
            None => {},
        }
        out.append("}");
        proof {
            assert(out@ =~= base + self.render_spec(source@));
        }
    }
}

impl AstNode for Func {
    open spec fn literal_spec(&self, s: Seq<char>) -> Seq<char> {
        token_text(s, self.token)
    }

    fn token_literal(&self, source: &str) -> (r: String) {
        self.token.literal(source)
    }
}

impl NodeDisplay for Call {
    open spec fn render_spec(&self, s: Seq<char>) -> Seq<char> {
        render_expr(Expression::Call(Call { ..*self }), s)
    }

    fn source_fmt(&self, source: &str, out: &mut String) {
        let ghost base = out@;
        render_expr_into(&self.func, source, out);
        out.append("(");
        match &self.args {
            Some(args) => {
                render_exprs_into(args, source, out);
            },
            None => {},
        }
        out.append(")");
        proof {
            assert(out@ =~= base + self.render_spec(source@));
        }
    }
}

impl AstNode for Call {
    open spec fn literal_spec(&self, s: Seq<char>) -> Seq<char> {
        token_text(s, self.token)
    }

    fn token_literal(&self, source: &str) -> (r: String) {
        self.token.literal(source)
    }
}

impl NodeDisplay for StringLiteral {
    open spec fn render_spec(&self, s: Seq<char>) -> Seq<char> {
        self.value@
    }

    fn source_fmt(&self, source: &str, out: &mut String) {
        out.append(self.value.as_str());
    }
}

impl AstNode for StringLiteral {
    open spec fn literal_spec(&self, s: Seq<char>) -> Seq<char> {
        token_text(s, self.token)
    }

    fn token_literal(&self, source: &str) -> (r: String) {
        self.token.literal(source)
    }
}

impl NodeDisplay for Expression {
    open spec fn render_spec(&self, s: Seq<char>) -> Seq<char> {
        render_expr(*self, s)
    }

    fn source_fmt(&self, source: &str, out: &mut String) {
        render_expr_into(self, source, out);
    }
}

impl AstNode for Expression {
    open spec fn literal_spec(&self, s: Seq<char>) -> Seq<char> {
        match *self {
            Expression::Ident(n) => token_text(s, n.token),
            Expression::Int(n) => token_text(s, n.token),
            Expression::Prefix(n) => token_text(s, n.token),
            Expression::Infix(n) => token_text(s, n.token),
            Expression::Bool(n) => token_text(s, n.token),
            Expression::If(n) => token_text(s, n.token),
            Expression::Func(n) => token_text(s, n.token),
            Expression::Call(n) => token_text(s, n.token),
            Expression::StringLiteral(n) => token_text(s, n.token),
        }
    }

    fn token_literal(&self, source: &str) -> (r: String) {
        match self {
            Expression::Ident(n) => n.token.literal(source),
            Expression::Int(n) => n.token.literal(source),
            Expression::Prefix(n) => n.token.literal(source),
            Expression::Infix(n) => n.token.literal(source),
            Expression::Bool(n) => n.token.literal(source),
            Expression::If(n) => n.token.literal(source),
            Expression::Func(n) => n.token.literal(source),
            Expression::Call(n) => n.token.literal(source),
            Expression::StringLiteral(n) => n.token.literal(source),
        }
    }
}

impl NodeDisplay for LetStatement {
    open spec fn render_spec(&self, s: Seq<char>) -> Seq<char> {
        token_text(s, self.token) + " "@ + token_text(s, self.name.token) + " = "@ + render_expr(
            self.value,
            s,
        )
    }

    fn source_fmt(&self, source: &str, out: &mut String) {
        let ghost base = out@;
        let lit = self.token.literal(source);
        out.append(lit.as_str());
        out.append(" ");
        let name = self.name.token.literal(source);
        out.append(name.as_str());
        out.append(" = ");
        render_expr_into(&self.value, source, out);
        proof {
            assert(out@ =~= base + self.render_spec(source@));
        }
    }
}

impl AstNode for LetStatement {
    open spec fn literal_spec(&self, s: Seq<char>) -> Seq<char> {
        token_text(s, self.token)
    }

    fn token_literal(&self, source: &str) -> (r: String) {
        self.token.literal(source)
    }
}

impl NodeDisplay for ReturnStatement {
    open spec fn render_spec(&self, s: Seq<char>) -> Seq<char> {
        token_text(s, self.token) + " "@ + render_expr(self.return_exp, s)
    }

    fn source_fmt(&self, source: &str, out: &mut String) {
        let ghost base = out@;
        let lit = self.token.literal(source);
        out.append(lit.as_str());
        out.append(" ");
        render_expr_into(&self.return_exp, source, out);
        proof {
            assert(out@ =~= base + self.render_spec(source@));
        }
    }
}

impl AstNode for ReturnStatement {
    open spec fn literal_spec(&self, s: Seq<char>) -> Seq<char> {
        token_text(s, self.token)
    }

    fn token_literal(&self, source: &str) -> (r: String) {
        self.token.literal(source)
    }
}

impl NodeDisplay for ExpressionStatement {
    open spec fn render_spec(&self, s: Seq<char>) -> Seq<char> {
        render_expr(*self.expression, s)
    }

    fn source_fmt(&self, source: &str, out: &mut String) {
        render_expr_into(&self.expression, source, out);
    }
}

impl AstNode for ExpressionStatement {
    open spec fn literal_spec(&self, s: Seq<char>) -> Seq<char> {
        self.expression.literal_spec(s)
    }

    fn token_literal(&self, source: &str) -> (r: String) {
        self.expression.token_literal(source)
    }
}

impl NodeDisplay for Block {
    open spec fn render_spec(&self, s: Seq<char>) -> Seq<char> {
        render_block(*self, s)
    }

    fn source_fmt(&self, source: &str, out: &mut String) {
        render_block_into(self, source, out);
    }
}

impl AstNode for Block {
    open spec fn literal_spec(&self, s: Seq<char>) -> Seq<char> {
        token_text(s, self.token)
    }

    fn token_literal(&self, source: &str) -> (r: String) {
        self.token.literal(source)
    }
}

impl NodeDisplay for Statement {
    open spec fn render_spec(&self, s: Seq<char>) -> Seq<char> {
        render_stmt(*self, s)
    }

    fn source_fmt(&self, source: &str, out: &mut String) {
        render_stmt_into(self, source, out);
    }
}

impl AstNode for Statement {
    open spec fn literal_spec(&self, s: Seq<char>) -> Seq<char> {
        match *self {
            Statement::Let(n) => token_text(s, n.token),
            Statement::Return(n) => token_text(s, n.token),
            Statement::Expression(n) => n.literal_spec(s),
            Statement::Block(n) => token_text(s, n.token),
        }
    }

    fn token_literal(&self, source: &str) -> (r: String) {
        match self {
            Statement::Let(n) => n.token.literal(source),
            Statement::Return(n) => n.token.literal(source),
            Statement::Expression(n) => n.token_literal(source),
            Statement::Block(n) => n.token.literal(source),
        }
    }
}

impl NodeDisplay for Program {
    open spec fn render_spec(&self, s: Seq<char>) -> Seq<char> {
        render_program(*self, s)
    }

    fn source_fmt(&self, source: &str, out: &mut String) {
        render_stmts_into(&self.statements, source, out);
    }
}

impl AstNode for Program {
    open spec fn literal_spec(&self, s: Seq<char>) -> Seq<char> {
        if self.statements.len() == 0 {
            Seq::<char>::empty()
        } else {
            self.statements[0].literal_spec(s)
        }
    }

    fn token_literal(&self, source: &str) -> (r: String) {
        if self.statements.len() == 0 {
            String::new()
        } else {
            self.statements[0].token_literal(source)
        }
    }
}

impl<'n, N: NodeDisplay> NodeFormatter<'n, N> {
    /// The node's full rendered text.
    pub fn to_string(&self) -> (r: String)
        ensures
            r@ == self.node.render_spec(self.source@),
    {
        let mut out = String::new();
        self.node.source_fmt(self.source, &mut out);
        proof {
            assert(Seq::<char>::empty() + self.node.render_spec(self.source@)
                =~= self.node.render_spec(self.source@));
        }
        out
    }
}

} // verus!
