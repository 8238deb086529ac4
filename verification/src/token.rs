//! Tokens of the language: kinds, spans and out-of-band payloads.
use vstd::prelude::*;

use crate::literal::Literal;
use vstd::string::StrSliceExecFns;

verus! {

/// A lexeme's span in the source buffer: `[start, end)` in bytes.
/// The token does not own its text; it is recovered from the source.
#[derive(Clone, Copy, Debug, PartialEq, Eq, Structural)]
pub struct Token {
    pub kind: TokenKind,
    pub start: usize,
    pub end: usize,
}

impl Token {
    pub fn new(kind: TokenKind, start: usize, end: usize) -> (t: Token)
        ensures
            t == (Token { kind, start, end }),
    {
        Token { kind, start, end }
    }

    pub fn range(&self) -> (r: core::ops::Range<usize>)
        ensures
            r.start == self.start,
            r.end == self.end,
    {
        self.start..self.end
    }

    pub fn kind(&self) -> (k: TokenKind)
        ensures
            k == self.kind,
    {
        self.kind
    }
}

/// The token kinds of the language.
#[derive(Clone, Copy, Debug, PartialEq, Eq, Structural)]
pub enum TokenKind {
    Assign,
    Comma,
    Division,
    Else,
    EOF,
    Eq,
    False,
    Func,
    GT,
    Ident,
    If,
    Illegal,
    Int,
    LBrace,
    Let,
    LParen,
    LT,
    Minus,
    Mul,
    Neg,
    NotEq,
    Plus,
    Return,
    RParen,
    RBrace,
    Semicolon,
    String,
    True,
}

pub open spec fn kw_else() -> Seq<char> {
    seq!['e', 'l', 's', 'e']
}

pub open spec fn kw_false() -> Seq<char> {
    seq!['f', 'a', 'l', 's', 'e']
}

pub open spec fn kw_fn() -> Seq<char> {
    seq!['f', 'n']
}

pub open spec fn kw_if() -> Seq<char> {
    seq!['i', 'f']
}

pub open spec fn kw_let() -> Seq<char> {
    seq!['l', 'e', 't']
}

pub open spec fn kw_return() -> Seq<char> {
    seq!['r', 'e', 't', 'u', 'r', 'n']
}

pub open spec fn kw_true() -> Seq<char> {
    seq!['t', 'r', 'u', 'e']
}

/// The kind an identifier-shaped lexeme resolves to: a keyword kind
/// where the text is one of the language's keywords, `Ident` otherwise.
pub open spec fn keyword_kind(w: Seq<char>) -> TokenKind {
    if w == kw_else() {
        TokenKind::Else
    } else if w == kw_false() {
        TokenKind::False
    } else if w == kw_fn() {
        TokenKind::Func
    } else if w == kw_if() {
        TokenKind::If
    } else if w == kw_let() {
        TokenKind::Let
    } else if w == kw_return() {
        TokenKind::Return
    } else if w == kw_true() {
        TokenKind::True
    } else {
        TokenKind::Ident
    }
}

/// Compares the characters of two string slices.
fn text_is(s: &str, kw: &str) -> (r: bool)
    ensures
        r == (s@ == kw@),
{
    let n = s.unicode_len();
    let m = kw.unicode_len();
    if n != m {
        proof {
            assert(s@ != kw@) by {
                if s@ == kw@ {
                    assert(s@.len() == kw@.len());
                }
            }
        }
        return false;
    }
    let mut i: usize = 0;
    while i < n
        invariant
            0 <= i <= n,
            n == s@.len(),
            n == kw@.len(),
            forall|j: int| 0 <= j < i ==> s@[j] == kw@[j],
        decreases n - i,
    {
        if s.get_char(i) != kw.get_char(i) {
            return false;
        }
        i = i + 1;
    }
    proof {
        assert(s@ =~= kw@);
    }
    true
}

impl TokenKind {
    /// Resolves an identifier-shaped lexeme to a keyword kind or `Ident`.
    pub fn from_literal<'s>(lit: Literal<'s>) -> (k: TokenKind)
        ensures
            k == keyword_kind(lit.text@),
    {
        proof {
            reveal_strlit("else");
            reveal_strlit("false");
            reveal_strlit("fn");
            reveal_strlit("if");
            reveal_strlit("let");
            reveal_strlit("return");
            reveal_strlit("true");
            assert("else"@ =~= kw_else());
            assert("false"@ =~= kw_false());
            assert("fn"@ =~= kw_fn());
            assert("if"@ =~= kw_if());
            assert("let"@ =~= kw_let());
            assert("return"@ =~= kw_return());
            assert("true"@ =~= kw_true());
        }
        let text = lit.as_ref();
        if text_is(text, "else") {
            TokenKind::Else
        } else if text_is(text, "false") {
            TokenKind::False
        } else if text_is(text, "fn") {
            TokenKind::Func
        } else if text_is(text, "if") {
            TokenKind::If
        } else if text_is(text, "let") {
            TokenKind::Let
        } else if text_is(text, "return") {
            TokenKind::Return
        } else if text_is(text, "true") {
            TokenKind::True
        } else {
            TokenKind::Ident
        }
    }
}

/// Out-of-band payload for token kinds whose value is not recovered
/// from the span alone: integer and string literals.
#[derive(Clone, Debug)]
pub enum TokenValue {
    Int(u32),
    String(String),
}

impl TokenValue {
    pub fn to_int(self) -> (r: Option<u32>)
        ensures
            match r {
                Some(v) => self == TokenValue::Int(v),
                None => !(self is Int),
            },
    {
        match self {
            TokenValue::Int(value) => Some(value),
            _ => None,
        }
    }

    pub fn to_string(self) -> (r: Option<String>)
        ensures
            match r {
                Some(v) => self == TokenValue::String(v),
                None => !(self is String),
            },
    {
        match self {
            TokenValue::String(value) => Some(value),
            _ => None,
        }
    }

    /// A clone whose contract says the copy equals the original.
    pub fn duplicate(&self) -> (r: TokenValue)
        ensures
            r == *self,
    {
        match self {
            TokenValue::Int(value) => TokenValue::Int(*value),
            TokenValue::String(value) => TokenValue::String(value.clone()),
        }
    }
}

} // verus!
