//! A pull-based tokenizer: one token per step, no internal
//! backtracking, with a terminal blocked state for malformed lexemes.
use vstd::prelude::*;

use crate::literal::Literal;
use crate::read_from::{ExtractStringError, ReadFrom};
use crate::scan::{
    lemma_digits_end_shift, lemma_ident_end_shift, lemma_quote_end_shift, lemma_scan_bounds,
    lemma_ws_end, scan, val_matches, ws_end, ScanStep,
};
use crate::source::Source;
use crate::token::{Token, TokenKind, TokenValue};
use crate::utils::{
    byte_len, byte_off, char_len, check_byte_len, is_whitespace, lemma_byte_len_concat,
    lemma_byte_off_ascii_run, lemma_byte_off_le_total, lemma_byte_off_mono, lemma_byte_off_shift,
    lemma_byte_off_step, utf8_len,
};
use vstd::string::StrSliceExecFns;

verus! {

/// The lexer: a cursor over a borrowed source text. `pos` is a byte
/// offset and `char_pos` the matching character offset; `stop` is set
/// once scanning has ended or blocked, and makes the lexer terminal.
pub struct Lexer<'a> {
    pub source: &'a str,
    pub char_len: usize,
    pub pos: usize,
    pub char_pos: usize,
    pub stop: Option<usize>,
}

/// The externally observable state of a lexer: still producing, ended
/// normally, or blocked at a byte offset by a malformed lexeme.
#[derive(Debug, PartialEq, Eq, Structural)]
pub enum LexerStatus {
    Open,
    Ended,
    ErrorAt(usize),
}

impl<'a> Lexer<'a> {
    /// The source text as characters.
    pub open spec fn chars(self) -> Seq<char> {
        self.source@
    }

    /// The cursor is inside the text, the byte and character offsets
    /// agree, and a set `stop` records either a normal end or a blocked
    /// scan.
    pub open spec fn wf(self) -> bool {
        &&& self.char_len == self.chars().len()
        &&& self.char_pos <= self.char_len
        &&& self.pos == byte_off(self.chars(), self.char_pos as int)
        &&& byte_len(self.chars()) <= usize::MAX
        &&& match self.stop {
            None => true,
            Some(b) => (self.char_pos == self.char_len && b == self.pos) || (scan(
                self.chars(),
                self.char_pos as int,
            ) is Blocked && b == byte_len(self.chars()) && self.pos < b),
        }
    }

    pub open spec fn status_spec(self) -> LexerStatus {
        match self.stop {
            Some(idx) => if self.pos == idx {
                LexerStatus::Ended
            } else {
                LexerStatus::ErrorAt(idx)
            },
            None => LexerStatus::Open,
        }
    }

    pub fn new<S: Source>(source: &'a S) -> (l: Lexer<'a>)
        ensures
            l.wf(),
            l.chars() == source@,
            l.char_pos == 0,
            l.pos == 0,
            l.stop is None,
    {
        let text = source.source();
        check_byte_len(text);
        let n = text.unicode_len();
        proof {
            assert(text@.take(0) =~= Seq::<char>::empty());
        }
        Lexer { source: text, char_len: n, pos: 0, char_pos: 0, stop: None }
    }

    pub fn status(&self) -> (st: LexerStatus)
        ensures
            st == self.status_spec(),
    {
        match self.stop {
            Some(idx) => {
                if self.pos == idx {
                    LexerStatus::Ended
                } else {
                    LexerStatus::ErrorAt(idx)
                }
            },
            None => LexerStatus::Open,
        }
    }

    /// The full source text.
    pub fn source(&self) -> (r: &'a str)
        ensures
            r@ == self.chars(),
    {
        self.source
    }

    /// Advances the cursor over `nchars` characters spanning `len`
    /// bytes and builds the token for the span.
    fn update_pos(&mut self, len: usize, nchars: usize, kind: TokenKind) -> (t: Token)
        requires
            old(self).wf(),
            old(self).stop is None,
            old(self).char_pos + nchars <= old(self).char_len,
            old(self).pos + len == byte_off(
                old(self).chars(),
                old(self).char_pos + nchars as int,
            ),
        ensures
            final(self).wf(),
            final(self).source == old(self).source,
            final(self).char_len == old(self).char_len,
            final(self).stop == old(self).stop,
            final(self).char_pos == old(self).char_pos + nchars,
            final(self).pos == old(self).pos + len,
            t == (Token { kind, start: old(self).pos, end: (old(self).pos + len) as usize }),
    {
        proof {
            lemma_byte_off_le_total(self.chars(), self.char_pos + nchars as int);
            lemma_byte_off_mono(self.chars(), self.char_pos as int, self.char_pos + nchars as int);
        }
        let start = self.pos;
        self.pos = self.pos + len;
        self.char_pos = self.char_pos + nchars;
        Token::new(kind, start, self.pos)
    }

    /// Marks the lexer blocked: scanning stops `stop_len` bytes ahead.
    fn mark_blocked(&mut self, stop_len: usize)
        requires
            old(self).pos + stop_len <= usize::MAX,
        ensures
            *final(self) == (Lexer { stop: Some((old(self).pos + stop_len) as usize), ..*old(self) }),
    {
        self.stop = Some(self.pos + stop_len);
    }

    /// The remaining text, from the cursor on.
    fn rem(&self) -> (r: &'a str)
        requires
            self.wf(),
        ensures
            r@ == self.chars().skip(self.char_pos as int),
    {
        self.source.substring_char(self.char_pos, self.char_len)
    }

    /// Reads one expected character at the cursor, returning its byte
    /// width.
    fn read_char(&self, target: char) -> (r: Option<usize>)
        requires
            self.wf(),
        ensures
            match r {
                Some(len) => self.char_pos < self.char_len && self.chars()[self.char_pos as int]
                    == target && len == utf8_len(target),
                None => self.char_pos == self.char_len || self.chars()[self.char_pos as int]
                    != target,
            },
    {
        if self.char_pos >= self.char_len {
            return None;
        }
        let c = self.source.get_char(self.char_pos);
        if c == target {
            Some(char_len(c))
        } else {
            None
        }
    }

    /// Reads one expected character `offset` characters past the
    /// cursor, returning its byte width.
    fn read_char_with_offset(&self, target: char, offset: usize) -> (r: Option<usize>)
        requires
            self.wf(),
            self.char_pos + offset <= usize::MAX,
        ensures
            match r {
                Some(len) => self.char_pos + offset < self.char_len && self.chars()[self.char_pos
                    + offset] == target && len == utf8_len(target),
                None => self.char_pos + offset >= self.char_len || self.chars()[self.char_pos
                    + offset] != target,
            },
    {
        if self.char_pos >= self.char_len || self.char_len - self.char_pos <= offset {
            return None;
        }
        let c = self.source.get_char(self.char_pos + offset);
        if c == target {
            Some(char_len(c))
        } else {
            None
        }
    }

    /// Skips the maximal run of whitespace at the cursor.
    fn skip_whitespaces(&mut self)
        requires
            old(self).wf(),
            old(self).stop is None,
        ensures
            final(self).wf(),
            final(self).source == old(self).source,
            final(self).char_len == old(self).char_len,
            final(self).stop == old(self).stop,
            final(self).char_pos == ws_end(old(self).chars(), old(self).char_pos as int),
            final(self).pos == byte_off(final(self).chars(), final(self).char_pos as int),
    {
        let ghost p0 = self.char_pos as int;
        let ghost s = self.chars();
        while self.char_pos < self.char_len && is_whitespace(
            self.source.get_char(self.char_pos),
        )
            invariant
                self.wf(),
                self.stop is None,
                self.source == old(self).source,
                self.char_len == old(self).char_len,
                self.stop == old(self).stop,
                s == self.chars(),
                p0 <= self.char_pos,
                ws_end(s, p0) == ws_end(s, self.char_pos as int),
            decreases self.char_len - self.char_pos,
        {
            let c = self.source.get_char(self.char_pos);
            proof {
                lemma_byte_off_step(s, self.char_pos as int);
                lemma_byte_off_le_total(s, self.char_pos + 1);
            }
            self.pos = self.pos + char_len(c);
            self.char_pos = self.char_pos + 1;
        }
    }

    /// Lexing is deterministic: the token stream is a function of the
    /// source text alone, with no hidden state, so re-lexing the same
    /// text from scratch yields the identical sequence. Each call of
    /// `next` is pinned to this stream by its contract.
    pub proof fn lemma_lexing_deterministic(self, other: Lexer)
        requires
            self.chars() == other.chars(),
        ensures
            crate::scan::spec_tokens(self.chars()) == crate::scan::spec_tokens(other.chars()),
    {
    }

    /// Yields the next token and its payload, if any. Matching is
    /// greedy and ordered: two-character operators before their
    /// one-character prefixes, then single-character operators and
    /// punctuation, identifiers and keywords, integer literals, string
    /// literals, and one code point of anything else as `Illegal`.
    /// Once the input is exhausted or scanning blocks on an
    /// unterminated string, the lexer is terminal and yields nothing.
    pub fn next(&mut self) -> (r: Option<(Token, Option<TokenValue>)>)
        requires
            old(self).wf(),
        ensures
            final(self).wf(),
            final(self).source == old(self).source,
            final(self).char_len == old(self).char_len,
            old(self).stop is Some ==> r is None && *final(self) == *old(self),
            old(self).stop is None ==> match scan(old(self).chars(), old(self).char_pos as int) {
                ScanStep::Ended => {
                    &&& r is None
                    &&& final(self).char_pos == old(self).chars().len()
                    &&& final(self).stop == Some(final(self).pos)
                },
                ScanStep::Blocked { lo } => {
                    &&& r is None
                    &&& final(self).char_pos == lo
                    &&& final(self).stop == Some((byte_len(old(self).chars()) as usize))
                },
                ScanStep::Tok { kind, lo, hi, value } => {
                    &&& final(self).stop is None
                    &&& final(self).char_pos == hi
                    &&& r matches Some(out) && out.0 == (Token {
                        kind,
                        start: byte_off(old(self).chars(), lo) as usize,
                        end: byte_off(old(self).chars(), hi) as usize,
                    }) && val_matches(out.1, value)
                },
            },
    {
        let ghost s = self.chars();
        let ghost p0 = self.char_pos as int;
        if self.stop.is_some() {
            return None;
        }
        self.skip_whitespaces();
        proof {
            lemma_ws_end(s, p0);
        }
        let ghost q = self.char_pos as int;
        if self.char_pos >= self.char_len {
            self.stop = Some(self.pos);
            return None;
        }
        let mut token_value: Option<TokenValue> = None;
        let token = if let Some(len) = self.read_char('=') {
            if let Some(len1) = self.read_char_with_offset('=', len) {
                proof {
                    lemma_byte_off_step(s, q);
                    lemma_byte_off_step(s, q + 1);
                }
                self.update_pos(len + len1, 2, TokenKind::Eq)
            } else {
                proof {
                    lemma_byte_off_step(s, q);
                }
                self.update_pos(len, 1, TokenKind::Assign)
            }
        } else if let Some(len) = self.read_char('+') {
            proof {
                lemma_byte_off_step(s, q);
            }
            self.update_pos(len, 1, TokenKind::Plus)
        } else if let Some(len) = self.read_char('\u{0}') {
            proof {
                lemma_byte_off_step(s, q);
            }
            self.update_pos(len, 1, TokenKind::EOF)
        } else if let Some(len) = self.read_char('(') {
            proof {
                lemma_byte_off_step(s, q);
            }
            self.update_pos(len, 1, TokenKind::LParen)
        } else if let Some(len) = self.read_char(')') {
            proof {
                lemma_byte_off_step(s, q);
            }
            self.update_pos(len, 1, TokenKind::RParen)
        } else if let Some(len) = self.read_char('{') {
            proof {
                lemma_byte_off_step(s, q);
            }
            self.update_pos(len, 1, TokenKind::LBrace)
        } else if let Some(len) = self.read_char('}') {
            proof {
                lemma_byte_off_step(s, q);
            }
            self.update_pos(len, 1, TokenKind::RBrace)
        } else if let Some(len) = self.read_char(',') {
            proof {
                lemma_byte_off_step(s, q);
            }
            self.update_pos(len, 1, TokenKind::Comma)
        } else if let Some(len) = self.read_char(';') {
            proof {
                lemma_byte_off_step(s, q);
            }
            self.update_pos(len, 1, TokenKind::Semicolon)
        } else if let Some(len) = self.read_char('-') {
            proof {
                lemma_byte_off_step(s, q);
            }
            self.update_pos(len, 1, TokenKind::Minus)
        } else if let Some(len) = self.read_char('/') {
            proof {
                lemma_byte_off_step(s, q);
            }
            self.update_pos(len, 1, TokenKind::Division)
        } else if let Some(len) = self.read_char('*') {
            proof {
                lemma_byte_off_step(s, q);
            }
            self.update_pos(len, 1, TokenKind::Mul)
        } else if let Some(len) = self.read_char('<') {
            proof {
                lemma_byte_off_step(s, q);
            }
            self.update_pos(len, 1, TokenKind::LT)
        } else if let Some(len) = self.read_char('>') {
            proof {
                lemma_byte_off_step(s, q);
            }
            self.update_pos(len, 1, TokenKind::GT)
        } else if let Some(len) = self.read_char('!') {
            if let Some(len1) = self.read_char_with_offset('=', len) {
                proof {
                    lemma_byte_off_step(s, q);
                    lemma_byte_off_step(s, q + 1);
                }
                self.update_pos(len + len1, 2, TokenKind::NotEq)
            } else {
                proof {
                    lemma_byte_off_step(s, q);
                }
                self.update_pos(len, 1, TokenKind::Neg)
            }
        } else if let Some((len, lit)) = Literal::read_from(self.rem()) {
            let ghost rem = s.skip(q);
            let ghost e_rel = crate::scan::ident_end(rem, 1);
            let ghost e = crate::scan::ident_end(s, q + 1);
            proof {
                assert(rem[0] == s[q]);
                lemma_ident_end_shift(s, q, 1);
                crate::scan::lemma_ident_end(s, q + 1);
                assert(lit.text@ =~= s.subrange(q, e));
                lemma_byte_off_shift(s, q, e_rel);
                assert(scan(s, p0) == (ScanStep::Tok {
                    kind: crate::token::keyword_kind(s.subrange(q, e)),
                    lo: q,
                    hi: e,
                    value: None,
                }));
            }
            let nchars = lit.as_ref().unicode_len();
            let kind = TokenKind::from_literal(lit);
            self.update_pos(len, nchars, kind)
        } else if let Some((len, value)) = u32::read_from(self.rem()) {
            let ghost rem = s.skip(q);
            let ghost e_rel = crate::scan::digits_end(rem, 0);
            let ghost e = crate::scan::digits_end(s, q);
            proof {
                assert(rem[0] == s[q]);
                lemma_digits_end_shift(s, q, 0);
                crate::scan::lemma_digits_end(s, q);
                crate::scan::lemma_digits_end(rem, 0);
                assert(rem.take(e_rel) =~= s.subrange(q, e));
                assert forall|j: int| 0 <= j < e_rel implies utf8_len(rem[j]) == 1 by {
                    assert(crate::utils::digit_spec(rem[j]));
                }
                lemma_byte_off_ascii_run(rem, e_rel);
                lemma_byte_off_shift(s, q, e_rel);
                assert(scan(s, p0) == (ScanStep::Tok {
                    kind: TokenKind::Int,
                    lo: q,
                    hi: e,
                    value: Some(crate::scan::SpecValue::VInt(crate::scan::digits_val(
                        s.subrange(q, e),
                    ))),
                }));
            }
            token_value = Some(TokenValue::Int(value));
            self.update_pos(len, len, TokenKind::Int)
        } else if let Some((len, value)) = String::read_from(self.rem()) {
            match value {
                Ok(value) => {
                    let ghost rem = s.skip(q);
                    let ghost e_rel = crate::scan::quote_end(rem, 1);
                    let ghost e = crate::scan::quote_end(s, q + 1);
                    proof {
                        assert(rem[0] == s[q]);
                        lemma_quote_end_shift(s, q, 1);
                        crate::scan::lemma_quote_end(s, q + 1);
                        assert(value@ =~= s.subrange(q + 1, e));
                        lemma_byte_off_shift(s, q, e_rel + 1);
                        assert(scan(s, p0) == (ScanStep::Tok {
                            kind: TokenKind::String,
                            lo: q,
                            hi: e + 1,
                            value: Some(crate::scan::SpecValue::VStr(s.subrange(q + 1, e))),
                        }));
                    }
                    let nchars = value.as_str().unicode_len() + 2;
                    token_value = Some(TokenValue::String(value));
                    self.update_pos(len, nchars, TokenKind::String)
                },
                Err(err) => match err {
                    ExtractStringError::Incomplete => {
                        let ghost rem = s.skip(q);
                        proof {
                            assert(rem[0] == s[q]);
                            lemma_quote_end_shift(s, q, 1);
                            crate::scan::lemma_quote_end(s, q + 1);
                            assert(s =~= s.take(q) + s.skip(q));
                            lemma_byte_len_concat(s.take(q), s.skip(q));
                            assert(byte_len(rem) >= utf8_len(rem[0]));
                            assert(scan(s, p0) == (ScanStep::Blocked { lo: q }));
                            assert(scan(s, q) == (ScanStep::Blocked { lo: q }));
                        }
                        self.mark_blocked(len);
                        return None;
                    },
                },
            }
        } else {
            let c = self.source.get_char(self.char_pos);
            proof {
                assert(s.skip(q)[0] == s[q]);
                lemma_byte_off_step(s, q);
                assert(scan(s, p0) == (ScanStep::Tok {
                    kind: TokenKind::Illegal,
                    lo: q,
                    hi: q + 1,
                    value: None,
                }));
            }
            let len = char_len(c);
            self.update_pos(len, 1, TokenKind::Illegal)
        };
        Some((token, token_value))
    }
}

} // verus!
