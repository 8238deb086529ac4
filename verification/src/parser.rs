//! The parser's token cache: the lexer's output as a randomly
//! indexable, append-only array, shared by all branches.
use vstd::prelude::*;

use crate::branch::{Branch, BranchData, BranchRoot};
use crate::lexer::Lexer;
use crate::scan::{
    lemma_vals_of_take_step, scan, spec_tokens, spec_tokens_from, tok_matches, val_matches,
    vals_of, ScanStep, SpecToken,
};
use crate::token::{Token, TokenKind, TokenValue};

verus! {

/// Accumulated parse diagnostics: a free-text message, a malformed
/// literal value, or a demand for a token beyond the end of the input.
#[derive(Debug)]
pub enum ParseError {
    Msg(String),
    InvalidValueFormat(String),
    NoMoreTokens,
}

/// The cursor of one parser branch: how many cached tokens and how
/// many cached values this branch has consumed.
#[derive(Debug, Clone, Copy, PartialEq, Eq, Structural)]
pub struct ParserBranchData {
    pub token_pos: usize,
    pub value_idx: usize,
}

impl Default for ParserBranchData {
    fn default() -> (r: ParserBranchData)
        ensures
            r == (ParserBranchData { token_pos: 0, value_idx: 0 }),
    {
        ParserBranchData { token_pos: 0, value_idx: 0 }
    }
}

impl BranchData for ParserBranchData {
    fn child_data(&self) -> (r: ParserBranchData) {
        ParserBranchData { token_pos: self.token_pos, value_idx: self.value_idx }
    }

    fn update_from(&mut self, other: ParserBranchData) {
        self.token_pos = other.token_pos;
        self.value_idx = other.value_idx;
    }
}

/// The parser: a live lexer plus growable caches of the tokens and
/// values it has produced, and the accumulated diagnostics. The caches
/// are append-only, so branches can replay any input region without
/// re-lexing.
pub struct Parser<'a> {
    pub lexer: Lexer<'a>,
    pub tokens: Vec<Token>,
    pub values: Vec<TokenValue>,
    pub errors: Vec<ParseError>,
}

impl<'a> Parser<'a> {
    /// The source text.
    pub open spec fn src(self) -> Seq<char> {
        self.lexer.chars()
    }

    /// The token stream of the source, in the model.
    pub open spec fn stream(self) -> Seq<SpecToken> {
        spec_tokens(self.src())
    }

    /// The caches hold a prefix of the stream: every cached token and
    /// value agrees with the model, and the lexer stands exactly after
    /// the cached prefix.
    pub open spec fn wf(self) -> bool {
        &&& self.lexer.wf()
        &&& self.tokens@.len() <= self.stream().len()
        &&& forall|i: int|
            0 <= i < self.tokens@.len() ==> tok_matches(#[trigger] self.tokens@[i], self.stream()[i])
        &&& self.values@.len() == vals_of(self.stream().take(self.tokens@.len() as int)).len()
        &&& forall|j: int|
            0 <= j < self.values@.len() ==> val_matches(
                Some(#[trigger] self.values@[j]),
                Some(vals_of(self.stream().take(self.tokens@.len() as int))[j]),
            )
        &&& match self.lexer.stop {
            None => spec_tokens_from(self.src(), self.lexer.char_pos as int) == self.stream().skip(
                self.tokens@.len() as int,
            ),
            Some(_) => self.tokens@.len() == self.stream().len(),
        }
    }

    pub fn new(lexer: Lexer<'a>) -> (p: Parser<'a>)
        requires
            lexer.wf(),
            lexer.char_pos == 0,
            lexer.stop is None,
        ensures
            p.wf(),
            p.src() == lexer.chars(),
            p.tokens@ == Seq::<Token>::empty(),
            p.values@ == Seq::<TokenValue>::empty(),
            p.errors@ == Seq::<ParseError>::empty(),
    {
        let p = Parser { lexer, tokens: Vec::new(), values: Vec::new(), errors: Vec::new() };
        proof {
            assert(p.stream().take(0) =~= Seq::<SpecToken>::empty());
            assert(p.stream().skip(0) =~= p.stream());
        }
        p
    }

    /// Appends one diagnostic; parsing never stops on it.
    pub(crate) fn add_error(&mut self, error: ParseError)
        ensures
            *final(self) == (Parser { errors: final(self).errors, ..*old(self) }),
            final(self).errors@ == old(self).errors@.push(error),
    {
        self.errors.push(error);
    }

    /// The cached value at `index`, if the caches have reached it.
    pub fn value_at(&self, index: usize) -> (r: Option<TokenValue>)
        ensures
            match r {
                Some(v) => index < self.values@.len() && v == self.values@[index as int],
                None => index >= self.values@.len(),
            },
    {
        if index < self.values.len() {
            Some(self.values[index].duplicate())
        } else {
            None
        }
    }

    /// The token at absolute position `index`: cached tokens are
    /// returned at once, and the lexer is pulled, caching every token
    /// and value it yields, until the cache reaches `index`. When the
    /// stream ends first, a `NoMoreTokens` diagnostic is recorded.
    pub fn token_at(&mut self, index: usize) -> (r: Option<Token>)
        requires
            old(self).wf(),
        ensures
            final(self).wf(),
            final(self).src() == old(self).src(),
            final(self).tokens@.len() >= old(self).tokens@.len(),
            final(self).values@.len() >= old(self).values@.len(),
            old(self).tokens@ == final(self).tokens@.take(old(self).tokens@.len() as int),
            old(self).values@ == final(self).values@.take(old(self).values@.len() as int),
            match r {
                Some(t) => {
                    &&& (index as int) < final(self).stream().len()
                    &&& final(self).tokens@.len() > index as int
                    &&& tok_matches(t, final(self).stream()[index as int])
                    &&& final(self).errors@ == old(self).errors@
                },
                None => {
                    &&& index as int >= final(self).stream().len()
                    &&& final(self).tokens@.len() == final(self).stream().len()
                    &&& final(self).errors@ == old(self).errors@.push(ParseError::NoMoreTokens)
                },
            },
    {
        let ghost full = self.stream();
        while self.tokens.len() <= index
            invariant
                self.wf(),
                self.src() == old(self).src(),
                full == self.stream(),
                self.tokens@.len() >= old(self).tokens@.len(),
                self.values@.len() >= old(self).values@.len(),
                old(self).tokens@ == self.tokens@.take(old(self).tokens@.len() as int),
                old(self).values@ == self.values@.take(old(self).values@.len() as int),
                self.errors@ == old(self).errors@,
            decreases full.len() + 1 - self.tokens@.len(),
        {
            let ghost pre = *self;
            let ghost n = self.tokens@.len() as int;
            let ghost s = self.src();
            let ghost cp = self.lexer.char_pos as int;
            let step = self.lexer.next();
            let (token, value) = match step {
                Some(pair) => pair,
                None => {
                    proof {
                        if pre.lexer.stop is None {
                            // the scan at the cursor ended or blocked, so
                            // nothing follows the cached prefix
                            match scan(s, cp) {
                                ScanStep::Ended => {
                                    assert(spec_tokens_from(s, cp) == Seq::<SpecToken>::empty());
                                },
                                ScanStep::Blocked { .. } => {
                                    assert(spec_tokens_from(s, cp) == Seq::<SpecToken>::empty());
                                },
                                ScanStep::Tok { .. } => {
                                    assert(false);
                                },
                            }
                            assert(full.skip(n).len() == 0);
                        }
                        assert(full.len() == n);
                    }
                    self.add_error(ParseError::NoMoreTokens);
                    return None;
                },
            };
            proof {
                crate::scan::lemma_scan_bounds(s, cp);
                match scan(s, cp) {
                    ScanStep::Ended => {
                        assert(false);
                    },
                    ScanStep::Blocked { .. } => {
                        assert(false);
                    },
                    ScanStep::Tok { kind, lo, hi, value: sv } => {
                        let t0 = SpecToken {
                            kind,
                            start: crate::utils::byte_off(s, lo),
                            end: crate::utils::byte_off(s, hi),
                            value: sv,
                        };
                        assert(spec_tokens_from(s, cp) == seq![t0] + spec_tokens_from(s, hi));
                        assert(full.skip(n) == seq![t0] + spec_tokens_from(s, hi));
                        assert(full.skip(n)[0] == t0);
                        assert(full[n] == t0);
                        crate::utils::lemma_byte_off_le_total(s, lo);
                        crate::utils::lemma_byte_off_le_total(s, hi);
                        assert(tok_matches(token, t0));
                        assert(full.skip(n + 1) =~= spec_tokens_from(s, hi)) by {
                            assert((seq![t0] + spec_tokens_from(s, hi)).skip(1) =~= spec_tokens_from(
                                s,
                                hi,
                            ));
                            assert(full.skip(n + 1) =~= full.skip(n).skip(1));
                        }
                        assert(n + 1 <= full.len());
                        lemma_vals_of_take_step(full, n);
                    },
                }
            }
            let ghost mid_tokens = self.tokens@;
            self.tokens.push(token);
            proof {
                assert(self.tokens@ == mid_tokens.push(token));
                assert(old(self).tokens@ =~= self.tokens@.take(old(self).tokens@.len() as int));
                assert(full.take(n + 1) =~= full.take(n).push(full[n]));
            }
            if let Some(value) = value {
                let ghost mid_values = self.values@;
                self.values.push(value);
                proof {
                    assert(self.values@ == mid_values.push(value));
                    assert(old(self).values@ =~= self.values@.take(
                        old(self).values@.len() as int,
                    ));
                    assert forall|j: int| 0 <= j < self.values@.len() implies val_matches(
                        Some(self.values@[j]),
                        Some(vals_of(full.take(n + 1))[j]),
                    ) by {
                        if j < self.values@.len() - 1 {
                            assert(vals_of(full.take(n + 1))[j] == vals_of(full.take(n))[j]);
                            assert(self.values@[j] == mid_values[j]);
                        }
                    }
                }
            } else {
                proof {
                    assert(vals_of(full.take(n + 1)) =~= vals_of(full.take(n)));
                }
            }
        }
        let t = self.tokens[index];
        Some(t)
    }
}

impl<'a> BranchRoot for Parser<'a> {
    type BranchData = ParserBranchData;

    open spec fn inv(&self) -> bool {
        self.wf()
    }

    /// A cursor is valid when it points into the stream and its value
    /// index counts exactly the payloads of the tokens before it.
    open spec fn data_inv(&self, d: ParserBranchData) -> bool {
        &&& d.token_pos <= self.stream().len()
        &&& d.value_idx == vals_of(self.stream().take(d.token_pos as int)).len()
    }

    fn data(&self) -> (r: ParserBranchData) {
        proof {
            assert(self.stream().take(0) =~= Seq::<SpecToken>::empty());
        }
        ParserBranchData::default()
    }

    fn branch(&self) -> (b: Branch<ParserBranchData>) {
        Branch { data: self.data() }
    }
}

impl Branch<ParserBranchData> {
    /// Takes the token at the branch cursor, whatever its kind, and
    /// advances the cursor past it.
    pub(crate) fn take_next_token<'a>(&mut self, parser: &mut Parser<'a>) -> (r: Option<Token>)
        requires
            old(parser).wf(),
        ensures
            final(parser).wf(),
            final(parser).src() == old(parser).src(),
            final(parser).tokens@.len() >= old(parser).tokens@.len(),
            final(parser).values@.len() >= old(parser).values@.len(),
            old(parser).tokens@ == final(parser).tokens@.take(old(parser).tokens@.len() as int),
            old(parser).values@ == final(parser).values@.take(old(parser).values@.len() as int),
            final(self).data.value_idx == old(self).data.value_idx,
            match r {
                Some(t) => {
                    &&& old(self).data.token_pos < final(parser).stream().len()
                    &&& final(parser).tokens@.len() > old(self).data.token_pos
                    &&& tok_matches(t, final(parser).stream()[old(self).data.token_pos as int])
                    &&& final(self).data.token_pos == old(self).data.token_pos + 1
                    &&& final(parser).errors@ == old(parser).errors@
                },
                None => {
                    &&& final(self).data == old(self).data
                    &&& old(self).data.token_pos >= final(parser).stream().len()
                    &&& final(parser).errors@ == old(parser).errors@.push(ParseError::NoMoreTokens)
                },
            },
    {
        let token_pos = self.data.token_pos;
        let token = match parser.token_at(token_pos) {
            Some(t) => t,
            None => {
                return None;
            },
        };
        proof {
            vstd::std_specs::vec::axiom_spec_len(&parser.tokens);
        }
        self.data.token_pos = token_pos + 1;
        Some(token)
    }

    /// Takes the token at the branch cursor only when it has the asked
    /// kind; any other kind leaves the cursor untouched.
    pub(crate) fn take_next_token_by_kind<'a>(&mut self, parser: &mut Parser<'a>, kind: TokenKind)
        -> (r: Option<Token>)
        requires
            old(parser).wf(),
        ensures
            final(parser).wf(),
            final(parser).src() == old(parser).src(),
            final(parser).tokens@.len() >= old(parser).tokens@.len(),
            final(parser).values@.len() >= old(parser).values@.len(),
            old(parser).tokens@ == final(parser).tokens@.take(old(parser).tokens@.len() as int),
            old(parser).values@ == final(parser).values@.take(old(parser).values@.len() as int),
            final(self).data.value_idx == old(self).data.value_idx,
            match r {
                Some(t) => {
                    &&& old(self).data.token_pos < final(parser).stream().len()
                    &&& final(parser).tokens@.len() > old(self).data.token_pos
                    &&& final(parser).stream()[old(self).data.token_pos as int].kind == kind
                    &&& tok_matches(t, final(parser).stream()[old(self).data.token_pos as int])
                    &&& final(self).data.token_pos == old(self).data.token_pos + 1
                    &&& final(parser).errors@ == old(parser).errors@
                },
                None => {
                    &&& final(self).data == old(self).data
                    &&& (old(self).data.token_pos >= final(parser).stream().len()
                        || final(parser).stream()[old(self).data.token_pos as int].kind != kind)
                    &&& final(parser).errors@ == (if old(self).data.token_pos
                        >= final(parser).stream().len() {
                        old(parser).errors@.push(ParseError::NoMoreTokens)
                    } else {
                        old(parser).errors@
                    })
                },
            },
    {
        let token_pos = self.data.token_pos;
        let token = match parser.token_at(token_pos) {
            Some(t) => t,
            None => {
                return None;
            },
        };
        if token.kind() != kind {
            return None;
        }
        proof {
            vstd::std_specs::vec::axiom_spec_len(&parser.tokens);
        }
        self.data.token_pos = token_pos + 1;
        Some(token)
    }

    /// Takes the cached value at the branch's value index and advances
    /// the index past it.
    pub(crate) fn take_next_value<'a>(&mut self, parser: &Parser<'a>) -> (r: Option<TokenValue>)
        ensures
            final(self).data.token_pos == old(self).data.token_pos,
            match r {
                Some(v) => {
                    &&& old(self).data.value_idx < parser.values@.len()
                    &&& v == parser.values@[old(self).data.value_idx as int]
                    &&& final(self).data.value_idx == old(self).data.value_idx + 1
                },
                None => {
                    &&& final(self).data == old(self).data
                    &&& old(self).data.value_idx >= parser.values@.len()
                },
            },
    {
        let index = self.data.value_idx;
        let token_value = match parser.value_at(index) {
            Some(v) => v,
            None => {
                return None;
            },
        };
        proof {
            vstd::std_specs::vec::axiom_spec_len(&parser.values);
        }
        self.data.value_idx = index + 1;
        Some(token_value)
    }
}

} // verus!
