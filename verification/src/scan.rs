//! The mathematical model of lexical scanning: what token starts at a
//! given character position of a source text, and the token stream that
//! follows from it.
use vstd::prelude::*;

use crate::token::{keyword_kind, Token, TokenKind, TokenValue};
use crate::utils::{byte_off, digit_spec, letter_spec, utf8_len, ws_spec};

verus! {

/// Payload of a token, in the model: an integer or the characters of a
/// string literal.
pub enum SpecValue {
    VInt(u32),
    VStr(Seq<char>),
}

/// A token of the model: kind, byte span, and payload if any.
pub struct SpecToken {
    pub kind: TokenKind,
    pub start: nat,
    pub end: nat,
    pub value: Option<SpecValue>,
}

/// An executable token carries the kind and span the model gives.
pub open spec fn tok_matches(t: Token, st: SpecToken) -> bool {
    &&& t.kind == st.kind
    &&& t.start == st.start
    &&& t.end == st.end
}

/// An executable payload carries the value the model gives.
pub open spec fn val_matches(v: Option<TokenValue>, sv: Option<SpecValue>) -> bool {
    match (v, sv) {
        (None, None) => true,
        (Some(TokenValue::Int(a)), Some(SpecValue::VInt(b))) => a == b,
        (Some(TokenValue::String(x)), Some(SpecValue::VStr(y))) => x@ == y,
        _ => false,
    }
}

/// What one scanning step yields at a position: the end of the input,
/// one token (with its character span `[lo, hi)`), or a blocked state
/// at the opening quote of an unterminated string.
pub enum ScanStep {
    Ended,
    Tok { kind: TokenKind, lo: int, hi: int, value: Option<SpecValue> },
    Blocked { lo: int },
}

/// First position at or after `p` holding a non-whitespace character.
pub open spec fn ws_end(s: Seq<char>, p: int) -> int
    decreases s.len() - p when 0 <= p <= s.len()
{
    if p >= s.len() {
        p
    } else if ws_spec(s[p]) {
        ws_end(s, p + 1)
    } else {
        p
    }
}

/// First position at or after `p` holding neither a letter nor a digit.
pub open spec fn ident_end(s: Seq<char>, p: int) -> int
    decreases s.len() - p when 0 <= p <= s.len()
{
    if p >= s.len() {
        p
    } else if letter_spec(s[p]) || digit_spec(s[p]) {
        ident_end(s, p + 1)
    } else {
        p
    }
}

/// First position at or after `p` holding a non-digit.
pub open spec fn digits_end(s: Seq<char>, p: int) -> int
    decreases s.len() - p when 0 <= p <= s.len()
{
    if p >= s.len() {
        p
    } else if digit_spec(s[p]) {
        digits_end(s, p + 1)
    } else {
        p
    }
}

/// First position at or after `p` holding a double quote.
pub open spec fn quote_end(s: Seq<char>, p: int) -> int
    decreases s.len() - p when 0 <= p <= s.len()
{
    if p >= s.len() {
        p
    } else if s[p] == '"' {
        p
    } else {
        quote_end(s, p + 1)
    }
}

/// One step of left-to-right decimal accumulation, wrapping as `u32`
/// arithmetic does.
pub open spec fn wrap_step(v: u32, c: char) -> u32 {
    (((10 * (v as int) + (c as int - '0' as int)) % 0x1_0000_0000) as u32)
}

/// The value of a run of decimal digits, accumulated left to right with
/// wrapping `u32` arithmetic.
pub open spec fn digits_val(ds: Seq<char>) -> u32
    decreases ds.len(),
{
    if ds.len() == 0 {
        0
    } else {
        wrap_step(digits_val(ds.drop_last()), ds.last())
    }
}

/// The kind of a one-character operator or punctuation token, when the
/// character is one.
pub open spec fn single_kind(c: char) -> Option<TokenKind> {
    if c == '+' {
        Some(TokenKind::Plus)
    } else if c == '\u{0}' {
        Some(TokenKind::EOF)
    } else if c == '(' {
        Some(TokenKind::LParen)
    } else if c == ')' {
        Some(TokenKind::RParen)
    } else if c == '{' {
        Some(TokenKind::LBrace)
    } else if c == '}' {
        Some(TokenKind::RBrace)
    } else if c == ',' {
        Some(TokenKind::Comma)
    } else if c == ';' {
        Some(TokenKind::Semicolon)
    } else if c == '-' {
        Some(TokenKind::Minus)
    } else if c == '/' {
        Some(TokenKind::Division)
    } else if c == '*' {
        Some(TokenKind::Mul)
    } else if c == '<' {
        Some(TokenKind::LT)
    } else if c == '>' {
        Some(TokenKind::GT)
    } else {
        None
    }
}

/// The scanning step at position `p`: whitespace is skipped, then the
/// rules are tried in the lexer's fixed priority order, two-character
/// operators before their one-character prefixes, then identifiers and
/// keywords, integer literals, string literals, and one code point of
/// anything else as `Illegal`.
pub open spec fn scan(s: Seq<char>, p: int) -> ScanStep
    recommends
        0 <= p <= s.len(),
{
    let q = ws_end(s, p);
    if q >= s.len() {
        ScanStep::Ended
    } else {
        let c = s[q];
        if c == '=' {
            if q + 1 < s.len() && s[q + 1] == '=' {
                ScanStep::Tok { kind: TokenKind::Eq, lo: q, hi: q + 2, value: None }
            } else {
                ScanStep::Tok { kind: TokenKind::Assign, lo: q, hi: q + 1, value: None }
            }
        } else if c == '!' {
            if q + 1 < s.len() && s[q + 1] == '=' {
                ScanStep::Tok { kind: TokenKind::NotEq, lo: q, hi: q + 2, value: None }
            } else {
                ScanStep::Tok { kind: TokenKind::Neg, lo: q, hi: q + 1, value: None }
            }
        } else if single_kind(c) is Some {
            ScanStep::Tok { kind: single_kind(c)->Some_0, lo: q, hi: q + 1, value: None }
        } else if letter_spec(c) {
            let e = ident_end(s, q + 1);
            ScanStep::Tok { kind: keyword_kind(s.subrange(q, e)), lo: q, hi: e, value: None }
        } else if digit_spec(c) {
            let e = digits_end(s, q);
            ScanStep::Tok {
                kind: TokenKind::Int,
                lo: q,
                hi: e,
                value: Some(SpecValue::VInt(digits_val(s.subrange(q, e)))),
            }
        } else if c == '"' {
            let e = quote_end(s, q + 1);
            if e < s.len() {
                ScanStep::Tok {
                    kind: TokenKind::String,
                    lo: q,
                    hi: e + 1,
                    value: Some(SpecValue::VStr(s.subrange(q + 1, e))),
                }
            } else {
                ScanStep::Blocked { lo: q }
            }
        } else {
            ScanStep::Tok { kind: TokenKind::Illegal, lo: q, hi: q + 1, value: None }
        }
    }
}

pub proof fn lemma_ws_end(s: Seq<char>, p: int)
    requires
        0 <= p <= s.len(),
    ensures
        p <= ws_end(s, p) <= s.len(),
        ws_end(s, p) < s.len() ==> !ws_spec(s[ws_end(s, p)]),
        forall|j: int| p <= j < ws_end(s, p) ==> ws_spec(s[j]),
    decreases s.len() - p,
{
    if p < s.len() && ws_spec(s[p]) {
        lemma_ws_end(s, p + 1);
    }
}

pub proof fn lemma_ident_end(s: Seq<char>, p: int)
    requires
        0 <= p <= s.len(),
    ensures
        p <= ident_end(s, p) <= s.len(),
        ident_end(s, p) < s.len() ==> !(letter_spec(s[ident_end(s, p)]) || digit_spec(
            s[ident_end(s, p)],
        )),
        forall|j: int|
            p <= j < ident_end(s, p) ==> (letter_spec(s[j]) || digit_spec(s[j])),
    decreases s.len() - p,
{
    if p < s.len() && (letter_spec(s[p]) || digit_spec(s[p])) {
        lemma_ident_end(s, p + 1);
    }
}

pub proof fn lemma_digits_end(s: Seq<char>, p: int)
    requires
        0 <= p <= s.len(),
    ensures
        p <= digits_end(s, p) <= s.len(),
        digits_end(s, p) < s.len() ==> !digit_spec(s[digits_end(s, p)]),
        forall|j: int| p <= j < digits_end(s, p) ==> digit_spec(s[j]),
    decreases s.len() - p,
{
    if p < s.len() && digit_spec(s[p]) {
        lemma_digits_end(s, p + 1);
    }
}

pub proof fn lemma_quote_end(s: Seq<char>, p: int)
    requires
        0 <= p <= s.len(),
    ensures
        p <= quote_end(s, p) <= s.len(),
        quote_end(s, p) < s.len() ==> s[quote_end(s, p)] == '"',
        forall|j: int| p <= j < quote_end(s, p) ==> s[j] != '"',
    decreases s.len() - p,
{
    if p < s.len() && s[p] != '"' {
        lemma_quote_end(s, p + 1);
    }
}

pub proof fn lemma_ident_end_shift(s: Seq<char>, q: int, j: int)
    requires
        0 <= q,
        0 <= j,
        q + j <= s.len(),
    ensures
        ident_end(s.skip(q), j) == ident_end(s, q + j) - q,
    decreases s.len() - (q + j),
{
    if q + j < s.len() && (letter_spec(s[q + j]) || digit_spec(s[q + j])) {
        lemma_ident_end_shift(s, q, j + 1);
    }
}

pub proof fn lemma_digits_end_shift(s: Seq<char>, q: int, j: int)
    requires
        0 <= q,
        0 <= j,
        q + j <= s.len(),
    ensures
        digits_end(s.skip(q), j) == digits_end(s, q + j) - q,
    decreases s.len() - (q + j),
{
    if q + j < s.len() && digit_spec(s[q + j]) {
        lemma_digits_end_shift(s, q, j + 1);
    }
}

pub proof fn lemma_quote_end_shift(s: Seq<char>, q: int, j: int)
    requires
        0 <= q,
        0 <= j,
        q + j <= s.len(),
    ensures
        quote_end(s.skip(q), j) == quote_end(s, q + j) - q,
    decreases s.len() - (q + j),
{
    if q + j < s.len() && s[q + j] != '"' {
        lemma_quote_end_shift(s, q, j + 1);
    }
}

/// A scanned token lies after its position and strictly advances it.
pub proof fn lemma_scan_bounds(s: Seq<char>, p: int)
    requires
        0 <= p <= s.len(),
    ensures
        scan(s, p) matches ScanStep::Tok { lo, hi, .. } ==> p <= lo < hi <= s.len(),
        scan(s, p) matches ScanStep::Blocked { lo } ==> p <= lo < s.len() && s[lo] == '"',
        scan(s, p) is Ended ==> ws_end(s, p) == s.len(),
{
    lemma_ws_end(s, p);
    let q = ws_end(s, p);
    if q < s.len() {
        lemma_ident_end(s, q + 1);
        lemma_digits_end(s, q);
        lemma_quote_end(s, q + 1);
        if digit_spec(s[q]) {
            assert(digits_end(s, q) == digits_end(s, q + 1));
            lemma_digits_end(s, q + 1);
        }
    }
}

/// The token stream of a source text, from character position `p` on.
pub open spec fn spec_tokens_from(s: Seq<char>, p: int) -> Seq<SpecToken>
    decreases s.len() - p when 0 <= p <= s.len() via spec_tokens_from_dec
{
    match scan(s, p) {
        ScanStep::Ended => seq![],
        ScanStep::Blocked { .. } => seq![],
        ScanStep::Tok { kind, lo, hi, value } => {
            let t = SpecToken { kind, start: byte_off(s, lo), end: byte_off(s, hi), value };
            seq![t] + spec_tokens_from(s, hi)
        },
    }
}

#[via_fn]
proof fn spec_tokens_from_dec(s: Seq<char>, p: int) {
    lemma_scan_bounds(s, p);
}

/// The whole token stream of a source text.
pub open spec fn spec_tokens(s: Seq<char>) -> Seq<SpecToken> {
    spec_tokens_from(s, 0)
}

/// Which token kinds carry payloads: exactly `Int` and `String`, each
/// with the payload of its own shape.
pub open spec fn value_kind_ok(t: SpecToken) -> bool {
    match t.kind {
        TokenKind::Int => t.value matches Some(SpecValue::VInt(_)),
        TokenKind::String => t.value matches Some(SpecValue::VStr(_)),
        _ => t.value is None,
    }
}

/// Every token of the stream carries the payload its kind calls for.
pub proof fn lemma_stream_value_kinds(s: Seq<char>, p: int)
    requires
        0 <= p <= s.len(),
    ensures
        forall|i: int|
            0 <= i < spec_tokens_from(s, p).len() ==> #[trigger] value_kind_ok(
                spec_tokens_from(s, p)[i],
            ),
    decreases s.len() - p,
{
    lemma_scan_bounds(s, p);
    match scan(s, p) {
        ScanStep::Ended => {},
        ScanStep::Blocked { .. } => {},
        ScanStep::Tok { kind, lo, hi, value } => {
            lemma_stream_value_kinds(s, hi);
            let t = SpecToken { kind, start: byte_off(s, lo), end: byte_off(s, hi), value };
            let ts = spec_tokens_from(s, p);
            let rest = spec_tokens_from(s, hi);
            assert(ts == seq![t] + rest);
            assert(value_kind_ok(t));
            assert forall|i: int| 0 <= i < ts.len() implies #[trigger] value_kind_ok(ts[i]) by {
                if i == 0 {
                    assert(ts[0] == t);
                } else {
                    assert(ts[i] == rest[i - 1]);
                }
            }
        },
    }
}

/// The payloads of a token sequence, in token order.
pub open spec fn vals_of(ts: Seq<SpecToken>) -> Seq<SpecValue>
    decreases ts.len(),
{
    if ts.len() == 0 {
        seq![]
    } else {
        (match ts[0].value {
            Some(v) => seq![v],
            None => seq![],
        }) + vals_of(ts.drop_first())
    }
}

pub proof fn lemma_vals_of_concat(a: Seq<SpecToken>, b: Seq<SpecToken>)
    ensures
        vals_of(a + b) == vals_of(a) + vals_of(b),
    decreases a.len(),
{
    if a.len() == 0 {
        assert(a + b =~= b);
        assert(vals_of(a) + vals_of(b) =~= vals_of(b));
    } else {
        assert((a + b).drop_first() =~= a.drop_first() + b);
        lemma_vals_of_concat(a.drop_first(), b);
        assert(vals_of(a + b) =~= vals_of(a) + vals_of(b));
    }
}

/// Each token adds its payload, if any, at the end of the payloads of
/// the tokens before it.
pub proof fn lemma_vals_of_take_step(ts: Seq<SpecToken>, n: int)
    requires
        0 <= n < ts.len(),
    ensures
        vals_of(ts.take(n + 1)) == vals_of(ts.take(n)) + (match ts[n].value {
            Some(v) => seq![v],
            None => Seq::<SpecValue>::empty(),
        }),
{
    assert(ts.take(n + 1) =~= ts.take(n) + ts.subrange(n, n + 1));
    lemma_vals_of_concat(ts.take(n), ts.subrange(n, n + 1));
    let one = ts.subrange(n, n + 1);
    assert(one.len() == 1);
    assert(one[0] == ts[n]);
    assert(one.drop_first() =~= Seq::<SpecToken>::empty());
    assert(vals_of(one.drop_first()) =~= Seq::<SpecValue>::empty());
    assert(vals_of(one) == (match one[0].value {
        Some(v) => seq![v],
        None => Seq::<SpecValue>::empty(),
    }) + vals_of(one.drop_first()));
    assert(vals_of(one) =~= (match ts[n].value {
        Some(v) => seq![v],
        None => Seq::<SpecValue>::empty(),
    }));
}

/// Payloads of a longer token prefix extend those of a shorter one.
pub proof fn lemma_vals_of_take_mono(ts: Seq<SpecToken>, n1: int, n2: int)
    requires
        0 <= n1 <= n2 <= ts.len(),
    ensures
        vals_of(ts.take(n2)).len() >= vals_of(ts.take(n1)).len(),
        vals_of(ts.take(n1)) == vals_of(ts.take(n2)).take(vals_of(ts.take(n1)).len() as int),
    decreases n2 - n1,
{
    if n1 < n2 {
        lemma_vals_of_take_mono(ts, n1, n2 - 1);
        lemma_vals_of_take_step(ts, n2 - 1);
        assert(vals_of(ts.take(n1)) =~= vals_of(ts.take(n2)).take(
            vals_of(ts.take(n1)).len() as int,
        ));
    } else {
        assert(vals_of(ts.take(n1)) =~= vals_of(ts.take(n2)).take(
            vals_of(ts.take(n1)).len() as int,
        ));
    }
}

} // verus!
