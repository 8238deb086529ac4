//! Character classes of the language and the byte widths of characters.
use vstd::prelude::*;

verus! {

/// Letters of the language: ASCII letters, `_`, and the accented Latin
/// vowels and enye in both cases.
pub open spec fn letter_spec(c: char) -> bool {
    let u = c as u32;
    ('a' as u32 <= u && u <= 'z' as u32) || ('A' as u32 <= u && u <= 'Z' as u32) || u == '_' as u32
        || u == '\u{e1}' as u32 || u == '\u{e9}' as u32 || u == '\u{ed}' as u32 || u
        == '\u{f3}' as u32 || u == '\u{fa}' as u32 || u == '\u{c1}' as u32 || u == '\u{c9}' as u32
        || u == '\u{cd}' as u32 || u == '\u{d3}' as u32 || u == '\u{da}' as u32 || u
        == '\u{f1}' as u32 || u == '\u{d1}' as u32
}

/// ASCII decimal digits.
pub open spec fn digit_spec(c: char) -> bool {
    '0' as u32 <= c as u32 && c as u32 <= '9' as u32
}

/// The whitespace the lexer skips: space, tab, newline, carriage return.
pub open spec fn ws_spec(c: char) -> bool {
    let u = c as u32;
    u == ' ' as u32 || u == '\t' as u32 || u == '\n' as u32 || u == '\r' as u32
}

#[verifier::when_used_as_spec(letter_spec)]
pub fn is_letter(c: char) -> (r: bool)
    ensures
        r == letter_spec(c),
{
    let u = c as u32;
    ('a' as u32 <= u && u <= 'z' as u32) || ('A' as u32 <= u && u <= 'Z' as u32) || u == '_' as u32
        || u == '\u{e1}' as u32 || u == '\u{e9}' as u32 || u == '\u{ed}' as u32 || u
        == '\u{f3}' as u32 || u == '\u{fa}' as u32 || u == '\u{c1}' as u32 || u == '\u{c9}' as u32
        || u == '\u{cd}' as u32 || u == '\u{d3}' as u32 || u == '\u{da}' as u32 || u
        == '\u{f1}' as u32 || u == '\u{d1}' as u32
}

#[verifier::when_used_as_spec(digit_spec)]
pub fn is_digit(c: char) -> (r: bool)
    ensures
        r == digit_spec(c),
{
    '0' as u32 <= c as u32 && c as u32 <= '9' as u32
}

#[verifier::when_used_as_spec(ws_spec)]
pub fn is_whitespace(c: char) -> (r: bool)
    ensures
        r == ws_spec(c),
{
    let u = c as u32;
    u == ' ' as u32 || u == '\t' as u32 || u == '\n' as u32 || u == '\r' as u32
}

/// Width in bytes of the UTF-8 encoding of a character.
pub open spec fn utf8_len(c: char) -> nat {
    let u = c as u32;
    if u < 0x80 {
        1
    } else if u < 0x800 {
        2
    } else if u < 0x10000 {
        3
    } else {
        4
    }
}

/// Byte length of the UTF-8 encoding of a character sequence.
pub open spec fn byte_len(s: Seq<char>) -> nat
    decreases s.len(),
{
    if s.len() == 0 {
        0
    } else {
        utf8_len(s[0]) + byte_len(s.drop_first())
    }
}

/// Byte offset of the character at index `k`: the byte length of the
/// text before it.
pub open spec fn byte_off(s: Seq<char>, k: int) -> nat {
    byte_len(s.take(k))
}

pub fn char_len(c: char) -> (n: usize)
    ensures
        n == utf8_len(c),
{
    let u = c as u32;
    if u < 0x80 {
        1
    } else if u < 0x800 {
        2
    } else if u < 0x10000 {
        3
    } else {
        4
    }
}

pub proof fn lemma_byte_len_concat(a: Seq<char>, b: Seq<char>)
    ensures
        byte_len(a + b) == byte_len(a) + byte_len(b),
    decreases a.len(),
{
    if a.len() == 0 {
        assert(a + b =~= b);
    } else {
        assert((a + b).drop_first() =~= a.drop_first() + b);
        lemma_byte_len_concat(a.drop_first(), b);
    }
}

pub proof fn lemma_byte_off_step(s: Seq<char>, k: int)
    requires
        0 <= k < s.len(),
    ensures
        byte_off(s, k + 1) == byte_off(s, k) + utf8_len(s[k]),
    decreases s.len(),
{
    assert(s.take(k + 1) =~= s.take(k) + seq![s[k]]);
    lemma_byte_len_concat(s.take(k), seq![s[k]]);
    assert(byte_len(seq![s[k]]) == utf8_len(s[k]) + byte_len(seq![s[k]].drop_first()));
    assert(seq![s[k]].drop_first() =~= Seq::<char>::empty());
}

pub proof fn lemma_byte_off_mono(s: Seq<char>, k1: int, k2: int)
    requires
        0 <= k1 <= k2 <= s.len(),
    ensures
        byte_off(s, k1) + (k2 - k1) <= byte_off(s, k2),
        byte_off(s, k2) <= byte_off(s, k1) + 4 * (k2 - k1),
    decreases k2 - k1,
{
    if k1 < k2 {
        lemma_byte_off_mono(s, k1, k2 - 1);
        lemma_byte_off_step(s, k2 - 1);
    }
}

pub proof fn lemma_byte_off_le_total(s: Seq<char>, k: int)
    requires
        0 <= k <= s.len(),
    ensures
        byte_off(s, k) <= byte_len(s),
{
    assert(s =~= s.take(k) + s.skip(k));
    lemma_byte_len_concat(s.take(k), s.skip(k));
}

/// Byte offsets add up over a split of the text.
pub proof fn lemma_byte_off_shift(s: Seq<char>, q: int, k: int)
    requires
        0 <= q,
        0 <= k,
        q + k <= s.len(),
    ensures
        byte_off(s, q + k) == byte_off(s, q) + byte_off(s.skip(q), k),
{
    assert(s.take(q + k) =~= s.take(q) + s.skip(q).take(k));
    lemma_byte_len_concat(s.take(q), s.skip(q).take(k));
}

/// Over a run of one-byte characters, byte offsets equal character
/// counts.
pub proof fn lemma_byte_off_ascii_run(s: Seq<char>, k: int)
    requires
        0 <= k <= s.len(),
        forall|j: int| 0 <= j < k ==> utf8_len(s[j]) == 1,
    ensures
        byte_off(s, k) == k,
    decreases k,
{
    if k > 0 {
        lemma_byte_off_ascii_run(s, k - 1);
        lemma_byte_off_step(s, k - 1);
    } else {
        assert(s.take(0) =~= Seq::<char>::empty());
    }
}

/// `byte_len` is bounded by the length of the UTF-8 encoding.
pub proof fn lemma_byte_len_le_encode(s: Seq<char>)
    ensures
        byte_len(s) <= vstd::utf8::encode_utf8(s).len(),
    decreases s.len(),
{
    if s.len() > 0 {
        lemma_byte_len_le_encode(s.drop_first());
        let u = s[0] as u32;
        if vstd::utf8::has_width_1_encoding(u) {
            assert(vstd::utf8::encode_scalar(u).len() == 1);
        } else if vstd::utf8::has_width_2_encoding(u) {
            assert(vstd::utf8::encode_scalar(u).len() == 2);
        } else if vstd::utf8::has_width_3_encoding(u) {
            assert(vstd::utf8::encode_scalar(u).len() == 3);
        } else {
            assert(vstd::utf8::encode_scalar(u).len() == 4);
        }
        assert(vstd::utf8::encode_scalar(u).len() >= utf8_len(s[0]));
    }
}

/// Learns, from the byte slice a real string hands out, that the text's
/// UTF-8 byte length fits in `usize`.
pub fn check_byte_len(s: &str)
    ensures
        byte_len(s@) <= usize::MAX,
{
    let bytes = s.as_bytes();
    let n = bytes.len();
    proof {
        lemma_byte_len_le_encode(s@);
    }
}

} // verus!
