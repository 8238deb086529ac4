//! Reading one lexeme from the start of a text: identifier-shaped
//! lexemes, unsigned integer literals and double-quoted string
//! literals. Each reader returns the byte length it consumed.
use vstd::prelude::*;

use crate::literal::Literal;
use crate::scan::{digits_end, digits_val, ident_end, quote_end, wrap_step};
use crate::utils::{
    byte_len, byte_off, char_len, check_byte_len, digit_spec, is_digit, letter_spec,
    lemma_byte_off_le_total, lemma_byte_off_step,
};
use vstd::arithmetic::div_mod::lemma_add_mod_noop;
use vstd::string::StrSliceExecFns;

verus! {

/// How reading a string literal can fail: the closing quote is missing.
#[derive(Debug)]
pub enum ExtractStringError {
    Incomplete,
}

/// Reads a value of some shape from the start of a text, returning the
/// consumed byte length beside it.
pub trait ReadFrom<'a>: Sized {
    type Value;

    fn read_from(text: &'a str) -> Option<(usize, Self::Value)>;
}

impl<'s> ReadFrom<'s> for Literal<'s> {
    type Value = Literal<'s>;

    /// The maximal identifier-shaped prefix, when the text starts with
    /// a letter.
    fn read_from(text: &'s str) -> (r: Option<(usize, Literal<'s>)>)
        ensures
            match r {
                Some(p) => {
                    &&& text@.len() > 0
                    &&& letter_spec(text@[0])
                    &&& p.1.text@ == text@.take(ident_end(text@, 1))
                    &&& p.0 == byte_off(text@, ident_end(text@, 1))
                },
                None => text@.len() == 0 || !letter_spec(text@[0]),
            },
    {
        let lit = match Literal::contained_at_start(text) {
            Some(l) => l,
            None => {
                return None;
            },
        };
        let len = lit.byte_count();
        Some((len, lit))
    }
}

impl<'s> ReadFrom<'s> for u32 {
    type Value = u32;

    /// The maximal run of decimal digits, when the text starts with a
    /// digit, accumulated left to right with wrapping arithmetic.
    fn read_from(text: &'s str) -> (r: Option<(usize, u32)>)
        ensures
            match r {
                Some(p) => {
                    &&& text@.len() > 0
                    &&& digit_spec(text@[0])
                    &&& p.0 == digits_end(text@, 0)
                    &&& p.1 == digits_val(text@.take(digits_end(text@, 0)))
                },
                None => text@.len() == 0 || !digit_spec(text@[0]),
            },
    {
        let n = text.unicode_len();
        let mut value: u32 = 0;
        let mut len: usize = 0;
        loop
            invariant
                0 <= len <= n,
                n == text@.len(),
                digits_end(text@, 0) == digits_end(text@, len as int),
                forall|j: int| 0 <= j < len ==> digit_spec(text@[j]),
                value == digits_val(text@.take(len as int)),
            ensures
                len == digits_end(text@, 0),
                value == digits_val(text@.take(len as int)),
            decreases n - len,
        {
            if len >= n {
                break ;
            }
            let c = text.get_char(len);
            if !is_digit(c) {
                break ;
            }
            let d = (c as u32) - ('0' as u32);
            let ghost old_value = value;
            value = value.wrapping_mul(10).wrapping_add(d);
            proof {
                let m: int = 0x1_0000_0000;
                lemma_add_mod_noop(10 * (old_value as int), d as int, m);
                assert((d as int) % m == d as int);
                assert(value == wrap_step(old_value, c));
                assert(text@.take(len + 1).drop_last() =~= text@.take(len as int));
                assert(text@.take(len + 1).last() == text@[len as int]);
            }
            len = len + 1;
        }
        if len == 0 {
            proof {
                if text@.len() > 0 && digit_spec(text@[0]) {
                    crate::scan::lemma_digits_end(text@, 1);
                }
            }
            None
        } else {
            Some((len, value))
        }
    }
}

impl<'s> ReadFrom<'s> for String {
    type Value = Result<String, ExtractStringError>;

    /// A double-quoted string literal, when the text starts with a
    /// quote. Escape sequences are not supported. Without a closing
    /// quote the whole remaining text is consumed and `Incomplete` is
    /// returned.
    fn read_from(text: &'s str) -> (r: Option<(usize, Result<String, ExtractStringError>)>)
        ensures
            match r {
                Some(p) => {
                    &&& text@.len() > 0
                    &&& text@[0] == '"'
                    &&& {
                        let e = quote_end(text@, 1);
                        if e < text@.len() {
                            &&& p.1 matches Ok(v) && v@ == text@.subrange(1, e)
                            &&& p.0 == byte_off(text@, e + 1)
                        } else {
                            &&& p.1 matches Err(err) && err is Incomplete
                            &&& p.0 == byte_len(text@)
                        }
                    }
                },
                None => text@.len() == 0 || text@[0] != '"',
            },
    {
        let n = text.unicode_len();
        if n == 0 {
            return None;
        }
        if text.get_char(0) != '"' {
            return None;
        }
        check_byte_len(text);
        proof {
            assert(text@.take(0) =~= Seq::<char>::empty());
            lemma_byte_off_step(text@, 0);
        }
        let mut i: usize = 1;
        let mut blen: usize = 1;
        loop
            invariant
                1 <= i <= n,
                n == text@.len(),
                text@[0] == '"',
                byte_len(text@) <= usize::MAX,
                quote_end(text@, 1) == quote_end(text@, i as int),
                blen == byte_off(text@, i as int),
            ensures
                i == quote_end(text@, 1),
                blen == byte_off(text@, i as int),
            decreases n - i,
        {
            if i >= n {
                break ;
            }
            let c = text.get_char(i);
            if c == '"' {
                break ;
            }
            proof {
                lemma_byte_off_step(text@, i as int);
                lemma_byte_off_le_total(text@, i + 1);
            }
            blen = blen + char_len(c);
            i = i + 1;
        }
        if i >= n {
            proof {
                assert(text@.take(n as int) =~= text@);
            }
            return Some((blen, Err(ExtractStringError::Incomplete)));
        }
        proof {
            crate::scan::lemma_quote_end(text@, 1);
            lemma_byte_off_step(text@, i as int);
            lemma_byte_off_le_total(text@, i + 1);
        }
        let value = text.substring_char(1, i).to_owned();
        Some((blen + 1, Ok(value)))
    }
}

} // verus!
