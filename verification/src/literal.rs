//! Identifier-shaped lexemes: a letter followed by letters and digits.
use vstd::prelude::*;

use crate::scan::ident_end;
use crate::utils::{byte_len, byte_off, char_len, is_digit, is_letter, lemma_byte_off_step};
use vstd::string::StrSliceExecFns;

verus! {

/// A borrowed identifier-shaped lexeme.
pub struct Literal<'s> {
    pub text: &'s str,
}

impl<'s> Literal<'s> {
    pub fn as_ref(&self) -> (r: &'s str)
        ensures
            r@ == self.text@,
    {
        self.text
    }

    /// The maximal identifier-shaped prefix of `text`: present exactly
    /// when the text starts with a letter, and extending over the
    /// following letters and digits.
    pub fn contained_at_start(text: &'s str) -> (r: Option<Literal<'s>>)
        ensures
            match r {
                Some(lit) => {
                    &&& text@.len() > 0
                    &&& is_letter(text@[0])
                    &&& lit.text@ == text@.take(ident_end(text@, 1))
                },
                None => text@.len() == 0 || !is_letter(text@[0]),
            },
    {
        let n = text.unicode_len();
        if n == 0 {
            return None;
        }
        let first = text.get_char(0);
        if !is_letter(first) {
            return None;
        }
        let mut i: usize = 1;
        loop
            invariant
                1 <= i <= n,
                n == text@.len(),
                ident_end(text@, 1) == ident_end(text@, i as int),
            ensures
                i == ident_end(text@, 1),
            decreases n - i,
        {
            if i >= n {
                break ;
            }
            let c = text.get_char(i);
            if !(is_letter(c) || is_digit(c)) {
                break ;
            }
            i = i + 1;
        }
        proof {
            assert(text@.take(i as int) == text@.subrange(0, i as int));
        }
        Some(Literal { text: text.substring_char(0, i) })
    }

    /// Byte length of the lexeme.
    pub fn byte_count(&self) -> (n: usize)
        ensures
            n == byte_len(self.text@),
    {
        let total = self.text.unicode_len();
        let mut i: usize = 0;
        let mut n: usize = 0;
        crate::utils::check_byte_len(self.text);
        while i < total
            invariant
                0 <= i <= total,
                total == self.text@.len(),
                n == byte_off(self.text@, i as int),
                byte_len(self.text@) <= usize::MAX,
            decreases total - i,
        {
            let c = self.text.get_char(i);
            proof {
                lemma_byte_off_step(self.text@, i as int);
                crate::utils::lemma_byte_off_le_total(self.text@, i + 1);
            }
            n = n + char_len(c);
            i = i + 1;
        }
        proof {
            assert(self.text@.take(total as int) =~= self.text@);
        }
        n
    }
}

} // verus!
