//! A place holding UTF-8 text that the lexer can read from.
use vstd::prelude::*;

use vstd::string::StrSliceExecFns;

verus! {

/// A holder of UTF-8 text: anything that hands out its full text as a
/// string slice. The text a `Source` hands out never changes, so byte
/// ranges into it stay valid for the source's lifetime.
pub trait Source: View<V = Seq<char>> {
    /// The full text.
    fn source<'s>(&'s self) -> (r: &'s str)
        ensures
            r@ == self@,
    ;

    /// The suffix of the text from character offset `idx` on.
    fn after<'s>(&'s self, idx: usize) -> (r: &'s str)
        requires
            idx <= self@.len(),
        ensures
            r@ == self@.skip(idx as int),
    ;
}

impl<'a> Source for &'a str {
    fn source<'s>(&'s self) -> (r: &'s str) {
        self
    }

    fn after<'s>(&'s self, idx: usize) -> (r: &'s str) {
        let r = self.substring_char(idx, self.unicode_len());
        proof {
            assert(r@ =~= self@.skip(idx as int));
        }
        r
    }
}

impl<'a> Source for &'a String {
    fn source<'s>(&'s self) -> (r: &'s str) {
        self.as_str()
    }

    fn after<'s>(&'s self, idx: usize) -> (r: &'s str) {
        let s = self.as_str();
        let r = s.substring_char(idx, s.unicode_len());
        proof {
            assert(r@ =~= self@.skip(idx as int));
        }
        r
    }
}

} // verus!
