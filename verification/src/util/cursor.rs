//! A cursor over text that is still to be read.

use crate::util::text::{char_is_whitespace, trim_end, trim_start};
use vstd::prelude::*;

verus! {

/// A window on borrowed text, held as its characters. Reading moves its front
/// edge forward; nothing moves it back, and the cursor never copies the text.
/// Text that is at hand as a `str` is decoded into characters once, by
/// `to_chars`, before a cursor is put in front of it.
pub struct Cursor<'a> {
    text: &'a [char],
    start: usize,
    end: usize,
}

impl<'a> Cursor<'a> {
    #[verifier::type_invariant]
    spec fn in_bounds(self) -> bool {
        self.start <= self.end <= self.text@.len()
    }

    /// The text that is still to be read.
    pub closed spec fn view(&self) -> Seq<char> {
        self.text@.subrange(self.start as int, self.end as int)
    }

    /// A cursor in front of the whole of `text`.
    pub fn new(text: &'a [char]) -> (cursor: Self)
        ensures
            cursor@ == text@,
    {
        let cursor = Cursor { text, start: 0, end: text.len() };
        assert(cursor@ =~= text@);
        cursor
    }

    /// The number of characters still to be read.
    pub fn len(&self) -> (n: usize)
        ensures
            n == self@.len(),
    {
        proof {
            use_type_invariant(self);
        }
        self.end - self.start
    }

    /// Whether nothing is left to read.
    pub fn is_empty(&self) -> (r: bool)
        ensures
            r == (self@.len() == 0),
    {
        proof {
            use_type_invariant(self);
        }
        self.start == self.end
    }

    /// The next character, which stays in place.
    pub fn peek(&self) -> (r: Option<char>)
        ensures
            r == (if self@.len() > 0 {
                Some(self@[0])
            } else {
                None
            }),
    {
        proof {
            use_type_invariant(self);
        }
        if self.start < self.end {
            Some(self.text[self.start])
        } else {
            None
        }
    }

    /// The character `offset` places ahead, which stays in place.
    pub fn get(&self, offset: usize) -> (r: Option<char>)
        ensures
            r == (if offset < self@.len() {
                Some(self@[offset as int])
            } else {
                None
            }),
    {
        proof {
            use_type_invariant(self);
        }
        if offset < self.end - self.start {
            Some(self.text[self.start + offset])
        } else {
            None
        }
    }

    /// Moves `count` characters ahead, or to the end where fewer are left.
    pub fn advance(&mut self, count: usize)
        ensures
            final(self)@ == (if count <= old(self)@.len() {
                old(self)@.skip(count as int)
            } else {
                Seq::<char>::empty()
            }),
    {
        proof {
            use_type_invariant(&*self);
        }
        if count <= self.end - self.start {
            self.start += count;
            assert(self@ =~= old(self)@.skip(count as int));
        } else {
            self.start = self.end;
            assert(self@ =~= Seq::<char>::empty());
        }
    }

    /// Takes the next character, if there is one.
    pub fn pop_char(&mut self) -> (r: Option<char>)
        ensures
            old(self)@.len() == 0 ==> r is None && final(self)@ == old(self)@,
            old(self)@.len() > 0 ==> r == Some(old(self)@[0]) && final(self)@ == old(self)@.skip(
                1,
            ),
    {
        proof {
            use_type_invariant(&*self);
        }
        if self.start < self.end {
            let c = self.text[self.start];
            self.start += 1;
            assert(self@ =~= old(self)@.skip(1));
            Some(c)
        } else {
            None
        }
    }

    /// Moves past leading whitespace.
    pub fn trim_start(&mut self)
        ensures
            final(self)@ == trim_start(old(self)@),
    {
        proof {
            use_type_invariant(&*self);
        }
        while self.start < self.end && char_is_whitespace(self.text[self.start])
            invariant
                self.start <= self.end <= self.text@.len(),
                trim_start(self@) == trim_start(old(self)@),
            decreases self.end - self.start,
        {
            let ghost before = self@;
            self.start += 1;
            assert(self@ =~= before.skip(1));
        }
    }

    /// Gives up trailing whitespace.
    pub fn trim_end(&mut self)
        ensures
            final(self)@ == trim_end(old(self)@),
    {
        proof {
            use_type_invariant(&*self);
        }
        while self.start < self.end && char_is_whitespace(self.text[self.end - 1])
            invariant
                self.start <= self.end <= self.text@.len(),
                trim_end(self@) == trim_end(old(self)@),
            decreases self.end - self.start,
        {
            let ghost before = self@;
            self.end -= 1;
            assert(self@ =~= before.drop_last());
        }
    }

    /// Moves to the end of the text, leaving nothing to read.
    pub fn skip_to_end(&mut self)
        ensures
            final(self)@ == Seq::<char>::empty(),
    {
        proof {
            use_type_invariant(&*self);
        }
        self.start = self.end;
        assert(self@ =~= Seq::<char>::empty());
    }
}

} // verus!
