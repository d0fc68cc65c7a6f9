//! A character cursor shared by the line-notation parser and the pattern
//! compiler. It carries no grammar state of its own.

use vstd::prelude::*;
use crate::error::Error;
use crate::text::field_char;

verus! {

/// A cursor over a fixed sequence of characters.
#[derive(Debug)]
pub struct Scanner {
    cursor: usize,
    characters: Vec<char>,
}

impl Scanner {
    /// The characters being scanned.
    pub closed spec fn text(&self) -> Seq<char> {
        self.characters@
    }

    /// The offset of the next unread character.
    pub closed spec fn pos(&self) -> int {
        self.cursor as int
    }

    /// The cursor never passes the end of the text.
    pub closed spec fn wf(&self) -> bool {
        self.cursor <= self.characters.len()
    }

    /// A well-formed cursor stands within the text.
    pub broadcast proof fn lemma_wf(s: Scanner)
        ensures
            #[trigger] s.wf() ==> 0 <= s.pos() <= s.text().len(),
    {
    }

    /// The character under the cursor, if any.
    pub open spec fn spec_peek(&self) -> Option<char> {
        if 0 <= self.pos() < self.text().len() {
            Some(self.text()[self.pos()])
        } else {
            None
        }
    }

    /// The character `k` places after the cursor, if any.
    pub open spec fn ahead(&self, k: int) -> Option<char> {
        if 0 <= self.pos() + k < self.text().len() {
            Some(self.text()[self.pos() + k])
        } else {
            None
        }
    }

    pub fn new(string: &str) -> (r: Self)
        ensures
            r.wf(),
            r.text() == string@,
            r.pos() == 0,
    {
        let n = string.unicode_len();
        let mut characters: Vec<char> = Vec::new();
        let mut i: usize = 0;
        while i < n
            invariant
                n == string@.len(),
                i <= n,
                characters@ == string@.subrange(0, i as int),
            decreases n - i,
        {
            characters.push(string.get_char(i));
            i += 1;
        }
        assert(characters@ =~= string@);
        Self { cursor: 0, characters }
    }

    pub fn cursor(&self) -> (r: usize)
        ensures
            r == self.pos(),
    {
        self.cursor
    }

    pub fn is_done(&self) -> (r: bool)
        requires
            self.wf(),
        ensures
            r == (self.pos() == self.text().len()),
    {
        self.cursor == self.characters.len()
    }

    pub fn peek(&self) -> (r: Option<char>)
        requires
            self.wf(),
        ensures
            r == self.spec_peek(),
    {
        if self.cursor < self.characters.len() {
            Some(self.characters[self.cursor])
        } else {
            None
        }
    }

    /// The character `k` places after the cursor, without moving.
    pub fn peek_ahead(&self, k: usize) -> (r: Option<char>)
        requires
            self.wf(),
        ensures
            r == self.ahead(k as int),
    {
        if k < self.characters.len() - self.cursor {
            Some(self.characters[self.cursor + k])
        } else {
            None
        }
    }

    /// Steps back over the character before the cursor and returns it; at the
    /// start of the text nothing moves and `None` comes back.
    pub fn back(&mut self) -> (r: Option<char>)
        requires
            old(self).wf(),
        ensures
            final(self).wf(),
            final(self).text() == old(self).text(),
            old(self).pos() == 0 ==> r is None && final(self).pos() == 0,
            old(self).pos() > 0 ==> final(self).pos() == old(self).pos() - 1 && r == Some(
                old(self).text()[old(self).pos() - 1],
            ),
    {
        if self.cursor > 0 {
            self.cursor = self.cursor - 1;
            Some(self.characters[self.cursor])
        } else {
            None
        }
    }

    /// Returns the character under the cursor and moves past it; at the end
    /// nothing moves and `None` comes back.
    pub fn pop(&mut self) -> (r: Option<char>)
        requires
            old(self).wf(),
        ensures
            final(self).wf(),
            final(self).text() == old(self).text(),
            r == old(self).spec_peek(),
            final(self).pos() == if r is Some {
                old(self).pos() + 1
            } else {
                old(self).pos()
            },
    {
        if self.cursor < self.characters.len() {
            let c = self.characters[self.cursor];
            self.cursor = self.cursor + 1;
            Some(c)
        } else {
            None
        }
    }
}

} // verus!

verus! {

/// The error for a character that the grammar cannot take at the cursor:
/// the end of input, or the offending offset.
pub fn missing_character(scanner: &Scanner) -> (r: Error)
    requires
        scanner.wf(),
    ensures
        r == missing_at(scanner),
{
    if scanner.is_done() {
        Error::EndOfLine
    } else {
        Error::Character(scanner.cursor())
    }
}

/// The error for a character that the grammar refuses at the cursor, for
/// the reason given; the reason is for the caller's own reporting and does
/// not change the error.
pub fn defined_error(scanner: &Scanner, error_string: &str) -> (r: Error)
    requires
        scanner.wf(),
    ensures
        r == missing_at(scanner),
{
    missing_character(scanner)
}

/// The error that [`missing_character`] gives.
pub open spec fn missing_at(scanner: &Scanner) -> Error {
    missing_in(scanner.text(), scanner.pos())
}

/// The error for a character that the grammar cannot take at `q`.
pub open spec fn missing_in(t: Seq<char>, q: int) -> Error {
    if q == t.len() {
        Error::EndOfLine
    } else {
        Error::Character(q as usize)
    }
}

} // verus!

verus! {

/// `b` is `a` after reading on: same text, cursor not behind.
pub open spec fn advanced(a: Scanner, b: Scanner) -> bool {
    &&& b.wf()
    &&& b.text() == a.text()
    &&& a.pos() <= b.pos()
}

/// The characters read between `a` and `b`.
pub open spec fn consumed(a: Scanner, b: Scanner) -> Seq<char> {
    a.text().subrange(a.pos(), b.pos())
}

/// Every character read between `a` and `b` may stand inside brackets.
pub open spec fn consumed_field(a: Scanner, b: Scanner) -> bool {
    forall|i: int| a.pos() <= i < b.pos() ==> field_char(#[trigger] a.text()[i])
}

} // verus!
