//! Source positions and locations.
//!
//! A `Position` counts characters (Unicode scalar values), not bytes: `index`
//! is the number of characters before the position, `line` and `column` are
//! 1-based and follow the newline rule: advancing past a newline increments
//! `line` and resets `column` to 1, advancing past any other character
//! increments `column`.

use vstd::prelude::*;

verus! {

/// The 1-based line number of the position reached after the first `i`
/// characters of `text`: one more than the number of newlines among them.
pub open spec fn line_at(text: Seq<char>, i: nat) -> nat
    decreases i,
{
    if i == 0 {
        1
    } else {
        line_at(text, (i - 1) as nat) + (if text[i - 1] == '\n' {
            1nat
        } else {
            0nat
        })
    }
}

/// The 1-based column of the position reached after the first `i` characters
/// of `text`: the count of characters since the last newline, plus one.
pub open spec fn col_at(text: Seq<char>, i: nat) -> nat
    decreases i,
{
    if i == 0 {
        1
    } else if text[i - 1] == '\n' {
        1
    } else {
        col_at(text, (i - 1) as nat) + 1
    }
}

/// Line and column numbers never run ahead of the character count: after `i`
/// characters both are at most `i + 1`.
pub proof fn lemma_line_col_bounds(text: Seq<char>, i: nat)
    ensures
        line_at(text, i) <= i + 1,
        col_at(text, i) <= i + 1,
    decreases i,
{
    if i > 0 {
        lemma_line_col_bounds(text, (i - 1) as nat);
    }
}

/// A given position in a file. These are usually used as start positions for a
/// `Location`.
#[derive(Clone, Copy, Debug)]
pub struct Position {
    pub index: usize,
    pub line: u32,
    pub column: u32,
}

impl Position {
    /// The first position in a file.
    pub fn begin() -> (p: Position)
        ensures
            p.index == 0,
            p.line == 1,
            p.column == 1,
    {
        Position { index: 0, line: 1, column: 1 }
    }

    /// Increment the position 1 character forward. `passed_newline` says
    /// whether the character just passed was a newline.
    pub fn advance(&mut self, passed_newline: bool)
        requires
            old(self).index < usize::MAX,
            passed_newline ==> old(self).line < u32::MAX,
            !passed_newline ==> old(self).column < u32::MAX,
        ensures
            final(self).index == old(self).index + 1,
            passed_newline ==> final(self).line == old(self).line + 1 && final(self).column == 1,
            !passed_newline ==> final(self).line == old(self).line && final(self).column == old(
                self,
            ).column + 1,
    {
        if passed_newline {
            self.line = self.line + 1;
            self.column = 1;
        } else {
            self.column = self.column + 1;
        }
        self.index = self.index + 1;
    }
}

/// An ending position. Error reporting doesn't need the ending line/column of
/// an error, so only the character offset just past the construct is stored.
#[derive(Clone, Copy, Debug)]
pub struct EndPosition {
    pub index: usize,
}

impl EndPosition {
    pub fn new(index: usize) -> (e: EndPosition)
        ensures
            e.index == index,
    {
        EndPosition { index }
    }
}

/// A source location for a token or other construct: the name of the source it
/// was read from, the position of its first character, and the offset just
/// past its last character. It borrows the source name and must not outlive
/// the buffer holding it.
#[derive(Debug)]
pub struct Location<'a> {
    pub filename: &'a str,
    pub start: Position,
    pub end: EndPosition,
}

impl<'a> Location<'a> {
    pub fn new(filename: &'a str, start: Position, end: EndPosition) -> (l: Location<'a>)
        ensures
            l.filename == filename,
            l.start == start,
            l.end == end,
    {
        Location { filename, start, end }
    }
}

/// Anything that has a current `Location`.
pub trait Locatable<'a> {
    fn locate(&self) -> Location<'a>;
}

} // verus!
