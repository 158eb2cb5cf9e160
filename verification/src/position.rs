//! Source spans attached to tokens and expression nodes.

use vstd::prelude::*;

verus! {

/// A half-open source span: the line/column pair where a construct starts
/// and the line/column pair where it ends. Attached to every token and to
/// every expression node so that errors can point at the offending text.
#[derive(Clone, Copy, Debug)]
pub struct Position {
    pub from: (usize, usize),
    pub to: (usize, usize),
}

impl Position {
    /// A span from line/column `(line1, col1)` to line/column `(line2, col2)`.
    pub fn new(line1: usize, col1: usize, line2: usize, col2: usize) -> (p: Position)
        ensures
            p == (Position { from: (line1, col1), to: (line2, col2) }),
    {
        Position { from: (line1, col1), to: (line2, col2) }
    }

    /// The union of two spans: starts where `from` starts and ends where
    /// `to` ends. Used to make a parent expression's span cover all of its
    /// children.
    pub fn range(from: Position, to: Position) -> (p: Position)
        ensures
            p == (Position { from: from.from, to: to.to }),
    {
        Position { from: from.from, to: to.to }
    }

    /// The line on which the span ends; error reports cite this line.
    pub fn line(&self) -> (l: usize)
        ensures
            l == self.to.0,
    {
        self.to.0
    }
}

} // verus!
