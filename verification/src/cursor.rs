//! The caret: a row/column position with movement primitives that know
//! nothing about the text they move over.

use vstd::prelude::*;

verus! {

/// A caret position in character space: column `x` within the zero-based line `y`.
#[derive(Debug, Clone, Copy, PartialEq, Eq, Structural)]
pub struct Cursor {
    pub x: usize,
    pub y: usize,
}

impl Cursor {
    /// Moves to the start of the next line, as after typing a line terminator.
    pub fn newline(&mut self)
        requires
            old(self).y < usize::MAX,
        ensures
            final(self).y == old(self).y + 1,
            final(self).x == 0,
    {
        self.y += 1;
        self.x = 0;
    }

    /// Moves one column to the left; at column zero the cursor stays where it is.
    pub fn move_left(&mut self)
        ensures
            final(self).y == old(self).y,
            final(self).x == if old(self).x > 0 { old(self).x - 1 } else { 0 },
    {
        if self.x > 0 {
            self.x -= 1;
        }
    }

    /// Moves one column to the right, without regard to the line's length.
    pub fn move_right(&mut self)
        requires
            old(self).x < usize::MAX,
        ensures
            final(self).y == old(self).y,
            final(self).x == old(self).x + 1,
    {
        self.x += 1;
    }

    /// Moves to the start of the previous line; on the first line nothing changes.
    pub fn move_up(&mut self)
        ensures
            old(self).y > 0 ==> final(self).y == old(self).y - 1 && final(self).x == 0,
            old(self).y == 0 ==> *final(self) == *old(self),
    {
        if self.y > 0 {
            self.y -= 1;
            self.x = 0;
        }
    }

    /// Moves to the start of the next line.
    pub fn move_down(&mut self)
        requires
            old(self).y < usize::MAX,
        ensures
            final(self).y == old(self).y + 1,
            final(self).x == 0,
    {
        self.y += 1;
        self.x = 0;
    }
}

impl Default for Cursor {
    /// The start of the document.
    fn default() -> (cursor: Self)
        ensures
            cursor.x == 0,
            cursor.y == 0,
    {
        Cursor { x: 0, y: 0 }
    }
}

} // verus!
