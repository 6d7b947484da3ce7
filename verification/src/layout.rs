//! Where a monospaced view puts the characters of a line: every character
//! takes one cell, but for the tab, which takes four.

use vstd::prelude::*;

verus! {

/// The number of cells that a tab takes.
pub const TAB_CELLS: usize = 4;

/// The number of cells that the character `ch` takes.
pub open spec fn cell_width(ch: char) -> nat {
    if ch == '\t' {
        TAB_CELLS as nat
    } else {
        1
    }
}

/// The number of cells that the characters of `line` take together.
pub open spec fn cells(line: Seq<char>) -> nat
    decreases line.len(),
{
    if line.len() == 0 {
        0
    } else {
        cells(line.drop_last()) + cell_width(line.last())
    }
}

/// The number of cells in front of column `column` of `line`: those of the
/// characters in front of it, and of the whole line for a column behind its
/// end.
pub open spec fn cells_before(line: Seq<char>, column: int) -> nat {
    if column >= line.len() {
        cells(line)
    } else {
        cells(line.subrange(0, column))
    }
}

/// The cell at which column `column` of `line` starts, counted from the start
/// of the line; the cell just behind the line for a column behind its end.
/// There is none where the count does not fit the machine's word.
pub fn cell_of_column(line: &str, column: usize) -> (cell: Option<usize>)
    ensures
        cells_before(line@, column as int) <= usize::MAX ==> cell == Some(
            cells_before(line@, column as int) as usize,
        ),
        cells_before(line@, column as int) > usize::MAX ==> cell is None,
{
    let mut cell: usize = 0;
    let mut seen: usize = 0;
    for ch in it: line.chars()
        invariant
            it.seq() == line@,
            seen <= it.index(),
            seen <= column,
            seen < column ==> seen == it.index(),
            cell == cells(line@.subrange(0, seen as int)),
    {
        if seen < column {
            proof {
                assert(line@.subrange(0, seen + 1).drop_last() =~= line@.subrange(0, seen as int));
                assert(line@.subrange(0, seen + 1).last() == ch);
                lemma_cells_prefix(line@, seen + 1, column as int);
            }
            let width: usize = if ch == '\t' { TAB_CELLS } else { 1 };
            if cell > usize::MAX - width {
                return None;
            }
            cell = cell + width;
            seen = seen + 1;
        }
    }
    proof {
        if seen < column {
            assert(line@.subrange(0, seen as int) =~= line@);
        }
    }
    Some(cell)
}

/// The cells in front of a column are no fewer than those in front of an
/// earlier one.
pub proof fn lemma_cells_prefix(line: Seq<char>, i: int, column: int)
    requires
        0 <= i <= line.len(),
        i <= column,
    ensures
        cells(line.subrange(0, i)) <= cells_before(line, column),
    decreases line.len() - i,
{
    if i < line.len() && i < column {
        assert(line.subrange(0, i + 1).drop_last() =~= line.subrange(0, i));
        lemma_cells_prefix(line, i + 1, column);
    } else if i == line.len() {
        assert(line.subrange(0, i) =~= line);
    }
}

} // verus!
