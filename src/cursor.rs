use vstd::prelude::*;
use crate::board::{Board, Position};

verus! {

/// `pos` moved onto the board: each coordinate clamped into its range.
pub fn bind_position(board: &Board, pos: Position) -> (r: Position)
    requires
        board.wf(),
    ensures
        board@.contains(r),
        r.row == if pos.row < 0 {
            0
        } else if pos.row >= board@.height {
            board@.height - 1
        } else {
            pos.row as int
        },
        r.col == if pos.col < 0 {
            0
        } else if pos.col >= board@.width {
            board@.width - 1
        } else {
            pos.col as int
        },
{
    let mut p = pos;
    if p.col < 0 {
        p.col = 0;
    } else if p.col >= board.width() as isize {
        p.col = board.width() as isize - 1;
    }
    if p.row < 0 {
        p.row = 0;
    } else if p.row >= board.height() as isize {
        p.row = board.height() as isize - 1;
    }
    p
}

/// The terminal (row, column) of the cell `pos` in the drawn board: two
/// lines per board row below a header line, four columns per board column.
pub fn cursor_position(pos: Position) -> (r: (u16, u16))
    requires
        0 <= pos.row < 32767,
        0 <= pos.col < 16383,
    ensures
        r.0 == 2 + 2 * pos.row,
        r.1 == 1 + 4 * pos.col,
{
    (2 + 2 * pos.row as u16, 1 + 4 * pos.col as u16)
}

} // verus!
