//! The size of the terminal that the editor draws on.

use vstd::prelude::*;

verus! {

/// The terminal's size: `row_sz` rows for text (the window's height less the
/// frame) and `col_sz` columns.
#[derive(Clone, Copy, Debug, PartialEq, Eq, Structural)]
pub struct Terminal {
    pub row_sz: usize,
    pub col_sz: usize,
}

impl Terminal {
    /// A terminal of the given size.
    pub fn new(row_sz: usize, col_sz: usize) -> (term: Terminal)
        ensures
            term.row_sz == row_sz,
            term.col_sz == col_sz,
    {
        Terminal { row_sz, col_sz }
    }

    /// The size the editor draws in on a window `ws_row` rows high and `ws_col`
    /// columns wide: four of the rows go to the frame.
    pub fn from_window(ws_row: usize, ws_col: usize) -> (term: Terminal)
        requires
            ws_row >= 4,
        ensures
            term.row_sz == ws_row - 4,
            term.col_sz == ws_col,
    {
        Terminal { row_sz: ws_row - 4, col_sz: ws_col }
    }
}

} // verus!
