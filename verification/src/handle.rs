//! What the editor does on each key: cursor movement and editing, each of
//! which changes the document and returns what to draw.

pub mod action;
pub mod movement;

use vstd::prelude::*;
use crate::cursor::home_display;
use crate::draw::{clear_display, frame_display};
use crate::terminal::Terminal;

verus! {

/// A full redraw's start: the screen cleared, the frame drawn and the cursor
/// put on the first text row.
pub open spec fn redraw_display(term: Terminal, move_mode: bool, title: Seq<char>) -> Seq<char> {
    clear_display() + frame_display(term, move_mode, title) + home_display()
}

/// Whether the frame can be drawn on `term`.
pub open spec fn can_frame(term: Terminal) -> bool {
    term.col_sz >= 1 && term.row_sz + 2 <= usize::MAX
}

/// Tests `can_frame`.
pub fn frame_fits(term: &Terminal) -> (b: bool)
    ensures
        b == can_frame(*term),
{
    term.col_sz >= 1 && term.row_sz <= usize::MAX - 2
}

} // verus!
