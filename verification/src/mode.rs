//! The modal way of editing: an insert mode that types and a mode that moves
//! the cursor with keys, each taking one key at a time.

pub mod escape;
pub mod insert;

use vstd::prelude::*;

verus! {

/// The mode to go on in.
#[derive(Clone, Copy, Debug, PartialEq, Eq, Structural)]
pub enum Mode {
    Escape,
    Insert,
    Quit,
}

} // verus!
