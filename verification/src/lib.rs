//! A small terminal text editor whose editing, cursor movement and screen
//! rendering are verified; the terminal itself is driven from outside.

pub mod text;
pub mod line;
pub mod terminal;
pub mod cursor;
pub mod draw;
pub mod handle;
pub mod mode;
pub mod keys;
pub mod laws;
