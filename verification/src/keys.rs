//! What each key read from the terminal asks the editor to do.

use vstd::prelude::*;

verus! {

/// A request read from the keyboard.
#[derive(Clone, Copy, Debug, PartialEq, Eq, Structural)]
pub enum Command {
    /// Save and leave (Ctrl-L).
    Quit,
    /// Save (Ctrl-W).
    Save,
    /// Show a preview (Ctrl-P).
    Preview,
    /// Switch move mode on or off (Ctrl-A).
    ToggleMoveMode,
    /// Cursor to the start of the line (Ctrl-B).
    LineStart,
    /// Cursor to the end of the line (Ctrl-E).
    LineEnd,
    /// The start of an arrow key's sequence (Escape); two more keys follow.
    Arrow,
    /// Break the line (Enter).
    NewLine,
    /// Delete backwards (Backspace or Ctrl-X).
    Delete,
    Up,
    Down,
    Right,
    Left,
    /// Type the character.
    Type(char),
    /// Nothing to do.
    Ignore,
}

/// The command for key `c`. In move mode `k`, `j`, `l` and `h` move the
/// cursor up, down, right and left; other printable keys are typed in
/// either mode.
pub open spec fn spec_command_for(c: char, move_mode: bool) -> Command {
    let u = c as int;
    if u == 12 {
        Command::Quit
    } else if u == 23 {
        Command::Save
    } else if u == 16 {
        Command::Preview
    } else if u == 1 {
        Command::ToggleMoveMode
    } else if u == 2 {
        Command::LineStart
    } else if u == 5 {
        Command::LineEnd
    } else if u == 27 {
        Command::Arrow
    } else if u == 10 {
        Command::NewLine
    } else if u == 127 || u == 24 {
        Command::Delete
    } else if 32 <= u <= 126 {
        if move_mode && c == 'k' {
            Command::Up
        } else if move_mode && c == 'j' {
            Command::Down
        } else if move_mode && c == 'l' {
            Command::Right
        } else if move_mode && c == 'h' {
            Command::Left
        } else {
            Command::Type(c)
        }
    } else {
        Command::Ignore
    }
}

/// The command for key `c`.
pub fn command_for(c: char, move_mode: bool) -> (cmd: Command)
    ensures
        cmd == spec_command_for(c, move_mode),
{
    let u = c as u32;
    if u == 12 {
        Command::Quit
    } else if u == 23 {
        Command::Save
    } else if u == 16 {
        Command::Preview
    } else if u == 1 {
        Command::ToggleMoveMode
    } else if u == 2 {
        Command::LineStart
    } else if u == 5 {
        Command::LineEnd
    } else if u == 27 {
        Command::Arrow
    } else if u == 10 {
        Command::NewLine
    } else if u == 127 || u == 24 {
        Command::Delete
    } else if 32 <= u && u <= 126 {
        if move_mode && c == 'k' {
            Command::Up
        } else if move_mode && c == 'j' {
            Command::Down
        } else if move_mode && c == 'l' {
            Command::Right
        } else if move_mode && c == 'h' {
            Command::Left
        } else {
            Command::Type(c)
        }
    } else {
        Command::Ignore
    }
}

/// The command for the last key of an arrow key's sequence: `A`, `B`, `C`
/// and `D` are up, down, right and left.
pub fn arrow_command(c: char) -> (cmd: Command)
    ensures
        cmd == (if c == 'A' {
            Command::Up
        } else if c == 'B' {
            Command::Down
        } else if c == 'C' {
            Command::Right
        } else if c == 'D' {
            Command::Left
        } else {
            Command::Ignore
        }),
{
    if c == 'A' {
        Command::Up
    } else if c == 'B' {
        Command::Down
    } else if c == 'C' {
        Command::Right
    } else if c == 'D' {
        Command::Left
    } else {
        Command::Ignore
    }
}

} // verus!
