//! Placing the terminal's cursor.

use vstd::prelude::*;
use crate::text::{chars_of, string_from_chars};

verus! {

/// The escape sequence that puts the cursor on the first text row (row 3, column 1).
pub open spec fn home_display() -> Seq<char> {
    "\x1b[3;1H"@
}

/// The escape sequence that moves the cursor to the start of the first text row.
pub fn home() -> (s: String)
    ensures
        s@ == home_display(),
{
    string_from_chars(&chars_of("\x1b[3;1H"))
}

} // verus!
