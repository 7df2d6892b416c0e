use vstd::prelude::*;
use crate::mode::{CommandMode, Mode};

verus! {

/// A cursor: a position and a mode. It says nothing of the text it stands in.
#[derive(Clone, Copy, Debug, PartialEq, Eq, Structural)]
pub struct Cursor {
    /// The column.
    pub x: usize,
    /// The line.
    pub y: usize,
    /// The mode.
    pub mode: Mode,
}

impl Cursor {
    /// The fresh cursor: at the start of the text, in normal command mode.
    pub open spec fn new_spec() -> Cursor {
        Cursor { x: 0, y: 0, mode: Mode::Command(CommandMode::Normal) }
    }

    /// A fresh cursor at the start of the text, in normal command mode.
    pub fn new() -> (r: Cursor)
        ensures
            r == Cursor::new_spec(),
    {
        Cursor { x: 0, y: 0, mode: Mode::Command(CommandMode::Normal) }
    }
}

} // verus!
