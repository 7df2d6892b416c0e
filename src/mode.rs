use vstd::prelude::*;

verus! {

/// The command family of modes.
#[derive(Clone, Copy, Debug, PartialEq, Eq, Structural)]
pub enum CommandMode {
    /// Plain navigation.
    Normal,
}

/// The primitive family of modes, where keys act on the text directly.
#[derive(Clone, Copy, Debug, PartialEq, Eq, Structural)]
pub enum PrimitiveMode {
    /// Text insertion.
    Insert,
    /// Reading a command line.
    Prompt,
}

/// The mode a cursor is in. Movement never inspects it: it is carried by value.
#[derive(Clone, Copy, Debug, PartialEq, Eq, Structural)]
pub enum Mode {
    Command(CommandMode),
    Primitive(PrimitiveMode),
}

} // verus!
