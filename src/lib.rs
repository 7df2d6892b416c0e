pub mod mode;
pub mod cursor;
pub mod buffer;
pub mod editor;
pub mod movement;
