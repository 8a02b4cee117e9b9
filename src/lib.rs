//! A text buffer of Unicode scalar values and a cursor that tracks its
//! position in it by offset, line and column, with a sticky column for
//! vertical movement.

pub mod text;
pub mod buffer;
pub mod cursor;
pub mod laws;
