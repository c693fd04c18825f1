//! A terminal to-do list: an ordered task store with a selection cursor,
//! an input-mode state machine mapping keys to store operations, and a
//! JSON persistence format with a proved encode/decode round trip.

pub mod codec;
pub mod input;
pub mod task;
pub mod text;
pub mod todo;
