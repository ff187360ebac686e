//! Hex dump and hex patch tooling: offset parsing, hex decoding, dump rendering
//! and the planning of one read or write, each with a verified contract; and a
//! word counter with thousands-grouped number formatting.

pub mod text;
pub mod codec;
pub mod offset;
pub mod dump;
pub mod command;
pub mod words;
