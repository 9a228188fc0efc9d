//! Reader for RIFF container files: a chunk model with its size rules, and a
//! forward-only reader that turns bytes into a tree of chunks.

pub mod chunk;
pub mod grammar;
pub mod identifiers;
pub mod input;
pub mod listing;
pub mod prelude;
pub mod riff;
