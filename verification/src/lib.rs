//! The rules of a seven-letter word puzzle: which dictionary words belong to a
//! puzzle, and how a player's session moves from one action to the next.

pub mod corpus;
pub mod keyboard;
pub mod letters;
pub mod session;
pub mod text;
