//! A toroidal grid of byte-valued cells and the synchronous infection rule
//! that advances it one generation at a time.

pub mod board;
pub mod rule;
