//! Supervision of a long-running chess engine: a parser and accumulator for
//! the engine's line-oriented analysis output, and the busy/idle state machine
//! that coordinates starting, polling and stopping one analysis at a time.

pub mod accumulator;
pub mod info;
pub mod score;
pub mod supervisor;
pub mod text;
