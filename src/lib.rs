//! A small accumulator machine: a loader for its program text and an engine
//! that runs a loaded program against an input sequence.
pub mod error;
pub mod level;
pub mod program;
pub mod solution;
pub mod text;
