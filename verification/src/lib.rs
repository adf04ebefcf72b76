//! Decoder for numerically-controlled-machine (G-code) program text.
//!
//! The library splits a source line into alternating letter-code/value
//! tokens, decodes each (code, value) pair into a typed instruction,
//! assembles lines into a program, and derives a carried-forward tool
//! position trace from the program.

pub mod chars;
pub mod instruction;
pub mod line;
pub mod numbers;
pub mod position;
pub mod program;
pub mod scan;
pub mod tokenize;
