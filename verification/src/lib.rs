//! A verified interpreter for a minimal tape-based instruction language:
//! eight single-character opcodes that move a data pointer over a fixed
//! byte tape, mutate the current cell, perform byte I/O, and loop through
//! bracket-delimited jumps.
//!
//! The loader turns source text into a flat instruction sequence; the
//! execution engine owns the tape, the data pointer, the program counter,
//! an instruction counter and an output accumulator, and executes one
//! instruction per step. A command parser supports an interactive,
//! step-wise inspection mode driven by an outer loop.

pub mod cli;
pub mod command;
pub mod machine;
pub mod matching;
pub mod opcode;
