//! The command-line surface the interpreter is driven by: a source file
//! path, an interactive-mode flag, and an output destination. Argument
//! parsing itself is a collaborator's job; this is the parsed shape.

use vstd::prelude::*;

verus! {

/// The interpreter's invocation: which file to load, whether to run the
/// interactive inspection loop, and where output goes (by default the
/// standard output).
#[derive(Debug)]
pub struct Arguments {
    /// The input file to read.
    pub file: String,
    /// Interpret interactively, allowing to inspect memory and pointers.
    pub interactive: bool,
    /// The output destination to write to.
    pub output: String,
}

} // verus!
