//! The machine's command-line surface: which subcommand was asked for and
//! on which program file. Parsing the command line itself is host work;
//! the host hands these plain values over.
use vstd::prelude::*;

verus! {

/// What the user asked for. Each variant carries the path of the program
/// file to read.
#[derive(Debug)]
pub enum Subcommand {
    /// Print the instructions in this file.
    Print { input_file_path: String },
    /// Trace the execution flow.
    Trace { input_file_path: String },
    /// Run a program.
    Run { input_file_path: String },
}

} // verus!
