//! The parsed command line, free of any parsing library: front ends parse
//! with whatever they like and convert into these values.

use vstd::prelude::*;

verus! {

/// The whole invocation.
#[derive(Debug)]
pub struct CLI {
    pub command: Command,
}

/// What the caller asked for.
#[derive(Debug)]
pub enum Command {
    /// Emulate a program's entry function.
    Emulate { binary: String, args: Vec<String> },
}

} // verus!
