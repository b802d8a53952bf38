//! What the command line asks for.
use vstd::prelude::*;

verus! {

/// The files named on the command line, in order.
pub struct CommandLineArgs {
    pub files: Vec<String>,
}

} // verus!
