//! What the command-line layer decides: whether the process goes on to
//! fuzz after handling its command, or exits.

use vstd::prelude::*;

verus! {

/// The outcome of command handling: enter the fuzzing loop, or stop.
pub enum PostCLI {
    DoFuzz,
    Exit,
}

} // verus!
