//! The progress mode used by command front ends: verbose for a single
//! submission, compact for a sync over many stacks.

use vstd::prelude::*;

verus! {

/// The rendering mode of a command-line progress sink.  The printing itself
/// lives with the front end; the library only fixes the mode.
#[derive(Debug, Clone, Copy, PartialEq, Eq, Structural)]
pub struct CliProgress {
    /// Verbose mode shows all phases and detailed output.
    pub verbose: bool,
}

impl CliProgress {
    /// The verbose mode, for the submit command.
    pub fn verbose() -> (r: Self)
        ensures
            r.verbose,
    {
        CliProgress { verbose: true }
    }

    /// The compact mode, for the sync command.
    pub fn compact() -> (r: Self)
        ensures
            !r.verbose,
    {
        CliProgress { verbose: false }
    }
}

} // verus!
