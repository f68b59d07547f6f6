//! The caller-selected behaviour when a resolved destination path already
//! exists on the filesystem.

use vstd::prelude::*;

verus! {

/// Possible behaviour of the batch planner when a new file path already
/// exists: abort the whole batch, drop the single pair, or keep the pair and
/// let the executor overwrite the existing file.
#[derive(Clone, Copy, Debug, PartialEq, Eq, Structural)]
pub enum ActionWhenRenamedFilePathExists {
    Terminate,
    Skip,
    Overwrite,
}

impl Default for ActionWhenRenamedFilePathExists {
    fn default() -> (r: Self)
        ensures
            r == ActionWhenRenamedFilePathExists::Terminate,
    {
        ActionWhenRenamedFilePathExists::Terminate
    }
}

} // verus!
