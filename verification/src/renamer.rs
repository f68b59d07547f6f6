//! The renamer facade: holds the caller-selected conflict policy. The
//! filesystem work — listing candidates, checking destination statuses,
//! moving files, progress reporting — belongs to the caller; the planning
//! functions of this crate decide which renames are to happen.

use crate::rename_mod::ActionWhenRenamedFilePathExists;
use vstd::prelude::*;

verus! {

/// Provides template file path rename planning under one of the three
/// policies of `ActionWhenRenamedFilePathExists`.
pub struct TemplateFileRenamer {
    pub rename_mod: ActionWhenRenamedFilePathExists,
}

impl TemplateFileRenamer {
    pub fn new(rename_mod: ActionWhenRenamedFilePathExists) -> (r: Self)
        ensures
            r.rename_mod == rename_mod,
    {
        TemplateFileRenamer { rename_mod }
    }
}

impl Default for TemplateFileRenamer {
    fn default() -> (r: Self)
        ensures
            r.rename_mod == ActionWhenRenamedFilePathExists::Terminate,
    {
        TemplateFileRenamer { rename_mod: ActionWhenRenamedFilePathExists::Terminate }
    }
}

} // verus!
