//! The errors the planner can report: a malformed input template, an output
//! template that leaves some wildcard unreferenced, or a resolved
//! destination that already exists in a way the active policy refuses.

use crate::file_template::TemplateError;
use vstd::prelude::*;

verus! {

/// Common template file renamer errors.
///
/// - `IncorrectInputTemplate` and `IncorrectOutputTemplate` occur when the
///   passed templates are incorrect.
/// - `ExistingPath` occurs when planning finds a destination path that
///   already exists and the policy does not allow it; the flag says whether
///   the existing node is a regular file (`true`) or anything else
///   (`false`).
#[derive(Debug)]
pub enum TfrError {
    IncorrectInputTemplate(&'static str),
    IncorrectOutputTemplate(&'static str),
    ExistingPath(String, bool),
}

impl From<TemplateError> for TfrError {
    fn from(template_err: TemplateError) -> (r: Self) {
        match template_err {
            TemplateError::AsteriskInDirectory => TfrError::IncorrectInputTemplate(
                "Found asterisks in directory of input template",
            ),
            TemplateError::DoubleAsterisk => TfrError::IncorrectInputTemplate(
                "Found double asterisk in input template",
            ),
        }
    }
}

impl vstd::std_specs::convert::FromSpecImpl<TemplateError> for TfrError {
    open spec fn obeys_from_spec() -> bool {
        true
    }

    open spec fn from_spec(t: TemplateError) -> Self {
        match t {
            TemplateError::AsteriskInDirectory => TfrError::IncorrectInputTemplate(
                "Found asterisks in directory of input template",
            ),
            TemplateError::DoubleAsterisk => TfrError::IncorrectInputTemplate(
                "Found double asterisk in input template",
            ),
        }
    }
}

} // verus!
