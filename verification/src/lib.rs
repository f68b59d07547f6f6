//! Template-driven batch file renaming: an input path template with `*`
//! wildcards matches candidate file paths and captures the wildcard spans;
//! an output template re-inserts those captures through `#N` positional
//! references; a batch planner applies a conflict policy over the whole set
//! of matched files before any filesystem mutation happens.

mod errors;
mod file_template;
mod rename_mod;
mod renamer;
mod resolve_path_pattern;
mod template_applier;

pub use errors::TfrError;
pub use renamer::TemplateFileRenamer;
pub use file_template::Template;
pub use file_template::TemplateError;
pub use file_template::Token;
pub use rename_mod::ActionWhenRenamedFilePathExists;
pub use resolve_path_pattern::resolve_path_pattern;
pub use template_applier::apply_policy;
pub use template_applier::apply_template;
pub use template_applier::is_rename_template_correct;
pub use template_applier::PathStatus;
