//! The extension point for page operations.
use vstd::prelude::*;
use crate::model::operation::Operation;
use crate::model::workspace::Workspace;

verus! {

/// A page-level operation that can be applied through the viewer or the command line.
///
/// Implement this trait to add new operations. Each operation is self-contained and
/// gives back the inverse `Operation` for undo.
pub trait PageOperation {
    /// Human-readable name for display.
    fn name(&self) -> &str;

    /// Short description for help text.
    fn description(&self) -> &str;

    /// Check whether this operation can be applied.
    fn validate(&self, workspace: &Workspace) -> Result<(), String>;

    /// Apply the operation, returning its inverse for undo.
    fn apply(&self, workspace: &mut Workspace) -> Result<Operation, String>;

    /// Optional key binding hint for the viewer.
    fn keybinding(&self) -> (k: Option<char>)
        default_ensures
            k is None,
    {
        None
    }
}

} // verus!
