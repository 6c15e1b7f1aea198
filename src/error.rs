use vstd::prelude::*;

verus! {

/// Why a lookup or a batch of edits was refused.
#[derive(Clone, Copy, Debug, PartialEq, Eq, Structural)]
pub enum EditError {
    /// A lookup, `Delete` or `Replace` names an index outside `[0, len)`, or an
    /// `Insert` names one beyond `len`.
    LineNotFound,
    /// Two changes of one batch name the same line with incompatible operations.
    ConflictingChange,
    /// The content of an `Insert` or `Replace` holds a line terminator.
    InvalidContent,
}

} // verus!
