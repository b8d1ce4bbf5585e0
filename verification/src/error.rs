//! The error taxonomy of the tracker core. Lookup misses are represented as
//! empty or absent results, never as errors; only mutating operations and
//! range queries signal one of these.

use vstd::prelude::*;

verus! {

#[derive(Debug, Clone, PartialEq, Eq)]
pub enum TrackerError {
    /// The identifier is already used by an atomic or a composite food.
    DuplicateIdentifier,
    /// A component reference names neither an atomic nor a composite food.
    ComponentNotFound(String),
    /// No log entry (or food) matches the identifier.
    NotFound,
    /// The string is not a real calendar date in `YYYY-MM-DD` form.
    InvalidDate,
    /// The start of a range lies after its end.
    InvalidRange,
    /// The undo stack is empty.
    NothingToUndo,
    /// The active date has no daily log.
    NoLogForDate,
    /// An undo target vanished; signals a corrupted log.
    InconsistentState,
}

} // verus!
