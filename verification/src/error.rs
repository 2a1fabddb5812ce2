//! The failures that the library reports.

use vstd::prelude::*;

verus! {

/// Every way in which an operation of this library can fail.
#[derive(Clone, Copy, Debug, PartialEq, Eq, Structural)]
pub enum Error {
    /// An argument is outside what the operation accepts: no rows, more
    /// clusters than samples, a distance space that nobody knows.
    InvalidArgument,
    /// An index was asked for with dimension zero.
    InvalidDimension,
    /// A vector does not have the length the index was created with.
    DimensionMismatch { expected: usize, got: usize },
    /// Row `row` of a matrix is not as long as its first row.
    RowLengthMismatch { row: usize, expected: usize, got: usize },
    /// The label is already taken.
    DuplicateLabel,
    /// A model was needed and none has been fitted or loaded.
    ModelNotFitted,
    /// The embedding solver failed, or embedded no point.
    EmbeddingFailed,
    /// The distance space is known but cannot be used yet.
    UnsupportedCapability,
    /// A saved artifact is missing, unreadable or unwritable.
    PersistenceIOError,
    /// A saved artifact was read but does not describe a valid state.
    CorruptPersistedState,
    /// The operation exists in name only.
    NotImplemented,
}

} // verus!
