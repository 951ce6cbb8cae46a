//! Error kinds reported by the row codec and the table.

use vstd::prelude::*;

verus! {

/// Every failure the store can report. Each variant is produced by exactly
/// one condition, stated in the `ensures` of the function that returns it.
#[derive(Clone, Copy, Debug, PartialEq, Eq, Structural)]
pub enum DbError {
    /// An id token that does not parse as an unsigned 32-bit integer.
    InvalidId,
    /// A username or email longer than its fixed field capacity.
    FieldTooLong,
    /// A byte buffer shorter than one encoded row.
    DecodeError,
    /// An insert into a table whose page capacity is exhausted.
    TableFull,
}

} // verus!
