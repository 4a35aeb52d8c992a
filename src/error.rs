//! Errors of the migration engine.
use vstd::prelude::*;

verus! {

/// What went wrong during extraction, reconciliation or apply.
#[derive(Debug, PartialEq, Eq)]
pub enum MigrateError {
    /// Text that is not an address.
    InvalidAddress,
    /// A source record lacks a field or holds one that does not decode; `entry`
    /// names the device or adapter entry where it was found (empty where the
    /// record was read on its own).
    MalformedRecord { entry: String },
    /// An adapter or device is absent from the snapshot or the destination store.
    NotFound,
    /// Neither the target nor any named address with its vendor prefix is
    /// paired; `label` is the target's name, `address` its colon form.
    NotPaired { label: String, address: String },
    /// A BLE record holds both long-term keys or neither.
    AmbiguousInvariantViolation,
    /// A destination value that apply overwrites is missing or of another type.
    UnexpectedExistingState,
    /// The operator left the prompt blank or did not answer with a number.
    UserCancelled,
    /// The operator chose an index outside the candidate list.
    InvalidSelection,
    /// The destination store refused to commit.
    TransactionFailure,
    /// The command does not run on this platform.
    UnsupportedCommand,
}

} // verus!
