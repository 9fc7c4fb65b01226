//! Error taxonomy of the lifecycle operations.
//!
//! Every operation validates all of its preconditions before it mutates any
//! state, so an error always leaves the system exactly as it was.

use vstd::prelude::*;

verus! {

/// Why a lifecycle operation was refused.
#[derive(Clone, Copy, Debug, PartialEq, Eq, Structural)]
pub enum LifecycleError {
    /// The requesting actor is not the recorded authority of the asset class.
    InvalidAuthority,
    /// The requesting actor does not control the holding it tried to move.
    Unauthorized,
    /// A debit asked for more than the source holding carries.
    InsufficientBalance,
    /// A transformation was requested before the locked period elapsed.
    InsufficientHoldingPeriod,
    /// A stored record breaks an invariant (a lock with only one of its two
    /// fields set, or a holding filed under the wrong asset class).
    DataIntegrityViolation,
    /// The record address of a side-record could not be derived.
    StorageFailure,
    /// A balance-affecting operation asked to move a zero quantity.
    InvalidAmount,
    /// A credit would push the destination balance past its representable
    /// maximum.
    BalanceOverflow,
    /// A lock was requested on a holding that already carries one; re-locking
    /// is rejected so an existing clock is never silently reset.
    AlreadyLocked,
    /// The holding has already been transformed; that state is terminal.
    AlreadyTransformed,
    /// A transfer named the same holding as source and destination; rejected
    /// as the safer reading of an otherwise unspecified case.
    SelfTransfer,
    /// The named asset class has not been initialized.
    UnknownAssetClass,
    /// The named recipient holding has not been opened.
    UnknownHolding,
    /// An asset class with this identifier already exists.
    ClassAlreadyExists,
}

} // verus!
