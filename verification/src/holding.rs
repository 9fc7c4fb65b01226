//! The holding-period state machine.
//!
//! One `HoldingMetadata` record tracks, for one `(asset class, holding)`
//! pair, whether the holding is time-locked and whether it has already been
//! transformed into its unique representation.  A record is either unlocked
//! (no start, no period), locked (both set at issuance), or transformed,
//! which is terminal.  Eligibility for transformation is computed on demand
//! from the current time and is never stored.

use vstd::prelude::*;
use crate::errors::LifecycleError;

verus! {

/// The lifecycle side-record of one `(asset class, holding)` pair.
///
/// Invariant (checked, not assumed): `holding_start` is set if and only if
/// `lock_period` is set.  A record breaking it is never read as eligible;
/// every operation on it fails closed with a data-integrity error.
#[derive(Clone, Copy, Debug, PartialEq, Eq)]
pub struct HoldingMetadata {
    /// When the current lock began, if the holding is time-locked.
    pub holding_start: Option<u64>,
    /// How long the holding must be held before it may transform.
    pub lock_period: Option<u64>,
    /// Whether the holding has been transformed; terminal once set.
    pub transformed: bool,
}

impl HoldingMetadata {
    /// The two lock fields are either both present or both absent.
    pub open spec fn well_formed(self) -> bool {
        self.holding_start is Some <==> self.lock_period is Some
    }

    /// No holding period is tracked.
    pub open spec fn is_unlocked(self) -> bool {
        self.holding_start is None && self.lock_period is None
    }

    /// A holding period is tracked.
    pub open spec fn is_locked(self) -> bool {
        self.holding_start is Some && self.lock_period is Some
    }

    /// The record as a fresh holding starts: no lock, not transformed.
    pub open spec fn unlocked_spec() -> HoldingMetadata {
        HoldingMetadata { holding_start: None, lock_period: None, transformed: false }
    }

    /// The record of a lock taken at `start` for `period`.
    pub open spec fn locked_spec(start: u64, period: u64) -> HoldingMetadata {
        HoldingMetadata { holding_start: Some(start), lock_period: Some(period), transformed: false }
    }

    /// Whether the record may transform at wall-clock time `now`: it is
    /// locked, not yet transformed, and the locked period has elapsed.
    /// A zero period is eligible at once; a record that was never locked is
    /// not; a transformed record never is again.
    pub open spec fn eligible_at(self, now: u64) -> bool {
        &&& !self.transformed
        &&& self.holding_start matches Some(start) && self.lock_period matches Some(period)
            && now >= start + period
    }

    /// What a lock request at time `now` decides for this record.  Locking is
    /// only accepted on a well-formed, never-locked, never-transformed
    /// record: an existing clock is never silently reset, and a transformed
    /// record is terminal.
    pub open spec fn lock_check(self) -> Result<(), LifecycleError> {
        if self.transformed {
            Err(LifecycleError::AlreadyTransformed)
        } else if !self.well_formed() {
            Err(LifecycleError::DataIntegrityViolation)
        } else if self.is_locked() {
            Err(LifecycleError::AlreadyLocked)
        } else {
            Ok(())
        }
    }

    /// What a transformation request at time `now` decides for this record.
    /// A transformed record is refused outright; a record with only one of
    /// its two lock fields fails closed as corrupt, never as eligible; an
    /// unlocked or not-yet-elapsed lock is an insufficient holding period.
    pub open spec fn transform_check(self, now: u64) -> Result<(), LifecycleError> {
        if self.transformed {
            Err(LifecycleError::AlreadyTransformed)
        } else if !self.well_formed() {
            Err(LifecycleError::DataIntegrityViolation)
        } else if !self.eligible_at(now) {
            Err(LifecycleError::InsufficientHoldingPeriod)
        } else {
            Ok(())
        }
    }

    /// A fresh record: unlocked, not transformed.
    pub fn new_unlocked() -> (r: HoldingMetadata)
        ensures
            r == HoldingMetadata::unlocked_spec(),
    {
        HoldingMetadata { holding_start: None, lock_period: None, transformed: false }
    }

    /// Start a holding period of `period` at time `now`.
    ///
    /// Accepted exactly when the record is well-formed, unlocked, and not
    /// transformed; on any refusal the record is unchanged.
    pub fn lock(&mut self, now: u64, period: u64) -> (r: Result<(), LifecycleError>)
        ensures
            r == old(self).lock_check(),
            r is Ok ==> *final(self) == HoldingMetadata::locked_spec(now, period),
            r is Err ==> *final(self) == *old(self),
    {
        if self.transformed {
            Err(LifecycleError::AlreadyTransformed)
        } else if self.holding_start.is_some() != self.lock_period.is_some() {
            Err(LifecycleError::DataIntegrityViolation)
        } else if self.holding_start.is_some() {
            Err(LifecycleError::AlreadyLocked)
        } else {
            self.holding_start = Some(now);
            self.lock_period = Some(period);
            Ok(())
        }
    }

    /// Whether the record may transform at time `now`, as an exact check
    /// with the reason when it may not.
    pub fn check_transform(&self, now: u64) -> (r: Result<(), LifecycleError>)
        ensures
            r == self.transform_check(now),
    {
        if self.transformed {
            Err(LifecycleError::AlreadyTransformed)
        } else if self.holding_start.is_some() != self.lock_period.is_some() {
            Err(LifecycleError::DataIntegrityViolation)
        } else {
            match (self.holding_start, self.lock_period) {
                (Some(start), Some(period)) => {
                    if now >= start && now - start >= period {
                        Ok(())
                    } else {
                        Err(LifecycleError::InsufficientHoldingPeriod)
                    }
                },
                _ => Err(LifecycleError::InsufficientHoldingPeriod),
            }
        }
    }

    /// Transform the holding at time `now`: accepted exactly when
    /// `transform_check` accepts, and then the record is retained with its
    /// lock fields intact and only its terminal flag set.
    pub fn mark_transformed(&mut self, now: u64) -> (r: Result<(), LifecycleError>)
        ensures
            r == old(self).transform_check(now),
            r is Ok ==> *final(self) == (HoldingMetadata { transformed: true, ..*old(self) }),
            r is Err ==> *final(self) == *old(self),
    {
        let check = self.check_transform(now);
        if check.is_ok() {
            self.transformed = true;
        }
        check
    }
}

/// The transformed state is terminal: whatever the wall-clock time, a
/// transformed record is never again eligible, cannot take a new lock, and
/// refuses a second transformation.
pub proof fn lemma_transformed_is_terminal(m: HoldingMetadata, now: u64)
    requires
        m.transformed,
    ensures
        !m.eligible_at(now),
        m.lock_check() == Err::<(), LifecycleError>(LifecycleError::AlreadyTransformed),
        m.transform_check(now) == Err::<(), LifecycleError>(LifecycleError::AlreadyTransformed),
{
}

} // verus!
