//! Verified core of a gold-backed asset lifecycle: deterministic record
//! addressing for keyed side-records, a holding-period state machine that
//! gates one-way transformation of a holding, an append-only provenance
//! ledger of transfers, and the orchestrated issue/transfer/transform
//! operations with their authority and balance checks.

pub mod addressing;
pub mod errors;
pub mod holding;
pub mod ledger;
pub mod system;
