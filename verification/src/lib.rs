//! Verified core of a cross-border payment system: time-locked escrow,
//! an exchange-rate oracle, and a compliance engine.
//!
//! Each contract is a state machine over plain values.  The host-facing
//! shell (storage, authorization, token transfers, the ledger clock) lives
//! outside this crate and hands the library plain values.

pub mod bytes;
pub mod table;
pub mod digest;
pub mod numeric;
pub mod escrow;
pub mod escrow_laws;
pub mod compliance;
pub mod compliance_laws;
pub mod rate_oracle;
pub mod rate_oracle_laws;
