//! Verified state machines for a savings application.
//!
//! Two independent ledgers are provided, each a closed state machine over its
//! own storage:
//!
//! * [`pocket`]: savings pockets with sequential identifiers and owner-gated
//!   balance updates;
//! * [`sbt`]: a registry of one-time, non-transferable achievement credentials
//!   governed by a single administrator.
//!
//! Every operation receives the storage it works on and an [`auth::AuthContext`]
//! naming the identities that authorized the call. An operation either succeeds
//! and commits its writes, or returns an [`error::Error`] and leaves the storage
//! exactly as it was.

pub mod auth;
pub mod error;
pub mod identity;
pub mod pocket;
pub mod pocket_laws;
pub mod sbt;
pub mod sbt_laws;
