//! The ways in which an operation can fail.

use vstd::prelude::*;

verus! {

/// Why an operation was refused. A refused operation never changes storage.
#[derive(Clone, Copy, Debug, PartialEq, Eq, Structural)]
pub enum Error {
    /// A deposit or withdrawal amount was zero or negative.
    InvalidAmount,
    /// No pocket has the given identifier, or the identity holds no credential.
    NotFound,
    /// The required identity did not authorize the call, or is not the owner.
    Unauthorized,
    /// A withdrawal asked for more than the pocket holds.
    InsufficientBalance,
    /// The registry already has an administrator.
    AlreadyInitialized,
    /// The registry has no administrator yet.
    NotInitialized,
    /// The recipient already holds a credential.
    AlreadyHoldsCredential,
    /// The result does not fit in a signed 128-bit integer.
    ArithmeticOverflow,
}

} // verus!
