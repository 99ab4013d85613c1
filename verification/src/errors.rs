//! The error taxonomy: every aborting condition of a call maps to one kind.

use vstd::prelude::*;

verus! {

/// Why a call was aborted. An error means the whole call takes no effect.
#[derive(Clone, Copy, PartialEq, Eq, Structural, Debug)]
pub enum OracleError {
    /// Mismatched batch lengths, an empty batch, or an unknown ticker,
    /// provider, or request id.
    ValidationError,
    /// The attached payment does not cover what the call demands.
    PaymentInsufficientError,
    /// A storage cost or withdrawal exceeds the prepaid available balance.
    StorageInsufficientError,
    /// The caller is not allowed to make this call.
    AuthorizationError,
}

} // verus!
