//! The errors the escrow engine surfaces to its callers.
//!
//! None of them is retried inside the engine: retrying is a caller decision,
//! and a failed operation leaves the state exactly as it was.

use vstd::prelude::*;

verus! {

/// Why an escrow operation was refused.
#[derive(Clone, Copy, Debug, PartialEq, Eq, Structural)]
pub enum EscrowError {
    /// A party does not hold enough of the asset a transfer needs.
    InsufficientFunds,
    /// The maker already has a live offer under this id.
    DuplicateOffer,
    /// No live offer exists under this `(maker, id)` pair.
    OfferNotFound,
    /// The caller is not the recorded maker of the offer.
    Unauthorized,
    /// No valid bump exists in the bounded search space for this
    /// `(maker, id)` pair; the same inputs will always fail.
    DerivationExhausted,
}

} // verus!
