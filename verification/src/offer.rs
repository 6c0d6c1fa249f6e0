//! The durable record of one outstanding exchange proposal.

use vstd::prelude::*;
use crate::address::Address;

verus! {

/// One outstanding exchange proposal: who made it, what is offered, what is
/// wanted, and the bump that reconstructs the vault authority's signing
/// capability. Never mutated after creation; destroyed by exactly one of
/// accept or cancel.
#[derive(Clone, Copy, Debug)]
pub struct Offer {
    /// Caller-chosen identifier, unique per maker.
    pub id: u64,
    /// The party who created the offer.
    pub maker: Address,
    /// The asset kind placed in custody.
    pub token_mint_a: Address,
    /// The asset kind required to accept.
    pub token_mint_b: Address,
    /// The quantity of `token_mint_b` required to accept.
    pub token_b_wanted_amount: u64,
    /// The derivation parameter of the vault authority.
    pub bump: u8,
}

} // verus!
