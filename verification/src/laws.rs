//! Protocol-wide laws, stated over the engine's specification functions and
//! proved once and for all.
//!
//! Together with the operations' own contracts these pin the lifecycle down:
//! an offer goes from nonexistent to live to destroyed, and a destroyed
//! offer behaves exactly like one that never existed.

use vstd::prelude::*;
use crate::engine::Escrow;
use crate::errors::EscrowError;

verus! {

/// Idempotence of absence: once no offer lives under `(maker, id)` — in
/// particular right after either `accept_offer` or `cancel_offer` succeeded
/// and destroyed it — any further accept or cancel of that pair is owed
/// exactly `OfferNotFound`, whichever operation ran first and whoever calls.
pub proof fn lemma_idempotence_of_absence(s: Escrow, party: Seq<u8>, maker: Seq<u8>, id: u64)
    requires
        !s.has_offer(maker, id),
    ensures
        s.accept_err(party, maker, id) == Some(EscrowError::OfferNotFound),
        s.cancel_err(party, maker, id) == Some(EscrowError::OfferNotFound),
{
}

/// Authorization: while an offer lives, a cancel by any identity other than
/// its recorded maker is owed exactly `Unauthorized` — and the operation's
/// own contract then leaves the whole state untouched.
pub proof fn lemma_cancel_requires_maker(s: Escrow, caller: Seq<u8>, maker: Seq<u8>, id: u64)
    requires
        s.spec_offer(maker, id) matches Some(o) && caller != o.maker@,
    ensures
        s.cancel_err(caller, maker, id) == Some(EscrowError::Unauthorized),
{
}

/// A live offer always records the maker it is filed under, so the
/// authorization check of `cancel_offer` compares against the key itself.
pub proof fn lemma_offer_maker_matches_key(s: Escrow, maker: Seq<u8>, id: u64)
    requires
        s.spec_offer(maker, id) is Some,
    ensures
        s.spec_offer(maker, id) matches Some(o) && o.maker@ == maker && o.id == id,
{
    s.lemma_offer_key(maker, id);
}

} // verus!
