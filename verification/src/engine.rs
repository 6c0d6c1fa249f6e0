//! The escrow protocol engine: one state value holding balances, offers and
//! vaults, and the three verified transitions over it.
//!
//! Each offer slot pairs the offer record with its vault: the two are created
//! together and destroyed together, so an offer exists exactly while a vault
//! with a strictly positive balance exists under the derived authority.

use vstd::prelude::*;
use crate::address::Address;
use crate::authority::derive_vault_authority;
use crate::authority::vault_authority_of;
use crate::errors::EscrowError;
use crate::ledger::BalanceSlot;
use crate::ledger::bal_of;
use crate::ledger::credit;
use crate::ledger::debit;
use crate::ledger::get_balance;
use crate::ledger::lemma_bal_le_sum;
use crate::ledger::sum_bal;
use crate::ledger::unique_bal_keys;
use crate::offer::Offer;

verus! {

/// One live offer with its vault: the record, the derived vault authority,
/// the custody balance of `offer.token_mint_a`, and the hosting deposit that
/// creating the pair took from the maker.
#[derive(Clone, Copy)]
pub(crate) struct OfferSlot {
    pub(crate) offer: Offer,
    pub(crate) authority: Address,
    pub(crate) vault_amount: u64,
    pub(crate) deposit: u64,
}

/// The slot the store `s` holds under `(maker, id)`, if any.
pub(crate) open spec fn offer_of(s: Seq<OfferSlot>, maker: Seq<u8>, id: u64) -> Option<OfferSlot>
    decreases s.len(),
{
    if s.len() == 0 {
        None
    } else if s.last().offer.maker@ == maker && s.last().offer.id == id {
        Some(s.last())
    } else {
        offer_of(s.drop_last(), maker, id)
    }
}

/// No two slots carry the same `(maker, id)` key.
pub(crate) open spec fn unique_offer_keys(s: Seq<OfferSlot>) -> bool {
    forall|i: int, j: int|
        0 <= i < j < s.len() ==> !(s[i].offer.maker@ == s[j].offer.maker@ && s[i].offer.id
            == s[j].offer.id)
}

/// The units held inside offer slots: every vault balance plus every hosting
/// deposit.
pub(crate) open spec fn sum_off(s: Seq<OfferSlot>) -> int
    decreases s.len(),
{
    if s.len() == 0 {
        0
    } else {
        sum_off(s.drop_last()) + s.last().vault_amount + s.last().deposit
    }
}

pub(crate) proof fn lemma_sum_off_nonneg(s: Seq<OfferSlot>)
    ensures
        sum_off(s) >= 0,
    decreases s.len(),
{
    if s.len() > 0 {
        lemma_sum_off_nonneg(s.drop_last());
    }
}

/// One slot's custody never exceeds the custody sum.
pub(crate) proof fn lemma_off_slot_le_sum(s: Seq<OfferSlot>, i: int)
    requires
        0 <= i < s.len(),
    ensures
        s[i].vault_amount + s[i].deposit <= sum_off(s),
    decreases s.len(),
{
    if i == s.len() - 1 {
        lemma_sum_off_nonneg(s.drop_last());
    } else {
        assert(s.drop_last()[i] == s[i]);
        lemma_off_slot_le_sum(s.drop_last(), i);
    }
}

/// A slot is what its own key reads back, when keys are unique.
pub(crate) proof fn lemma_offer_at_index(s: Seq<OfferSlot>, i: int)
    requires
        unique_offer_keys(s),
        0 <= i < s.len(),
    ensures
        offer_of(s, s[i].offer.maker@, s[i].offer.id) == Some(s[i]),
    decreases s.len(),
{
    if i == s.len() - 1 {
    } else {
        assert(s.drop_last()[i] == s[i]);
        lemma_offer_at_index(s.drop_last(), i);
    }
}

/// A key no slot carries reads back as nothing.
pub(crate) proof fn lemma_offer_absent(s: Seq<OfferSlot>, maker: Seq<u8>, id: u64)
    requires
        forall|k: int| 0 <= k < s.len() ==> !(s[k].offer.maker@ == maker && s[k].offer.id == id),
    ensures
        offer_of(s, maker, id) is None,
    decreases s.len(),
{
    if s.len() > 0 {
        assert(!(s[s.len() - 1].offer.maker@ == maker && s[s.len() - 1].offer.id == id));
        lemma_offer_absent(s.drop_last(), maker, id);
    }
}

/// Appending a slot under a fresh key adds exactly that offer and custody.
pub(crate) proof fn lemma_offer_push(s: Seq<OfferSlot>, e: OfferSlot)
    requires
        unique_offer_keys(s),
        forall|k: int|
            0 <= k < s.len() ==> !(s[k].offer.maker@ == e.offer.maker@ && s[k].offer.id
                == e.offer.id),
    ensures
        unique_offer_keys(s.push(e)),
        sum_off(s.push(e)) == sum_off(s) + e.vault_amount + e.deposit,
        forall|m: Seq<u8>, i: u64|
            offer_of(s.push(e), m, i) == if m == e.offer.maker@ && i == e.offer.id {
                Some(e)
            } else {
                offer_of(s, m, i)
            },
{
    let t = s.push(e);
    assert(t.drop_last() =~= s);
    assert(t.last() == e);
    assert(unique_offer_keys(t)) by {
        assert forall|a: int, b: int| 0 <= a < b < t.len() implies !(t[a].offer.maker@
            == t[b].offer.maker@ && t[a].offer.id == t[b].offer.id) by {
            if b < s.len() {
                assert(t[a] == s[a] && t[b] == s[b]);
            } else {
                assert(t[a] == s[a] && t[b] == e);
            }
        }
    }
}

/// Removing one slot takes exactly that offer and custody away.
pub(crate) proof fn lemma_offer_remove(s: Seq<OfferSlot>, i: int)
    requires
        unique_offer_keys(s),
        0 <= i < s.len(),
    ensures
        unique_offer_keys(s.remove(i)),
        sum_off(s.remove(i)) == sum_off(s) - s[i].vault_amount - s[i].deposit,
        forall|m: Seq<u8>, d: u64|
            offer_of(s.remove(i), m, d) == if m == s[i].offer.maker@ && d == s[i].offer.id {
                None::<OfferSlot>
            } else {
                offer_of(s, m, d)
            },
    decreases s.len(),
{
    let t = s.remove(i);
    assert(forall|k: int| 0 <= k < i ==> t[k] == s[k]);
    assert(forall|k: int| i <= k < t.len() ==> t[k] == s[k + 1]);
    assert(unique_offer_keys(t)) by {
        assert forall|a: int, b: int| 0 <= a < b < t.len() implies !(t[a].offer.maker@
            == t[b].offer.maker@ && t[a].offer.id == t[b].offer.id) by {
            let a2: int = if a < i { a } else { a + 1 };
            let b2: int = if b < i { b } else { b + 1 };
            assert(t[a] == s[a2] && t[b] == s[b2]);
        }
    }
    if i == s.len() - 1 {
        assert(t =~= s.drop_last());
        assert forall|m: Seq<u8>, d: u64|
            offer_of(t, m, d) == (if m == s[i].offer.maker@ && d == s[i].offer.id {
                None::<OfferSlot>
            } else {
                offer_of(s, m, d)
            }) by {
            if m == s[i].offer.maker@ && d == s[i].offer.id {
                assert(forall|k: int|
                    0 <= k < t.len() ==> !(t[k].offer.maker@ == m && t[k].offer.id == d));
                lemma_offer_absent(t, m, d);
            }
        }
    } else {
        assert(t.last() == s.last());
        assert(t.drop_last() =~= s.drop_last().remove(i));
        assert(s.drop_last()[i] == s[i]);
        lemma_offer_remove(s.drop_last(), i);
        assert(!(s[i].offer.maker@ == s[s.len() - 1].offer.maker@ && s[i].offer.id == s[s.len()
            - 1].offer.id));
        assert forall|m: Seq<u8>, d: u64|
            offer_of(t, m, d) == (if m == s[i].offer.maker@ && d == s[i].offer.id {
                None::<OfferSlot>
            } else {
                offer_of(s, m, d)
            }) by {
            if s.last().offer.maker@ == m && s.last().offer.id == d {
                assert(offer_of(t, m, d) == Some(t.last()));
                assert(offer_of(s, m, d) == Some(s.last()));
            } else {
                assert(offer_of(t, m, d) == offer_of(t.drop_last(), m, d));
                assert(offer_of(s, m, d) == offer_of(s.drop_last(), m, d));
            }
        }
    }
}

/// The slot a key reads back is filed under exactly that key.
pub(crate) proof fn lemma_offer_of_key(s: Seq<OfferSlot>, maker: Seq<u8>, id: u64)
    requires
        offer_of(s, maker, id) is Some,
    ensures
        offer_of(s, maker, id) matches Some(slot) && slot.offer.maker@ == maker && slot.offer.id
            == id,
    decreases s.len(),
{
    if s.len() > 0 {
        if s.last().offer.maker@ == maker && s.last().offer.id == id {
        } else {
            lemma_offer_of_key(s.drop_last(), maker, id);
        }
    }
}

/// Find the slot that carries `(maker, id)`, if any.
pub(crate) fn find_offer(v: &Vec<OfferSlot>, maker: &Address, id: u64) -> (r: Option<usize>)
    requires
        unique_offer_keys(v@),
    ensures
        match r {
            Some(i) => i < v@.len() && v@[i as int].offer.maker@ == maker@
                && v@[i as int].offer.id == id && offer_of(v@, maker@, id) == Some(v@[i as int]),
            None => {
                &&& forall|k: int|
                    0 <= k < v@.len() ==> !(v@[k].offer.maker@ == maker@ && v@[k].offer.id == id)
                &&& offer_of(v@, maker@, id) is None
            },
        },
{
    let n = v.len();
    let mut i: usize = 0;
    while i < n
        invariant
            unique_offer_keys(v@),
            n == v@.len(),
            i <= n,
            forall|k: int| 0 <= k < i ==> !(v@[k].offer.maker@ == maker@ && v@[k].offer.id == id),
        decreases n - i,
    {
        if v[i].offer.maker.same(maker) && v[i].offer.id == id {
            proof {
                lemma_offer_at_index(v@, i as int);
            }
            return Some(i);
        }
        i += 1;
    }
    proof {
        lemma_offer_absent(v@, maker@, id);
    }
    None
}

/// The escrow state: the balance ledger, the live offers with their vaults,
/// and the deployment constants. Every unit the engine ever touches is
/// accounted for in `held`, so no transfer can overflow.
pub struct Escrow {
    program_id: Address,
    native_mint: Address,
    rent_deposit: u64,
    held: u64,
    balances: Vec<BalanceSlot>,
    offers: Vec<OfferSlot>,
}

impl Escrow {
    /// The program id every vault authority is derived under.
    pub closed spec fn spec_program_id(self) -> Seq<u8> {
        self.program_id@
    }

    /// The asset that hosting deposits are paid in.
    pub closed spec fn spec_native_mint(self) -> Seq<u8> {
        self.native_mint@
    }

    /// The hosting deposit each offer-and-vault pair reserves.
    pub closed spec fn spec_rent_deposit(self) -> u64 {
        self.rent_deposit
    }

    /// Every unit in the engine's custody: all ledger balances plus all
    /// vault balances and hosting deposits. Transfers conserve it, and it
    /// fits in a `u64`, which is what rules overflow out.
    pub closed spec fn spec_total(self) -> u64 {
        self.held
    }

    /// The balance recorded under `(owner, mint)`; zero when none is.
    pub closed spec fn spec_balance_of(self, owner: Seq<u8>, mint: Seq<u8>) -> u64 {
        bal_of(self.balances@, owner, mint)
    }

    /// The live offer under `(maker, id)`, if any.
    pub closed spec fn spec_offer(self, maker: Seq<u8>, id: u64) -> Option<Offer> {
        match offer_of(self.offers@, maker, id) {
            Some(slot) => Some(slot.offer),
            None => None,
        }
    }

    /// Whether a live offer exists under `(maker, id)`.
    pub open spec fn has_offer(self, maker: Seq<u8>, id: u64) -> bool {
        self.spec_offer(maker, id) is Some
    }

    /// The balance of the vault tied to `(maker, id)`; zero once the offer
    /// is gone, since offer and vault only exist together.
    pub closed spec fn spec_vault_balance(self, maker: Seq<u8>, id: u64) -> u64 {
        match offer_of(self.offers@, maker, id) {
            Some(slot) => slot.vault_amount,
            None => 0,
        }
    }

    /// Internal consistency: unique keys in both stores, every vault
    /// strictly positive and tied to its derived authority, and `held`
    /// equal to the sum of everything in custody.
    pub closed spec fn wf(self) -> bool {
        &&& unique_bal_keys(self.balances@)
        &&& unique_offer_keys(self.offers@)
        &&& forall|k: int|
            0 <= k < self.offers@.len() ==> {
                let slot = #[trigger] self.offers@[k];
                &&& slot.vault_amount >= 1
                &&& slot.deposit == self.rent_deposit
                &&& vault_authority_of(self.program_id@, slot.offer.maker@, slot.offer.id)
                    == Some((slot.authority@, slot.offer.bump))
            }
        &&& self.held == sum_bal(self.balances@) + sum_off(self.offers@)
    }

    /// The deployment constants one state change keeps.
    pub open spec fn same_config(self, other: Escrow) -> bool {
        &&& self.spec_program_id() == other.spec_program_id()
        &&& self.spec_native_mint() == other.spec_native_mint()
        &&& self.spec_rent_deposit() == other.spec_rent_deposit()
    }

    /// An empty engine for a deployment: no balances, no offers.
    pub fn new(program_id: Address, native_mint: Address, rent_deposit: u64) -> (r: Escrow)
        ensures
            r.wf(),
            r.spec_program_id() == program_id@,
            r.spec_native_mint() == native_mint@,
            r.spec_rent_deposit() == rent_deposit,
            r.spec_total() == 0,
            forall|o: Seq<u8>, m: Seq<u8>| r.spec_balance_of(o, m) == 0,
            forall|m: Seq<u8>, i: u64| !r.has_offer(m, i),
    {
        Escrow {
            program_id,
            native_mint,
            rent_deposit,
            held: 0,
            balances: Vec::new(),
            offers: Vec::new(),
        }
    }

    /// The balance recorded under `(owner, mint)`.
    pub fn balance_of(&self, owner: &Address, mint: &Address) -> (r: u64)
        requires
            self.wf(),
        ensures
            r == self.spec_balance_of(owner@, mint@),
    {
        get_balance(&self.balances, owner, mint)
    }

    /// The live offer under `(maker, id)`, if any.
    pub fn get_offer(&self, maker: &Address, id: u64) -> (r: Option<Offer>)
        requires
            self.wf(),
        ensures
            r == self.spec_offer(maker@, id),
    {
        match find_offer(&self.offers, maker, id) {
            Some(i) => Some(self.offers[i].offer),
            None => None,
        }
    }

    /// The balance of the vault tied to `(maker, id)`; zero when the offer
    /// does not exist.
    pub fn vault_balance(&self, maker: &Address, id: u64) -> (r: u64)
        requires
            self.wf(),
        ensures
            r == self.spec_vault_balance(maker@, id),
    {
        match find_offer(&self.offers, maker, id) {
            Some(i) => self.offers[i].vault_amount,
            None => 0,
        }
    }

    /// The derived authority that exclusively owns the vault of
    /// `(maker, id)`, while the offer lives.
    pub fn vault_authority(&self, maker: &Address, id: u64) -> (r: Option<Address>)
        requires
            self.wf(),
        ensures
            match r {
                Some(a) => self.spec_offer(maker@, id) matches Some(o) && vault_authority_of(
                    self.spec_program_id(),
                    maker@,
                    id,
                ) == Some((a@, o.bump)),
                None => !self.has_offer(maker@, id),
            },
    {
        match find_offer(&self.offers, maker, id) {
            Some(i) => Some(self.offers[i].authority),
            None => None,
        }
    }

    /// Put `amount` fresh units of `mint` into `owner`'s balance, the way
    /// the platform's minting would. Refused only when the engine's total
    /// custody would no longer fit in a `u64`.
    pub fn deposit(&mut self, owner: &Address, mint: &Address, amount: u64) -> (r: bool)
        requires
            old(self).wf(),
        ensures
            final(self).wf(),
            old(self).same_config(*final(self)),
            r == (old(self).spec_total() + amount <= u64::MAX),
            !r ==> *final(self) == *old(self),
            r ==> final(self).spec_total() == old(self).spec_total() + amount,
            r ==> forall|o: Seq<u8>, m: Seq<u8>|
                final(self).spec_balance_of(o, m) as int == if o == owner@ && m == mint@ {
                    old(self).spec_balance_of(o, m) + amount
                } else {
                    old(self).spec_balance_of(o, m) as int
                },
            forall|m: Seq<u8>, i: u64|
                final(self).spec_offer(m, i) == old(self).spec_offer(m, i)
                    && final(self).spec_vault_balance(m, i) == old(self).spec_vault_balance(m, i),
    {
        match self.held.checked_add(amount) {
            Some(new_held) => {
                proof {
                    lemma_bal_le_sum(self.balances@, owner@, mint@);
                    lemma_sum_off_nonneg(self.offers@);
                }
                self.held = new_held;
                credit(&mut self.balances, owner, mint, amount);
                true
            },
            None => false,
        }
    }

    /// The maker's balance of the deposit asset once the offered amount is
    /// taken out: what is left to cover the hosting deposit.
    pub open spec fn native_left_after(
        self,
        maker: Seq<u8>,
        mint_a: Seq<u8>,
        amount_offered: u64,
    ) -> int {
        if mint_a == self.spec_native_mint() {
            self.spec_balance_of(maker, mint_a) - amount_offered
        } else {
            self.spec_balance_of(maker, self.spec_native_mint()) as int
        }
    }

    /// The error `create_offer` surfaces on this state, if any; `None` says
    /// the call is owed success.
    pub open spec fn create_err(
        self,
        maker: Seq<u8>,
        id: u64,
        mint_a: Seq<u8>,
        amount_offered: u64,
    ) -> Option<EscrowError> {
        if vault_authority_of(self.spec_program_id(), maker, id) is None {
            Some(EscrowError::DerivationExhausted)
        } else if self.has_offer(maker, id) {
            Some(EscrowError::DuplicateOffer)
        } else if self.spec_balance_of(maker, mint_a) < amount_offered {
            Some(EscrowError::InsufficientFunds)
        } else if self.native_left_after(maker, mint_a, amount_offered) < self.spec_rent_deposit() {
            Some(EscrowError::InsufficientFunds)
        } else {
            None
        }
    }

    /// Open an offer: derive the vault authority, move `amount_offered` of
    /// `token_mint_a` and the hosting deposit from the maker into custody,
    /// and persist the record. All-or-nothing: on any error the state is
    /// exactly as before.
    pub fn create_offer(
        &mut self,
        maker: &Address,
        id: u64,
        token_mint_a: &Address,
        amount_offered: u64,
        token_mint_b: &Address,
        token_b_wanted_amount: u64,
    ) -> (r: Result<(), EscrowError>)
        requires
            old(self).wf(),
            amount_offered >= 1,
        ensures
            final(self).wf(),
            old(self).same_config(*final(self)),
            final(self).spec_total() == old(self).spec_total(),
            r matches Err(e) ==> old(self).create_err(maker@, id, token_mint_a@, amount_offered)
                == Some(e) && *final(self) == *old(self),
            r is Ok ==> old(self).create_err(maker@, id, token_mint_a@, amount_offered) is None,
            r is Ok ==> (final(self).spec_offer(maker@, id) matches Some(o) && o.id == id
                && o.maker@ == maker@ && o.token_mint_a@ == token_mint_a@ && o.token_mint_b@
                == token_mint_b@ && o.token_b_wanted_amount == token_b_wanted_amount
                && vault_authority_of(old(self).spec_program_id(), maker@, id) == Some(
                (final(self).spec_vault_authority_key(maker@, id), o.bump))),
            r is Ok ==> final(self).spec_vault_balance(maker@, id) == amount_offered,
            r is Ok ==> forall|m2: Seq<u8>, i2: u64|
                !(m2 == maker@ && i2 == id) ==> final(self).spec_offer(m2, i2) == old(
                    self,
                ).spec_offer(m2, i2) && final(self).spec_vault_balance(m2, i2) == old(
                    self,
                ).spec_vault_balance(m2, i2),
            r is Ok ==> forall|o: Seq<u8>, m: Seq<u8>|
                final(self).spec_balance_of(o, m) as int == old(self).spec_balance_of(o, m) - (
                if o == maker@ && m == token_mint_a@ {
                    amount_offered as int
                } else {
                    0
                }) - (if o == maker@ && m == old(self).spec_native_mint() {
                    old(self).spec_rent_deposit() as int
                } else {
                    0
                }),
    {
        let (authority, bump) = match derive_vault_authority(&self.program_id, maker, id) {
            Some(p) => p,
            None => {
                return Err(EscrowError::DerivationExhausted);
            },
        };
        match find_offer(&self.offers, maker, id) {
            Some(_) => {
                return Err(EscrowError::DuplicateOffer);
            },
            None => {},
        }
        let bal_a = get_balance(&self.balances, maker, token_mint_a);
        if bal_a < amount_offered {
            return Err(EscrowError::InsufficientFunds);
        }
        let native_left = if token_mint_a.same(&self.native_mint) {
            bal_a - amount_offered
        } else {
            get_balance(&self.balances, maker, &self.native_mint)
        };
        if native_left < self.rent_deposit {
            return Err(EscrowError::InsufficientFunds);
        }
        let rent = self.rent_deposit;
        debit(&mut self.balances, maker, token_mint_a, amount_offered);
        debit(&mut self.balances, maker, &self.native_mint, rent);
        let slot = OfferSlot {
            offer: Offer {
                id,
                maker: *maker,
                token_mint_a: *token_mint_a,
                token_mint_b: *token_mint_b,
                token_b_wanted_amount,
                bump,
            },
            authority,
            vault_amount: amount_offered,
            deposit: rent,
        };
        proof {
            lemma_offer_push(self.offers@, slot);
        }
        self.offers.push(slot);
        Ok(())
    }

    /// The derived key that owns the vault of `(maker, id)`, as the store
    /// records it; the empty byte string when the offer does not exist.
    pub closed spec fn spec_vault_authority_key(self, maker: Seq<u8>, id: u64) -> Seq<u8> {
        match offer_of(self.offers@, maker, id) {
            Some(slot) => slot.authority@,
            None => Seq::empty(),
        }
    }

    /// A live offer always records the maker and id it is filed under.
    pub proof fn lemma_offer_key(self, maker: Seq<u8>, id: u64)
        requires
            self.spec_offer(maker, id) is Some,
        ensures
            self.spec_offer(maker, id) matches Some(o) && o.maker@ == maker && o.id == id,
    {
        lemma_offer_of_key(self.offers@, maker, id);
    }

    /// The error `accept_offer` surfaces on this state, if any; `None` says
    /// the call is owed success.
    pub open spec fn accept_err(self, taker: Seq<u8>, maker: Seq<u8>, id: u64) -> Option<
        EscrowError,
    > {
        match self.spec_offer(maker, id) {
            None => Some(EscrowError::OfferNotFound),
            Some(o) => if self.spec_balance_of(taker, o.token_mint_b@) < o.token_b_wanted_amount {
                Some(EscrowError::InsufficientFunds)
            } else {
                None
            },
        }
    }

    /// The error `cancel_offer` surfaces on this state, if any; `None` says
    /// the call is owed success. Authorization is identity equality with the
    /// recorded maker, not mere signature presence.
    pub open spec fn cancel_err(self, caller: Seq<u8>, maker: Seq<u8>, id: u64) -> Option<
        EscrowError,
    > {
        match self.spec_offer(maker, id) {
            None => Some(EscrowError::OfferNotFound),
            Some(o) => if caller != o.maker@ {
                Some(EscrowError::Unauthorized)
            } else {
                None
            },
        }
    }

    /// Accept the offer `(maker, id)`: move the wanted amount of
    /// `token_mint_b` from the taker to the maker, release the vault's whole
    /// balance of `token_mint_a` to the taker, return the hosting deposit to
    /// the maker, and destroy offer and vault. One indivisible unit: custody
    /// is never released without the counter-payment, and on any error the
    /// state is exactly as before.
    pub fn accept_offer(&mut self, taker: &Address, maker: &Address, id: u64) -> (r: Result<
        (),
        EscrowError,
    >)
        requires
            old(self).wf(),
        ensures
            final(self).wf(),
            old(self).same_config(*final(self)),
            final(self).spec_total() == old(self).spec_total(),
            r matches Err(e) ==> old(self).accept_err(taker@, maker@, id) == Some(e)
                && *final(self) == *old(self),
            r is Ok ==> old(self).accept_err(taker@, maker@, id) is None,
            r is Ok ==> !final(self).has_offer(maker@, id) && final(self).spec_vault_balance(
                maker@,
                id,
            ) == 0,
            r is Ok ==> forall|m2: Seq<u8>, i2: u64|
                !(m2 == maker@ && i2 == id) ==> final(self).spec_offer(m2, i2) == old(
                    self,
                ).spec_offer(m2, i2) && final(self).spec_vault_balance(m2, i2) == old(
                    self,
                ).spec_vault_balance(m2, i2),
            r is Ok ==> (old(self).spec_offer(maker@, id) matches Some(o) && forall|
                a: Seq<u8>,
                m: Seq<u8>,
            |
                final(self).spec_balance_of(a, m) as int == old(self).spec_balance_of(a, m) - (
                if a == taker@ && m == o.token_mint_b@ {
                    o.token_b_wanted_amount as int
                } else {
                    0
                }) + (if a == maker@ && m == o.token_mint_b@ {
                    o.token_b_wanted_amount as int
                } else {
                    0
                }) + (if a == taker@ && m == o.token_mint_a@ {
                    old(self).spec_vault_balance(maker@, id) as int
                } else {
                    0
                }) + (if a == maker@ && m == old(self).spec_native_mint() {
                    old(self).spec_rent_deposit() as int
                } else {
                    0
                })),
            r is Ok ==> (old(self).spec_offer(maker@, id) matches Some(o) && (taker@ != maker@
                && o.token_mint_b@ != old(self).spec_native_mint() ==> final(self).spec_balance_of(
                maker@,
                o.token_mint_b@,
            ) == old(self).spec_balance_of(maker@, o.token_mint_b@)
                + o.token_b_wanted_amount)),
            r is Ok ==> (old(self).spec_offer(maker@, id) matches Some(o) && (taker@ != maker@
                && o.token_mint_a@ != o.token_mint_b@ ==> final(self).spec_balance_of(
                taker@,
                o.token_mint_a@,
            ) == old(self).spec_balance_of(taker@, o.token_mint_a@) + old(
                self,
            ).spec_vault_balance(maker@, id))),
    {
        let i = match find_offer(&self.offers, maker, id) {
            None => {
                return Err(EscrowError::OfferNotFound);
            },
            Some(i) => i,
        };
        let slot = self.offers[i];
        let wanted = slot.offer.token_b_wanted_amount;
        if get_balance(&self.balances, taker, &slot.offer.token_mint_b) < wanted {
            return Err(EscrowError::InsufficientFunds);
        }
        proof {
            lemma_sum_off_nonneg(self.offers@);
            lemma_off_slot_le_sum(self.offers@, i as int);
        }
        debit(&mut self.balances, taker, &slot.offer.token_mint_b, wanted);
        proof {
            lemma_bal_le_sum(self.balances@, slot.offer.maker@, slot.offer.token_mint_b@);
        }
        credit(&mut self.balances, &slot.offer.maker, &slot.offer.token_mint_b, wanted);
        proof {
            lemma_bal_le_sum(self.balances@, taker@, slot.offer.token_mint_a@);
        }
        credit(&mut self.balances, taker, &slot.offer.token_mint_a, slot.vault_amount);
        proof {
            lemma_bal_le_sum(self.balances@, slot.offer.maker@, self.native_mint@);
        }
        credit(&mut self.balances, &slot.offer.maker, &self.native_mint, slot.deposit);
        proof {
            lemma_offer_remove(self.offers@, i as int);
        }
        let ghost before_removal = self.offers@;
        self.offers.remove(i);
        proof {
            assert forall|k: int| 0 <= k < self.offers@.len() implies {
                let s = #[trigger] self.offers@[k];
                &&& s.vault_amount >= 1
                &&& s.deposit == self.rent_deposit
                &&& vault_authority_of(self.program_id@, s.offer.maker@, s.offer.id) == Some(
                    (s.authority@, s.offer.bump))
            } by {
                if k < i {
                    assert(self.offers@[k] == before_removal[k]);
                } else {
                    assert(self.offers@[k] == before_removal[k + 1]);
                }
            }
        }
        Ok(())
    }

    /// Cancel the offer `(maker, id)`: only the recorded maker may, by
    /// identity equality. The vault's whole balance of `token_mint_a` and
    /// the hosting deposit go back to the maker, and offer and vault are
    /// destroyed. On any error the state is exactly as before.
    pub fn cancel_offer(&mut self, caller: &Address, maker: &Address, id: u64) -> (r: Result<
        (),
        EscrowError,
    >)
        requires
            old(self).wf(),
        ensures
            final(self).wf(),
            old(self).same_config(*final(self)),
            final(self).spec_total() == old(self).spec_total(),
            r matches Err(e) ==> old(self).cancel_err(caller@, maker@, id) == Some(e)
                && *final(self) == *old(self),
            r is Ok ==> old(self).cancel_err(caller@, maker@, id) is None,
            r is Ok ==> !final(self).has_offer(maker@, id) && final(self).spec_vault_balance(
                maker@,
                id,
            ) == 0,
            r is Ok ==> forall|m2: Seq<u8>, i2: u64|
                !(m2 == maker@ && i2 == id) ==> final(self).spec_offer(m2, i2) == old(
                    self,
                ).spec_offer(m2, i2) && final(self).spec_vault_balance(m2, i2) == old(
                    self,
                ).spec_vault_balance(m2, i2),
            r is Ok ==> (old(self).spec_offer(maker@, id) matches Some(o) && forall|
                a: Seq<u8>,
                m: Seq<u8>,
            |
                final(self).spec_balance_of(a, m) as int == old(self).spec_balance_of(a, m) + (
                if a == maker@ && m == o.token_mint_a@ {
                    old(self).spec_vault_balance(maker@, id) as int
                } else {
                    0
                }) + (if a == maker@ && m == old(self).spec_native_mint() {
                    old(self).spec_rent_deposit() as int
                } else {
                    0
                })),
    {
        let i = match find_offer(&self.offers, maker, id) {
            None => {
                return Err(EscrowError::OfferNotFound);
            },
            Some(i) => i,
        };
        let slot = self.offers[i];
        if !caller.same(&slot.offer.maker) {
            return Err(EscrowError::Unauthorized);
        }
        proof {
            lemma_sum_off_nonneg(self.offers@);
            lemma_off_slot_le_sum(self.offers@, i as int);
            lemma_bal_le_sum(self.balances@, slot.offer.maker@, slot.offer.token_mint_a@);
        }
        credit(&mut self.balances, &slot.offer.maker, &slot.offer.token_mint_a, slot.vault_amount);
        proof {
            lemma_bal_le_sum(self.balances@, slot.offer.maker@, self.native_mint@);
        }
        credit(&mut self.balances, &slot.offer.maker, &self.native_mint, slot.deposit);
        proof {
            lemma_offer_remove(self.offers@, i as int);
        }
        let ghost before_removal = self.offers@;
        self.offers.remove(i);
        proof {
            assert forall|k: int| 0 <= k < self.offers@.len() implies {
                let s = #[trigger] self.offers@[k];
                &&& s.vault_amount >= 1
                &&& s.deposit == self.rent_deposit
                &&& vault_authority_of(self.program_id@, s.offer.maker@, s.offer.id) == Some(
                    (s.authority@, s.offer.bump))
            } by {
                if k < i {
                    assert(self.offers@[k] == before_removal[k]);
                } else {
                    assert(self.offers@[k] == before_removal[k + 1]);
                }
            }
        }
        Ok(())
    }
}

} // verus!
