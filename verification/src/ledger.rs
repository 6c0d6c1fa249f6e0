//! The balance ledger: how much of each asset each party holds.
//!
//! Balances live in a vector of slots keyed by `(owner, mint)`; the key of a
//! slot never repeats. `bal_of` reads the ledger as a total function from
//! keys to amounts, and `credit` / `debit` are the only writers.

use vstd::prelude::*;
use crate::address::Address;

verus! {

/// One ledger slot: `owner` holds `amount` units of the asset `mint`.
#[derive(Clone, Copy)]
pub(crate) struct BalanceSlot {
    pub(crate) owner: Address,
    pub(crate) mint: Address,
    pub(crate) amount: u64,
}

/// The amount the ledger `s` records under `(owner, mint)`; zero when no
/// slot carries that key.
pub(crate) open spec fn bal_of(s: Seq<BalanceSlot>, owner: Seq<u8>, mint: Seq<u8>) -> u64
    decreases s.len(),
{
    if s.len() == 0 {
        0u64
    } else if s.last().owner@ == owner && s.last().mint@ == mint {
        s.last().amount
    } else {
        bal_of(s.drop_last(), owner, mint)
    }
}

/// No two slots carry the same `(owner, mint)` key.
pub(crate) open spec fn unique_bal_keys(s: Seq<BalanceSlot>) -> bool {
    forall|i: int, j: int|
        0 <= i < j < s.len() ==> !(s[i].owner@ == s[j].owner@ && s[i].mint@ == s[j].mint@)
}

/// The sum of every amount the ledger records.
pub(crate) open spec fn sum_bal(s: Seq<BalanceSlot>) -> int
    decreases s.len(),
{
    if s.len() == 0 {
        0
    } else {
        sum_bal(s.drop_last()) + s.last().amount
    }
}

pub(crate) proof fn lemma_sum_bal_nonneg(s: Seq<BalanceSlot>)
    ensures
        sum_bal(s) >= 0,
    decreases s.len(),
{
    if s.len() > 0 {
        lemma_sum_bal_nonneg(s.drop_last());
    }
}

/// No single balance exceeds the ledger's sum.
pub(crate) proof fn lemma_bal_le_sum(s: Seq<BalanceSlot>, owner: Seq<u8>, mint: Seq<u8>)
    ensures
        bal_of(s, owner, mint) <= sum_bal(s),
    decreases s.len(),
{
    if s.len() > 0 {
        if s.last().owner@ == owner && s.last().mint@ == mint {
            lemma_sum_bal_nonneg(s.drop_last());
        } else {
            lemma_bal_le_sum(s.drop_last(), owner, mint);
        }
    }
}

/// A slot's amount is the balance its key reads back, when keys are unique.
pub(crate) proof fn lemma_bal_at_index(s: Seq<BalanceSlot>, i: int)
    requires
        unique_bal_keys(s),
        0 <= i < s.len(),
    ensures
        bal_of(s, s[i].owner@, s[i].mint@) == s[i].amount,
    decreases s.len(),
{
    if i == s.len() - 1 {
    } else {
        assert(s.drop_last()[i] == s[i]);
        lemma_bal_at_index(s.drop_last(), i);
    }
}

/// A key no slot carries reads back as zero.
pub(crate) proof fn lemma_bal_absent(s: Seq<BalanceSlot>, owner: Seq<u8>, mint: Seq<u8>)
    requires
        forall|k: int| 0 <= k < s.len() ==> !(s[k].owner@ == owner && s[k].mint@ == mint),
    ensures
        bal_of(s, owner, mint) == 0,
    decreases s.len(),
{
    if s.len() > 0 {
        assert(!(s[s.len() - 1].owner@ == owner && s[s.len() - 1].mint@ == mint));
        lemma_bal_absent(s.drop_last(), owner, mint);
    }
}

/// Replacing one slot's amount moves exactly that key's balance and the sum.
pub(crate) proof fn lemma_bal_update(s: Seq<BalanceSlot>, i: int, e: BalanceSlot)
    requires
        unique_bal_keys(s),
        0 <= i < s.len(),
        e.owner@ == s[i].owner@,
        e.mint@ == s[i].mint@,
    ensures
        unique_bal_keys(s.update(i, e)),
        sum_bal(s.update(i, e)) == sum_bal(s) - s[i].amount + e.amount,
        forall|o: Seq<u8>, m: Seq<u8>|
            bal_of(s.update(i, e), o, m) == if o == e.owner@ && m == e.mint@ {
                e.amount
            } else {
                bal_of(s, o, m)
            },
    decreases s.len(),
{
    let t = s.update(i, e);
    assert(unique_bal_keys(t)) by {
        assert forall|a: int, b: int| 0 <= a < b < t.len() implies !(t[a].owner@ == t[b].owner@
            && t[a].mint@ == t[b].mint@) by {
            assert(t[a].owner@ == s[a].owner@ && t[a].mint@ == s[a].mint@);
            assert(t[b].owner@ == s[b].owner@ && t[b].mint@ == s[b].mint@);
        }
    }
    if i == s.len() - 1 {
        assert(t.drop_last() =~= s.drop_last());
        assert forall|o: Seq<u8>, m: Seq<u8>|
            bal_of(t, o, m) == if o == e.owner@ && m == e.mint@ {
                e.amount
            } else {
                bal_of(s, o, m)
            } by {
            if !(o == e.owner@ && m == e.mint@) {
                assert(bal_of(t, o, m) == bal_of(t.drop_last(), o, m));
            }
        }
    } else {
        assert(t.drop_last() =~= s.drop_last().update(i, e));
        assert(s.drop_last()[i] == s[i]);
        lemma_bal_update(s.drop_last(), i, e);
        assert(t.last() == s.last());
        assert(!(s.last().owner@ == e.owner@ && s.last().mint@ == e.mint@)) by {
            assert(s[s.len() - 1] == s.last());
        }
        assert forall|o: Seq<u8>, m: Seq<u8>|
            bal_of(t, o, m) == if o == e.owner@ && m == e.mint@ {
                e.amount
            } else {
                bal_of(s, o, m)
            } by {
            if o == e.owner@ && m == e.mint@ {
                assert(bal_of(t, o, m) == bal_of(t.drop_last(), o, m));
            } else {
                if s.last().owner@ == o && s.last().mint@ == m {
                } else {
                    assert(bal_of(t, o, m) == bal_of(t.drop_last(), o, m));
                }
            }
        }
    }
}

/// Appending a slot under a fresh key adds exactly that balance and amount.
pub(crate) proof fn lemma_bal_push(s: Seq<BalanceSlot>, e: BalanceSlot)
    requires
        unique_bal_keys(s),
        forall|k: int| 0 <= k < s.len() ==> !(s[k].owner@ == e.owner@ && s[k].mint@ == e.mint@),
    ensures
        unique_bal_keys(s.push(e)),
        sum_bal(s.push(e)) == sum_bal(s) + e.amount,
        forall|o: Seq<u8>, m: Seq<u8>|
            bal_of(s.push(e), o, m) == if o == e.owner@ && m == e.mint@ {
                e.amount
            } else {
                bal_of(s, o, m)
            },
{
    let t = s.push(e);
    assert(t.drop_last() =~= s);
    assert(t.last() == e);
    assert(unique_bal_keys(t)) by {
        assert forall|a: int, b: int| 0 <= a < b < t.len() implies !(t[a].owner@ == t[b].owner@
            && t[a].mint@ == t[b].mint@) by {
            if b < s.len() {
                assert(t[a] == s[a] && t[b] == s[b]);
            } else {
                assert(t[a] == s[a] && t[b] == e);
            }
        }
    }
}

/// Find the slot that carries `(owner, mint)`, if any.
pub(crate) fn find_balance(v: &Vec<BalanceSlot>, owner: &Address, mint: &Address) -> (r: Option<
    usize,
>)
    requires
        unique_bal_keys(v@),
    ensures
        match r {
            Some(i) => i < v@.len() && v@[i as int].owner@ == owner@ && v@[i as int].mint@
                == mint@ && v@[i as int].amount == bal_of(v@, owner@, mint@),
            None => {
                &&& forall|k: int|
                    0 <= k < v@.len() ==> !(v@[k].owner@ == owner@ && v@[k].mint@ == mint@)
                &&& bal_of(v@, owner@, mint@) == 0
            },
        },
{
    let n = v.len();
    let mut i: usize = 0;
    while i < n
        invariant
            unique_bal_keys(v@),
            n == v@.len(),
            i <= n,
            forall|k: int| 0 <= k < i ==> !(v@[k].owner@ == owner@ && v@[k].mint@ == mint@),
        decreases n - i,
    {
        if v[i].owner.same(owner) && v[i].mint.same(mint) {
            proof {
                lemma_bal_at_index(v@, i as int);
            }
            return Some(i);
        }
        i += 1;
    }
    proof {
        lemma_bal_absent(v@, owner@, mint@);
    }
    None
}

/// The balance the ledger records under `(owner, mint)`.
pub(crate) fn get_balance(v: &Vec<BalanceSlot>, owner: &Address, mint: &Address) -> (r: u64)
    requires
        unique_bal_keys(v@),
    ensures
        r == bal_of(v@, owner@, mint@),
{
    match find_balance(v, owner, mint) {
        Some(i) => v[i].amount,
        None => 0,
    }
}

/// Add `amount` to the balance under `(owner, mint)`, growing the ledger by
/// one slot when the key is new.
pub(crate) fn credit(v: &mut Vec<BalanceSlot>, owner: &Address, mint: &Address, amount: u64)
    requires
        unique_bal_keys(old(v)@),
        bal_of(old(v)@, owner@, mint@) + amount <= u64::MAX,
    ensures
        unique_bal_keys(final(v)@),
        sum_bal(final(v)@) == sum_bal(old(v)@) + amount,
        forall|o: Seq<u8>, m: Seq<u8>|
            bal_of(final(v)@, o, m) as int == if o == owner@ && m == mint@ {
                bal_of(old(v)@, o, m) + amount
            } else {
                bal_of(old(v)@, o, m) as int
            },
{
    match find_balance(v, owner, mint) {
        Some(i) => {
            let slot = v[i];
            let updated = BalanceSlot { owner: slot.owner, mint: slot.mint, amount: slot.amount
                + amount };
            proof {
                lemma_bal_update(v@, i as int, updated);
            }
            v.set(i, updated);
        },
        None => {
            let fresh = BalanceSlot { owner: *owner, mint: *mint, amount };
            proof {
                lemma_bal_push(v@, fresh);
            }
            v.push(fresh);
        },
    }
}

/// Take `amount` from the balance under `(owner, mint)`, which must cover it.
pub(crate) fn debit(v: &mut Vec<BalanceSlot>, owner: &Address, mint: &Address, amount: u64)
    requires
        unique_bal_keys(old(v)@),
        bal_of(old(v)@, owner@, mint@) >= amount,
    ensures
        unique_bal_keys(final(v)@),
        sum_bal(final(v)@) == sum_bal(old(v)@) - amount,
        forall|o: Seq<u8>, m: Seq<u8>|
            bal_of(final(v)@, o, m) as int == if o == owner@ && m == mint@ {
                bal_of(old(v)@, o, m) - amount
            } else {
                bal_of(old(v)@, o, m) as int
            },
{
    match find_balance(v, owner, mint) {
        Some(i) => {
            let slot = v[i];
            let updated = BalanceSlot { owner: slot.owner, mint: slot.mint, amount: slot.amount
                - amount };
            proof {
                lemma_bal_update(v@, i as int, updated);
            }
            v.set(i, updated);
        },
        None => {
            // No slot means the balance is zero, so the covered amount is
            // zero too and there is nothing to move.
        },
    }
}

} // verus!
