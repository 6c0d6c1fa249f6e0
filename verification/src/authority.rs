//! The authority deriver: a pure, non-forgeable vault identity from
//! `(maker, id)`.
//!
//! The platform's program-derived-address scheme turns a list of seed byte
//! strings and a program id into an address with no private key, plus the
//! bump that made the derivation land off-curve. The engine uses the derived
//! address as the exclusive owner of each offer's vault.

use vstd::prelude::*;
use crate::address::Address;

verus! {

/// What the platform's program-derived-address search returns for three seed
/// byte strings and a program id: the derived address and its bump, or
/// nothing when no bump in the bounded search space yields a valid address.
/// The result is a function of the seeds and the program id alone.
pub uninterp spec fn pda_of(
    seed1: Seq<u8>,
    seed2: Seq<u8>,
    seed3: Seq<u8>,
    program: Seq<u8>,
) -> Option<(Seq<u8>, u8)>;

/// Relies on `solana_program::pubkey::Pubkey::try_find_program_address`:
/// the derived address and bump depend on the seeds and the program id
/// alone, and `None` comes only when no bump yields a valid address.
#[verifier::external_body]
fn find_program_address(
    seed1: &Vec<u8>,
    seed2: &Vec<u8>,
    seed3: &Vec<u8>,
    program: &Address,
) -> (r: Option<(Address, u8)>)
    ensures
        match r {
            Some(p) => pda_of(seed1@, seed2@, seed3@, program@) == Some((p.0@, p.1)),
            None => pda_of(seed1@, seed2@, seed3@, program@) is None,
        },
{
    let program_key = solana_program::pubkey::Pubkey::new_from_array(program.to_array());
    let seeds: [&[u8]; 3] = [seed1.as_slice(), seed2.as_slice(), seed3.as_slice()];
    match solana_program::pubkey::Pubkey::try_find_program_address(&seeds, &program_key) {
        Some((address, bump)) => Some((Address::new(address.to_bytes()), bump)),
        None => None,
    }
}

/// The domain tag that namespaces every vault authority derivation:
/// the bytes of the ASCII string "offer".
pub open spec fn offer_seed_tag() -> Seq<u8> {
    seq![111u8, 102u8, 102u8, 101u8, 114u8]
}

fn offer_tag() -> (r: Vec<u8>)
    ensures
        r@ == offer_seed_tag(),
{
    let mut v: Vec<u8> = Vec::new();
    v.push(111);
    v.push(102);
    v.push(102);
    v.push(101);
    v.push(114);
    assert(v@ =~= offer_seed_tag());
    v
}

/// An offer id as its eight little-endian bytes, the form it takes as a
/// derivation seed.
pub open spec fn u64_le_bytes(x: u64) -> Seq<u8> {
    seq![
        (x & 0xff) as u8,
        ((x >> 8) & 0xff) as u8,
        ((x >> 16) & 0xff) as u8,
        ((x >> 24) & 0xff) as u8,
        ((x >> 32) & 0xff) as u8,
        ((x >> 40) & 0xff) as u8,
        ((x >> 48) & 0xff) as u8,
        ((x >> 56) & 0xff) as u8,
    ]
}

fn encode_u64_le(x: u64) -> (r: Vec<u8>)
    ensures
        r@ == u64_le_bytes(x),
{
    let mut v: Vec<u8> = Vec::new();
    v.push((x & 0xff) as u8);
    v.push(((x >> 8) & 0xff) as u8);
    v.push(((x >> 16) & 0xff) as u8);
    v.push(((x >> 24) & 0xff) as u8);
    v.push(((x >> 32) & 0xff) as u8);
    v.push(((x >> 40) & 0xff) as u8);
    v.push(((x >> 48) & 0xff) as u8);
    v.push(((x >> 56) & 0xff) as u8);
    assert(v@ =~= u64_le_bytes(x));
    v
}

/// The vault authority for `(maker, id)` under `program`: the derivation is
/// a pure function, so identical inputs always yield the identical
/// `(authority, bump)` pair.
pub open spec fn vault_authority_of(
    program: Seq<u8>,
    maker: Seq<u8>,
    id: u64,
) -> Option<(Seq<u8>, u8)> {
    pda_of(offer_seed_tag(), maker, u64_le_bytes(id), program)
}

/// Derive the vault authority for `(maker, id)` under `program`.
///
/// Anybody who knows the inputs can recompute the result; only the protocol
/// itself can exercise the authority. `None` means the bounded bump search
/// is exhausted for these exact inputs, which no retry can mend.
pub fn derive_vault_authority(program: &Address, maker: &Address, id: u64) -> (r: Option<
    (Address, u8),
>)
    ensures
        match r {
            Some(p) => vault_authority_of(program@, maker@, id) == Some((p.0@, p.1)),
            None => vault_authority_of(program@, maker@, id) is None,
        },
{
    let tag = offer_tag();
    let maker_bytes_vec = address_seed(maker);
    let id_bytes = encode_u64_le(id);
    find_program_address(&tag, &maker_bytes_vec, &id_bytes, program)
}

/// An address as a seed byte string.
fn address_seed(a: &Address) -> (r: Vec<u8>)
    ensures
        r@ == a@,
{
    let arr = a.to_array();
    let mut v: Vec<u8> = Vec::new();
    let mut i: usize = 0;
    while i < 32
        invariant
            i <= 32,
            arr@ == a@,
            v@ == arr@.subrange(0, i as int),
        decreases 32 - i,
    {
        v.push(arr[i]);
        assert(v@ =~= arr@.subrange(0, i + 1 as int));
        i += 1;
    }
    assert(v@ =~= a@);
    v
}

} // verus!
