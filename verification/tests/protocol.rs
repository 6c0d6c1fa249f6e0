//! End-to-end scenarios for the escrow engine: creation, settlement,
//! cancellation, and every surfaced error.

use escrow::address::Address;
use escrow::engine::Escrow;
use escrow::errors::EscrowError;

fn addr(tag: u8) -> Address {
    Address::new([tag; 32])
}

/// A deployment with no hosting deposit, a maker holding 1000 X and a taker
/// holding 500 Y.
fn funded_engine() -> (Escrow, Address, Address, Address, Address) {
    let program = addr(5);
    let native = addr(4);
    let maker = addr(1);
    let taker = addr(9);
    let mint_x = addr(2);
    let mint_y = addr(3);
    let mut e = Escrow::new(program, native, 0);
    assert!(e.deposit(&maker, &mint_x, 1000));
    assert!(e.deposit(&taker, &mint_y, 500));
    (e, maker, taker, mint_x, mint_y)
}

#[test]
fn create_records_offer_and_vault() {
    let (mut e, maker, _taker, mint_x, mint_y) = funded_engine();
    assert_eq!(e.create_offer(&maker, 1, &mint_x, 1000, &mint_y, 500), Ok(()));
    assert_eq!(e.vault_balance(&maker, 1), 1000);
    assert_eq!(e.balance_of(&maker, &mint_x), 0);
    let offer = e.get_offer(&maker, 1).expect("offer must be live");
    assert_eq!(offer.id, 1);
    assert!(offer.maker.same(&maker));
    assert!(offer.token_mint_a.same(&mint_x));
    assert!(offer.token_mint_b.same(&mint_y));
    assert_eq!(offer.token_b_wanted_amount, 500);
}

#[test]
fn accept_settles_exchange() {
    let (mut e, maker, taker, mint_x, mint_y) = funded_engine();
    assert_eq!(e.create_offer(&maker, 1, &mint_x, 1000, &mint_y, 500), Ok(()));
    assert_eq!(e.accept_offer(&taker, &maker, 1), Ok(()));
    assert_eq!(e.balance_of(&maker, &mint_y), 500);
    assert_eq!(e.balance_of(&taker, &mint_x), 1000);
    assert_eq!(e.balance_of(&taker, &mint_y), 0);
    assert!(e.get_offer(&maker, 1).is_none());
    assert_eq!(e.vault_balance(&maker, 1), 0);
}

#[test]
fn cancel_returns_custody() {
    let (mut e, maker, _taker, mint_x, mint_y) = funded_engine();
    assert_eq!(e.create_offer(&maker, 1, &mint_x, 1000, &mint_y, 500), Ok(()));
    assert_eq!(e.cancel_offer(&maker, &maker, 1), Ok(()));
    assert_eq!(e.balance_of(&maker, &mint_x), 1000);
    assert!(e.get_offer(&maker, 1).is_none());
    assert_eq!(e.vault_balance(&maker, 1), 0);
}

#[test]
fn cancel_by_stranger_is_unauthorized() {
    let (mut e, maker, taker, mint_x, mint_y) = funded_engine();
    assert_eq!(e.create_offer(&maker, 1, &mint_x, 1000, &mint_y, 500), Ok(()));
    assert_eq!(e.cancel_offer(&taker, &maker, 1), Err(EscrowError::Unauthorized));
    assert!(e.get_offer(&maker, 1).is_some());
    assert_eq!(e.vault_balance(&maker, 1), 1000);
    assert_eq!(e.balance_of(&maker, &mint_x), 0);
}

#[test]
fn second_call_after_accept_not_found() {
    let (mut e, maker, taker, mint_x, mint_y) = funded_engine();
    assert_eq!(e.create_offer(&maker, 1, &mint_x, 1000, &mint_y, 500), Ok(()));
    assert_eq!(e.accept_offer(&taker, &maker, 1), Ok(()));
    assert_eq!(e.accept_offer(&taker, &maker, 1), Err(EscrowError::OfferNotFound));
    assert_eq!(e.cancel_offer(&maker, &maker, 1), Err(EscrowError::OfferNotFound));
}

#[test]
fn second_call_after_cancel_not_found() {
    let (mut e, maker, taker, mint_x, mint_y) = funded_engine();
    assert_eq!(e.create_offer(&maker, 1, &mint_x, 1000, &mint_y, 500), Ok(()));
    assert_eq!(e.cancel_offer(&maker, &maker, 1), Ok(()));
    assert_eq!(e.cancel_offer(&maker, &maker, 1), Err(EscrowError::OfferNotFound));
    assert_eq!(e.accept_offer(&taker, &maker, 1), Err(EscrowError::OfferNotFound));
}

#[test]
fn duplicate_offer_rejected() {
    let (mut e, maker, _taker, mint_x, mint_y) = funded_engine();
    assert_eq!(e.create_offer(&maker, 1, &mint_x, 400, &mint_y, 500), Ok(()));
    assert_eq!(
        e.create_offer(&maker, 1, &mint_x, 100, &mint_y, 500),
        Err(EscrowError::DuplicateOffer)
    );
    assert_eq!(e.vault_balance(&maker, 1), 400);
    assert_eq!(e.balance_of(&maker, &mint_x), 600);
}

#[test]
fn same_id_under_another_maker_is_distinct() {
    let (mut e, maker, taker, mint_x, mint_y) = funded_engine();
    assert!(e.deposit(&taker, &mint_x, 50));
    assert_eq!(e.create_offer(&maker, 1, &mint_x, 1000, &mint_y, 500), Ok(()));
    assert_eq!(e.create_offer(&taker, 1, &mint_x, 50, &mint_y, 20), Ok(()));
    assert_eq!(e.vault_balance(&maker, 1), 1000);
    assert_eq!(e.vault_balance(&taker, 1), 50);
}

#[test]
fn create_without_funds_rejected() {
    let (mut e, maker, _taker, mint_x, mint_y) = funded_engine();
    assert_eq!(
        e.create_offer(&maker, 1, &mint_x, 1001, &mint_y, 500),
        Err(EscrowError::InsufficientFunds)
    );
    assert_eq!(e.balance_of(&maker, &mint_x), 1000);
    assert!(e.get_offer(&maker, 1).is_none());
}

#[test]
fn accept_without_funds_rejected() {
    let (mut e, maker, taker, mint_x, mint_y) = funded_engine();
    assert_eq!(e.create_offer(&maker, 1, &mint_x, 1000, &mint_y, 501), Ok(()));
    assert_eq!(e.accept_offer(&taker, &maker, 1), Err(EscrowError::InsufficientFunds));
    assert_eq!(e.vault_balance(&maker, 1), 1000);
    assert_eq!(e.balance_of(&taker, &mint_y), 500);
}

#[test]
fn accept_unknown_offer_not_found() {
    let (mut e, maker, taker, _mint_x, _mint_y) = funded_engine();
    assert_eq!(e.accept_offer(&taker, &maker, 7), Err(EscrowError::OfferNotFound));
}

#[test]
fn deposit_refused_when_custody_would_overflow() {
    let program = addr(5);
    let native = addr(4);
    let owner = addr(1);
    let mint = addr(2);
    let mut e = Escrow::new(program, native, 0);
    assert!(e.deposit(&owner, &mint, u64::MAX));
    assert!(!e.deposit(&owner, &mint, 1));
    assert_eq!(e.balance_of(&owner, &mint), u64::MAX);
}

#[test]
fn unknown_keys_read_back_empty() {
    let (e, maker, _taker, _mint_x, mint_y) = funded_engine();
    assert_eq!(e.balance_of(&maker, &mint_y), 0);
    assert!(e.get_offer(&maker, 1).is_none());
    assert_eq!(e.vault_balance(&maker, 1), 0);
    assert!(e.vault_authority(&maker, 1).is_none());
}
