//! The authority deriver: determinism, separation, and the hosting deposit
//! that vault creation reserves.

use escrow::address::Address;
use escrow::authority::derive_vault_authority;
use escrow::engine::Escrow;
use escrow::errors::EscrowError;

fn addr(tag: u8) -> Address {
    Address::new([tag; 32])
}

#[test]
fn derivation_is_deterministic() {
    let program = addr(5);
    let maker = addr(1);
    let (key_a, bump_a) = derive_vault_authority(&program, &maker, 1).expect("derivable");
    let (key_b, bump_b) = derive_vault_authority(&program, &maker, 1).expect("derivable");
    assert!(key_a.same(&key_b));
    assert_eq!(bump_a, bump_b);
}

#[test]
fn derivation_separates_inputs() {
    let program = addr(5);
    let maker = addr(1);
    let other = addr(2);
    let (key_1, _) = derive_vault_authority(&program, &maker, 1).expect("derivable");
    let (key_2, _) = derive_vault_authority(&program, &maker, 2).expect("derivable");
    let (key_3, _) = derive_vault_authority(&program, &other, 1).expect("derivable");
    assert!(!key_1.same(&key_2));
    assert!(!key_1.same(&key_3));
    assert!(!key_1.same(&maker));
    assert!(!key_1.same(&program));
}

#[test]
fn stored_authority_matches_fresh_derivation() {
    let program = addr(5);
    let native = addr(4);
    let maker = addr(1);
    let mint_x = addr(2);
    let mint_y = addr(3);
    let mut e = Escrow::new(program, native, 0);
    assert!(e.deposit(&maker, &mint_x, 10));
    assert_eq!(e.create_offer(&maker, 1, &mint_x, 10, &mint_y, 5), Ok(()));
    let (key, bump) = derive_vault_authority(&program, &maker, 1).expect("derivable");
    let stored = e.vault_authority(&maker, 1).expect("offer is live");
    assert!(stored.same(&key));
    assert_eq!(e.get_offer(&maker, 1).expect("offer is live").bump, bump);
}

#[test]
fn hosting_deposit_is_taken_and_returned() {
    let program = addr(5);
    let native = addr(4);
    let maker = addr(1);
    let mint_x = addr(2);
    let mint_y = addr(3);
    let mut e = Escrow::new(program, native, 7);
    assert!(e.deposit(&maker, &mint_x, 100));
    assert!(e.deposit(&maker, &native, 9));
    assert_eq!(e.create_offer(&maker, 1, &mint_x, 100, &mint_y, 50), Ok(()));
    assert_eq!(e.balance_of(&maker, &native), 2);
    assert_eq!(e.cancel_offer(&maker, &maker, 1), Ok(()));
    assert_eq!(e.balance_of(&maker, &native), 9);
    assert_eq!(e.balance_of(&maker, &mint_x), 100);
}

#[test]
fn hosting_deposit_short_maker_rejected() {
    let program = addr(5);
    let native = addr(4);
    let maker = addr(1);
    let mint_x = addr(2);
    let mint_y = addr(3);
    let mut e = Escrow::new(program, native, 7);
    assert!(e.deposit(&maker, &mint_x, 100));
    assert!(e.deposit(&maker, &native, 6));
    assert_eq!(
        e.create_offer(&maker, 1, &mint_x, 100, &mint_y, 50),
        Err(EscrowError::InsufficientFunds)
    );
    assert_eq!(e.balance_of(&maker, &mint_x), 100);
    assert_eq!(e.balance_of(&maker, &native), 6);
}
