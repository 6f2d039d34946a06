use sangini::token::{check_nonnegative_amount, SanginiTokenContract, TokenError, TOKEN_DECIMALS};
use sangini::types::Address;

fn setup() -> (SanginiTokenContract, Address, Address) {
    let admin = Address { id: 1 };
    let platform = Address { id: 2 };
    let mut t = SanginiTokenContract::new();
    t.initialize(admin, platform, "Sangini Invoice".to_string(), "SNG".to_string(), "INV-1001".to_string())
        .unwrap();
    (t, admin, platform)
}

#[test]
fn nonnegative_amount_check() {
    check_nonnegative_amount(0);
    check_nonnegative_amount(5);
    let (mut t, _admin, _platform) = setup();
    assert_eq!(t.burn(Address { id: 10 }, -1), Err(TokenError::NegativeAmount));
    assert_eq!(t.transfer(Address { id: 10 }, Address { id: 11 }, -1), Err(TokenError::NegativeAmount));
}

#[test]
fn token_metadata_and_admin() {
    let mut t = SanginiTokenContract::new();
    assert_eq!(t.decimals(), Err(TokenError::NotInitialized));
    assert_eq!(t.admin(), Err(TokenError::NotInitialized));
    let (mut t2, admin, platform) = setup();
    assert_eq!(t2.decimals(), Ok(TOKEN_DECIMALS));
    assert_eq!(t2.name(), Ok("Sangini Invoice".to_string()));
    assert_eq!(t2.symbol(), Ok("SNG".to_string()));
    assert_eq!(t2.admin(), Ok(admin));
    assert_eq!(
        t2.initialize(admin, platform, String::new(), String::new(), String::new()),
        Err(TokenError::AlreadyInitialized)
    );
    t2.set_admin(Address { id: 9 }).unwrap();
    assert_eq!(t2.admin(), Ok(Address { id: 9 }));
    assert_eq!(t.set_admin(admin), Err(TokenError::NotInitialized));
}

#[test]
fn mint_burn_clawback() {
    let (mut t, _admin, _platform) = setup();
    let alice = Address { id: 10 };
    t.mint(alice, 100).unwrap();
    assert_eq!(t.balance(alice), 100);
    assert_eq!(t.mint(alice, -1), Err(TokenError::NegativeAmount));
    assert_eq!(t.mint(alice, i128::MAX), Err(TokenError::Overflow));
    t.burn(alice, 30).unwrap();
    assert_eq!(t.balance(alice), 70);
    assert_eq!(t.burn(alice, 71), Err(TokenError::InsufficientBalance));
    t.clawback(alice, 70).unwrap();
    assert_eq!(t.balance(alice), 0);
    assert_eq!(t.clawback(alice, 1), Err(TokenError::InsufficientBalance));
}

#[test]
fn transfer_requires_kyc() {
    let (mut t, admin, platform) = setup();
    let alice = Address { id: 10 };
    let bob = Address { id: 11 };
    t.mint(platform, 500).unwrap();
    assert_eq!(t.transfer(platform, alice, 100), Err(TokenError::NotAuthorized));
    t.set_authorized(alice, true).unwrap();
    assert!(t.authorized(alice));
    t.transfer(platform, alice, 100).unwrap();
    assert_eq!(t.balance(platform), 400);
    assert_eq!(t.balance(alice), 100);
    assert_eq!(t.transfer(alice, bob, 10), Err(TokenError::NotAuthorized));
    t.transfer(alice, admin, 10).unwrap();
    assert_eq!(t.balance(admin), 10);
    assert_eq!(t.transfer(alice, admin, 91), Err(TokenError::InsufficientBalance));
    t.transfer(alice, alice, 90).unwrap();
    assert_eq!(t.balance(alice), 90);
    t.set_authorized(alice, false).unwrap();
    assert!(!t.authorized(alice));
    assert_eq!(t.transfer(alice, admin, 1), Err(TokenError::NotAuthorized));
}

#[test]
fn allowances_expire_and_are_spent() {
    let (mut t, _admin, platform) = setup();
    let alice = Address { id: 10 };
    let bob = Address { id: 11 };
    t.set_authorized(alice, true).unwrap();
    t.mint(alice, 100).unwrap();
    t.approve(alice, bob, 50, 20, 10).unwrap();
    assert_eq!(t.allowance(alice, bob, 10), 50);
    assert_eq!(t.allowance(alice, bob, 20), 50);
    assert_eq!(t.allowance(alice, bob, 21), 0);
    assert_eq!(t.transfer_from(bob, alice, platform, 51, 10), Err(TokenError::InsufficientAllowance));
    t.transfer_from(bob, alice, platform, 20, 10).unwrap();
    assert_eq!(t.allowance(alice, bob, 10), 30);
    assert_eq!(t.balance(alice), 80);
    assert_eq!(t.balance(platform), 20);
    t.burn_from(bob, alice, 10, 11).unwrap();
    assert_eq!(t.allowance(alice, bob, 11), 20);
    assert_eq!(t.balance(alice), 70);
    assert_eq!(t.burn_from(bob, alice, 5, 30), Err(TokenError::InsufficientAllowance));
    assert_eq!(t.approve(alice, bob, -5, 40, 10), Err(TokenError::NegativeAmount));
    // An already expired approval is not recorded.
    t.approve(alice, bob, 99, 5, 10).unwrap();
    assert_eq!(t.allowance(alice, bob, 10), 20);
}
