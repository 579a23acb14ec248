use swap::error::EscrowError;
use swap::ledger::{Balance, Ledger, OfferEntry};
use swap::state::{derive_offer_address, Authority, Offer, OfferHandle};

const TOKEN_X: u64 = 10;
const TOKEN_Y: u64 = 20;
const MAKER: u64 = 1;
const TAKER: u64 = 2;

#[test]
fn end_to_end_swap() {
    // Maker M creates offer escrow_id=1, 100 TokenX offered, 50 TokenY wanted.
    let mut l = Ledger::initialize();
    l.fund(MAKER, TOKEN_X, 100);
    l.fund(TAKER, TOKEN_Y, 50);

    let h = l
        .make_offer(MAKER, 1, TOKEN_X, 100, TOKEN_Y, 50)
        .expect("creation must succeed");
    assert_eq!(h, derive_offer_address(MAKER, 1));
    assert_eq!(l.balance(MAKER, TOKEN_X), 0);
    assert_eq!(l.vault_balance(h), 100);

    // Taker T (holding >= 50 TokenY) takes the offer.
    l.take_offer(TAKER, h).expect("fulfillment must succeed");
    assert_eq!(l.balance(MAKER, TOKEN_Y), 50);
    assert_eq!(l.balance(TAKER, TOKEN_X), 100);
    assert_eq!(l.balance(TAKER, TOKEN_Y), 0);

    // The record and the holding account no longer exist.
    assert!(!l.offer_exists(MAKER, 1));
    assert_eq!(l.get_offer(h), None);
    assert_eq!(l.vault_balance(h), 0);

    // A subsequent take on escrow 1 fails with OfferNotFound.
    assert_eq!(l.take_offer(TAKER, h), Err(EscrowError::OfferNotFound));
}

#[test]
fn conservation_with_bystanders() {
    let mut l = Ledger::initialize();
    l.fund(MAKER, TOKEN_X, 300);
    l.fund(MAKER, TOKEN_Y, 7);
    l.fund(TAKER, TOKEN_X, 11);
    l.fund(TAKER, TOKEN_Y, 80);
    l.fund(3, TOKEN_X, 1000);

    let h = l.make_offer(MAKER, 42, TOKEN_X, 250, TOKEN_Y, 60).unwrap();
    l.take_offer(TAKER, h).unwrap();

    // Taker's asset-A balance rose by exactly the offered amount,
    // maker's asset-B balance by exactly the wanted amount.
    assert_eq!(l.balance(TAKER, TOKEN_X), 11 + 250);
    assert_eq!(l.balance(MAKER, TOKEN_Y), 7 + 60);
    assert_eq!(l.balance(MAKER, TOKEN_X), 300 - 250);
    assert_eq!(l.balance(TAKER, TOKEN_Y), 80 - 60);
    // A bystander's balance is untouched; the vault is gone.
    assert_eq!(l.balance(3, TOKEN_X), 1000);
    assert_eq!(l.vault_balance(h), 0);
}

#[test]
fn no_double_take_with_second_taker() {
    let mut l = Ledger::initialize();
    l.fund(MAKER, TOKEN_X, 5);
    l.fund(TAKER, TOKEN_Y, 9);
    l.fund(3, TOKEN_Y, 9);

    let h = l.make_offer(MAKER, 2, TOKEN_X, 5, TOKEN_Y, 9).unwrap();
    assert_eq!(l.take_offer(TAKER, h), Ok(()));
    // The second taker still holds enough of asset B, yet the handle is dead.
    assert_eq!(l.take_offer(3, h), Err(EscrowError::OfferNotFound));
    assert_eq!(l.balance(3, TOKEN_Y), 9);
    assert_eq!(l.balance(MAKER, TOKEN_Y), 9);
}

#[test]
fn take_failure_leaves_state_unchanged() {
    // Payment step fails: the taker holds less of asset B than wanted.
    let mut l = Ledger::initialize();
    l.fund(MAKER, TOKEN_X, 100);
    l.fund(TAKER, TOKEN_Y, 49);
    let h = l.make_offer(MAKER, 1, TOKEN_X, 100, TOKEN_Y, 50).unwrap();

    let before = l.clone();
    assert_eq!(l.take_offer(TAKER, h), Err(EscrowError::InsufficientFunds));
    // Record and holding account are byte-for-byte unchanged.
    assert_eq!(l, before);
    assert_eq!(l.vault_balance(h), 100);
    assert_eq!(
        l.get_offer(h),
        Some(Offer {
            escrow_id: 1,
            maker: MAKER,
            asset_a_id: TOKEN_X,
            asset_b_id: TOKEN_Y,
            wanted_amount: 50,
        })
    );

    // The offer stays open: a funded taker can still fulfill it.
    l.fund(TAKER, TOKEN_Y, 1);
    assert_eq!(l.take_offer(TAKER, h), Ok(()));
}

#[test]
fn make_offer_rejects_zero_offered() {
    let mut l = Ledger::initialize();
    l.fund(MAKER, TOKEN_X, 100);
    let before = l.clone();
    assert_eq!(
        l.make_offer(MAKER, 1, TOKEN_X, 0, TOKEN_Y, 50),
        Err(EscrowError::InvalidAmount)
    );
    assert_eq!(l, before);
    assert!(!l.offer_exists(MAKER, 1));
    assert_eq!(l.vault_balance(derive_offer_address(MAKER, 1)), 0);
}

#[test]
fn make_offer_rejects_zero_wanted() {
    let mut l = Ledger::initialize();
    l.fund(MAKER, TOKEN_X, 100);
    let before = l.clone();
    assert_eq!(
        l.make_offer(MAKER, 1, TOKEN_X, 100, TOKEN_Y, 0),
        Err(EscrowError::InvalidAmount)
    );
    assert_eq!(l, before);
    assert!(!l.offer_exists(MAKER, 1));
}

#[test]
fn make_offer_rejects_insufficient_balance() {
    let mut l = Ledger::initialize();
    l.fund(MAKER, TOKEN_X, 99);
    let before = l.clone();
    assert_eq!(
        l.make_offer(MAKER, 1, TOKEN_X, 100, TOKEN_Y, 50),
        Err(EscrowError::InsufficientFunds)
    );
    assert_eq!(l, before);
}

#[test]
fn identifier_collision_rejected_first_offer_untouched() {
    let mut l = Ledger::initialize();
    l.fund(MAKER, TOKEN_X, 100);
    l.fund(MAKER, TOKEN_Y, 100);
    let h = l.make_offer(MAKER, 1, TOKEN_X, 60, TOKEN_Y, 50).unwrap();

    let before = l.clone();
    // Same maker, same escrow identifier, different terms: rejected.
    assert_eq!(
        l.make_offer(MAKER, 1, TOKEN_Y, 10, TOKEN_X, 5),
        Err(EscrowError::OfferAlreadyExists)
    );
    assert_eq!(l, before);
    assert_eq!(l.vault_balance(h), 60);
    assert_eq!(
        l.get_offer(h),
        Some(Offer {
            escrow_id: 1,
            maker: MAKER,
            asset_a_id: TOKEN_X,
            asset_b_id: TOKEN_Y,
            wanted_amount: 50,
        })
    );

    // A different identifier from the same maker is fine.
    assert!(l.make_offer(MAKER, 2, TOKEN_X, 40, TOKEN_Y, 50).is_ok());
}

#[test]
fn take_unknown_handle_not_found() {
    let mut l = Ledger::initialize();
    l.fund(TAKER, TOKEN_Y, 50);
    let h = OfferHandle { maker: MAKER, escrow_id: 9 };
    assert_eq!(l.take_offer(TAKER, h), Err(EscrowError::OfferNotFound));
}

#[test]
fn take_refuses_vault_not_under_program_authority() {
    // Corrupted state built by hand: the vault claims a user-key authority.
    let mut l = Ledger {
        balances: vec![Balance { owner: TAKER, asset: TOKEN_Y, amount: 50 }],
        offers: vec![OfferEntry {
            offer: Offer {
                escrow_id: 1,
                maker: MAKER,
                asset_a_id: TOKEN_X,
                asset_b_id: TOKEN_Y,
                wanted_amount: 50,
            },
            vault_amount: 100,
            vault_authority: Authority::User(9),
        }],
    };
    let before = l.clone();
    let h = OfferHandle { maker: MAKER, escrow_id: 1 };
    assert_eq!(l.take_offer(TAKER, h), Err(EscrowError::Unauthorized));
    assert_eq!(l, before);
}

#[test]
fn self_swap_is_permitted_but_degenerate() {
    // Offering an asset for itself is accepted; the two transfers compose.
    let mut l = Ledger::initialize();
    l.fund(MAKER, TOKEN_X, 10);
    l.fund(TAKER, TOKEN_X, 4);
    let h = l.make_offer(MAKER, 1, TOKEN_X, 10, TOKEN_X, 4).unwrap();
    l.take_offer(TAKER, h).unwrap();
    assert_eq!(l.balance(TAKER, TOKEN_X), 10);
    assert_eq!(l.balance(MAKER, TOKEN_X), 4);
}

#[test]
fn fund_accumulates_per_owner_and_asset() {
    let mut l = Ledger::initialize();
    l.fund(MAKER, TOKEN_X, 30);
    l.fund(MAKER, TOKEN_X, 12);
    l.fund(MAKER, TOKEN_Y, 5);
    assert_eq!(l.balance(MAKER, TOKEN_X), 42);
    assert_eq!(l.balance(MAKER, TOKEN_Y), 5);
    assert_eq!(l.balance(TAKER, TOKEN_X), 0);
}

#[test]
fn derived_address_is_deterministic() {
    let a = derive_offer_address(MAKER, 1);
    let b = derive_offer_address(MAKER, 1);
    assert_eq!(a, b);
    assert_ne!(a, derive_offer_address(MAKER, 2));
    assert_ne!(a, derive_offer_address(TAKER, 1));
}
