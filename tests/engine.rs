use collectibles::{Collectible, Color, Config, Error, Event, Pallet, Payment};

const A: u64 = 1;
const B: u64 = 2;
const C: u64 = 3;

fn pallet(max: u32) -> Pallet {
    Pallet::new(Config { maximum_owned: max })
}

#[test]
fn fresh_state_is_empty() {
    let p = pallet(3);
    assert_eq!(p.collectibles_count(), 0);
    assert_eq!(p.highest_price(), 0);
    assert_eq!(p.maximum_owned_of(), 3);
    assert!(p.owner_of_collectibles(A).is_empty());
    assert!(p.events().is_empty());
    assert_eq!(p.collectible(0), None);
}

#[test]
fn generated_ids_follow_counter_and_parity() {
    let mut p = pallet(5);
    assert_eq!(p.gen_unique_id(), (0, Color::Red));
    p.create_collectible(A).unwrap();
    assert_eq!(p.gen_unique_id(), (1, Color::Yellow));
    p.create_collectible(A).unwrap();
    assert_eq!(p.gen_unique_id(), (2, Color::Red));
    assert_eq!(p.collectible(1).unwrap().color, Color::Yellow);
}

#[test]
fn minted_ids_increase_and_are_not_reused_after_burn() {
    let mut p = pallet(5);
    p.create_collectible(A).unwrap();
    p.create_collectible(A).unwrap();
    p.burn(A, 1).unwrap();
    assert_eq!(p.collectibles_count(), 2);
    p.create_collectible(B).unwrap();
    assert_eq!(p.collectible(1), None);
    assert_eq!(p.collectible(2).unwrap().owner, B);
    assert_eq!(p.collectibles_count(), 3);
}

#[test]
fn mint_creates_unlisted_record_once_in_index() {
    let mut p = pallet(3);
    assert_eq!(p.mint(A, 40, Color::Blue), Ok(40));
    assert_eq!(
        p.collectible(40),
        Some(Collectible { unique_id: 40, price: None, color: Color::Blue, owner: A })
    );
    assert_eq!(p.owner_of_collectibles(A), vec![40]);
    assert_eq!(p.collectibles_count(), 1);
    assert_eq!(p.events(), vec![Event::CollectibleCreated { collectible: 40, owner: A }]);
}

#[test]
fn mint_rejects_duplicate_id() {
    let mut p = pallet(3);
    p.mint(A, 0, Color::Red).unwrap();
    assert_eq!(p.mint(B, 0, Color::Green), Err(Error::DuplicateCollectible));
    assert_eq!(p.collectible(0).unwrap().owner, A);
    assert!(p.owner_of_collectibles(B).is_empty());
    assert_eq!(p.collectibles_count(), 1);
}

#[test]
fn capacity_two_third_mint_fails_and_rolls_back() {
    let mut p = pallet(2);
    assert_eq!(p.create_collectible(A), Ok(()));
    assert_eq!(p.create_collectible(A), Ok(()));
    assert_eq!(p.create_collectible(A), Err(Error::MaximumCollectiblesOwned));
    assert_eq!(p.collectible(2), None);
    assert_eq!(p.owner_of_collectibles(A), vec![0, 1]);
    assert_eq!(p.collectibles_count(), 2);
    assert_eq!(p.events().len(), 2);
}

#[test]
fn capacity_zero_refuses_every_mint() {
    let mut p = pallet(0);
    assert_eq!(p.create_collectible(A), Err(Error::MaximumCollectiblesOwned));
    assert_eq!(p.collectibles_count(), 0);
}

#[test]
fn transfer_moves_id_and_cancels_listing() {
    let mut p = pallet(3);
    p.create_collectible(A).unwrap();
    p.create_collectible(A).unwrap();
    p.create_collectible(A).unwrap();
    p.set_price(A, 0, Some(50)).unwrap();
    assert_eq!(p.transfer(A, B, 0), Ok(()));
    // Swap-removal: the last id takes the place of the removed one.
    assert_eq!(p.owner_of_collectibles(A), vec![2, 1]);
    assert_eq!(p.owner_of_collectibles(B), vec![0]);
    let c = p.collectible(0).unwrap();
    assert_eq!(c.owner, B);
    assert_eq!(c.price, None);
    assert_eq!(
        p.events().last(),
        Some(&Event::TransferSucceeded { from: A, to: B, collectible: 0 })
    );
}

#[test]
fn transfer_errors_leave_state_unchanged() {
    let mut p = pallet(1);
    p.create_collectible(A).unwrap();
    p.create_collectible(B).unwrap();
    let events = p.events();
    assert_eq!(p.transfer(B, C, 0), Err(Error::NotOwner));
    assert_eq!(p.transfer(A, A, 0), Err(Error::TransferToSelf));
    assert_eq!(p.transfer(A, C, 9), Err(Error::NoCollectible));
    assert_eq!(p.transfer(A, B, 0), Err(Error::MaximumCollectiblesOwned));
    assert_eq!(p.owner_of_collectibles(A), vec![0]);
    assert_eq!(p.owner_of_collectibles(B), vec![1]);
    assert_eq!(p.collectible(0).unwrap().owner, A);
    assert_eq!(p.events(), events);
}

#[test]
fn do_transfer_ignores_asserted_sender() {
    let mut p = pallet(2);
    p.create_collectible(A).unwrap();
    assert_eq!(p.do_transfer(0, A), Err(Error::TransferToSelf));
    assert_eq!(p.do_transfer(5, B), Err(Error::NoCollectible));
    assert_eq!(p.do_transfer(0, B), Ok(()));
    assert_eq!(p.collectible(0).unwrap().owner, B);
}

#[test]
fn set_price_then_get() {
    let mut p = pallet(2);
    p.create_collectible(A).unwrap();
    assert_eq!(p.set_price(A, 0, Some(100)), Ok(()));
    assert_eq!(p.collectible(0).unwrap().price, Some(100));
    assert_eq!(p.set_price(A, 0, Some(100)), Ok(()));
    assert_eq!(
        p.events()[1..].to_vec(),
        vec![
            Event::PriceSet { collectible: 0, price: Some(100) },
            Event::PriceSet { collectible: 0, price: Some(100) },
        ]
    );
    assert_eq!(p.set_price(A, 0, None), Ok(()));
    assert_eq!(p.collectible(0).unwrap().price, None);
}

#[test]
fn set_price_by_non_owner_fails() {
    let mut p = pallet(2);
    p.create_collectible(A).unwrap();
    p.set_price(A, 0, Some(7)).unwrap();
    assert_eq!(p.set_price(B, 0, Some(1)), Err(Error::NotOwner));
    assert_eq!(p.collectible(0).unwrap().price, Some(7));
    assert_eq!(p.set_price(A, 3, Some(1)), Err(Error::NoCollectible));
}

#[test]
fn buy_pays_price_plus_fee_then_moves() {
    let mut p = pallet(2);
    p.create_collectible(A).unwrap();
    p.set_price(A, 0, Some(100)).unwrap();
    assert_eq!(
        p.do_buy_collectible(0, B, 10),
        Ok(Payment { payer: B, payee: A, amount: 110 })
    );
    assert_eq!(p.buy_collectible(B, 0, 10, true), Ok(()));
    let c = p.collectible(0).unwrap();
    assert_eq!(c.owner, B);
    assert_eq!(c.price, None);
    assert!(p.owner_of_collectibles(A).is_empty());
    assert_eq!(p.owner_of_collectibles(B), vec![0]);
    let events = p.events();
    assert_eq!(
        events[events.len() - 2..].to_vec(),
        vec![
            Event::Sold { seller: A, buyer: B, collectible: 0, price: 110 },
            Event::TransferSucceeded { from: A, to: B, collectible: 0 },
        ]
    );
}

#[test]
fn buy_errors() {
    let mut p = pallet(1);
    p.create_collectible(A).unwrap();
    assert_eq!(p.buy_collectible(B, 0, 0, true), Err(Error::NotForSale));
    assert_eq!(p.buy_collectible(B, 4, 0, true), Err(Error::NoCollectible));
    p.set_price(A, 0, Some(5)).unwrap();
    assert_eq!(p.buy_collectible(A, 0, 0, true), Err(Error::TransferToSelf));
    assert_eq!(p.do_buy_collectible(0, B, u128::MAX), Err(Error::BoundsOverflow));
    p.create_collectible(B).unwrap();
    assert_eq!(p.buy_collectible(B, 0, 0, true), Err(Error::MaximumCollectiblesOwned));
    assert_eq!(p.collectible(0).unwrap().owner, A);
}

#[test]
fn buy_with_failed_payment_changes_nothing() {
    let mut p = pallet(2);
    p.create_collectible(A).unwrap();
    p.set_price(A, 0, Some(100)).unwrap();
    let events = p.events();
    assert_eq!(p.buy_collectible(B, 0, 10, false), Err(Error::PaymentFailed));
    assert_eq!(p.collectible(0).unwrap().owner, A);
    assert_eq!(p.collectible(0).unwrap().price, Some(100));
    assert_eq!(p.owner_of_collectibles(A), vec![0]);
    assert!(p.owner_of_collectibles(B).is_empty());
    assert_eq!(p.events(), events);
}

#[test]
fn burn_purges_record_and_index() {
    let mut p = pallet(3);
    p.create_collectible(A).unwrap();
    p.create_collectible(A).unwrap();
    assert_eq!(p.burn(B, 0), Err(Error::NotOwner));
    assert_eq!(p.burn(A, 7), Err(Error::NoCollectible));
    assert_eq!(p.burn(A, 0), Ok(()));
    assert_eq!(p.collectible(0), None);
    assert_eq!(p.owner_of_collectibles(A), vec![1]);
    assert_eq!(p.burn(A, 0), Err(Error::NoCollectible));
}

#[test]
fn highest_price_skips_burned_and_unlisted() {
    let mut p = pallet(5);
    for _ in 0..4 {
        p.create_collectible(A).unwrap();
    }
    p.set_price(A, 0, Some(30)).unwrap();
    p.set_price(A, 1, Some(90)).unwrap();
    p.set_price(A, 3, Some(60)).unwrap();
    p.burn(A, 1).unwrap();
    p.on_initialize();
    assert_eq!(p.highest_price(), 60);
    p.set_price(A, 3, None).unwrap();
    p.on_initialize();
    assert_eq!(p.highest_price(), 30);
}

#[test]
fn highest_price_ignores_ids_beyond_counter() {
    let mut p = pallet(5);
    p.mint(A, 10, Color::Green).unwrap();
    p.set_price(A, 10, Some(500)).unwrap();
    p.on_initialize();
    assert_eq!(p.highest_price(), 0);
}
