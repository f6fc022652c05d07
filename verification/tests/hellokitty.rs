use pallets::dispatch::{DispatchError, DispatchResult, Origin};
use pallets::hellokitty::{
    breed_dna, combine_dna, random_value, unreserved_amount, Error, Event, HelloKitty, Module,
    CANNOT_LOCK,
};
use pallets::linked_item::{LinkedItem, LinkedList};
use pallets::runtime::InMemoryRuntime;
use parity_scale_codec::Encode;

fn run_to_block(kitties: &mut Module, n: u64) {
    while kitties.block_number() < n {
        let next = kitties.block_number() + 1;
        kitties.set_block_number(next);
    }
}

fn item(prev: Option<u32>, next: Option<u32>) -> Option<LinkedItem<u32>> {
    Some(LinkedItem { prev, next })
}

#[test]
fn owned_kitties_can_append_values() {
    let mut list = LinkedList::new();
    list.append(0, 1);

    assert_eq!(list.get(0, None), item(Some(1), Some(1)));
    assert_eq!(list.get(0, Some(1)), item(None, None));

    list.append(0, 2);

    assert_eq!(list.get(0, None), item(Some(2), Some(1)));
    assert_eq!(list.get(0, Some(1)), item(None, Some(2)));
    assert_eq!(list.get(0, Some(2)), item(Some(1), None));

    list.append(0, 3);

    assert_eq!(list.get(0, None), item(Some(3), Some(1)));
    assert_eq!(list.get(0, Some(1)), item(None, Some(2)));
    assert_eq!(list.get(0, Some(2)), item(Some(1), Some(3)));
    assert_eq!(list.get(0, Some(3)), item(Some(2), None));
}

#[test]
fn owned_kitties_can_remove_values() {
    let mut list = LinkedList::new();
    list.append(0, 1);
    list.append(0, 2);
    list.append(0, 3);

    list.remove(0, 2);

    assert_eq!(list.get(0, None), item(Some(3), Some(1)));
    assert_eq!(list.get(0, Some(1)), item(None, Some(3)));
    assert_eq!(list.get(0, Some(2)), None);
    assert_eq!(list.get(0, Some(3)), item(Some(1), None));

    list.remove(0, 1);

    assert_eq!(list.get(0, None), item(Some(3), Some(3)));
    assert_eq!(list.get(0, Some(1)), None);
    assert_eq!(list.get(0, Some(2)), None);
    assert_eq!(list.get(0, Some(3)), item(None, None));

    list.remove(0, 3);

    assert_eq!(list.get(0, None), item(None, None));
    assert_eq!(list.get(0, Some(1)), None);
    assert_eq!(list.get(0, Some(2)), None);
    assert_eq!(list.get(0, Some(2)), None);
}

#[test]
fn owned_kitties_create() {
    let mut kitties = Module::new();
    let mut rt = InMemoryRuntime::new();
    run_to_block(&mut kitties, 10);
    assert_eq!(kitties.create(&mut rt, Origin::Signed(1), 100), Ok(()));
}

#[test]
fn owned_kitties_breed() {
    let mut kitties = Module::new();
    let mut rt = InMemoryRuntime::new();
    run_to_block(&mut kitties, 10);
    assert_eq!(kitties.create(&mut rt, Origin::Signed(1), 100), Ok(()));
    assert_eq!(kitties.create(&mut rt, Origin::Signed(1), 100), Ok(()));
    assert_eq!(kitties.breed(&mut rt, Origin::Signed(1), 0, 1, 100), Ok(()));
}

#[test]
fn owned_kitties_transfer() {
    let mut kitties = Module::new();
    let mut rt = InMemoryRuntime::new();
    run_to_block(&mut kitties, 10);
    assert_eq!(kitties.create(&mut rt, Origin::Signed(1), 100), Ok(()));
    assert_eq!(kitties.transfer(&mut rt, Origin::Signed(1), 2, 0, 100), Ok(()));
}

#[test]
fn owned_kitties_ask() {
    let mut kitties = Module::new();
    let mut rt = InMemoryRuntime::new();
    run_to_block(&mut kitties, 10);
    assert_eq!(kitties.create(&mut rt, Origin::Signed(1), 100), Ok(()));
    assert_eq!(kitties.ask(Origin::Signed(1), 0, Some(100)), Ok(()));
}

#[test]
fn owned_kitties_buy() {
    let mut kitties = Module::new();
    let mut rt = InMemoryRuntime::new();
    run_to_block(&mut kitties, 10);
    assert_eq!(kitties.create(&mut rt, Origin::Signed(1), 100), Ok(()));
    assert_eq!(kitties.ask(Origin::Signed(1), 0, Some(100)), Ok(()));
    assert_eq!(kitties.buy(&mut rt, Origin::Signed(1), 0, 110), Ok(()));
}

#[test]
fn combine_dna_takes_bits_by_selector() {
    assert_eq!(combine_dna(0b1010_1010, 0b0101_0101, 0xF0), 0xA5);
    assert_eq!(combine_dna(0x12, 0x34, 0xFF), 0x12);
    assert_eq!(combine_dna(0x12, 0x34, 0x00), 0x34);
    assert_eq!(combine_dna(0x5C, 0x5C, 0x3B), 0x5C);
}

#[test]
fn breed_dna_mixes_every_byte() {
    let dna1 = [0xFFu8; 16];
    let dna2 = [0x00u8; 16];
    let mut selector = [0u8; 16];
    for (i, b) in selector.iter_mut().enumerate() {
        *b = i as u8 * 16;
    }
    let child = breed_dna(dna1, dna2, selector);
    assert_eq!(child, selector);
}

#[test]
fn random_value_is_blake2_of_scale_payload() {
    let seed = [7u8; 32];
    let payload = (seed, &42u64, Some(3u32)).encode();
    assert_eq!(payload.len(), 32 + 8 + 5);
    assert_eq!(&payload[32..40], &42u64.to_le_bytes());
    assert_eq!(payload[40], 1);
    let expected = sp_io::hashing::blake2_128(&payload);
    let r = random_value(42, seed, Some(3));
    assert_eq!(r, expected);
    assert_ne!(&r[..], &payload[..16]);
    assert_ne!(random_value(42, seed, None), r);
    assert_ne!(random_value(43, seed, Some(3)), r);
}

#[test]
fn create_gives_the_next_index_to_the_signer() {
    let mut kitties = Module::new();
    kitties.set_block_number(5);
    kitties.set_extrinsic_index(Some(2));
    let mut rt = InMemoryRuntime::new().with_balance(1, 1000);
    assert_eq!(kitties.next_kitty_id(), Ok(0));
    assert_eq!(kitties.create(&mut rt, Origin::Signed(1), 100), Ok(()));
    assert_eq!(kitties.kitties_count(), 1);
    assert_eq!(kitties.kitty_owner(0), Some(1));
    assert_eq!(kitties.next_kitty_id(), Ok(1));
    let dna = random_value(1, [1u8; 32], Some(2));
    assert_eq!(kitties.kitties(0), Some(HelloKitty(dna)));
    assert_eq!(rt.reserved(1), 100);
    assert_eq!(
        kitties.events().clone(),
        vec![Event::LockFunds(1, 100, 5), Event::Created(1, 0)]
    );
    assert_eq!(kitties.owned_kitties((1, None)), item(Some(0), Some(0)));
    assert_eq!(kitties.owned_kitties((1, Some(0))), item(None, None));
}

#[test]
fn create_without_funds_still_creates() {
    let mut kitties = Module::new();
    let mut rt = InMemoryRuntime::new();
    assert_eq!(kitties.create(&mut rt, Origin::Signed(1), 100), Ok(()));
    assert_eq!(kitties.events().clone(), vec![Event::Created(1, 0)]);
    assert_eq!(kitties.kitty_owner(0), Some(1));
}

#[test]
fn unsigned_calls_are_bad_origin() {
    let mut kitties = Module::new();
    let mut rt = InMemoryRuntime::new();
    assert_eq!(kitties.create(&mut rt, Origin::Unsigned, 1), Err(DispatchError::BadOrigin));
    assert_eq!(kitties.create(&mut rt, Origin::Root, 1), Err(DispatchError::BadOrigin));
    assert_eq!(kitties.ask(Origin::Unsigned, 0, None), Err(DispatchError::BadOrigin));
    assert_eq!(kitties.kitties_count(), 0);
    assert!(kitties.events().is_empty());
}

#[test]
fn breed_records_family() {
    let mut kitties = Module::new();
    let mut rt = InMemoryRuntime::new();
    kitties.create(&mut rt, Origin::Signed(1), 0).unwrap();
    kitties.create(&mut rt, Origin::Signed(1), 0).unwrap();
    let dna0 = kitties.kitties(0).unwrap().0;
    let dna1 = kitties.kitties(1).unwrap().0;
    assert_eq!(kitties.breed(&mut rt, Origin::Signed(1), 0, 1, 0), Ok(()));
    assert_eq!(kitties.breed(&mut rt, Origin::Signed(1), 0, 1, 0), Ok(()));
    let selector = random_value(1, [3u8; 32], None);
    assert_eq!(kitties.kitties(2), Some(HelloKitty(breed_dna(dna0, dna1, selector))));
    assert_eq!(kitties.kitty_owner(2), Some(1));
    assert_eq!(kitties.kitty_parents(3), (0, 1));
    assert_eq!(kitties.kitty_parents(0), (0, 0));
    assert_eq!(kitties.kitty_children(0, 1), vec![2, 3]);
    assert_eq!(kitties.kitty_children(1, 0), Vec::<u32>::new());
    assert_eq!(kitties.kitty_sibling(2), Vec::<u32>::new());
    assert_eq!(kitties.kitty_sibling(3), vec![2]);
    assert_eq!(kitties.kitty_partner(0), vec![1]);
    assert_eq!(kitties.kitty_partner(1), vec![0]);
    assert_eq!(kitties.kitties_count(), 4);
}

#[test]
fn breed_errors() {
    let mut kitties = Module::new();
    let mut rt = InMemoryRuntime::new();
    kitties.create(&mut rt, Origin::Signed(1), 0).unwrap();
    kitties.create(&mut rt, Origin::Signed(2), 0).unwrap();
    assert_eq!(
        kitties.breed(&mut rt, Origin::Signed(1), 0, 7, 0),
        Err(DispatchError::Module(Error::InvalidKittyId))
    );
    assert_eq!(
        kitties.breed(&mut rt, Origin::Signed(1), 0, 1, 0),
        Err(DispatchError::Module(Error::RequireOwner))
    );
    assert_eq!(
        kitties.breed(&mut rt, Origin::Signed(1), 0, 0, 0),
        Err(DispatchError::Module(Error::RequireDifferentParent))
    );
    assert_eq!(kitties.kitties_count(), 2);
}

#[test]
fn transfer_moves_ownership() {
    let mut kitties = Module::new();
    kitties.set_block_number(3);
    let mut rt = InMemoryRuntime::new();
    kitties.create(&mut rt, Origin::Signed(1), 0).unwrap();
    kitties.create(&mut rt, Origin::Signed(1), 0).unwrap();
    assert_eq!(kitties.transfer(&mut rt, Origin::Signed(1), 2, 0, 0), Ok(()));
    assert_eq!(kitties.kitty_owner(0), Some(2));
    assert_eq!(kitties.owned_kitties((1, Some(0))), None);
    assert_eq!(kitties.owned_kitties((1, None)), item(Some(1), Some(1)));
    assert_eq!(kitties.owned_kitties((2, Some(0))), item(None, None));
    assert_eq!(kitties.owned_kitties((2, None)), item(Some(0), Some(0)));
    let events = kitties.events().clone();
    assert_eq!(events[events.len() - 2], Event::UnlockFunds(1, 0, 3));
    assert_eq!(events[events.len() - 1], Event::Transferred(1, 2, 0));
    assert_eq!(
        kitties.transfer(&mut rt, Origin::Signed(1), 2, 0, 0),
        Err(DispatchError::Module(Error::RequireOwner))
    );
}

#[test]
fn ask_price_reads_back() {
    let mut kitties = Module::new();
    let mut rt = InMemoryRuntime::new();
    kitties.create(&mut rt, Origin::Signed(1), 0).unwrap();
    assert_eq!(kitties.kitty_price(0), None);
    assert_eq!(kitties.ask(Origin::Signed(1), 0, Some(50)), Ok(()));
    assert_eq!(kitties.kitty_price(0), Some(50));
    assert_eq!(kitties.ask(Origin::Signed(1), 0, None), Ok(()));
    assert_eq!(kitties.kitty_price(0), None);
    assert_eq!(
        kitties.ask(Origin::Signed(2), 0, Some(1)),
        Err(DispatchError::Module(Error::RequireOwner))
    );
}

#[test]
fn buy_pays_the_owner_and_takes_the_kitty() {
    let mut kitties = Module::new();
    let mut rt = InMemoryRuntime::new().with_balance(2, 500);
    kitties.create(&mut rt, Origin::Signed(1), 0).unwrap();
    assert_eq!(
        kitties.buy(&mut rt, Origin::Signed(2), 9, 100),
        Err(DispatchError::Module(Error::InvalidKittyId))
    );
    assert_eq!(
        kitties.buy(&mut rt, Origin::Signed(2), 0, 100),
        Err(DispatchError::Module(Error::NotForSale))
    );
    kitties.ask(Origin::Signed(1), 0, Some(200)).unwrap();
    assert_eq!(
        kitties.buy(&mut rt, Origin::Signed(2), 0, 100),
        Err(DispatchError::Module(Error::PriceTooLow))
    );
    assert_eq!(kitties.buy(&mut rt, Origin::Signed(2), 0, 250), Ok(()));
    assert_eq!(rt.free(2), 300);
    assert_eq!(rt.free(1), 200);
    assert_eq!(kitties.kitty_owner(0), Some(2));
    assert_eq!(kitties.kitty_price(0), None);
    assert_eq!(kitties.events().last(), Some(&Event::Sold(1, 2, 0, 200)));
}

#[test]
fn buy_without_funds_changes_nothing() {
    let mut kitties = Module::new();
    let mut rt = InMemoryRuntime::new();
    kitties.create(&mut rt, Origin::Signed(1), 0).unwrap();
    kitties.ask(Origin::Signed(1), 0, Some(200)).unwrap();
    let events = kitties.events().len();
    assert_eq!(
        kitties.buy(&mut rt, Origin::Signed(2), 0, 250),
        Err(DispatchError::Other("InsufficientBalance"))
    );
    assert_eq!(kitties.kitty_owner(0), Some(1));
    assert_eq!(kitties.kitty_price(0), Some(200));
    assert_eq!(kitties.events().len(), events);
}

#[test]
fn funds_calls() {
    let mut kitties = Module::new();
    kitties.set_block_number(8);
    let mut rt = InMemoryRuntime::new().with_balance(1, 100);
    assert_eq!(
        kitties.reserve_funds(&mut rt, Origin::Signed(1), 500),
        Err(DispatchError::Other(CANNOT_LOCK))
    );
    assert_eq!(kitties.reserve_funds(&mut rt, Origin::Signed(1), 60), Ok(()));
    assert_eq!(kitties.unreserve_funds(&mut rt, Origin::Signed(1), 10), Ok(()));
    assert_eq!(kitties.transfer_funds(&mut rt, Origin::Signed(1), 2, 30), Ok(()));
    assert_eq!(kitties.unreserve_and_transfer(&mut rt, Origin::Signed(9), 1, 3, 80), Ok(()));
    assert_eq!(rt.free(3), 50);
    assert_eq!(rt.reserved(1), 0);
    assert_eq!(
        kitties.events().clone(),
        vec![
            Event::LockFunds(1, 60, 8),
            Event::UnlockFunds(1, 10, 8),
            Event::TransferFunds(1, 2, 30, 8),
            Event::TransferFunds(1, 3, 50, 8),
        ]
    );
    assert_eq!(
        kitties.transfer_funds(&mut rt, Origin::Signed(1), 2, 1000),
        Err(DispatchError::Other("InsufficientBalance"))
    );
}

#[test]
fn linked_list_append_then_remove_restores_links() {
    let mut list = LinkedList::new();
    list.append(7, 1);
    list.append(7, 2);
    list.append(7, 3);
    list.remove(7, 3);
    assert_eq!(list.get(7, None), item(Some(2), Some(1)));
    assert_eq!(list.get(7, Some(1)), item(None, Some(2)));
    assert_eq!(list.get(7, Some(2)), item(Some(1), None));
    assert_eq!(list.get(7, Some(3)), None);
    assert!(list.contains_key(7, 1));
    assert!(!list.contains_key(7, 3));
    list.remove(7, 9);
    assert_eq!(list.get(7, None), item(Some(2), Some(1)));
    assert_eq!(list.get(8, None), None);
}

#[test]
fn create_with_seed_draws_the_dna_from_the_seed() {
    let mut kitties = Module::new();
    kitties.set_extrinsic_index(Some(4));
    let seed = [9u8; 32];
    assert_eq!(kitties.create_with_seed(7, seed), 0);
    assert_eq!(kitties.kitties(0), Some(HelloKitty(random_value(7, seed, Some(4)))));
    assert_eq!(kitties.kitty_owner(0), Some(7));
    assert_eq!(kitties.kitties_count(), 1);
    assert!(kitties.events().is_empty());
}

#[test]
fn breed_with_seed_mixes_the_parents_under_the_seed() {
    let mut kitties = Module::new();
    kitties.create_with_seed(1, [1u8; 32]);
    kitties.create_with_seed(1, [2u8; 32]);
    let dna0 = kitties.kitties(0).unwrap().0;
    let dna1 = kitties.kitties(1).unwrap().0;
    assert_eq!(kitties.breed_check(1, 0, 1), Ok(()));
    let seed = [5u8; 32];
    assert_eq!(kitties.breed_with_seed(1, 0, 1, seed), 2);
    let selector = random_value(1, seed, None);
    assert_eq!(kitties.kitties(2), Some(HelloKitty(breed_dna(dna0, dna1, selector))));
    assert_eq!(kitties.kitty_owner(2), Some(1));
    assert_eq!(kitties.kitty_parents(2), (0, 1));
    assert_eq!(kitties.kitty_children(0, 1), vec![2]);
    assert_eq!(kitties.kitty_partner(0), vec![1]);
}

#[test]
fn breed_check_gives_each_refusal() {
    let mut kitties = Module::new();
    kitties.create_with_seed(1, [1u8; 32]);
    kitties.create_with_seed(2, [2u8; 32]);
    assert_eq!(kitties.breed_check(1, 0, 9), Err(DispatchError::Module(Error::InvalidKittyId)));
    assert_eq!(kitties.breed_check(1, 0, 1), Err(DispatchError::Module(Error::RequireOwner)));
    assert_eq!(
        kitties.breed_check(1, 0, 0),
        Err(DispatchError::Module(Error::RequireDifferentParent))
    );
    assert_eq!(kitties.kitties_count(), 2);
}

#[test]
fn settle_purchase_completes_only_a_paid_purchase() {
    let mut kitties = Module::new();
    kitties.set_block_number(2);
    kitties.create_with_seed(1, [1u8; 32]);
    assert_eq!(kitties.ask(Origin::Signed(1), 0, Some(50)), Ok(()));
    let before = kitties.events().len();
    let refused: DispatchResult<Error> = Err(DispatchError::Other("InsufficientBalance"));
    assert_eq!(kitties.settle_purchase(refused.clone(), 1, 2, 0, 50), refused);
    assert_eq!(kitties.kitty_owner(0), Some(1));
    assert_eq!(kitties.kitty_price(0), Some(50));
    assert_eq!(kitties.events().len(), before);
    assert_eq!(kitties.settle_purchase(Ok(()), 1, 2, 0, 50), Ok(()));
    assert_eq!(kitties.kitty_owner(0), Some(2));
    assert_eq!(kitties.kitty_price(0), None);
    assert_eq!(kitties.owned_kitties((2, Some(0))), item(None, None));
    assert_eq!(kitties.owned_kitties((1, Some(0))), None);
    assert_eq!(kitties.events().last(), Some(&Event::Sold(1, 2, 0, 50)));
}

#[test]
fn settle_reservation_reports_or_refuses() {
    let mut kitties = Module::new();
    kitties.set_block_number(8);
    assert_eq!(
        kitties.settle_reservation(Err(DispatchError::Other("InsufficientBalance")), 3, 10),
        Err(DispatchError::Other(CANNOT_LOCK))
    );
    assert!(kitties.events().is_empty());
    assert_eq!(kitties.settle_reservation(Ok(()), 3, 10), Ok(()));
    assert_eq!(kitties.events().clone(), vec![Event::LockFunds(3, 10, 8)]);
}

#[test]
fn settle_funds_transfer_reports_or_passes_the_error_on() {
    let mut kitties = Module::new();
    kitties.set_block_number(4);
    let refused: DispatchResult<Error> = Err(DispatchError::Other("InsufficientBalance"));
    assert_eq!(kitties.settle_funds_transfer(refused.clone(), 1, 2, 30), refused);
    assert!(kitties.events().is_empty());
    assert_eq!(kitties.settle_funds_transfer(Ok(()), 1, 2, 30), Ok(()));
    assert_eq!(kitties.events().clone(), vec![Event::TransferFunds(1, 2, 30, 4)]);
}

#[test]
fn unreserved_amount_is_the_collateral_less_the_overdraft() {
    assert_eq!(unreserved_amount(100, 0), 100);
    assert_eq!(unreserved_amount(100, 30), 70);
    assert_eq!(unreserved_amount(100, 100), 0);
}

#[test]
fn unreserve_moves_only_what_is_reserved() {
    let mut kitties = Module::new();
    let mut rt = InMemoryRuntime::new().with_balance(1, 100);
    assert_eq!(kitties.reserve_funds(&mut rt, Origin::Signed(1), 40), Ok(()));
    assert_eq!((rt.free(1), rt.reserved(1)), (60, 40));
    assert_eq!(kitties.unreserve_funds(&mut rt, Origin::Signed(1), 70), Ok(()));
    assert_eq!((rt.free(1), rt.reserved(1)), (100, 0));
    assert_eq!(kitties.unreserve_funds(&mut rt, Origin::Unsigned, 70), Err(DispatchError::BadOrigin));
    assert_eq!((rt.free(1), rt.reserved(1)), (100, 0));
}

#[test]
fn in_memory_runtime_moves_balances() {
    let mut kitties = Module::new();
    let mut rt = InMemoryRuntime::new().with_balance(1, 100).with_balance(2, u64::MAX);
    assert_eq!(
        kitties.transfer_funds(&mut rt, Origin::Signed(1), 2, 10),
        Err(DispatchError::Other("Overflow"))
    );
    assert_eq!((rt.free(1), rt.free(2)), (100, u64::MAX));
    assert_eq!(kitties.transfer_funds(&mut rt, Origin::Signed(1), 3, 10), Ok(()));
    assert_eq!((rt.free(1), rt.free(3)), (90, 10));
    assert_eq!(kitties.transfer_funds(&mut rt, Origin::Signed(1), 1, 50), Ok(()));
    assert_eq!(rt.free(1), 90);
}
