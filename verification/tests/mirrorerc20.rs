use pallets::dispatch::{DispatchError, Origin};
use pallets::mirrorerc20::{Erc20, Error, Event, Module};

fn token(name: &str, ticker: &str, supply: u128) -> Erc20 {
    Erc20::new(name.as_bytes().to_vec(), ticker.as_bytes().to_vec(), supply)
}

#[test]
fn init_gives_the_supply_to_the_creator() {
    let mut ledger = Module::new();
    assert_eq!(ledger.init(Origin::Signed(1), b"Dot".to_vec(), b"DOT".to_vec(), 1000), Ok(()));
    assert_eq!(ledger.token_id(), 1);
    assert_eq!(ledger.balance_of((0, 1)), 1000);
    assert_eq!(ledger.balance_of((0, 2)), 0);
    assert_eq!(ledger.tokens(0), Some(token("Dot", "DOT", 1000)));
    assert_eq!(ledger.tokens(1), None);
    assert_eq!(ledger.init(Origin::Signed(2), b"Ksm".to_vec(), b"KSM".to_vec(), 5), Ok(()));
    assert_eq!(ledger.token_id(), 2);
    assert_eq!(ledger.balance_of((1, 2)), 5);
    assert_eq!(ledger.balance_of((0, 1)), 1000);
    assert!(ledger.events().is_empty());
    let t = ledger.tokens(1).unwrap();
    assert_eq!(t.name(), &b"Ksm".to_vec());
    assert_eq!(t.ticker(), &b"KSM".to_vec());
    assert_eq!(t.total_supply(), 5);
}

#[test]
fn transfer_moves_balances_and_keeps_the_supply() {
    let mut ledger = Module::new();
    ledger.init(Origin::Signed(1), b"Dot".to_vec(), b"DOT".to_vec(), 1000).unwrap();
    assert_eq!(ledger.transfer(Origin::Signed(1), 0, 2, 300), Ok(()));
    assert_eq!(ledger.balance_of((0, 1)), 700);
    assert_eq!(ledger.balance_of((0, 2)), 300);
    assert_eq!(ledger.transfer(Origin::Signed(2), 0, 3, 300), Ok(()));
    assert_eq!(ledger.transfer(Origin::Signed(1), 0, 1, 700), Ok(()));
    assert_eq!(ledger.balance_of((0, 1)), 700);
    let total: u128 = (0..5).map(|a| ledger.balance_of((0, a))).sum();
    assert_eq!(total, 1000);
    assert_eq!(
        ledger.events().clone(),
        vec![
            Event::Transfer(1, 2, 0, 300),
            Event::Transfer(2, 3, 0, 300),
            Event::Transfer(1, 1, 0, 700),
        ]
    );
}

#[test]
fn transfer_errors() {
    let mut ledger = Module::new();
    ledger.init(Origin::Signed(1), b"Dot".to_vec(), b"DOT".to_vec(), 10).unwrap();
    assert_eq!(
        ledger.transfer(Origin::Signed(1), 4, 2, 1),
        Err(DispatchError::Module(Error::TokenNotExists))
    );
    assert_eq!(
        ledger.transfer(Origin::Signed(1), 0, 2, 11),
        Err(DispatchError::Module(Error::InsufficientFunds))
    );
    assert_eq!(ledger.transfer(Origin::Unsigned, 0, 2, 1), Err(DispatchError::BadOrigin));
    assert_eq!(ledger.balance_of((0, 1)), 10);
    assert!(ledger.events().is_empty());
}

#[test]
fn full_supply_can_move_to_the_largest_holder() {
    let mut ledger = Module::new();
    ledger.init(Origin::Signed(1), b"Max".to_vec(), b"MAX".to_vec(), u128::MAX).unwrap();
    assert_eq!(ledger.transfer(Origin::Signed(1), 0, 2, u128::MAX - 1), Ok(()));
    assert_eq!(ledger.transfer(Origin::Signed(1), 0, 2, 1), Ok(()));
    assert_eq!(ledger.balance_of((0, 2)), u128::MAX);
    assert_eq!(ledger.balance_of((0, 1)), 0);
}
