//! Substrate pallets: a kitty registry with breeding and a sale market, a
//! minimal multi-token ledger, and the decisions of a price-fetching
//! offchain worker.
pub mod dispatch;
pub mod hashing;
pub mod linked_item;
pub mod hellokitty;
pub mod mirrorerc20;
pub mod ocw_currency_price;
pub mod runtime;
