//! A closed economic state machine: baskets of assets, accounts that own
//! them, rates, and a ledger that carries out atomic exchanges.
//!
//! Asset and account identifier types are keys of hash maps. The operations
//! that look them up require `vstd::std_specs::hash::obeys_key_model` of the
//! type: its hash is deterministic, its `==` holds exactly of equal values,
//! and its `clone` returns an equal value.
pub mod account;
pub mod basket;
pub mod behavior;
pub mod holdings;
mod keys;
pub mod ledger;
pub mod quantity;
pub mod rate;
mod walk;

pub use account::{Account, AccountError};
pub use basket::Basket;
pub use behavior::{Policy, TerminationCondition};
pub use ledger::{ExchangeError, Ledger, Receipt};
pub use quantity::Quantity;
pub use rate::Rate;
