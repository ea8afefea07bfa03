# multiagent

A closed economic state machine: assets are held in baskets, baskets belong to
accounts, and a ledger carries out exchanges between two accounts at a rate.
Every operation is checked, and a refused operation changes nothing.

The library is written in Verus. Its contracts are stated over a mathematical
model: a basket is a finite map from assets to positive amounts, an account is
its basket, and a ledger is a map from account identifiers to such maps.

Layout:

- `src/quantity.rs`: `Quantity`, a `u64` amount with checked arithmetic.
- `src/holdings.rs`: the model of a basket (amounts, scaling, shortfall,
  addition, removal) and its laws.
- `src/basket.rs`: `Basket`, a `HashMap` from assets to non-zero quantities.
- `src/account.rs`: `Account`, with all-or-nothing deposits and withdrawals.
- `src/rate.rs`: `Rate`, what a buyer receives and pays per unit.
- `src/ledger.rs`: `Ledger`, `Receipt`, `ExchangeError`, the specification of
  an exchange and the conservation laws.
- `src/behavior.rs`: the `Policy` and `TerminationCondition` traits.
- `src/keys.rs`, `src/walk.rs`: cloning and comparing keys, and walking a
  `HashMap` once per entry.
- `app/main.rs`: the mission-time scenario as a program.

Asset and account identifier types must be lawful hash-map keys
(`vstd::std_specs::hash::obeys_key_model`): deterministic hashing, `==` that
holds exactly of equal values, and `clone` that returns an equal value.
