use crate::account::{Account, AccountError};
use crate::basket::Basket;
use crate::holdings::{
    added, addition_fits, amount, covers, is_holding, law_added_removed_amounts,
    law_operations_keep_holdings, law_scaled_amounts, law_shortfall_amounts, removed, scale_fits,
    scaled, shortfall_of,
};
use crate::keys::{clone_key, equal_keys};
use crate::quantity::{group_quantity, Quantity};
use crate::rate::Rate;
use crate::walk::{entries_of, lemma_walk_end, lemma_walk_start, lemma_walk_step, walked, walks};
use std::collections::HashMap;
use std::hash::Hash;
use vstd::prelude::*;
use vstd::std_specs::cmp::PartialEqSpec;
use vstd::std_specs::hash::obeys_key_model;

verus! {

broadcast use vstd::std_specs::hash::group_hash_axioms, group_quantity;

/// The balances of every account of a ledger.
pub(crate) open spec fn balances_of<AccountId, A>(m: Map<AccountId, Account<A>>) -> Map<
    AccountId,
    Map<A, nat>,
> {
    m.map_values(|account: Account<A>| account@)
}

/// The first check that an exchange of `units` at a rate of `credit` for
/// `debit` between `buyer` and `seller` fails, in the order in which the
/// ledger makes them.
pub enum Refusal {
    ZeroUnits,
    SameAccount,
    MissingBuyer,
    MissingSeller,
    CreditOverflow,
    DebitOverflow,
    BuyerShort,
    SellerShort,
    BuyerOverflow,
    SellerOverflow,
}

/// Which check, if any, refuses the exchange.
pub open spec fn refusal<AccountId, A>(
    accounts: Map<AccountId, Map<A, nat>>,
    buyer: AccountId,
    seller: AccountId,
    credit: Map<A, nat>,
    debit: Map<A, nat>,
    units: nat,
) -> Option<Refusal> {
    if units == 0 {
        Some(Refusal::ZeroUnits)
    } else if buyer == seller {
        Some(Refusal::SameAccount)
    } else if !accounts.contains_key(buyer) {
        Some(Refusal::MissingBuyer)
    } else if !accounts.contains_key(seller) {
        Some(Refusal::MissingSeller)
    } else if !scale_fits(credit, units) {
        Some(Refusal::CreditOverflow)
    } else if !scale_fits(debit, units) {
        Some(Refusal::DebitOverflow)
    } else {
        let c = scaled(credit, units);
        let d = scaled(debit, units);
        let b = accounts[buyer];
        let s = accounts[seller];
        if !covers(b, d) {
            Some(Refusal::BuyerShort)
        } else if !covers(s, c) {
            Some(Refusal::SellerShort)
        } else if !addition_fits(removed(b, d), c) {
            Some(Refusal::BuyerOverflow)
        } else if !addition_fits(removed(s, c), d) {
            Some(Refusal::SellerOverflow)
        } else {
            None
        }
    }
}

/// The buyer's balances after the exchange: it pays the scaled debit and
/// receives the scaled credit.
pub open spec fn buyer_after<A>(b: Map<A, nat>, credit: Map<A, nat>, debit: Map<A, nat>, units: nat) -> Map<A, nat> {
    added(removed(b, scaled(debit, units)), scaled(credit, units))
}

/// The seller's balances after the exchange: it gives the scaled credit and
/// receives the scaled debit.
pub open spec fn seller_after<A>(s: Map<A, nat>, credit: Map<A, nat>, debit: Map<A, nat>, units: nat) -> Map<A, nat> {
    added(removed(s, scaled(credit, units)), scaled(debit, units))
}

/// The ledger after a successful exchange: only the two accounts change.
pub open spec fn settled<AccountId, A>(
    accounts: Map<AccountId, Map<A, nat>>,
    buyer: AccountId,
    seller: AccountId,
    credit: Map<A, nat>,
    debit: Map<A, nat>,
    units: nat,
) -> Map<AccountId, Map<A, nat>> {
    accounts.insert(buyer, buyer_after(accounts[buyer], credit, debit, units)).insert(
        seller,
        seller_after(accounts[seller], credit, debit, units),
    )
}

/// `e` is the error that the ledger reports for the refusal `why`.
pub open spec fn explains<AccountId, A>(
    e: ExchangeError<AccountId, A>,
    why: Refusal,
    accounts: Map<AccountId, Map<A, nat>>,
    buyer: AccountId,
    seller: AccountId,
    credit: Map<A, nat>,
    debit: Map<A, nat>,
    units: nat,
) -> bool {
    let c = scaled(credit, units);
    let d = scaled(debit, units);
    let b = accounts[buyer];
    let s = accounts[seller];
    match why {
        Refusal::ZeroUnits => e is ZeroUnits,
        Refusal::SameAccount => e matches ExchangeError::SameAccount { account } && account == buyer,
        Refusal::MissingBuyer => e matches ExchangeError::MissingAccount { account } && account
            == buyer,
        Refusal::MissingSeller => e matches ExchangeError::MissingAccount { account } && account
            == seller,
        Refusal::CreditOverflow => e matches ExchangeError::RateOverflow { asset }
            && credit.contains_key(asset) && credit[asset] * units > u64::MAX,
        Refusal::DebitOverflow => e matches ExchangeError::RateOverflow { asset }
            && debit.contains_key(asset) && debit[asset] * units > u64::MAX,
        Refusal::BuyerShort => e matches ExchangeError::InsufficientBalance { account, shortfall }
            && account == buyer && shortfall@ == shortfall_of(b, d),
        Refusal::SellerShort => e matches ExchangeError::InsufficientBalance { account, shortfall }
            && account == seller && shortfall@ == shortfall_of(s, c),
        Refusal::BuyerOverflow => e matches ExchangeError::BalanceOverflow { account, asset }
            && account == buyer && c.contains_key(asset) && amount(removed(b, d), asset) + c[asset]
            > u64::MAX,
        Refusal::SellerOverflow => e matches ExchangeError::BalanceOverflow { account, asset }
            && account == seller && d.contains_key(asset) && amount(removed(s, c), asset) + d[asset]
            > u64::MAX,
    }
}

/// A successful exchange creates and destroys nothing: for every asset the
/// buyer's and the seller's balances add up to the same amount before and
/// after, and every other account keeps its balances.
pub proof fn law_exchange_conserves<AccountId, A>(
    accounts: Map<AccountId, Map<A, nat>>,
    buyer: AccountId,
    seller: AccountId,
    credit: Map<A, nat>,
    debit: Map<A, nat>,
    units: nat,
)
    requires
        refusal(accounts, buyer, seller, credit, debit, units) is None,
    ensures
        ({
            let after = settled(accounts, buyer, seller, credit, debit, units);
            &&& after.dom() == accounts.dom()
            &&& forall|asset: A|
                amount(#[trigger] after[buyer], asset) + amount(after[seller], asset) == amount(
                    accounts[buyer],
                    asset,
                ) + amount(accounts[seller], asset)
            &&& forall|id: AccountId|
                id != buyer && id != seller && #[trigger] accounts.contains_key(id) ==> after[id]
                    == accounts[id]
        }),
{
    let after = settled(accounts, buyer, seller, credit, debit, units);
    let c = scaled(credit, units);
    let d = scaled(debit, units);
    let b = accounts[buyer];
    let s = accounts[seller];
    assert(after.dom() =~= accounts.dom());
    assert forall|asset: A|
        amount(#[trigger] after[buyer], asset) + amount(after[seller], asset) == amount(b, asset)
            + amount(s, asset) by {
        assert(after[buyer] == added(removed(b, d), c));
        assert(after[seller] == added(removed(s, c), d));
        if d.contains_key(asset) {
            assert(d[asset] <= amount(b, asset));
        }
        if c.contains_key(asset) {
            assert(c[asset] <= amount(s, asset));
        }
    }
}

/// An exchange goes through exactly when the units are positive, the buyer
/// and the seller are two existing accounts, every scaled rate amount fits in
/// a `u64`, the buyer holds the scaled debit, the seller holds the scaled
/// credit, and both new balances fit in a `u64`.
pub proof fn law_exchange_goes_through<AccountId, A>(
    accounts: Map<AccountId, Map<A, nat>>,
    buyer: AccountId,
    seller: AccountId,
    credit: Map<A, nat>,
    debit: Map<A, nat>,
    units: nat,
)
    requires
        forall|id: AccountId| #[trigger] accounts.contains_key(id) ==> is_holding(accounts[id]),
        is_holding(credit),
        is_holding(debit),
    ensures
        refusal(accounts, buyer, seller, credit, debit, units) is None <==> {
            &&& units > 0
            &&& buyer != seller
            &&& accounts.contains_key(buyer)
            &&& accounts.contains_key(seller)
            &&& forall|a: A| #[trigger] amount(credit, a) * units <= u64::MAX
            &&& forall|a: A| #[trigger] amount(debit, a) * units <= u64::MAX
            &&& forall|a: A| amount(debit, a) * units <= #[trigger] amount(accounts[buyer], a)
            &&& forall|a: A| amount(credit, a) * units <= #[trigger] amount(accounts[seller], a)
            &&& forall|a: A|
                #[trigger] amount(accounts[buyer], a) - amount(debit, a) * units + amount(credit, a)
                    * units <= u64::MAX
            &&& forall|a: A|
                #[trigger] amount(accounts[seller], a) - amount(credit, a) * units + amount(debit, a)
                    * units <= u64::MAX
        },
{
    law_scaled_amounts(credit, units);
    law_scaled_amounts(debit, units);
    if units > 0 && buyer != seller && accounts.contains_key(buyer) && accounts.contains_key(seller) {
        let c = scaled(credit, units);
        let d = scaled(debit, units);
        let b = accounts[buyer];
        let s = accounts[seller];
        law_shortfall_amounts(b, d);
        law_shortfall_amounts(s, c);
        law_added_removed_amounts(b, d);
        law_added_removed_amounts(s, c);
        assert(is_holding(b));
        assert(is_holding(s));
        law_operations_keep_holdings(credit, debit, units);
        law_operations_keep_holdings(debit, credit, units);
        if scale_fits(credit, units) && scale_fits(debit, units) {
            law_operations_keep_holdings(b, d, units);
            law_operations_keep_holdings(s, c, units);
        }
        law_added_removed_amounts(removed(b, d), c);
        law_added_removed_amounts(removed(s, c), d);
        if covers(b, d) {
            assert forall|a: A| #[trigger] amount(removed(b, d), a) == amount(b, a) - amount(d, a) by {
                assert(amount(d, a) <= amount(b, a));
            }
        }
        if covers(s, c) {
            assert forall|a: A| #[trigger] amount(removed(s, c), a) == amount(s, a) - amount(c, a) by {
                assert(amount(c, a) <= amount(s, a));
            }
        }
        let fits_c = forall|a: A| #[trigger] amount(credit, a) * units <= u64::MAX;
        let fits_d = forall|a: A| #[trigger] amount(debit, a) * units <= u64::MAX;
        let buyer_has = forall|a: A| amount(debit, a) * units <= #[trigger] amount(b, a);
        let seller_has = forall|a: A| amount(credit, a) * units <= #[trigger] amount(s, a);
        let buyer_fits = forall|a: A|
            #[trigger] amount(b, a) - amount(debit, a) * units + amount(credit, a) * units <= u64::MAX;
        let seller_fits = forall|a: A|
            #[trigger] amount(s, a) - amount(credit, a) * units + amount(debit, a) * units <= u64::MAX;
        assert(fits_c <==> scale_fits(credit, units));
        assert(fits_d <==> scale_fits(debit, units));
        assert(buyer_has <==> covers(b, d)) by {
            if buyer_has {
                assert forall|a: A| #[trigger] amount(d, a) <= amount(b, a) by {
                    assert(amount(debit, a) * units <= amount(b, a));
                }
            }
            if covers(b, d) {
                assert forall|a: A| amount(debit, a) * units <= #[trigger] amount(b, a) by {
                    assert(amount(d, a) <= amount(b, a));
                }
            }
        }
        assert(seller_has <==> covers(s, c)) by {
            if seller_has {
                assert forall|a: A| #[trigger] amount(c, a) <= amount(s, a) by {
                    assert(amount(credit, a) * units <= amount(s, a));
                }
            }
            if covers(s, c) {
                assert forall|a: A| amount(credit, a) * units <= #[trigger] amount(s, a) by {
                    assert(amount(c, a) <= amount(s, a));
                }
            }
        }
        if fits_c && fits_d && buyer_has && seller_has {
            assert(buyer_fits <==> addition_fits(removed(b, d), c)) by {
                if buyer_fits {
                    assert forall|a: A| #[trigger] amount(removed(b, d), a) + amount(c, a) <= u64::MAX by {
                        assert(amount(b, a) - amount(debit, a) * units + amount(credit, a) * units
                            <= u64::MAX);
                    }
                }
                if addition_fits(removed(b, d), c) {
                    assert forall|a: A|
                        #[trigger] amount(b, a) - amount(debit, a) * units + amount(credit, a) * units
                            <= u64::MAX by {
                        assert(amount(removed(b, d), a) + amount(c, a) <= u64::MAX);
                    }
                }
            }
            assert(seller_fits <==> addition_fits(removed(s, c), d)) by {
                if seller_fits {
                    assert forall|a: A| #[trigger] amount(removed(s, c), a) + amount(d, a) <= u64::MAX by {
                        assert(amount(s, a) - amount(credit, a) * units + amount(debit, a) * units
                            <= u64::MAX);
                    }
                }
                if addition_fits(removed(s, c), d) {
                    assert forall|a: A|
                        #[trigger] amount(s, a) - amount(credit, a) * units + amount(debit, a) * units
                            <= u64::MAX by {
                        assert(amount(removed(s, c), a) + amount(d, a) <= u64::MAX);
                    }
                }
            }
        }
    }
}

/// After a successful exchange the buyer holds its balance less the debit
/// times the units plus the credit times the units, and the seller its
/// balance less the credit times the units plus the debit times the units.
pub proof fn law_exchange_balances<AccountId, A>(
    accounts: Map<AccountId, Map<A, nat>>,
    buyer: AccountId,
    seller: AccountId,
    credit: Map<A, nat>,
    debit: Map<A, nat>,
    units: nat,
)
    requires
        refusal(accounts, buyer, seller, credit, debit, units) is None,
    ensures
        ({
            let after = settled(accounts, buyer, seller, credit, debit, units);
            &&& forall|a: A|
                #[trigger] amount(after[buyer], a) == amount(accounts[buyer], a) - amount(debit, a)
                    * units + amount(credit, a) * units
            &&& forall|a: A|
                #[trigger] amount(after[seller], a) == amount(accounts[seller], a) - amount(credit, a)
                    * units + amount(debit, a) * units
        }),
{
    let c = scaled(credit, units);
    let d = scaled(debit, units);
    let b = accounts[buyer];
    let s = accounts[seller];
    law_scaled_amounts(credit, units);
    law_scaled_amounts(debit, units);
    law_added_removed_amounts(b, d);
    law_added_removed_amounts(s, c);
    law_added_removed_amounts(removed(b, d), c);
    law_added_removed_amounts(removed(s, c), d);
    let after = settled(accounts, buyer, seller, credit, debit, units);
    assert(after[buyer] == added(removed(b, d), c));
    assert(after[seller] == added(removed(s, c), d));
    assert forall|a: A| #[trigger] amount(after[buyer], a) == amount(b, a) - amount(debit, a) * units
        + amount(credit, a) * units by {
        if d.contains_key(a) {
            assert(d[a] <= amount(b, a));
        }
        assert(amount(d, a) <= amount(b, a));
    }
    assert forall|a: A| #[trigger] amount(after[seller], a) == amount(s, a) - amount(credit, a) * units
        + amount(debit, a) * units by {
        if c.contains_key(a) {
            assert(c[a] <= amount(s, a));
        }
        assert(amount(c, a) <= amount(s, a));
    }
}

/// The amount of `asset` held by the accounts in `ids` together.
pub open spec fn total_over<AccountId, A>(
    accounts: Map<AccountId, Map<A, nat>>,
    ids: Set<AccountId>,
    asset: A,
) -> nat
    decreases ids.len(),
{
    if ids.finite() && ids.len() > 0 {
        let id = ids.choose();
        proof {
            assert(ids.contains(id));
        }
        amount(accounts[id], asset) + total_over(accounts, ids.remove(id), asset)
    } else {
        0
    }
}

/// The amount of `asset` held across the whole ledger.
pub open spec fn total<AccountId, A>(accounts: Map<AccountId, Map<A, nat>>, asset: A) -> nat {
    total_over(accounts, accounts.dom(), asset)
}

/// Any account of `ids` can be counted first.
pub proof fn lemma_total_take<AccountId, A>(
    accounts: Map<AccountId, Map<A, nat>>,
    ids: Set<AccountId>,
    asset: A,
    x: AccountId,
)
    requires
        ids.finite(),
        ids.contains(x),
    ensures
        total_over(accounts, ids, asset) == amount(accounts[x], asset) + total_over(
            accounts,
            ids.remove(x),
            asset,
        ),
    decreases ids.len(),
{
    let y = ids.choose();
    if y != x {
        lemma_total_take(accounts, ids.remove(y), asset, x);
        lemma_total_take(accounts, ids.remove(x), asset, y);
        assert(ids.remove(y).remove(x) =~= ids.remove(x).remove(y));
    }
}

/// Accounts that hold the same amount of `asset` have the same total.
pub proof fn lemma_total_agree<AccountId, A>(
    m1: Map<AccountId, Map<A, nat>>,
    m2: Map<AccountId, Map<A, nat>>,
    ids: Set<AccountId>,
    asset: A,
)
    requires
        forall|id: AccountId| #[trigger] ids.contains(id) ==> amount(m1[id], asset) == amount(m2[id], asset),
    ensures
        total_over(m1, ids, asset) == total_over(m2, ids, asset),
    decreases ids.len(),
{
    if ids.finite() && ids.len() > 0 {
        let id = ids.choose();
        lemma_total_agree(m1, m2, ids.remove(id), asset);
    }
}

/// A successful exchange leaves the total of every asset across the ledger
/// unchanged.
pub proof fn law_exchange_keeps_totals<AccountId, A>(
    accounts: Map<AccountId, Map<A, nat>>,
    buyer: AccountId,
    seller: AccountId,
    credit: Map<A, nat>,
    debit: Map<A, nat>,
    units: nat,
    asset: A,
)
    requires
        accounts.dom().finite(),
        refusal(accounts, buyer, seller, credit, debit, units) is None,
    ensures
        total(settled(accounts, buyer, seller, credit, debit, units), asset) == total(accounts, asset),
{
    let after = settled(accounts, buyer, seller, credit, debit, units);
    law_exchange_conserves(accounts, buyer, seller, credit, debit, units);
    let ids = accounts.dom();
    let rest = ids.remove(buyer).remove(seller);
    lemma_total_take(accounts, ids, asset, buyer);
    lemma_total_take(accounts, ids.remove(buyer), asset, seller);
    lemma_total_take(after, ids, asset, buyer);
    lemma_total_take(after, ids.remove(buyer), asset, seller);
    assert forall|id: AccountId| #[trigger] rest.contains(id) implies amount(after[id], asset) == amount(
        accounts[id],
        asset,
    ) by {
        assert(accounts.contains_key(id));
    }
    lemma_total_agree(after, accounts, rest, asset);
    assert(amount(after[buyer], asset) + amount(after[seller], asset) == amount(accounts[buyer], asset)
        + amount(accounts[seller], asset));
}

/// The accounts of a closed economy, keyed by account identifier, and the
/// exchanges between them.
#[derive(Debug)]
pub struct Ledger<AccountId, A> {
    accounts: HashMap<AccountId, Account<A>>,
}

impl<AccountId, A> View for Ledger<AccountId, A> {
    type V = Map<AccountId, Map<A, nat>>;

    closed spec fn view(&self) -> Map<AccountId, Map<A, nat>> {
        balances_of(self.accounts@)
    }
}

/// The balances of the two accounts, and the scaled baskets, of an exchange
/// that passed every check.
struct PreparedExchange<A> {
    buyer_account: Account<A>,
    seller_account: Account<A>,
    credit: Basket<A>,
    debit: Basket<A>,
}

impl<AccountId, A> Ledger<AccountId, A> {
    /// The ledger without accounts.
    pub fn new() -> (ledger: Self)
        ensures
            ledger@ == Map::<AccountId, Map<A, nat>>::empty(),
    {
        let ledger = Ledger { accounts: HashMap::new() };
        assert(ledger@ =~= Map::<AccountId, Map<A, nat>>::empty());
        ledger
    }

    pub fn len(&self) -> (n: usize)
        requires
            obeys_key_model::<AccountId>(),
        ensures
            n == self@.len(),
    {
        assert(self@.dom() =~= self.accounts@.dom());
        self.accounts.len()
    }

    pub fn is_empty(&self) -> (b: bool)
        ensures
            b == self@.dom().is_empty(),
    {
        assert(self@.dom() =~= self.accounts@.dom());
        self.accounts.is_empty()
    }

    /// Every account with its identifier, each once, in the map's own order.
    pub fn iter(&self) -> (e: Vec<(&AccountId, &Account<A>)>)
        requires
            obeys_key_model::<AccountId>(),
        ensures
            e@.len() == self@.len(),
            forall|i: int|
                0 <= i < e@.len() ==> #[trigger] self@.contains_key(*e@[i].0) && self@[*e@[i].0]
                    == (*e@[i].1)@,
            forall|i: int, j: int|
                0 <= i < e@.len() && 0 <= j < e@.len() && i != j ==> *(#[trigger] e@[i]).0 != *(
                #[trigger] e@[j]).0,
            forall|id: AccountId| #[trigger]
                self@.contains_key(id) ==> exists|i: int| 0 <= i < e@.len() && *e@[i].0 == id,
    {
        let e = entries_of(&self.accounts);
        proof {
            assert(self@.dom() =~= self.accounts@.dom());
            assert forall|i: int| 0 <= i < e@.len() implies #[trigger] self@.contains_key(*e@[i].0)
                && self@[*e@[i].0] == (*e@[i].1)@ by {
                assert(self.accounts@.contains_key(*e@[i].0));
            }
            assert forall|id: AccountId| #[trigger] self@.contains_key(id) implies exists|i: int|
                0 <= i < e@.len() && *e@[i].0 == id by {
                assert(self.accounts@.contains_key(id));
            }
        }
        e
    }
}

impl<AccountId: Eq + Hash, A> Ledger<AccountId, A> {
    /// Stores `account` under `account_id` and returns the account that was
    /// stored there before, if any.
    pub fn insert(&mut self, account_id: AccountId, account: Account<A>) -> (previous: Option<
        Account<A>,
    >)
        requires
            obeys_key_model::<AccountId>(),
        ensures
            final(self)@ == old(self)@.insert(account_id, account@),
            match previous {
                Some(p) => old(self)@.contains_key(account_id) && p@ == old(self)@[account_id],
                None => !old(self)@.contains_key(account_id),
            },
    {
        let ghost before = self.accounts@;
        let previous = self.accounts.insert(account_id, account);
        assert(self@ =~= balances_of(before).insert(account_id, account@));
        previous
    }

    /// The account stored under `account_id`, if any.
    pub fn account(&self, account_id: &AccountId) -> (account: Option<&Account<A>>)
        requires
            obeys_key_model::<AccountId>(),
        ensures
            match account {
                Some(a) => self@.contains_key(*account_id) && a@ == self@[*account_id],
                None => !self@.contains_key(*account_id),
            },
    {
        self.accounts.get(account_id)
    }
}

impl<AccountId: Clone + Eq + Hash, A> Ledger<AccountId, A> {
    /// The account stored under `account_id`, for changing in place, if any.
    pub fn account_mut(&mut self, account_id: &AccountId) -> (account: Option<&mut Account<A>>)
        requires
            obeys_key_model::<AccountId>(),
        ensures
            match account {
                Some(a) => {
                    &&& old(self)@.contains_key(*account_id)
                    &&& (*a)@ == old(self)@[*account_id]
                    &&& final(self)@ == old(self)@.insert(*account_id, (*final(a))@)
                },
                None => !old(self)@.contains_key(*account_id) && final(self)@ == old(self)@,
            },
    {
        let ghost before = self.accounts@;
        let key = clone_key(account_id);
        match self.accounts.entry(key) {
            std::collections::hash_map::Entry::Occupied(occupied) => {
                let a = occupied.into_mut();
                proof {
                    assert(balances_of(before.insert(*account_id, *final(a))) =~= balances_of(
                        before,
                    ).insert(*account_id, (*final(a))@));
                }
                Some(a)
            },
            std::collections::hash_map::Entry::Vacant(_) => {
                assert(before.remove(*account_id) =~= before);
                None
            },
        }
    }
}

/// The error that the ledger reports for an account's refusal.
fn map_account_error<AccountId, A>(account: AccountId, error: AccountError<A>) -> (e: ExchangeError<
    AccountId,
    A,
>)
    ensures
        match error {
            AccountError::InsufficientBalance { shortfall } => e matches ExchangeError::InsufficientBalance {
                account: id,
                shortfall: s,
            } && id == account && s@ == shortfall@,
            AccountError::Overflow { asset } => e matches ExchangeError::BalanceOverflow {
                account: id,
                asset: a,
            } && id == account && a == asset,
        },
{
    match error {
        AccountError::InsufficientBalance { shortfall } => ExchangeError::InsufficientBalance {
            account,
            shortfall,
        },
        AccountError::Overflow { asset } => ExchangeError::BalanceOverflow { account, asset },
    }
}

impl<AccountId: Clone + Eq + Hash, A: Clone + Eq + Hash> Ledger<AccountId, A> {
    /// Whether `exchange` would succeed, without changing anything: `Ok`
    /// exactly where it would, and otherwise the error it would report.
    pub fn can_exchange(
        &self,
        buyer: &AccountId,
        seller: &AccountId,
        rate: &Rate<A>,
        units: Quantity,
    ) -> (r: Result<(), ExchangeError<AccountId, A>>)
        requires
            obeys_key_model::<AccountId>(),
            obeys_key_model::<A>(),
        ensures
            ({
                let why = refusal(
                    self@,
                    *buyer,
                    *seller,
                    rate.spec_credit(),
                    rate.spec_debit(),
                    units@,
                );
                &&& r is Ok <==> why is None
                &&& r matches Err(e) ==> explains(
                    e,
                    why->0,
                    self@,
                    *buyer,
                    *seller,
                    rate.spec_credit(),
                    rate.spec_debit(),
                    units@,
                )
            }),
    {
        match self.prepare_exchange(buyer, seller, rate, units) {
            Ok(_) => Ok(()),
            Err(e) => Err(e),
        }
    }

    /// Exchanges `units` units of `rate` between `buyer` and `seller`,
    /// atomically: the buyer pays the debit scaled by `units` to the seller
    /// and receives the scaled credit from it. A refused exchange changes
    /// nothing and reports the first check that failed.
    pub fn exchange(
        &mut self,
        buyer: &AccountId,
        seller: &AccountId,
        rate: &Rate<A>,
        units: Quantity,
    ) -> (r: Result<Receipt<AccountId, A>, ExchangeError<AccountId, A>>)
        requires
            obeys_key_model::<AccountId>(),
            obeys_key_model::<A>(),
        ensures
            ({
                let credit = rate.spec_credit();
                let debit = rate.spec_debit();
                let why = refusal(old(self)@, *buyer, *seller, credit, debit, units@);
                &&& r is Ok <==> why is None
                &&& r matches Ok(receipt) ==> {
                    &&& final(self)@ == settled(old(self)@, *buyer, *seller, credit, debit, units@)
                    &&& receipt.spec_buyer() == *buyer
                    &&& receipt.spec_seller() == *seller
                    &&& receipt.spec_units() == units
                    &&& receipt.spec_credit() == scaled(credit, units@)
                    &&& receipt.spec_debit() == scaled(debit, units@)
                }
                &&& r matches Err(e) ==> {
                    &&& final(self)@ == old(self)@
                    &&& explains(e, why->0, old(self)@, *buyer, *seller, credit, debit, units@)
                }
            }),
    {
        let prepared = match self.prepare_exchange(buyer, seller, rate, units) {
            Ok(p) => p,
            Err(e) => {
                return Err(e);
            },
        };
        let PreparedExchange { buyer_account, seller_account, credit, debit } = prepared;
        let ghost before = self.accounts@;
        let ghost buyer_view = buyer_account@;
        let ghost seller_view = seller_account@;
        self.accounts.insert(clone_key(buyer), buyer_account);
        self.accounts.insert(clone_key(seller), seller_account);
        proof {
            assert(self@ =~= balances_of(before).insert(*buyer, buyer_view).insert(
                *seller,
                seller_view,
            ));
        }
        Ok(Receipt { buyer: clone_key(buyer), seller: clone_key(seller), units, credit, debit })
    }

    fn prepare_exchange(
        &self,
        buyer: &AccountId,
        seller: &AccountId,
        rate: &Rate<A>,
        units: Quantity,
    ) -> (r: Result<PreparedExchange<A>, ExchangeError<AccountId, A>>)
        requires
            obeys_key_model::<AccountId>(),
            obeys_key_model::<A>(),
        ensures
            ({
                let credit = rate.spec_credit();
                let debit = rate.spec_debit();
                let why = refusal(self@, *buyer, *seller, credit, debit, units@);
                &&& r is Ok <==> why is None
                &&& r matches Ok(p) ==> {
                    &&& p.buyer_account@ == buyer_after(self@[*buyer], credit, debit, units@)
                    &&& p.seller_account@ == seller_after(self@[*seller], credit, debit, units@)
                    &&& p.credit@ == scaled(credit, units@)
                    &&& p.debit@ == scaled(debit, units@)
                }
                &&& r matches Err(e) ==> explains(e, why->0, self@, *buyer, *seller, credit, debit, units@)
            }),
    {
        if units.is_zero() {
            return Err(ExchangeError::ZeroUnits);
        }
        if equal_keys(buyer, seller) {
            return Err(ExchangeError::SameAccount { account: clone_key(buyer) });
        }
        let mut buyer_account = match self.accounts.get(buyer) {
            Some(account) => account.clone(),
            None => {
                return Err(ExchangeError::MissingAccount { account: clone_key(buyer) });
            },
        };
        let mut seller_account = match self.accounts.get(seller) {
            Some(account) => account.clone(),
            None => {
                return Err(ExchangeError::MissingAccount { account: clone_key(seller) });
            },
        };
        let credit = match rate.credit().checked_scale(units) {
            Ok(scaled) => scaled,
            Err(asset) => {
                return Err(ExchangeError::RateOverflow { asset });
            },
        };
        let debit = match rate.debit().checked_scale(units) {
            Ok(scaled) => scaled,
            Err(asset) => {
                return Err(ExchangeError::RateOverflow { asset });
            },
        };
        match buyer_account.withdraw(&debit) {
            Ok(()) => {},
            Err(error) => {
                return Err(map_account_error(clone_key(buyer), error));
            },
        }
        match seller_account.withdraw(&credit) {
            Ok(()) => {},
            Err(error) => {
                return Err(map_account_error(clone_key(seller), error));
            },
        }
        match buyer_account.deposit(&credit) {
            Ok(()) => {},
            Err(error) => {
                return Err(map_account_error(clone_key(buyer), error));
            },
        }
        match seller_account.deposit(&debit) {
            Ok(()) => {},
            Err(error) => {
                return Err(map_account_error(clone_key(seller), error));
            },
        }
        Ok(PreparedExchange { buyer_account, seller_account, credit, debit })
    }
}

impl<AccountId, A> Default for Ledger<AccountId, A> {
    fn default() -> (ledger: Self)
        ensures
            ledger@ == Map::<AccountId, Map<A, nat>>::empty(),
    {
        Ledger::new()
    }
}

impl<AccountId: Clone, A: Clone> Clone for Ledger<AccountId, A> {
    fn clone(&self) -> (ledger: Self)
        ensures
            ledger@ == self@,
    {
        Ledger { accounts: self.accounts.clone() }
    }
}

impl<AccountId: Eq + Hash, A: Eq + Hash> PartialEq for Ledger<AccountId, A> {
    fn eq(&self, other: &Self) -> (r: bool) {
        if self.accounts.len() != other.accounts.len() {
            proof {
                if obeys_key_model::<AccountId>() {
                    assert(self@.dom() =~= self.accounts@.dom());
                    assert(other@.dom() =~= other.accounts@.dom());
                }
            }
            return false;
        }
        let entries = entries_of(&self.accounts);
        let ghost m = self.accounts@;
        let ghost mut done = Map::<AccountId, Account<A>>::empty();
        let mut i: usize = 0;
        proof {
            lemma_walk_start(entries@, m);
        }
        while i < entries.len()
            invariant
                m == self.accounts@,
                obeys_key_model::<AccountId>() ==> walks(entries@, m),
                obeys_key_model::<AccountId>() ==> walked(entries@, i as int, done, m),
                obeys_key_model::<AccountId>() && obeys_key_model::<A>() ==> forall|id: AccountId|
                    #[trigger] done.contains_key(id) ==> other.accounts@.contains_key(id)
                        && other.accounts@[id]@ == done[id]@,
            decreases entries.len() - i,
        {
            let (id, account) = entries[i];
            proof {
                if obeys_key_model::<AccountId>() {
                    lemma_walk_step(entries@, i as int, done, m);
                }
            }
            match other.accounts.get(id) {
                Some(theirs) => {
                    if !(*account == *theirs) {
                        proof {
                            if obeys_key_model::<AccountId>() && obeys_key_model::<A>() {
                                assert(self@[*id] != other@[*id]);
                            }
                        }
                        return false;
                    }
                },
                None => {
                    proof {
                        if obeys_key_model::<AccountId>() {
                            assert(self@.contains_key(*id));
                            assert(!other@.contains_key(*id));
                        }
                    }
                    return false;
                },
            }
            proof {
                done = done.insert(*id, *account);
            }
            i = i + 1;
        }
        proof {
            if obeys_key_model::<AccountId>() && obeys_key_model::<A>() {
                lemma_walk_end(entries@, done, m);
                assert(m.dom().subset_of(other.accounts@.dom()));
                vstd::set_lib::lemma_subset_equality(m.dom(), other.accounts@.dom());
                assert(self@ =~= other@);
            }
        }
        true
    }
}

impl<AccountId: Eq + Hash, A: Eq + Hash> vstd::std_specs::cmp::PartialEqSpecImpl for Ledger<AccountId, A> {
    open spec fn obeys_eq_spec() -> bool {
        obeys_key_model::<AccountId>() && obeys_key_model::<A>()
    }

    open spec fn eq_spec(&self, other: &Self) -> bool {
        self@ == other@
    }
}

/// Two ledgers are equal exactly when they have the same account
/// identifiers and each account holds the same balance of every asset in both.
pub proof fn law_ledger_equality<AccountId: Eq + Hash, A: Eq + Hash>(
    l1: Ledger<AccountId, A>,
    l2: Ledger<AccountId, A>,
)
    requires
        forall|id: AccountId| #[trigger] l1@.contains_key(id) ==> is_holding(l1@[id]),
        forall|id: AccountId| #[trigger] l2@.contains_key(id) ==> is_holding(l2@[id]),
    ensures
        l1.eq_spec(&l2) <==> {
            &&& forall|id: AccountId| #[trigger] l1@.contains_key(id) <==> l2@.contains_key(id)
            &&& forall|id: AccountId, a: A|
                #![trigger amount(l2@[id], a)]
                l1@.contains_key(id) ==> amount(l1@[id], a) == amount(l2@[id], a)
        },
        Ledger::<AccountId, A>::obeys_eq_spec() <==> obeys_key_model::<AccountId>()
            && obeys_key_model::<A>(),
{
    if (forall|id: AccountId| #[trigger] l1@.contains_key(id) <==> l2@.contains_key(id)) && (forall|
        id: AccountId,
        a: A,
    |
        #![trigger amount(l2@[id], a)]
        l1@.contains_key(id) ==> amount(l1@[id], a) == amount(l2@[id], a)) {
        assert forall|id: AccountId| #[trigger] l1@.contains_key(id) implies l1@[id] == l2@[id] by {
            assert forall|a: A| amount(l1@[id], a) == amount(l2@[id], a) by {
                assert(l1@.contains_key(id));
            }
            assert(l2@.contains_key(id));
            crate::holdings::lemma_holding_by_amounts(l1@[id], l2@[id]);
        }
        assert(l1@ =~= l2@);
    }
}

impl<AccountId: Eq + Hash, A: Eq + Hash> Eq for Ledger<AccountId, A> {

}

/// The record of a successful exchange.
#[derive(Debug, Clone)]
pub struct Receipt<AccountId, A> {
    buyer: AccountId,
    seller: AccountId,
    units: Quantity,
    credit: Basket<A>,
    debit: Basket<A>,
}

impl<AccountId, A> Receipt<AccountId, A> {
    pub closed spec fn spec_buyer(&self) -> AccountId {
        self.buyer
    }

    pub closed spec fn spec_seller(&self) -> AccountId {
        self.seller
    }

    pub closed spec fn spec_units(&self) -> Quantity {
        self.units
    }

    /// What the buyer received.
    pub closed spec fn spec_credit(&self) -> Map<A, nat> {
        self.credit@
    }

    /// What the buyer paid.
    pub closed spec fn spec_debit(&self) -> Map<A, nat> {
        self.debit@
    }

    pub fn buyer(&self) -> (buyer: &AccountId)
        ensures
            *buyer == self.spec_buyer(),
    {
        &self.buyer
    }

    pub fn seller(&self) -> (seller: &AccountId)
        ensures
            *seller == self.spec_seller(),
    {
        &self.seller
    }

    pub fn units(&self) -> (units: Quantity)
        ensures
            units == self.spec_units(),
    {
        self.units
    }

    pub fn credit(&self) -> (credit: &Basket<A>)
        ensures
            credit@ == self.spec_credit(),
    {
        &self.credit
    }

    pub fn debit(&self) -> (debit: &Basket<A>)
        ensures
            debit@ == self.spec_debit(),
    {
        &self.debit
    }
}

impl<AccountId: PartialEqSpec, A: Eq + Hash> PartialEq for Receipt<AccountId, A> {
    fn eq(&self, other: &Self) -> (r: bool) {
        self.buyer == other.buyer && self.seller == other.seller && self.units == other.units
            && self.credit == other.credit && self.debit == other.debit
    }
}

impl<AccountId: PartialEqSpec, A: Eq + Hash> vstd::std_specs::cmp::PartialEqSpecImpl for Receipt<AccountId, A> {
    open spec fn obeys_eq_spec() -> bool {
        AccountId::obeys_eq_spec() && obeys_key_model::<A>()
    }

    open spec fn eq_spec(&self, other: &Self) -> bool {
        &&& self.spec_buyer().eq_spec(&other.spec_buyer())
        &&& self.spec_seller().eq_spec(&other.spec_seller())
        &&& self.spec_units() == other.spec_units()
        &&& self.spec_credit() == other.spec_credit()
        &&& self.spec_debit() == other.spec_debit()
    }
}

/// Two receipts are equal exactly when their buyers and their sellers are
/// equal by `==`, their units are the same, and their credits and their debits
/// hold the same quantity of every asset.
pub proof fn law_receipt_equality<AccountId: PartialEqSpec, A: Eq + Hash>(
    r1: Receipt<AccountId, A>,
    r2: Receipt<AccountId, A>,
)
    requires
        is_holding(r1.spec_credit()),
        is_holding(r2.spec_credit()),
        is_holding(r1.spec_debit()),
        is_holding(r2.spec_debit()),
    ensures
        r1.eq_spec(&r2) <==> {
            &&& r1.spec_buyer().eq_spec(&r2.spec_buyer())
            &&& r1.spec_seller().eq_spec(&r2.spec_seller())
            &&& r1.spec_units()@ == r2.spec_units()@
            &&& forall|a: A| #[trigger] amount(r1.spec_credit(), a) == amount(r2.spec_credit(), a)
            &&& forall|a: A| #[trigger] amount(r1.spec_debit(), a) == amount(r2.spec_debit(), a)
        },
        Receipt::<AccountId, A>::obeys_eq_spec() <==> AccountId::obeys_eq_spec()
            && obeys_key_model::<A>(),
{
    broadcast use crate::quantity::lemma_quantity_determined;
    if (forall|a: A| #[trigger] amount(r1.spec_credit(), a) == amount(r2.spec_credit(), a)) && (
    forall|a: A| #[trigger] amount(r1.spec_debit(), a) == amount(r2.spec_debit(), a)) {
        crate::holdings::lemma_holding_by_amounts(r1.spec_credit(), r2.spec_credit());
        crate::holdings::lemma_holding_by_amounts(r1.spec_debit(), r2.spec_debit());
    }
    if r1.eq_spec(&r2) {
        assert(r1.spec_credit() == r2.spec_credit());
        assert(r1.spec_debit() == r2.spec_debit());
    }
}

impl<AccountId: Eq + PartialEqSpec, A: Eq + Hash> Eq for Receipt<AccountId, A> {

}

/// Why the ledger refused an exchange.
#[derive(Debug, Clone)]
pub enum ExchangeError<AccountId, A> {
    MissingAccount { account: AccountId },
    SameAccount { account: AccountId },
    ZeroUnits,
    RateOverflow { asset: A },
    InsufficientBalance { account: AccountId, shortfall: Basket<A> },
    BalanceOverflow { account: AccountId, asset: A },
}

impl<AccountId, A> ExchangeError<AccountId, A> {
    /// A short description of the error.
    pub fn message(&self) -> (text: &'static str)
        ensures
            self is MissingAccount ==> text@ == "account does not exist"@,
            self is SameAccount ==> text@ == "buyer and seller must be different accounts"@,
            self is ZeroUnits ==> text@ == "exchange units must be greater than zero"@,
            self is RateOverflow ==> text@ == "scaled rate overflow"@,
            self is InsufficientBalance ==> text@ == "insufficient balance"@,
            self is BalanceOverflow ==> text@ == "account balance overflow"@,
    {
        match self {
            ExchangeError::MissingAccount { .. } => "account does not exist",
            ExchangeError::SameAccount { .. } => "buyer and seller must be different accounts",
            ExchangeError::ZeroUnits => "exchange units must be greater than zero",
            ExchangeError::RateOverflow { .. } => "scaled rate overflow",
            ExchangeError::InsufficientBalance { .. } => "insufficient balance",
            ExchangeError::BalanceOverflow { .. } => "account balance overflow",
        }
    }
}

impl<AccountId: PartialEqSpec, A: Eq + Hash> PartialEq for ExchangeError<AccountId, A> {
    fn eq(&self, other: &Self) -> (r: bool) {
        match (self, other) {
            (
                ExchangeError::MissingAccount { account: left },
                ExchangeError::MissingAccount { account: right },
            ) => *left == *right,
            (
                ExchangeError::SameAccount { account: left },
                ExchangeError::SameAccount { account: right },
            ) => *left == *right,
            (ExchangeError::ZeroUnits, ExchangeError::ZeroUnits) => true,
            (
                ExchangeError::RateOverflow { asset: left },
                ExchangeError::RateOverflow { asset: right },
            ) => equal_keys(left, right),
            (
                ExchangeError::InsufficientBalance { account: left_account, shortfall: left_shortfall },
                ExchangeError::InsufficientBalance {
                    account: right_account,
                    shortfall: right_shortfall,
                },
            ) => *left_account == *right_account && *left_shortfall == *right_shortfall,
            (
                ExchangeError::BalanceOverflow { account: left_account, asset: left_asset },
                ExchangeError::BalanceOverflow { account: right_account, asset: right_asset },
            ) => *left_account == *right_account && equal_keys(left_asset, right_asset),
            _ => false,
        }
    }
}

impl<AccountId: PartialEqSpec, A: Eq + Hash> vstd::std_specs::cmp::PartialEqSpecImpl for ExchangeError<AccountId, A> {
    open spec fn obeys_eq_spec() -> bool {
        AccountId::obeys_eq_spec() && obeys_key_model::<A>()
    }

    open spec fn eq_spec(&self, other: &Self) -> bool {
        match (self, other) {
            (
                ExchangeError::MissingAccount { account: left },
                ExchangeError::MissingAccount { account: right },
            ) => left.eq_spec(&right),
            (
                ExchangeError::SameAccount { account: left },
                ExchangeError::SameAccount { account: right },
            ) => left.eq_spec(&right),
            (ExchangeError::ZeroUnits, ExchangeError::ZeroUnits) => true,
            (
                ExchangeError::RateOverflow { asset: left },
                ExchangeError::RateOverflow { asset: right },
            ) => left == right,
            (
                ExchangeError::InsufficientBalance { account: left_account, shortfall: left_shortfall },
                ExchangeError::InsufficientBalance {
                    account: right_account,
                    shortfall: right_shortfall,
                },
            ) => left_account.eq_spec(&right_account) && left_shortfall@ == right_shortfall@,
            (
                ExchangeError::BalanceOverflow { account: left_account, asset: left_asset },
                ExchangeError::BalanceOverflow { account: right_account, asset: right_asset },
            ) => left_account.eq_spec(&right_account) && left_asset == right_asset,
            _ => false,
        }
    }
}

impl<AccountId: Eq + PartialEqSpec, A: Eq + Hash> Eq for ExchangeError<AccountId, A> {

}

} // verus!
