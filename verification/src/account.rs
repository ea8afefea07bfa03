use crate::basket::{amounts, lemma_amounts, lemma_basket_view, Basket};
use crate::holdings::{
    added, addition_fits, amount, covers, is_holding, law_shortfall_empty_iff_covers, removed,
    shortfall_of,
};
use crate::keys::{clone_key, equal_keys};
use crate::quantity::{group_quantity, Quantity};
use crate::walk::{entries_of, lemma_walk_end, lemma_walk_start, lemma_walk_step, walked, walks};
use std::hash::Hash;
use vstd::prelude::*;
use vstd::std_specs::cmp::PartialEqSpec;
use vstd::std_specs::hash::obeys_key_model;

verus! {

broadcast use vstd::std_specs::hash::group_hash_axioms, group_quantity, lemma_basket_view;

/// An owner of balances.
#[derive(Debug)]
pub struct Account<A> {
    pub(crate) balances: Basket<A>,
}

impl<A> View for Account<A> {
    type V = Map<A, nat>;

    closed spec fn view(&self) -> Map<A, nat> {
        self.balances@
    }
}

impl<A> Account<A> {
    /// An account holding `balances`.
    pub fn new(balances: Basket<A>) -> (account: Self)
        ensures
            account@ == balances@,
    {
        Account { balances }
    }

    pub fn balances(&self) -> (balances: &Basket<A>)
        ensures
            balances@ == self@,
    {
        &self.balances
    }

    pub fn into_balances(self) -> (balances: Basket<A>)
        ensures
            balances@ == self@,
    {
        self.balances
    }
}

impl<A: Eq + Hash> Account<A> {
    /// The balance of `asset`: zero where the account holds none.
    pub fn balance(&self, asset: &A) -> (q: Quantity)
        requires
            obeys_key_model::<A>(),
        ensures
            q@ == amount(self@, *asset),
    {
        self.balances.quantity(asset)
    }
}

impl<A: Clone + Eq + Hash> Account<A> {
    /// Adds `assets` to the balances, all or nothing.
    ///
    /// Fails, changing nothing, where some balance would exceed `u64::MAX`;
    /// the error names such an asset.
    pub fn deposit(&mut self, assets: &Basket<A>) -> (r: Result<(), AccountError<A>>)
        requires
            obeys_key_model::<A>(),
        ensures
            r is Ok <==> addition_fits(old(self)@, assets@),
            r is Ok ==> final(self)@ == added(old(self)@, assets@),
            r matches Err(e) ==> {
                &&& final(self)@ == old(self)@
                &&& e matches AccountError::Overflow { asset }
                &&& assets@.contains_key(asset)
                &&& amount(old(self)@, asset) + assets@[asset] > u64::MAX
            },
    {
        proof {
            use_type_invariant(&self.balances);
            use_type_invariant(assets);
            lemma_amounts(assets.quantities@);
        }
        let ghost start = self@;
        let mut updated = self.balances.clone();
        let entries = entries_of(&assets.quantities);
        let ghost m = assets.quantities@;
        let ghost mut done = Map::<A, Quantity>::empty();
        let mut i: usize = 0;
        proof {
            lemma_walk_start(entries@, m);
            lemma_amounts(done);
            assert(added(start, amounts(done)) =~= start);
        }
        while i < entries.len()
            invariant
                obeys_key_model::<A>(),
                m == assets.quantities@,
                assets@ == amounts(m),
                is_holding(assets@),
                is_holding(start),
                self@ == start,
                walks(entries@, m),
                walked(entries@, i as int, done, m),
                updated@ == added(start, amounts(done)),
                addition_fits(start, amounts(done)),
            decreases entries.len() - i,
        {
            let (asset, quantity) = entries[i];
            proof {
                lemma_walk_step(entries@, i as int, done, m);
                lemma_amounts(done);
                assert(assets@.contains_key(*asset));
            }
            let balance = updated.quantity(asset);
            match balance.checked_add(*quantity) {
                Some(sum) => {
                    updated.insert(clone_key(asset), sum);
                    proof {
                        let before = done;
                        done = done.insert(*asset, *quantity);
                        assert(amounts(done) == amounts(before).insert(*asset, quantity@));
                        assert(updated@ =~= added(start, amounts(done)));
                    }
                },
                None => {
                    let asset = clone_key(asset);
                    return Err(AccountError::Overflow { asset });
                },
            }
            i = i + 1;
        }
        proof {
            lemma_walk_end(entries@, done, m);
        }
        self.balances = updated;
        Ok(())
    }

    /// Takes `assets` from the balances, all or nothing.
    ///
    /// Fails, changing nothing, where some balance is too small; the error
    /// holds the exact shortfall.
    pub fn withdraw(&mut self, assets: &Basket<A>) -> (r: Result<(), AccountError<A>>)
        requires
            obeys_key_model::<A>(),
        ensures
            r is Ok <==> covers(old(self)@, assets@),
            r is Ok ==> final(self)@ == removed(old(self)@, assets@),
            r matches Err(e) ==> {
                &&& final(self)@ == old(self)@
                &&& e matches AccountError::InsufficientBalance { shortfall }
                &&& shortfall@ == shortfall_of(old(self)@, assets@)
            },
    {
        proof {
            use_type_invariant(&self.balances);
            use_type_invariant(assets);
            lemma_amounts(assets.quantities@);
        }
        let ghost start = self@;
        let shortfall = self.balances.shortfall(assets);
        proof {
            law_shortfall_empty_iff_covers(start, assets@);
        }
        if !shortfall.is_empty() {
            return Err(AccountError::InsufficientBalance { shortfall });
        }
        let mut updated = self.balances.clone();
        let entries = entries_of(&assets.quantities);
        let ghost m = assets.quantities@;
        let ghost mut done = Map::<A, Quantity>::empty();
        let mut i: usize = 0;
        proof {
            lemma_walk_start(entries@, m);
            lemma_amounts(done);
            assert(removed(start, amounts(done)) =~= start);
        }
        while i < entries.len()
            invariant
                obeys_key_model::<A>(),
                m == assets.quantities@,
                assets@ == amounts(m),
                is_holding(assets@),
                is_holding(start),
                covers(start, assets@),
                self@ == start,
                walks(entries@, m),
                walked(entries@, i as int, done, m),
                updated@ == removed(start, amounts(done)),
            decreases entries.len() - i,
        {
            let (asset, quantity) = entries[i];
            proof {
                lemma_walk_step(entries@, i as int, done, m);
                lemma_amounts(done);
                assert(assets@.contains_key(*asset));
            }
            let balance = updated.quantity(asset);
            let remaining = Quantity::new(balance.get() - quantity.get());
            updated.insert(clone_key(asset), remaining);
            proof {
                let before = done;
                done = done.insert(*asset, *quantity);
                assert(amounts(done) == amounts(before).insert(*asset, quantity@));
                assert(updated@ =~= removed(start, amounts(done)));
            }
            i = i + 1;
        }
        proof {
            lemma_walk_end(entries@, done, m);
        }
        self.balances = updated;
        Ok(())
    }
}

impl<A> Default for Account<A> {
    fn default() -> (account: Self)
        ensures
            account@ == Map::<A, nat>::empty(),
    {
        Account::new(Basket::new())
    }
}

impl<A: Clone> Clone for Account<A> {
    fn clone(&self) -> (account: Self)
        ensures
            account@ == self@,
    {
        Account { balances: self.balances.clone() }
    }
}

impl<A: Eq + Hash> PartialEq for Account<A> {
    fn eq(&self, other: &Self) -> (r: bool) {
        self.balances == other.balances
    }
}

impl<A: Eq + Hash> vstd::std_specs::cmp::PartialEqSpecImpl for Account<A> {
    open spec fn obeys_eq_spec() -> bool {
        obeys_key_model::<A>()
    }

    open spec fn eq_spec(&self, other: &Self) -> bool {
        self@ == other@
    }
}

impl<A: Eq + Hash> Eq for Account<A> {

}

impl<A> From<Basket<A>> for Account<A> {
    fn from(balances: Basket<A>) -> (account: Self)
        ensures
            account@ == balances@,
    {
        Account { balances }
    }
}

impl<A> vstd::std_specs::convert::FromSpecImpl<Basket<A>> for Account<A> {
    open spec fn obeys_from_spec() -> bool {
        true
    }

    closed spec fn from_spec(balances: Basket<A>) -> Self {
        Account { balances }
    }
}

/// Two accounts are equal exactly when they hold the same balance of every asset.
pub proof fn law_account_equality<A: Eq + Hash>(a1: Account<A>, a2: Account<A>)
    requires
        is_holding(a1@),
        is_holding(a2@),
    ensures
        a1.eq_spec(&a2) <==> forall|asset: A| #[trigger] amount(a1@, asset) == amount(a2@, asset),
        Account::<A>::obeys_eq_spec() <==> obeys_key_model::<A>(),
{
    if forall|asset: A| #[trigger] amount(a1@, asset) == amount(a2@, asset) {
        crate::holdings::lemma_holding_by_amounts(a1@, a2@);
    }
}

/// Why an account refused a deposit or a withdrawal.
#[derive(Debug, Clone)]
pub enum AccountError<A> {
    InsufficientBalance { shortfall: Basket<A> },
    Overflow { asset: A },
}

impl<A> AccountError<A> {
    /// A short description of the error.
    pub fn message(&self) -> (text: &'static str)
        ensures
            self is InsufficientBalance ==> text@ == "insufficient balance"@,
            self is Overflow ==> text@ == "account balance overflow"@,
    {
        match self {
            AccountError::InsufficientBalance { .. } => "insufficient balance",
            AccountError::Overflow { .. } => "account balance overflow",
        }
    }
}

impl<A: Eq + Hash> PartialEq for AccountError<A> {
    fn eq(&self, other: &Self) -> (r: bool) {
        match (self, other) {
            (
                AccountError::InsufficientBalance { shortfall: left },
                AccountError::InsufficientBalance { shortfall: right },
            ) => left == right,
            (AccountError::Overflow { asset: left }, AccountError::Overflow { asset: right }) => {
                equal_keys(left, right)
            },
            _ => false,
        }
    }
}

impl<A: Eq + Hash> vstd::std_specs::cmp::PartialEqSpecImpl for AccountError<A> {
    open spec fn obeys_eq_spec() -> bool {
        obeys_key_model::<A>()
    }

    open spec fn eq_spec(&self, other: &Self) -> bool {
        match (self, other) {
            (
                AccountError::InsufficientBalance { shortfall: left },
                AccountError::InsufficientBalance { shortfall: right },
            ) => left@ == right@,
            (AccountError::Overflow { asset: left }, AccountError::Overflow { asset: right }) => left
                == right,
            _ => false,
        }
    }
}

impl<A: Eq + Hash> Eq for AccountError<A> {

}

} // verus!
