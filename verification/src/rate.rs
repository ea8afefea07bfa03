use crate::basket::Basket;
use std::hash::Hash;
use vstd::prelude::*;
use crate::holdings::{amount, is_holding, lemma_holding_by_amounts};
use vstd::std_specs::cmp::PartialEqSpec;
use vstd::std_specs::hash::obeys_key_model;

verus! {

/// What a buyer receives (`credit`) and pays (`debit`) for one unit of an
/// exchange.
#[derive(Debug)]
pub struct Rate<A> {
    credit: Basket<A>,
    debit: Basket<A>,
}

impl<A> Rate<A> {
    /// The amounts the buyer receives per unit.
    pub closed spec fn spec_credit(&self) -> Map<A, nat> {
        self.credit@
    }

    /// The amounts the buyer pays per unit.
    pub closed spec fn spec_debit(&self) -> Map<A, nat> {
        self.debit@
    }

    pub fn new(credit: Basket<A>, debit: Basket<A>) -> (rate: Self)
        ensures
            rate.spec_credit() == credit@,
            rate.spec_debit() == debit@,
    {
        Rate { credit, debit }
    }

    pub fn credit(&self) -> (credit: &Basket<A>)
        ensures
            credit@ == self.spec_credit(),
    {
        &self.credit
    }

    pub fn debit(&self) -> (debit: &Basket<A>)
        ensures
            debit@ == self.spec_debit(),
    {
        &self.debit
    }
}

impl<A: Clone> Clone for Rate<A> {
    fn clone(&self) -> (rate: Self)
        ensures
            rate.spec_credit() == self.spec_credit(),
            rate.spec_debit() == self.spec_debit(),
    {
        Rate { credit: self.credit.clone(), debit: self.debit.clone() }
    }
}

impl<A: Eq + Hash> PartialEq for Rate<A> {
    fn eq(&self, other: &Self) -> (r: bool) {
        self.credit == other.credit && self.debit == other.debit
    }
}

impl<A: Eq + Hash> vstd::std_specs::cmp::PartialEqSpecImpl for Rate<A> {
    open spec fn obeys_eq_spec() -> bool {
        obeys_key_model::<A>()
    }

    open spec fn eq_spec(&self, other: &Self) -> bool {
        self.spec_credit() == other.spec_credit() && self.spec_debit() == other.spec_debit()
    }
}

/// Two rates are equal exactly when both their credits and their debits
/// hold the same quantity of every asset.
pub proof fn law_rate_equality<A: Eq + Hash>(r1: Rate<A>, r2: Rate<A>)
    requires
        is_holding(r1.spec_credit()),
        is_holding(r2.spec_credit()),
        is_holding(r1.spec_debit()),
        is_holding(r2.spec_debit()),
    ensures
        r1.eq_spec(&r2) <==> (forall|a: A| #[trigger]
            amount(r1.spec_credit(), a) == amount(r2.spec_credit(), a)) && (forall|a: A| #[trigger]
            amount(r1.spec_debit(), a) == amount(r2.spec_debit(), a)),
        Rate::<A>::obeys_eq_spec() <==> obeys_key_model::<A>(),
{
    if (forall|a: A| #[trigger] amount(r1.spec_credit(), a) == amount(r2.spec_credit(), a)) && (
    forall|a: A| #[trigger] amount(r1.spec_debit(), a) == amount(r2.spec_debit(), a)) {
        lemma_holding_by_amounts(r1.spec_credit(), r2.spec_credit());
        lemma_holding_by_amounts(r1.spec_debit(), r2.spec_debit());
    }
    if r1.eq_spec(&r2) {
        assert(r1.spec_debit() == r2.spec_debit());
    }
}

impl<A: Eq + Hash> Eq for Rate<A> {

}

} // verus!
