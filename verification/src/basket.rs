use crate::holdings::{amount, is_holding, scale_fits, scaled, shortfall_of};
use crate::keys::clone_key;
use crate::quantity::{group_quantity, Quantity};
use crate::walk::{entries_of, lemma_walk_end, lemma_walk_start, lemma_walk_step, walked, walks};
use std::collections::HashMap;
use std::hash::Hash;
use vstd::prelude::*;
use vstd::std_specs::cmp::PartialEqSpec;
use vstd::std_specs::hash::obeys_key_model;

verus! {

broadcast use vstd::std_specs::hash::group_hash_axioms, group_quantity;

/// The amounts of a map of quantities.
pub(crate) open spec fn amounts<A>(m: Map<A, Quantity>) -> Map<A, nat> {
    m.map_values(|q: Quantity| q@)
}

/// The amounts of a hash map of positive quantities form a holding, and
/// storing an entry commutes with taking amounts.
pub(crate) proof fn lemma_amounts<A>(m: Map<A, Quantity>)
    ensures
        amounts(m).dom() == m.dom(),
        m.dom().finite() && (forall|a: A| #[trigger] m.contains_key(a) ==> m[a]@ > 0) ==> is_holding(
            amounts(m),
        ),
        forall|a: A, q: Quantity| #[trigger] amounts(m.insert(a, q)) == amounts(m).insert(a, q@),
        forall|a: A| #[trigger] amounts(m.remove(a)) == amounts(m).remove(a),
{
    assert(amounts(m).dom() =~= m.dom());
    assert forall|a: A, q: Quantity| #[trigger] amounts(m.insert(a, q)) == amounts(m).insert(a, q@) by {
        assert(amounts(m.insert(a, q)) =~= amounts(m).insert(a, q@));
    }
    assert forall|a: A| #[trigger] amounts(m.remove(a)) == amounts(m).remove(a) by {
        assert(amounts(m.remove(a)) =~= amounts(m).remove(a));
    }
}

/// `m` after storing `q` for `asset`: a zero amount removes the asset.
pub open spec fn stored<A>(m: Map<A, nat>, asset: A, q: nat) -> Map<A, nat> {
    if q == 0 {
        m.remove(asset)
    } else {
        m.insert(asset, q)
    }
}

/// What is read back after storing is what was stored, and every other
/// asset keeps its amount.
pub proof fn law_stored_read_back<A>(m: Map<A, nat>, asset: A, q: nat, other: A)
    requires
        other != asset,
    ensures
        amount(stored(m, asset, q), asset) == q,
        amount(stored(m, asset, q), other) == amount(m, other),
{
}

/// The holding built by storing the entries of `s` one after another.
pub open spec fn collected<A>(s: Seq<(A, Quantity)>) -> Map<A, nat>
    decreases s.len(),
{
    if s.len() == 0 {
        Map::empty()
    } else {
        stored(collected(s.drop_last()), s.last().0, s.last().1@)
    }
}

/// Building a basket from entries keeps, for each asset, the quantity of
/// the last entry for that asset, and nothing for an asset without entries.
pub proof fn law_collected_last_entry<A>(s: Seq<(A, Quantity)>, a: A)
    ensures
        (forall|i: int| 0 <= i < s.len() ==> (#[trigger] s[i]).0 != a) ==> amount(collected(s), a)
            == 0,
        forall|i: int|
            0 <= i < s.len() && (#[trigger] s[i]).0 == a && (forall|j: int|
                i < j < s.len() ==> (#[trigger] s[j]).0 != a) ==> amount(collected(s), a) == s[i].1@,
    decreases s.len(),
{
    if s.len() > 0 {
        let t = s.drop_last();
        law_collected_last_entry(t, a);
        let n = s.len() - 1;
        if s[n].0 == a {
            assert forall|i: int|
                0 <= i < s.len() && (#[trigger] s[i]).0 == a && (forall|j: int|
                    i < j < s.len() ==> (#[trigger] s[j]).0 != a) implies amount(collected(s), a)
                == s[i].1@ by {
                if i < n {
                    assert(s[n].0 != a);
                }
            }
        } else {
            assert(amount(collected(s), a) == amount(collected(t), a));
            assert forall|i: int|
                0 <= i < s.len() && (#[trigger] s[i]).0 == a && (forall|j: int|
                    i < j < s.len() ==> (#[trigger] s[j]).0 != a) implies amount(collected(s), a)
                == s[i].1@ by {
                assert(i < n);
                assert(t[i] == s[i]);
                assert forall|j: int| i < j < t.len() implies (#[trigger] t[j]).0 != a by {
                    assert(t[j] == s[j]);
                }
            }
            if forall|i: int| 0 <= i < s.len() ==> (#[trigger] s[i]).0 != a {
                assert forall|i: int| 0 <= i < t.len() implies (#[trigger] t[i]).0 != a by {
                    assert(t[i] == s[i]);
                }
            }
        }
    }
}

/// Two baskets are equal exactly when they hold the same quantity of every asset.
pub proof fn law_basket_equality<A: Eq + Hash>(b1: Basket<A>, b2: Basket<A>)
    requires
        is_holding(b1@),
        is_holding(b2@),
    ensures
        b1.eq_spec(&b2) <==> forall|a: A| #[trigger] amount(b1@, a) == amount(b2@, a),
        Basket::<A>::obeys_eq_spec() <==> obeys_key_model::<A>(),
{
    if forall|a: A| #[trigger] amount(b1@, a) == amount(b2@, a) {
        crate::holdings::lemma_holding_by_amounts(b1@, b2@);
    }
}

/// A sparse collection of asset quantities. Assets that are not stored have
/// a quantity of zero, and no zero quantity is ever stored.
#[derive(Debug)]
pub struct Basket<A> {
    pub(crate) quantities: HashMap<A, Quantity>,
}

impl<A> View for Basket<A> {
    type V = Map<A, nat>;

    closed spec fn view(&self) -> Map<A, nat> {
        amounts(self.quantities@)
    }
}

/// Inside the crate, a basket's amounts are read off its stored quantities.
pub(crate) broadcast proof fn lemma_basket_view<A>(b: Basket<A>)
    ensures
        #[trigger] b@ == amounts(b.quantities@),
{
}

impl<A> Basket<A> {
    /// Every basket is a holding: finitely many assets, each with a positive amount.
    #[verifier::type_invariant]
    pub open spec fn well_formed(self) -> bool {
        is_holding(self@)
    }

    /// The empty basket.
    pub fn new() -> (b: Self)
        ensures
            b@ == Map::<A, nat>::empty(),
    {
        let quantities = HashMap::new();
        proof {
            lemma_amounts(quantities@);
        }
        let b = Basket { quantities };
        assert(b@ =~= Map::<A, nat>::empty());
        b
    }

    /// The number of assets with a non-zero quantity.
    pub fn len(&self) -> (n: usize)
        requires
            obeys_key_model::<A>(),
        ensures
            n == self@.len(),
    {
        assert(self@.dom() =~= self.quantities@.dom());
        self.quantities.len()
    }

    /// Whether no asset has a non-zero quantity.
    pub fn is_empty(&self) -> (b: bool)
        ensures
            b == self@.dom().is_empty(),
    {
        assert(self@.dom() =~= self.quantities@.dom());
        self.quantities.is_empty()
    }

    /// Every stored asset with its quantity, each once, in the map's own order.
    pub fn iter(&self) -> (e: Vec<(&A, Quantity)>)
        requires
            obeys_key_model::<A>(),
        ensures
            e@.len() == self@.len(),
            forall|i: int|
                0 <= i < e@.len() ==> #[trigger] self@.contains_key(*e@[i].0) && self@[*e@[i].0]
                    == e@[i].1@,
            forall|i: int, j: int|
                0 <= i < e@.len() && 0 <= j < e@.len() && i != j ==> *(#[trigger] e@[i]).0 != *(
                #[trigger] e@[j]).0,
            forall|a: A| #[trigger]
                self@.contains_key(a) ==> exists|i: int| 0 <= i < e@.len() && *e@[i].0 == a,
    {
        let entries = entries_of(&self.quantities);
        let ghost m = self.quantities@;
        let mut out: Vec<(&A, Quantity)> = Vec::new();
        let mut i: usize = 0;
        while i < entries.len()
            invariant
                i <= entries@.len(),
                out@.len() == i,
                forall|j: int|
                    0 <= j < i ==> #[trigger] out@[j] == (entries@[j].0, *entries@[j].1),
            decreases entries.len() - i,
        {
            let (asset, quantity) = entries[i];
            out.push((asset, *quantity));
            i = i + 1;
        }
        proof {
            assert(walks(entries@, m));
            assert(self@.dom() =~= m.dom());
            assert forall|a: A| #[trigger] self@.contains_key(a) implies exists|j: int|
                0 <= j < out@.len() && *out@[j].0 == a by {
                let j = choose|j: int| 0 <= j < entries@.len() && *entries@[j].0 == a;
                assert(*out@[j].0 == a);
            }
            assert forall|j: int, k: int|
                0 <= j < out@.len() && 0 <= k < out@.len() && j != k implies *(
                #[trigger] out@[j]).0 != *(#[trigger] out@[k]).0 by {
                assert(*entries@[j].0 != *entries@[k].0);
            }
            assert forall|j: int| 0 <= j < out@.len() implies #[trigger] self@.contains_key(
                *out@[j].0,
            ) && self@[*out@[j].0] == out@[j].1@ by {
                assert(m.contains_key(*entries@[j].0));
            }
        }
        out
    }
}

impl<A: Eq + Hash> Basket<A> {
    /// The quantity of `asset`: zero where none is stored.
    pub fn quantity(&self, asset: &A) -> (q: Quantity)
        requires
            obeys_key_model::<A>(),
        ensures
            q@ == amount(self@, *asset),
    {
        match self.quantities.get(asset) {
            Some(q) => *q,
            None => Quantity::zero(),
        }
    }

    /// Sets the quantity of `asset`, removing it where `quantity` is zero,
    /// and returns the quantity that was stored before, if any.
    pub fn insert(&mut self, asset: A, quantity: Quantity) -> (previous: Option<Quantity>)
        requires
            obeys_key_model::<A>(),
        ensures
            final(self)@ == stored(old(self)@, asset, quantity@),
            match previous {
                Some(p) => old(self)@.contains_key(asset) && p@ == old(self)@[asset],
                None => !old(self)@.contains_key(asset),
            },
    {
        proof {
            use_type_invariant(&*self);
        }
        let ghost before = self.quantities@;
        let mut quantities = HashMap::new();
        proof {
            lemma_amounts(quantities@);
            lemma_amounts(before);
        }
        std::mem::swap(&mut quantities, &mut self.quantities);
        let previous = if quantity.is_zero() {
            quantities.remove(&asset)
        } else {
            quantities.insert(asset, quantity)
        };
        proof {
            lemma_amounts(quantities@);
            assert(amounts(quantities@) =~= stored(amounts(before), asset, quantity@));
        }
        self.quantities = quantities;
        previous
    }

    /// The basket built by storing `entries` one after another: a later entry
    /// for an asset replaces an earlier one, and a zero quantity removes it.
    pub fn from_entries(entries: Vec<(A, Quantity)>) -> (b: Self)
        requires
            obeys_key_model::<A>(),
        ensures
            b@ == collected(entries@),
    {
        let ghost s = entries@;
        let mut basket = Basket::new();
        for entry in it: entries
            invariant
                obeys_key_model::<A>(),
                it.seq() == s,
                basket@ == collected(s.take(it.index() as int)),
        {
            proof {
                assert(s.take(it.index() + 1).drop_last() =~= s.take(it.index() as int));
            }
            let (asset, quantity) = entry;
            basket.insert(asset, quantity);
        }
        proof {
            assert(s.take(s.len() as int) =~= s);
        }
        basket
    }
}

impl<A: Clone + Eq + Hash> Basket<A> {
    /// Every quantity multiplied by `units`, or the first asset (in the map's
    /// own order) whose product exceeds `u64::MAX`.
    pub fn checked_scale(&self, units: Quantity) -> (r: Result<Self, A>)
        requires
            obeys_key_model::<A>(),
        ensures
            r is Ok <==> scale_fits(self@, units@),
            r matches Ok(s) ==> s@ == scaled(self@, units@),
            r matches Err(a) ==> self@.contains_key(a) && self@[a] * units@ > u64::MAX,
    {
        proof {
            use_type_invariant(self);
        }
        let entries = entries_of(&self.quantities);
        let ghost m = self.quantities@;
        let ghost mut done = Map::<A, Quantity>::empty();
        let mut result = Basket::new();
        let mut i: usize = 0;
        proof {
            lemma_walk_start(entries@, m);
            assert(scaled(amounts(done), units@) =~= Map::<A, nat>::empty());
        }
        while i < entries.len()
            invariant
                obeys_key_model::<A>(),
                m == self.quantities@,
                walks(entries@, m),
                walked(entries@, i as int, done, m),
                result@ == scaled(amounts(done), units@),
                scale_fits(amounts(done), units@),
                is_holding(self@),
                self@ == amounts(m),
            decreases entries.len() - i,
        {
            let (asset, quantity) = entries[i];
            proof {
                lemma_walk_step(entries@, i as int, done, m);
            }
            match quantity.checked_mul(units) {
                Some(product) => {
                    let ghost before = done;
                    proof {
                        assert(self@.contains_key(*asset));
                        assert(quantity@ > 0);
                        if units@ > 0 {
                            vstd::arithmetic::mul::lemma_mul_strictly_positive(
                                quantity@ as int,
                                units@ as int,
                            );
                        }
                    }
                    result.insert(clone_key(asset), product);
                    proof {
                        done = done.insert(*asset, *quantity);
                        lemma_amounts(before);
                        assert(amounts(done) == amounts(before).insert(*asset, quantity@));
                        assert(result@ =~= scaled(amounts(done), units@));
                    }
                },
                None => {
                    let bad = clone_key(asset);
                    proof {
                        assert(m.contains_key(bad));
                        assert(self@.contains_key(bad));
                        assert(self@[bad] == quantity@);
                    }
                    return Err(bad);
                },
            }
            i = i + 1;
        }
        proof {
            lemma_walk_end(entries@, done, m);
        }
        Ok(result)
    }

    /// For every asset of which `self` holds less than `required` asks for,
    /// the missing quantity.
    pub fn shortfall(&self, required: &Self) -> (s: Self)
        requires
            obeys_key_model::<A>(),
        ensures
            s@ == shortfall_of(self@, required@),
    {
        let entries = entries_of(&required.quantities);
        let ghost m = required.quantities@;
        let ghost mut done = Map::<A, Quantity>::empty();
        let mut result = Basket::new();
        let mut i: usize = 0;
        proof {
            lemma_walk_start(entries@, m);
            assert(shortfall_of(self@, amounts(done)) =~= Map::<A, nat>::empty());
        }
        while i < entries.len()
            invariant
                obeys_key_model::<A>(),
                m == required.quantities@,
                walks(entries@, m),
                walked(entries@, i as int, done, m),
                result@ == shortfall_of(self@, amounts(done)),
            decreases entries.len() - i,
        {
            let (asset, required_quantity) = entries[i];
            proof {
                lemma_walk_step(entries@, i as int, done, m);
            }
            let available = self.quantity(asset);
            if available.get() < required_quantity.get() {
                let missing = Quantity::new(required_quantity.get() - available.get());
                result.insert(clone_key(asset), missing);
            }
            proof {
                let before = done;
                done = done.insert(*asset, *required_quantity);
                lemma_amounts(before);
                assert(amounts(done) == amounts(before).insert(*asset, required_quantity@));
                assert(result@ =~= shortfall_of(self@, amounts(done)));
            }
            i = i + 1;
        }
        proof {
            lemma_walk_end(entries@, done, m);
        }
        result
    }
}

impl<A> Default for Basket<A> {
    fn default() -> (b: Self)
        ensures
            b@ == Map::<A, nat>::empty(),
    {
        Basket::new()
    }
}

impl<A: Clone> Clone for Basket<A> {
    fn clone(&self) -> (b: Self)
        ensures
            b@ == self@,
    {
        proof {
            use_type_invariant(self);
        }
        let quantities = self.quantities.clone();
        proof {
            lemma_amounts(quantities@);
        }
        Basket { quantities }
    }
}

impl<A: Eq + Hash> PartialEq for Basket<A> {
    fn eq(&self, other: &Self) -> (r: bool) {
        proof {
            use_type_invariant(self);
            use_type_invariant(other);
            lemma_amounts(self.quantities@);
            lemma_amounts(other.quantities@);
        }
        if self.quantities.len() != other.quantities.len() {
            return false;
        }
        let entries = entries_of(&self.quantities);
        let ghost m = self.quantities@;
        let ghost mut done = Map::<A, Quantity>::empty();
        let mut i: usize = 0;
        proof {
            lemma_walk_start(entries@, m);
        }
        while i < entries.len()
            invariant
                m == self.quantities@,
                obeys_key_model::<A>() ==> walks(entries@, m),
                obeys_key_model::<A>() ==> walked(entries@, i as int, done, m),
                obeys_key_model::<A>() ==> forall|a: A| #[trigger]
                    done.contains_key(a) ==> other.quantities@.contains_key(a)
                        && other.quantities@[a]@ == done[a]@,
                self@ == amounts(self.quantities@),
                other@ == amounts(other.quantities@),
                self.quantities@.dom().finite(),
                other.quantities@.dom().finite(),
            decreases entries.len() - i,
        {
            let (asset, quantity) = entries[i];
            proof {
                if obeys_key_model::<A>() {
                    lemma_walk_step(entries@, i as int, done, m);
                }
            }
            match other.quantities.get(asset) {
                Some(q) => {
                    if q.get() != quantity.get() {
                        proof {
                            if obeys_key_model::<A>() {
                                assert(self@[*asset] != other@[*asset]);
                            }
                        }
                        return false;
                    }
                },
                None => {
                    proof {
                        if obeys_key_model::<A>() {
                            assert(self@.contains_key(*asset));
                            assert(!other@.contains_key(*asset));
                        }
                    }
                    return false;
                },
            }
            proof {
                done = done.insert(*asset, *quantity);
            }
            i = i + 1;
        }
        proof {
            if obeys_key_model::<A>() {
                lemma_walk_end(entries@, done, m);
                assert(m.dom().subset_of(other.quantities@.dom()));
                vstd::set_lib::lemma_subset_equality(m.dom(), other.quantities@.dom());
                assert(self@ =~= other@);
            }
        }
        true
    }
}

impl<A: Eq + Hash> vstd::std_specs::cmp::PartialEqSpecImpl for Basket<A> {
    open spec fn obeys_eq_spec() -> bool {
        obeys_key_model::<A>()
    }

    open spec fn eq_spec(&self, other: &Self) -> bool {
        self@ == other@
    }
}

impl<A: Eq + Hash> Eq for Basket<A> {

}

} // verus!
