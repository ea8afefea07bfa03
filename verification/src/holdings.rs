//! The mathematical model of a basket: a finite map from assets to positive
//! amounts, and the operations the ledger performs on such maps.
use vstd::prelude::*;

verus! {

/// The amount of `asset` in `m`: the stored amount, or zero where none is stored.
pub open spec fn amount<A>(m: Map<A, nat>, asset: A) -> nat {
    if m.contains_key(asset) {
        m[asset]
    } else {
        0
    }
}

/// A map that a basket can hold: finitely many assets, each with an amount
/// in `1..=u64::MAX`.
pub open spec fn is_holding<A>(m: Map<A, nat>) -> bool {
    &&& m.dom().finite()
    &&& forall|a: A| #[trigger] m.contains_key(a) ==> 0 < m[a] <= u64::MAX
}

/// Every amount of `m` multiplied by `units`; nothing remains when `units` is zero.
pub open spec fn scaled<A>(m: Map<A, nat>, units: nat) -> Map<A, nat> {
    Map::new(|a: A| m.contains_key(a) && units > 0, |a: A| m[a] * units)
}

/// Scaling `m` by `units` leaves every amount within `u64::MAX`.
pub open spec fn scale_fits<A>(m: Map<A, nat>, units: nat) -> bool {
    forall|a: A| #[trigger] m.contains_key(a) ==> m[a] * units <= u64::MAX
}

/// `held` holds at least every amount that `required` asks for.
pub open spec fn covers<A>(held: Map<A, nat>, required: Map<A, nat>) -> bool {
    forall|a: A| #[trigger] required.contains_key(a) ==> required[a] <= amount(held, a)
}

/// What `held` lacks of `required`: for each asset of which it holds too
/// little, the missing amount.
pub open spec fn shortfall_of<A>(held: Map<A, nat>, required: Map<A, nat>) -> Map<A, nat> {
    Map::new(
        |a: A| required.contains_key(a) && amount(held, a) < required[a],
        |a: A| (required[a] - amount(held, a)) as nat,
    )
}

/// `x` and `y` added asset by asset.
pub open spec fn added<A>(x: Map<A, nat>, y: Map<A, nat>) -> Map<A, nat> {
    Map::new(|a: A| x.contains_key(a) || y.contains_key(a), |a: A| amount(x, a) + amount(y, a))
}

/// Adding `y` to `x` leaves every amount within `u64::MAX`.
pub open spec fn addition_fits<A>(x: Map<A, nat>, y: Map<A, nat>) -> bool {
    forall|a: A| #[trigger] y.contains_key(a) ==> amount(x, a) + y[a] <= u64::MAX
}

/// `y` taken from `x` asset by asset; assets that reach zero are dropped.
pub open spec fn removed<A>(x: Map<A, nat>, y: Map<A, nat>) -> Map<A, nat> {
    Map::new(
        |a: A| x.contains_key(a) && amount(x, a) > amount(y, a),
        |a: A| (amount(x, a) - amount(y, a)) as nat,
    )
}

/// Scaling multiplies the amount of every asset by the number of units, and
/// fits exactly when every such product does.
pub proof fn law_scaled_amounts<A>(m: Map<A, nat>, units: nat)
    ensures
        forall|a: A| #[trigger] amount(scaled(m, units), a) == amount(m, a) * units,
        scale_fits(m, units) <==> forall|a: A| #[trigger] amount(m, a) * units <= u64::MAX,
{
    assert forall|a: A| #[trigger] amount(scaled(m, units), a) == amount(m, a) * units by {
        if !m.contains_key(a) {
            assert(amount(m, a) * units == 0);
        } else if units == 0 {
            assert(amount(m, a) * units == 0);
        }
    }
    if forall|a: A| #[trigger] amount(m, a) * units <= u64::MAX {
        assert forall|a: A| #[trigger] m.contains_key(a) implies m[a] * units <= u64::MAX by {
            assert(amount(m, a) * units <= u64::MAX);
        }
    }
    if scale_fits(m, units) {
        assert forall|a: A| #[trigger] amount(m, a) * units <= u64::MAX by {
            if !m.contains_key(a) {
                assert(amount(m, a) * units == 0);
            }
        }
    }
}

/// The shortfall of an asset is what the requirement exceeds the holding
/// by, or zero where the holding suffices; the holding and its shortfall
/// together meet the requirement.
pub proof fn law_shortfall_amounts<A>(held: Map<A, nat>, required: Map<A, nat>)
    ensures
        forall|a: A| #[trigger]
            amount(shortfall_of(held, required), a) == if amount(required, a) > amount(held, a) {
                (amount(required, a) - amount(held, a)) as nat
            } else {
                0
            },
        forall|a: A| #[trigger]
            amount(held, a) + amount(shortfall_of(held, required), a) >= amount(required, a),
        covers(held, required) <==> forall|a: A| #[trigger] amount(required, a) <= amount(held, a),
{
    if forall|a: A| #[trigger] amount(required, a) <= amount(held, a) {
        assert forall|a: A| #[trigger] required.contains_key(a) implies required[a] <= amount(held, a) by {
            assert(amount(required, a) <= amount(held, a));
        }
    }
    if covers(held, required) {
        assert forall|a: A| #[trigger] amount(required, a) <= amount(held, a) by {
            if required.contains_key(a) {
                assert(required[a] <= amount(held, a));
            }
        }
    }
}

/// Addition adds the amounts of every asset and fits exactly when every
/// sum does; removal subtracts them, dropping to zero where nothing is left.
pub proof fn law_added_removed_amounts<A>(x: Map<A, nat>, y: Map<A, nat>)
    ensures
        forall|a: A| #[trigger] amount(added(x, y), a) == amount(x, a) + amount(y, a),
        forall|a: A| #[trigger]
            amount(removed(x, y), a) == if amount(x, a) > amount(y, a) {
                (amount(x, a) - amount(y, a)) as nat
            } else {
                0
            },
        is_holding(x) ==> (addition_fits(x, y) <==> forall|a: A| #[trigger] amount(x, a) + amount(
            y,
            a,
        ) <= u64::MAX),
{
    if forall|a: A| #[trigger] amount(x, a) + amount(y, a) <= u64::MAX {
        assert forall|a: A| #[trigger] y.contains_key(a) implies amount(x, a) + y[a] <= u64::MAX by {
            assert(amount(x, a) + amount(y, a) <= u64::MAX);
        }
    }
    if is_holding(x) && addition_fits(x, y) {
        assert forall|a: A| #[trigger] amount(x, a) + amount(y, a) <= u64::MAX by {
            if y.contains_key(a) {
                assert(amount(x, a) + y[a] <= u64::MAX);
            }
        }
    }
}

/// Two holdings with the same amount of every asset are equal.
pub proof fn lemma_holding_by_amounts<A>(x: Map<A, nat>, y: Map<A, nat>)
    requires
        forall|a: A| #[trigger] x.contains_key(a) ==> x[a] > 0,
        forall|a: A| #[trigger] y.contains_key(a) ==> y[a] > 0,
        forall|a: A| amount(x, a) == amount(y, a),
    ensures
        x == y,
{
    assert forall|a: A| x.contains_key(a) <==> y.contains_key(a) by {
        assert(amount(x, a) == amount(y, a));
    }
    assert forall|a: A| x.contains_key(a) implies x[a] == y[a] by {
        assert(amount(x, a) == amount(y, a));
    }
    assert(x =~= y);
}

/// Nothing is short exactly when the holding covers the requirement, so a
/// withdrawal succeeds exactly when its shortfall is empty.
pub proof fn law_shortfall_empty_iff_covers<A>(held: Map<A, nat>, required: Map<A, nat>)
    ensures
        shortfall_of(held, required).dom().is_empty() <==> covers(held, required),
{
    if !covers(held, required) {
        let a = choose|a: A| required.contains_key(a) && !(required[a] <= amount(held, a));
        assert(shortfall_of(held, required).contains_key(a));
    }
}

/// Depositing and then withdrawing the same holding gives back the original
/// holding.
pub proof fn law_deposit_then_withdraw<A>(x: Map<A, nat>, y: Map<A, nat>)
    requires
        is_holding(x),
        is_holding(y),
        addition_fits(x, y),
    ensures
        covers(added(x, y), y),
        removed(added(x, y), y) == x,
{
    let s = added(x, y);
    assert forall|a: A| #[trigger] y.contains_key(a) implies y[a] <= amount(s, a) by {
    }
    let r = removed(s, y);
    assert forall|a: A| amount(r, a) == amount(x, a) by {
    }
    lemma_holding_by_amounts(r, x);
}

/// Withdrawing a covered holding and depositing it again gives back the
/// original holding.
pub proof fn law_withdraw_then_deposit<A>(x: Map<A, nat>, y: Map<A, nat>)
    requires
        is_holding(x),
        is_holding(y),
        covers(x, y),
    ensures
        addition_fits(removed(x, y), y),
        added(removed(x, y), y) == x,
{
    let r = removed(x, y);
    assert forall|a: A| #[trigger] y.contains_key(a) implies amount(r, a) + y[a] <= u64::MAX by {
        assert(y[a] <= amount(x, a));
    }
    let s = added(r, y);
    assert forall|a: A| amount(s, a) == amount(x, a) by {
        if y.contains_key(a) {
            assert(y[a] <= amount(x, a));
        }
    }
    lemma_holding_by_amounts(s, x);
}

/// Scaling by one leaves a holding as it is.
pub proof fn law_scale_by_one<A>(m: Map<A, nat>)
    requires
        is_holding(m),
    ensures
        scale_fits(m, 1),
        scaled(m, 1) == m,
{
    assert(scaled(m, 1) =~= m);
}

/// Scaling, shortfall, addition and removal turn holdings into holdings:
/// no operation stores a zero amount or an amount beyond `u64::MAX`.
pub proof fn law_operations_keep_holdings<A>(x: Map<A, nat>, y: Map<A, nat>, units: nat)
    requires
        is_holding(x),
        is_holding(y),
    ensures
        scale_fits(x, units) ==> is_holding(scaled(x, units)),
        is_holding(shortfall_of(x, y)),
        addition_fits(x, y) ==> is_holding(added(x, y)),
        is_holding(removed(x, y)),
{
    assert(scaled(x, units).dom().subset_of(x.dom()));
    assert(shortfall_of(x, y).dom().subset_of(y.dom()));
    assert(added(x, y).dom() =~= x.dom().union(y.dom()));
    assert(removed(x, y).dom().subset_of(x.dom()));
    assert forall|a: A| #[trigger] scaled(x, units).contains_key(a) implies 0 < scaled(x, units)[a] by {
        vstd::arithmetic::mul::lemma_mul_strictly_positive(x[a] as int, units as int);
    }
    assert forall|a: A| #[trigger] added(x, y).contains_key(a) && addition_fits(x, y) implies added(
        x,
        y,
    )[a] <= u64::MAX by {
        if !y.contains_key(a) {
        }
    }
}

} // verus!
