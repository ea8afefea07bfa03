use multiagent::{Account, AccountError, Basket, ExchangeError, Ledger, Quantity, Rate};

#[derive(Debug, Clone, Copy, PartialEq, Eq, Hash)]
enum Asset {
    Gold,
    Wood,
    Stone,
}

fn basket<const N: usize>(entries: [(Asset, u64); N]) -> Basket<Asset> {
    Basket::from_entries(
        entries
            .into_iter()
            .map(|(asset, quantity)| (asset, Quantity::new(quantity)))
            .collect(),
    )
}

fn three_accounts() -> Ledger<u8, Asset> {
    let mut ledger = Ledger::new();
    ledger.insert(1, Account::new(basket([(Asset::Gold, 50), (Asset::Wood, 5)])));
    ledger.insert(2, Account::new(basket([(Asset::Wood, 40), (Asset::Stone, 3)])));
    ledger.insert(3, Account::new(basket([(Asset::Gold, 7), (Asset::Wood, 9)])));
    ledger
}

fn total(ledger: &Ledger<u8, Asset>, asset: Asset) -> u128 {
    ledger
        .iter()
        .into_iter()
        .map(|(_, account)| u128::from(account.balance(&asset).get()))
        .sum()
}

#[test]
fn quantity_arithmetic_is_checked() {
    assert_eq!(
        Quantity::new(2).checked_add(Quantity::new(3)),
        Some(Quantity::new(5))
    );
    assert_eq!(Quantity::new(u64::MAX).checked_add(Quantity::new(1)), None);
    assert_eq!(
        Quantity::new(7).checked_sub(Quantity::new(3)),
        Some(Quantity::new(4))
    );
    assert_eq!(Quantity::new(3).checked_sub(Quantity::new(7)), None);
    assert_eq!(
        Quantity::new(6).checked_mul(Quantity::new(7)),
        Some(Quantity::new(42))
    );
    assert_eq!(Quantity::new(u64::MAX).checked_mul(Quantity::new(2)), None);
    assert!(Quantity::zero().is_zero());
    assert!(!Quantity::new(1).is_zero());
    assert_eq!(Quantity::new(9).get(), 9);
    assert_eq!(Quantity::default(), Quantity::zero());
}

#[test]
fn stored_quantities_read_back() {
    let mut b = basket([(Asset::Gold, 4)]);
    assert_eq!(b.insert(Asset::Wood, Quantity::new(6)), None);
    assert_eq!(b.insert(Asset::Gold, Quantity::new(9)), Some(Quantity::new(4)));
    assert_eq!(b.quantity(&Asset::Gold), Quantity::new(9));
    assert_eq!(b.quantity(&Asset::Wood), Quantity::new(6));
    assert_eq!(b.quantity(&Asset::Stone), Quantity::zero());
    assert_eq!(b.len(), 2);
    assert_eq!(b.insert(Asset::Gold, Quantity::zero()), Some(Quantity::new(9)));
    assert_eq!(b.len(), 1);
    assert!(!b.is_empty());
}

#[test]
fn later_entries_replace_earlier_ones() {
    let b = basket([(Asset::Gold, 4), (Asset::Wood, 2), (Asset::Gold, 1), (Asset::Wood, 0)]);
    assert_eq!(b, basket([(Asset::Gold, 1)]));
    assert_eq!(b.len(), 1);
}

#[test]
fn baskets_compare_by_amounts() {
    let one = basket([(Asset::Gold, 1), (Asset::Wood, 2)]);
    let other = basket([(Asset::Wood, 2), (Asset::Gold, 1)]);
    assert_eq!(one, other);
    assert_ne!(one, basket([(Asset::Wood, 2), (Asset::Gold, 3)]));
    assert_ne!(one, basket([(Asset::Wood, 2)]));
    assert_ne!(one, basket([(Asset::Wood, 2), (Asset::Stone, 1)]));
    assert_eq!(Basket::<Asset>::default(), Basket::new());
}

#[test]
fn basket_iteration_lists_every_asset_once() {
    let b = basket([(Asset::Gold, 1), (Asset::Wood, 2), (Asset::Stone, 3)]);
    let mut listed: Vec<(Asset, u64)> = b.iter().into_iter().map(|(a, q)| (*a, q.get())).collect();
    listed.sort_by_key(|(_, q)| *q);
    assert_eq!(
        listed,
        vec![(Asset::Gold, 1), (Asset::Wood, 2), (Asset::Stone, 3)]
    );
}

#[test]
fn scaling_by_one_and_by_zero() {
    let b = basket([(Asset::Gold, 5), (Asset::Wood, 2)]);
    assert_eq!(b.checked_scale(Quantity::new(1)).unwrap(), b);
    assert!(b.checked_scale(Quantity::zero()).unwrap().is_empty());
}

#[test]
fn shortfall_lists_only_missing_amounts() {
    let held = basket([(Asset::Gold, 5), (Asset::Wood, 2)]);
    let required = basket([(Asset::Gold, 3), (Asset::Wood, 6), (Asset::Stone, 1)]);
    assert_eq!(
        held.shortfall(&required),
        basket([(Asset::Wood, 4), (Asset::Stone, 1)])
    );
    assert!(held.shortfall(&basket([(Asset::Gold, 5)])).is_empty());
}

#[test]
fn deposit_then_withdraw_restores_balances() {
    let mut account = Account::new(basket([(Asset::Gold, 5), (Asset::Wood, 2)]));
    let original = account.clone();
    let moved = basket([(Asset::Wood, 8), (Asset::Stone, 1)]);

    account.deposit(&moved).unwrap();
    assert_eq!(account.balance(&Asset::Wood), Quantity::new(10));
    account.withdraw(&moved).unwrap();

    assert_eq!(account, original);
}

#[test]
fn withdraw_then_deposit_restores_balances() {
    let mut account = Account::new(basket([(Asset::Gold, 5), (Asset::Wood, 2)]));
    let original = account.clone();
    let moved = basket([(Asset::Gold, 5), (Asset::Wood, 1)]);

    account.withdraw(&moved).unwrap();
    assert_eq!(account.balances(), &basket([(Asset::Wood, 1)]));
    account.deposit(&moved).unwrap();

    assert_eq!(account, original);
}

#[test]
fn withdrawal_succeeds_exactly_when_nothing_is_short() {
    let balances = basket([(Asset::Gold, 5), (Asset::Wood, 2)]);
    for (request, expect_ok) in [
        (basket([(Asset::Gold, 5)]), true),
        (basket([(Asset::Gold, 6)]), false),
        (basket([(Asset::Stone, 1)]), false),
        (basket([(Asset::Gold, 1), (Asset::Wood, 2)]), true),
    ] {
        let mut account = Account::new(balances.clone());
        let short = balances.shortfall(&request);
        let result = account.withdraw(&request);
        assert_eq!(result.is_ok(), expect_ok);
        assert_eq!(short.is_empty(), expect_ok);
        if let Err(error) = result {
            assert_eq!(error, AccountError::InsufficientBalance { shortfall: short });
            assert_eq!(error.message(), "insufficient balance");
        }
    }
}

#[test]
fn account_conversions_keep_balances() {
    let b = basket([(Asset::Gold, 3)]);
    let account: Account<Asset> = Account::from(b.clone());
    assert_eq!(account.balances(), &b);
    assert_eq!(account.into_balances(), b);
    assert_eq!(Account::<Asset>::default(), Account::new(Basket::new()));
    assert_eq!(
        AccountError::Overflow { asset: Asset::Gold }.message(),
        "account balance overflow"
    );
}

#[test]
fn exchange_keeps_every_total_and_other_accounts() {
    let mut ledger = three_accounts();
    let bystander = ledger.account(&3).unwrap().clone();
    let before: Vec<u128> = [Asset::Gold, Asset::Wood, Asset::Stone]
        .into_iter()
        .map(|a| total(&ledger, a))
        .collect();
    let rate = Rate::new(basket([(Asset::Wood, 4)]), basket([(Asset::Gold, 5)]));

    let receipt = ledger.exchange(&1, &2, &rate, Quantity::new(3)).unwrap();

    let after: Vec<u128> = [Asset::Gold, Asset::Wood, Asset::Stone]
        .into_iter()
        .map(|a| total(&ledger, a))
        .collect();
    assert_eq!(before, after);
    assert_eq!(ledger.account(&3).unwrap(), &bystander);
    assert_eq!(
        ledger.account(&1).unwrap().balances(),
        &basket([(Asset::Gold, 35), (Asset::Wood, 17)])
    );
    assert_eq!(
        ledger.account(&2).unwrap().balances(),
        &basket([(Asset::Gold, 15), (Asset::Wood, 28), (Asset::Stone, 3)])
    );
    assert_eq!(receipt.credit(), &basket([(Asset::Wood, 12)]));
    assert_eq!(receipt.debit(), &basket([(Asset::Gold, 15)]));
    assert_eq!(ledger.len(), 3);
}

#[test]
fn feasibility_check_reports_what_exchange_reports() {
    let rates = [
        Rate::new(basket([(Asset::Wood, 4)]), basket([(Asset::Gold, 5)])),
        Rate::new(basket([(Asset::Wood, 41)]), basket([(Asset::Gold, 1)])),
        Rate::new(basket([(Asset::Wood, 1)]), basket([(Asset::Gold, 51)])),
        Rate::new(basket([(Asset::Stone, u64::MAX)]), Basket::new()),
    ];
    for rate in rates.iter() {
        for (buyer, seller) in [(1u8, 2u8), (2, 1), (1, 1), (1, 9), (9, 1)] {
            let mut ledger = three_accounts();
            let original = ledger.clone();
            let predicted = ledger.can_exchange(&buyer, &seller, rate, Quantity::new(1));
            assert_eq!(ledger, original);
            let actual = ledger.exchange(&buyer, &seller, rate, Quantity::new(1));
            match (predicted, actual) {
                (Ok(()), Ok(_)) => {}
                (Err(p), Err(a)) => {
                    assert_eq!(p, a);
                    assert_eq!(ledger, original);
                }
                _ => panic!("can_exchange and exchange disagree"),
            }
        }
    }
}

#[test]
fn every_refusal_has_its_error() {
    let mut ledger = three_accounts();
    let original = ledger.clone();
    let fair = Rate::new(basket([(Asset::Wood, 1)]), basket([(Asset::Gold, 1)]));

    let missing_seller = ledger.exchange(&1, &9, &fair, Quantity::new(1)).unwrap_err();
    assert_eq!(missing_seller, ExchangeError::MissingAccount { account: 9 });
    assert_eq!(missing_seller.message(), "account does not exist");

    let costly = Rate::new(Basket::new(), basket([(Asset::Gold, u64::MAX)]));
    let debit_overflow = ledger.exchange(&1, &2, &costly, Quantity::new(2)).unwrap_err();
    assert_eq!(debit_overflow, ExchangeError::RateOverflow { asset: Asset::Gold });
    assert_eq!(debit_overflow.message(), "scaled rate overflow");

    let mut rich = Ledger::new();
    rich.insert(1u8, Account::new(basket([(Asset::Gold, 1)])));
    rich.insert(2u8, Account::new(basket([(Asset::Gold, u64::MAX)])));
    let gift = Rate::new(Basket::new(), basket([(Asset::Gold, 1)]));
    let seller_overflow = rich.exchange(&1, &2, &gift, Quantity::new(1)).unwrap_err();
    assert_eq!(
        seller_overflow,
        ExchangeError::BalanceOverflow { account: 2, asset: Asset::Gold }
    );
    assert_eq!(seller_overflow.message(), "account balance overflow");

    let zero = ledger.exchange(&1, &2, &fair, Quantity::zero()).unwrap_err();
    assert_eq!(zero.message(), "exchange units must be greater than zero");
    let same = ledger.exchange(&2, &2, &fair, Quantity::new(1)).unwrap_err();
    assert_eq!(same, ExchangeError::SameAccount { account: 2 });
    assert_eq!(same.message(), "buyer and seller must be different accounts");
    assert_ne!(same, ExchangeError::SameAccount { account: 1 });
    assert_eq!(ledger, original);
}

#[test]
fn accounts_can_be_changed_in_place() {
    let mut ledger = three_accounts();
    ledger
        .account_mut(&2)
        .unwrap()
        .deposit(&basket([(Asset::Stone, 4)]))
        .unwrap();
    assert_eq!(ledger.account(&2).unwrap().balance(&Asset::Stone), Quantity::new(7));
    assert!(ledger.account_mut(&9).is_none());
    assert!(ledger.account(&9).is_none());
    assert_eq!(ledger.len(), 3);
}

#[test]
fn ledger_bookkeeping() {
    let mut ledger: Ledger<u8, Asset> = Ledger::default();
    assert!(ledger.is_empty());
    assert_eq!(ledger.insert(4, Account::new(basket([(Asset::Gold, 1)]))), None);
    let previous = ledger.insert(4, Account::new(basket([(Asset::Wood, 2)]))).unwrap();
    assert_eq!(previous.balance(&Asset::Gold), Quantity::new(1));
    assert_eq!(ledger.len(), 1);
    assert!(!ledger.is_empty());
    let listed = ledger.iter();
    assert_eq!(listed.len(), 1);
    assert_eq!(*listed[0].0, 4);
    assert_eq!(listed[0].1.balance(&Asset::Wood), Quantity::new(2));
    assert_ne!(ledger, Ledger::new());
}

#[test]
fn receipts_compare_by_every_field() {
    let mut ledger = three_accounts();
    let rate = Rate::new(basket([(Asset::Wood, 1)]), basket([(Asset::Gold, 1)]));
    let first = ledger.exchange(&1, &2, &rate, Quantity::new(1)).unwrap();
    let second = ledger.exchange(&1, &2, &rate, Quantity::new(1)).unwrap();
    let third = ledger.exchange(&1, &2, &rate, Quantity::new(2)).unwrap();
    assert_eq!(first, second);
    assert_eq!(first.clone(), first);
    assert_ne!(first, third);
    assert_eq!(rate.clone(), rate);
    assert_eq!(rate.credit(), &basket([(Asset::Wood, 1)]));
    assert_eq!(rate.debit(), &basket([(Asset::Gold, 1)]));
}
