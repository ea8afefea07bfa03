use multiagent::{Account, Basket, Ledger, Quantity, Rate};

#[derive(Debug, Clone, Copy, PartialEq, Eq, Hash)]
enum Reward {
    Score,
    Token,
    Prediction,
    Policy,
}

#[derive(Debug, Clone, Copy, PartialEq, Eq, Hash)]
enum Asset {
    MissionTime,
    Reward(Reward),
}

#[derive(Debug, Clone, Copy, PartialEq, Eq, Hash)]
enum AccountId {
    Agent,
    Mission,
}

fn basket<const N: usize>(entries: [(Asset, u64); N]) -> Basket<Asset> {
    Basket::from_entries(
        entries
            .into_iter()
            .map(|(asset, quantity)| (asset, Quantity::new(quantity)))
            .collect(),
    )
}

fn mission_default() -> Account<Asset> {
    Account::new(basket([(Asset::MissionTime, 1000000)]))
}

fn agent_default() -> Account<Asset> {
    Account::new(basket([
        (Asset::Reward(Reward::Score), 10000),
        (Asset::Reward(Reward::Token), 10000),
        (Asset::Reward(Reward::Prediction), 10000),
        (Asset::Reward(Reward::Policy), 10000),
    ]))
}

fn mission_time_with_resource() -> Rate<Asset> {
    Rate::new(
        basket([(Asset::MissionTime, 1)]),
        basket([
            (Asset::Reward(Reward::Prediction), 9),
            (Asset::Reward(Reward::Token), 3),
            (Asset::Reward(Reward::Policy), 1),
        ]),
    )
}

fn ledger() -> Ledger<AccountId, Asset> {
    let mut ledger = Ledger::new();
    ledger.insert(AccountId::Agent, agent_default());
    ledger.insert(AccountId::Mission, mission_default());
    ledger
}

#[test]
fn rate_buy_lifetime() {
    let mut ledger = ledger();
    let rate = mission_time_with_resource();

    let res_seller = Account::new(basket([
        (Asset::MissionTime, 999999),
        (Asset::Reward(Reward::Token), 3),
        (Asset::Reward(Reward::Prediction), 9),
        (Asset::Reward(Reward::Policy), 1),
    ]));

    let res_buyer = Account::new(basket([
        (Asset::MissionTime, 1),
        (Asset::Reward(Reward::Score), 10000),
        (Asset::Reward(Reward::Token), 9997),
        (Asset::Reward(Reward::Prediction), 9991),
        (Asset::Reward(Reward::Policy), 9999),
    ]));

    ledger
        .exchange(&AccountId::Agent, &AccountId::Mission, &rate, Quantity::new(1))
        .unwrap();

    assert_eq!(&res_seller, ledger.account(&AccountId::Mission).unwrap());
    assert_eq!(&res_buyer, ledger.account(&AccountId::Agent).unwrap());
}

#[test]
fn rate_buy_lifetime_quantity() {
    let mut ledger = ledger();
    let rate = mission_time_with_resource();

    let res_seller = Account::new(basket([
        (Asset::MissionTime, 999998),
        (Asset::Reward(Reward::Token), 6),
        (Asset::Reward(Reward::Prediction), 18),
        (Asset::Reward(Reward::Policy), 2),
    ]));

    let res_buyer = Account::new(basket([
        (Asset::MissionTime, 2),
        (Asset::Reward(Reward::Score), 10000),
        (Asset::Reward(Reward::Token), 9994),
        (Asset::Reward(Reward::Prediction), 9982),
        (Asset::Reward(Reward::Policy), 9998),
    ]));

    ledger
        .exchange(&AccountId::Agent, &AccountId::Mission, &rate, Quantity::new(2))
        .unwrap();

    assert_eq!(&res_seller, ledger.account(&AccountId::Mission).unwrap());
    assert_eq!(&res_buyer, ledger.account(&AccountId::Agent).unwrap());
}
