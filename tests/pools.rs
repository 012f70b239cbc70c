use mmoshforge::curve::{Curve, Segment};
use mmoshforge::error::{BondingError, MyError};
use mmoshforge::pool::{Address, Payout, PoolConfig, PoolState, PoolUpdate, Registry, Trade};
use mmoshforge::precise::PreciseNumber;
use mmoshforge::wide::WideUint;

fn precise_raw(x: u128) -> PreciseNumber {
    PreciseNumber::from_raw(WideUint::from_u128(x))
}

fn scenario_curve() -> Curve {
    Curve::Linear { intercept: PreciseNumber::new(1), slope: precise_raw(100_000_000) }
}

fn admin() -> Address {
    Address::new(1, 2, 3, 4)
}

fn treasurer() -> Address {
    Address::new(5, 6, 7, 8)
}

fn stranger() -> Address {
    Address::new(9, 9, 9, 9)
}

fn config(bps: u16, cap: Option<u64>, go_live: i64) -> PoolConfig {
    PoolConfig {
        reserve_mint: Address::new(10, 0, 0, 0),
        target_mint: Address::new(11, 0, 0, 0),
        general_authority: Some(admin()),
        reserve_authority: Some(treasurer()),
        founder_reward_bps: bps,
        mint_cap: cap,
        go_live_time: go_live,
    }
}

fn registry_with_pool(bps: u16, cap: Option<u64>, go_live: i64) -> (Registry, usize) {
    let mut reg = Registry::new();
    let curve_id = reg.create_curve(scenario_curve()).unwrap();
    let pool_id = reg.initialize_pool(curve_id, config(bps, cap, go_live)).unwrap();
    (reg, pool_id)
}

#[test]
fn new_pool_starts_empty() {
    let (reg, id) = registry_with_pool(0, None, 0);
    let pool = reg.pools[id];
    assert_eq!(pool.current_supply, 0);
    assert_eq!(pool.reserve_balance, 0);
    assert_eq!(pool.state, PoolState::Active);
}

#[test]
fn buy_thousand_costs_1050() {
    let (mut reg, id) = registry_with_pool(0, None, 0);
    let t = reg.buy(id, 0, 1000, 1050).unwrap();
    assert_eq!(t, Trade { target_amount: 1000, reserve_amount: 1050, fee: 0 });
    assert_eq!(reg.pools[id].current_supply, 1000);
    assert_eq!(reg.pools[id].reserve_balance, 1050);
}

#[test]
fn buy_then_sell_is_neutral_without_reward() {
    let (mut reg, id) = registry_with_pool(0, None, 0);
    reg.buy(id, 0, 250, u64::MAX).unwrap();
    let before = reg.pools[id];
    let bought = reg.buy(id, 0, 777, u64::MAX).unwrap();
    let sold = reg.sell(id, 777, 0).unwrap();
    assert_eq!(bought.reserve_amount, sold.reserve_amount);
    assert_eq!(reg.pools[id], before);
}

#[test]
fn buy_then_sell_loses_two_rewards() {
    let (mut reg, id) = registry_with_pool(100, None, 0);
    let bought = reg.buy(id, 0, 1000, u64::MAX).unwrap();
    assert_eq!(bought, Trade { target_amount: 1000, reserve_amount: 1060, fee: 10 });
    let sold = reg.sell(id, 1000, 0).unwrap();
    assert_eq!(sold, Trade { target_amount: 1000, reserve_amount: 1040, fee: 10 });
    let pool = reg.pools[id];
    assert_eq!(pool.current_supply, 0);
    assert_eq!(pool.reserve_balance, 20);
    assert_eq!(pool.fees_accrued, 20);
}

#[test]
fn buy_over_limit_is_refused_and_changes_nothing() {
    let (mut reg, id) = registry_with_pool(0, None, 0);
    let before = reg.pools[id];
    assert_eq!(reg.buy(id, 0, 1000, 1049), Err(BondingError::SlippageExceeded));
    assert_eq!(reg.pools[id], before);
}

#[test]
fn sell_under_minimum_is_refused() {
    let (mut reg, id) = registry_with_pool(0, None, 0);
    reg.buy(id, 0, 1000, u64::MAX).unwrap();
    let before = reg.pools[id];
    assert_eq!(reg.sell(id, 1000, 1051), Err(BondingError::SlippageExceeded));
    assert_eq!(reg.pools[id], before);
}

#[test]
fn close_pool_with_supply_is_refused() {
    let (mut reg, id) = registry_with_pool(0, None, 0);
    reg.buy(id, 0, 5, u64::MAX).unwrap();
    assert_eq!(reg.pools[id].current_supply, 5);
    assert_eq!(reg.close_pool(id, admin()), Err(BondingError::NotEmpty));
    assert_eq!(reg.pools[id].state, PoolState::Active);
}

#[test]
fn closed_pool_refuses_trades() {
    let (mut reg, id) = registry_with_pool(0, None, 0);
    assert_eq!(reg.close_pool(id, admin()), Ok(0));
    assert_eq!(reg.pools[id].state, PoolState::Closed);
    assert_eq!(reg.buy(id, 0, 1, u64::MAX), Err(BondingError::PoolClosed));
    assert_eq!(reg.sell(id, 0, 0), Err(BondingError::PoolClosed));
    assert_eq!(reg.transfer_reserves(id, treasurer(), 0, stranger()), Err(BondingError::PoolClosed));
    assert_eq!(reg.close_pool(id, admin()), Err(BondingError::PoolClosed));
}

#[test]
fn close_releases_accrued_reserve() {
    let (mut reg, id) = registry_with_pool(100, None, 0);
    reg.buy(id, 0, 1000, u64::MAX).unwrap();
    reg.sell(id, 1000, 0).unwrap();
    assert_eq!(reg.close_pool(id, stranger()), Err(BondingError::Unauthorized));
    assert_eq!(reg.close_pool(id, admin()), Ok(20));
    assert_eq!(reg.pools[id].reserve_balance, 0);
}

#[test]
fn frozen_and_not_live_pools_refuse() {
    let (mut reg, id) = registry_with_pool(0, None, 100);
    assert_eq!(reg.buy(id, 99, 1, u64::MAX), Err(BondingError::NotLive));
    reg.buy(id, 100, 10, u64::MAX).unwrap();
    let update = PoolUpdate {
        general_authority: Some(admin()),
        buy_frozen: true,
        sell_frozen: true,
        founder_reward_bps: 0,
        mint_cap: None,
    };
    assert_eq!(reg.update_pool(id, admin(), update), Ok(()));
    assert_eq!(reg.buy(id, 100, 1, u64::MAX), Err(BondingError::PoolFrozen));
    assert_eq!(reg.sell(id, 1, 0), Err(BondingError::PoolFrozen));
}

#[test]
fn mint_cap_is_enforced() {
    let (mut reg, id) = registry_with_pool(0, Some(100), 0);
    assert_eq!(reg.buy(id, 0, 101, u64::MAX), Err(BondingError::MintCapExceeded));
    assert!(reg.buy(id, 0, 100, u64::MAX).is_ok());
    assert_eq!(reg.buy(id, 0, 1, u64::MAX), Err(BondingError::MintCapExceeded));
}

#[test]
fn selling_more_than_supply_is_refused() {
    let (mut reg, id) = registry_with_pool(0, None, 0);
    reg.buy(id, 0, 10, u64::MAX).unwrap();
    assert_eq!(reg.sell(id, 11, 0), Err(BondingError::InsufficientSupply));
}

#[test]
fn buy_past_supply_limit_is_arithmetic_error() {
    let (mut reg, id) = registry_with_pool(0, None, 0);
    assert_eq!(reg.buy(id, 0, u64::MAX, u64::MAX), Err(BondingError::ArithmeticError));
}

#[test]
fn unknown_ids_are_refused() {
    let (mut reg, id) = registry_with_pool(0, None, 0);
    assert_eq!(reg.buy(id + 1, 0, 1, u64::MAX), Err(BondingError::PoolNotFound));
    assert_eq!(reg.sell(id + 1, 1, 0), Err(BondingError::PoolNotFound));
    assert_eq!(reg.initialize_pool(7, config(0, None, 0)), Err(BondingError::CurveNotFound));
    assert_eq!(reg.initialize_pool(0, config(10_001, None, 0)), Err(BondingError::InvalidReward));
}

#[test]
fn invalid_curve_is_refused() {
    let mut reg = Registry::new();
    let bad = Curve::Exponential {
        base: PreciseNumber::zero(),
        coefficient: PreciseNumber::new(1),
        exponent: 40,
    };
    assert_eq!(reg.create_curve(bad), Err(BondingError::InvalidCurve));
    assert_eq!(reg.curves.len(), 0);
}

#[test]
fn transfer_reserves_only_takes_the_surplus() {
    let (mut reg, id) = registry_with_pool(100, None, 0);
    reg.buy(id, 0, 1000, u64::MAX).unwrap();
    assert_eq!(reg.pools[id].reserve_balance, 1060);
    assert_eq!(reg.transfer_reserves(id, admin(), 5, admin()), Err(BondingError::Unauthorized));
    assert_eq!(
        reg.transfer_reserves(id, treasurer(), 11, treasurer()),
        Err(BondingError::InsufficientReserve)
    );
    assert_eq!(
        reg.transfer_reserves(id, treasurer(), 10, stranger()),
        Ok(Payout { destination: stranger(), amount: 10 })
    );
    assert_eq!(reg.pools[id].reserve_balance, 1050);
    assert_eq!(reg.pools[id].fees_accrued, 0);
}

#[test]
fn reserve_authority_can_be_handed_over() {
    let (mut reg, id) = registry_with_pool(100, None, 0);
    assert_eq!(reg.update_reserve_authority(id, admin(), Some(admin())), Err(BondingError::Unauthorized));
    assert_eq!(reg.update_reserve_authority(id, treasurer(), Some(stranger())), Ok(()));
    assert_eq!(reg.pools[id].reserve_authority, Some(stranger()));
}

#[test]
fn update_pool_checks_authority_and_values() {
    let (mut reg, id) = registry_with_pool(0, None, 0);
    reg.buy(id, 0, 50, u64::MAX).unwrap();
    let mut update = PoolUpdate {
        general_authority: Some(stranger()),
        buy_frozen: false,
        sell_frozen: false,
        founder_reward_bps: 10_001,
        mint_cap: None,
    };
    assert_eq!(reg.update_pool(id, stranger(), update), Err(BondingError::Unauthorized));
    assert_eq!(reg.update_pool(id, admin(), update), Err(BondingError::InvalidReward));
    update.founder_reward_bps = 500;
    update.mint_cap = Some(49);
    assert_eq!(reg.update_pool(id, admin(), update), Err(BondingError::MintCapExceeded));
    update.mint_cap = Some(50);
    assert_eq!(reg.update_pool(id, admin(), update), Ok(()));
    assert_eq!(reg.pools[id].general_authority, Some(stranger()));
    assert_eq!(reg.pools[id].founder_reward_bps, 500);
}

#[test]
fn update_curve_keeps_price_continuous() {
    let (mut reg, id) = registry_with_pool(0, None, 0);
    reg.buy(id, 0, 1000, u64::MAX).unwrap();
    // price at 1000 is 1.1; a flat curve at 1.1 keeps it
    let flat = || Curve::Linear { intercept: precise_raw(1_100_000_000_000), slope: PreciseNumber::zero() };
    let jump = Curve::Linear { intercept: PreciseNumber::new(2), slope: PreciseNumber::zero() };
    assert_eq!(reg.update_curve(id, stranger(), flat()), Err(BondingError::Unauthorized));
    assert_eq!(reg.update_curve(id, admin(), jump), Err(BondingError::InvalidCurveContinuity));
    // the flat curve backs 1000 units with 1100 reserve units, more than the pool holds
    assert_eq!(reg.update_curve(id, admin(), flat()), Err(BondingError::InsufficientReserve));
    // a curve through the same price with a steeper start needs less backing
    let steeper = Curve::Linear { intercept: precise_raw(900_000_000_000), slope: precise_raw(200_000_000) };
    let new_id = reg.update_curve(id, admin(), steeper).unwrap();
    assert_eq!(new_id, 1);
    let pool = reg.pools[id];
    assert_eq!(pool.curve_id, 1);
    assert_eq!(pool.reserve_balance, 1050);
    assert_eq!(pool.fees_accrued, 50);
}

#[test]
fn error_codes_follow_declaration_order() {
    assert_eq!(MyError::FirstError.code(), 6000);
    assert_eq!(MyError::UnknownNft.code(), 6003);
    assert_eq!(MyError::NotEnoughTokenToMint.code(), 6009);
}

#[test]
fn buy_with_reserve_buys_as_much_as_the_budget_allows() {
    let (mut reg, id) = registry_with_pool(0, None, 0);
    let t = reg.buy_with_reserve(id, 0, 1051, 0).unwrap();
    assert_eq!(t, Trade { target_amount: 1000, reserve_amount: 1050, fee: 0 });
    assert_eq!(reg.pools[id].current_supply, 1000);
    assert_eq!(reg.pools[id].reserve_balance, 1050);
}

#[test]
fn buy_with_reserve_below_minimum_is_refused() {
    let (mut reg, id) = registry_with_pool(0, None, 0);
    let before = reg.pools[id];
    assert_eq!(reg.buy_with_reserve(id, 0, 1050, 1001), Err(BondingError::SlippageExceeded));
    assert_eq!(reg.pools[id], before);
    let nothing = reg.buy_with_reserve(id, 0, 0, 0).unwrap();
    assert_eq!(nothing, Trade { target_amount: 0, reserve_amount: 0, fee: 0 });
}

#[test]
fn buy_with_reserve_stops_at_the_mint_cap() {
    let (mut reg, id) = registry_with_pool(0, Some(10), 0);
    let t = reg.buy_with_reserve(id, 0, 1_000_000, 1).unwrap();
    assert_eq!(t.target_amount, 10);
    assert_eq!(reg.buy_with_reserve(id, 0, 1_000_000, 1), Err(BondingError::SlippageExceeded));
}

#[test]
fn piecewise_pool_trades_across_the_break() {
    let mut reg = Registry::new();
    let curve = Curve::Piecewise {
        segments: vec![
            Segment { start: 0, intercept: PreciseNumber::new(1), slope: PreciseNumber::zero() },
            Segment { start: 100, intercept: PreciseNumber::new(1), slope: precise_raw(10_000_000_000) },
        ],
    };
    let curve_id = reg.create_curve(curve).unwrap();
    let id = reg.initialize_pool(curve_id, config(0, None, 0)).unwrap();
    assert_eq!(reg.buy(id, 0, 200, u64::MAX).unwrap().reserve_amount, 250);
    assert_eq!(reg.sell(id, 150, 0).unwrap().reserve_amount, 200);
    assert_eq!(reg.pools[id].reserve_balance, 50);
}

#[test]
fn reserve_always_equals_backing_plus_rewards() {
    let (mut reg, id) = registry_with_pool(250, None, 0);
    let curve = scenario_curve();
    let check = |reg: &Registry| {
        let pool = reg.pools[id];
        let backing = curve.backing_at(pool.current_supply).unwrap();
        assert_eq!(pool.reserve_balance, backing + pool.fees_accrued);
    };
    reg.buy(id, 0, 333, u64::MAX).unwrap();
    check(&reg);
    reg.buy_with_reserve(id, 0, 5_000, 0).unwrap();
    check(&reg);
    reg.sell(id, 1000, 0).unwrap();
    check(&reg);
    let fees = reg.pools[id].fees_accrued;
    reg.transfer_reserves(id, treasurer(), fees / 2, treasurer()).unwrap();
    check(&reg);
    assert_eq!(reg.buy(id, 0, 10, 0), Err(BondingError::SlippageExceeded));
    check(&reg);
}

#[test]
fn slippage_and_cap_come_before_vault_capacity() {
    let mut reg = Registry::new();
    let flat = Curve::Linear { intercept: PreciseNumber::new(1), slope: PreciseNumber::zero() };
    let curve_id = reg.create_curve(flat).unwrap();
    let id = reg.initialize_pool(curve_id, config(0, Some(0), 0)).unwrap();
    reg.pools[id].reserve_balance = u64::MAX - 5;
    reg.pools[id].fees_accrued = u64::MAX - 5;
    let before = reg.pools[id];
    assert_eq!(reg.buy(id, 0, 10, 5), Err(BondingError::SlippageExceeded));
    assert_eq!(reg.buy(id, 0, 10, u64::MAX), Err(BondingError::MintCapExceeded));
    reg.pools[id].mint_cap = None;
    assert_eq!(reg.buy(id, 0, 10, u64::MAX), Err(BondingError::ArithmeticError));
    reg.pools[id].mint_cap = before.mint_cap;
    assert_eq!(reg.pools[id], before);
}
