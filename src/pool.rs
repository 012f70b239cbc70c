//! Bonding pools and the instructions that act on them. A `Registry` holds
//! every curve and pool by id; each instruction checks everything first and
//! either applies its whole effect or returns an error and changes nothing.
//! The transfers a successful trade implies (reserve in or out, target units
//! minted or burned) are returned to the caller to carry out on the ledger.
use vstd::prelude::*;
use crate::curve::{Curve, lemma_backing_monotone, lemma_backing_at_zero};
use crate::precise::PreciseNumber;
use crate::signed::{SignedPreciseNumber, magnitude};
use crate::wide::{WideUint, wide_max};
use crate::error::BondingError;

verus! {

/// 100% in basis points.
pub const BPS_DENOMINATOR: u16 = 10_000;

/// An account or asset address.
#[derive(Clone, Copy, Debug, PartialEq, Eq, Structural)]
pub struct Address {
    pub bytes0: u64,
    pub bytes1: u64,
    pub bytes2: u64,
    pub bytes3: u64,
}

impl Address {
    pub fn new(bytes0: u64, bytes1: u64, bytes2: u64, bytes3: u64) -> (r: Address)
        ensures
            r == (Address { bytes0, bytes1, bytes2, bytes3 }),
    {
        Address { bytes0, bytes1, bytes2, bytes3 }
    }
}

#[derive(Clone, Copy, Debug, PartialEq, Eq, Structural)]
pub enum PoolState {
    Active,
    Closed,
}

/// The persistent record of one market.
#[derive(Clone, Copy, Debug, PartialEq, Eq, Structural)]
pub struct BondingPool {
    /// Id of the curve that prices the pool.
    pub curve_id: usize,
    pub reserve_mint: Address,
    pub target_mint: Address,
    /// May update the pool and its curve, and close it; `None` means nobody.
    pub general_authority: Option<Address>,
    /// May take accrued reserve out of the pool; `None` means nobody.
    pub reserve_authority: Option<Address>,
    /// Target units outstanding.
    pub current_supply: u64,
    /// Reserve units held in the pool's vault.
    pub reserve_balance: u64,
    /// Reserve units held beyond the curve's backing: founder rewards.
    pub fees_accrued: u64,
    pub mint_cap: Option<u64>,
    pub go_live_time: i64,
    pub buy_frozen: bool,
    pub sell_frozen: bool,
    /// Share of each trade kept as founder reward, in basis points.
    pub founder_reward_bps: u16,
    pub state: PoolState,
}

/// The settings chosen when a pool is created.
#[derive(Clone, Copy, Debug, PartialEq, Eq, Structural)]
pub struct PoolConfig {
    pub reserve_mint: Address,
    pub target_mint: Address,
    pub general_authority: Option<Address>,
    pub reserve_authority: Option<Address>,
    pub founder_reward_bps: u16,
    pub mint_cap: Option<u64>,
    pub go_live_time: i64,
}

/// The settings the general authority may change.
#[derive(Clone, Copy, Debug, PartialEq, Eq, Structural)]
pub struct PoolUpdate {
    pub general_authority: Option<Address>,
    pub buy_frozen: bool,
    pub sell_frozen: bool,
    pub founder_reward_bps: u16,
    pub mint_cap: Option<u64>,
}

/// What a successful buy or sell moves on the ledger.
#[derive(Clone, Copy, Debug, PartialEq, Eq, Structural)]
pub struct Trade {
    /// Target units minted to the buyer, or burned from the seller.
    pub target_amount: u64,
    /// Reserve units paid in by the buyer, or paid out to the seller.
    pub reserve_amount: u64,
    /// The founder reward kept in the pool out of this trade.
    pub fee: u64,
}

/// Reserve units to send out of a pool's vault.
#[derive(Clone, Copy, Debug, PartialEq, Eq, Structural)]
pub struct Payout {
    pub destination: Address,
    pub amount: u64,
}

/// The founder reward on `amount` at `bps` basis points, rounded down.
pub open spec fn fee_of(amount: nat, bps: nat) -> nat {
    amount * bps / 10_000
}

/// A pool is consistent with the curves: its curve exists and its reserve
/// is exactly the curve's backing of its supply plus the accrued rewards.
pub open spec fn pool_wf(pool: BondingPool, curves: Seq<Curve>) -> bool {
    &&& pool.curve_id < curves.len()
    &&& curves[pool.curve_id as int].backing_fits(pool.current_supply as nat)
    &&& pool.reserve_balance == curves[pool.curve_id as int].backing(pool.current_supply as nat)
        + pool.fees_accrued
    &&& pool.founder_reward_bps <= BPS_DENOMINATOR
}

/// Outcome of buying `n` target units at time `now` for at most `max_reserve`.
pub open spec fn buy_outcome(
    pool: BondingPool,
    curve: Curve,
    now: i64,
    n: u64,
    max_reserve: u64,
) -> Result<(Trade, BondingPool), BondingError> {
    let s = pool.current_supply as nat;
    let t = (s + n) as nat;
    if pool.state == PoolState::Closed {
        Err(BondingError::PoolClosed)
    } else if pool.buy_frozen {
        Err(BondingError::PoolFrozen)
    } else if now < pool.go_live_time {
        Err(BondingError::NotLive)
    } else if t > u64::MAX || !curve.backing_fits(t) {
        Err(BondingError::ArithmeticError)
    } else {
        let cost = (curve.backing(t) - curve.backing(s)) as nat;
        let fee = fee_of(cost, pool.founder_reward_bps as nat);
        let total = cost + fee;
        if total > max_reserve {
            Err(BondingError::SlippageExceeded)
        } else if pool.mint_cap is Some && t > pool.mint_cap.unwrap() {
            Err(BondingError::MintCapExceeded)
        } else if pool.reserve_balance + total > u64::MAX {
            Err(BondingError::ArithmeticError)
        } else {
            Ok(
                (
                    Trade { target_amount: n, reserve_amount: total as u64, fee: fee as u64 },
                    BondingPool {
                        current_supply: t as u64,
                        reserve_balance: (pool.reserve_balance + total) as u64,
                        fees_accrued: (pool.fees_accrued + fee) as u64,
                        ..pool
                    },
                ),
            )
        }
    }
}

/// Outcome of selling `n` target units for at least `min_reserve`.
pub open spec fn sell_outcome(
    pool: BondingPool,
    curve: Curve,
    n: u64,
    min_reserve: u64,
) -> Result<(Trade, BondingPool), BondingError> {
    let s = pool.current_supply as nat;
    if pool.state == PoolState::Closed {
        Err(BondingError::PoolClosed)
    } else if pool.sell_frozen {
        Err(BondingError::PoolFrozen)
    } else if n > s {
        Err(BondingError::InsufficientSupply)
    } else {
        let value = (curve.backing(s) - curve.backing((s - n) as nat)) as nat;
        let fee = fee_of(value, pool.founder_reward_bps as nat);
        let proceeds = (value - fee) as nat;
        if proceeds < min_reserve {
            Err(BondingError::SlippageExceeded)
        } else {
            Ok(
                (
                    Trade { target_amount: n, reserve_amount: proceeds as u64, fee: fee as u64 },
                    BondingPool {
                        current_supply: (s - n) as u64,
                        reserve_balance: (pool.reserve_balance - proceeds) as u64,
                        fees_accrued: (pool.fees_accrued + fee) as u64,
                        ..pool
                    },
                ),
            )
        }
    }
}

/// Outcome of taking `amount` reserve units out of the pool, signed by `signer`.
pub open spec fn transfer_outcome(
    pool: BondingPool,
    signer: Address,
    amount: u64,
) -> Result<BondingPool, BondingError> {
    if pool.state == PoolState::Closed {
        Err(BondingError::PoolClosed)
    } else if pool.reserve_authority != Some(signer) {
        Err(BondingError::Unauthorized)
    } else if amount > pool.fees_accrued {
        Err(BondingError::InsufficientReserve)
    } else {
        Ok(
            BondingPool {
                reserve_balance: (pool.reserve_balance - amount) as u64,
                fees_accrued: (pool.fees_accrued - amount) as u64,
                ..pool
            },
        )
    }
}

/// Outcome of handing the reserve authority to `new_authority`.
pub open spec fn reserve_authority_outcome(
    pool: BondingPool,
    signer: Address,
    new_authority: Option<Address>,
) -> Result<BondingPool, BondingError> {
    if pool.state == PoolState::Closed {
        Err(BondingError::PoolClosed)
    } else if pool.reserve_authority != Some(signer) {
        Err(BondingError::Unauthorized)
    } else {
        Ok(BondingPool { reserve_authority: new_authority, ..pool })
    }
}

/// Outcome of changing the pool's settings.
pub open spec fn update_pool_outcome(
    pool: BondingPool,
    signer: Address,
    update: PoolUpdate,
) -> Result<BondingPool, BondingError> {
    if pool.state == PoolState::Closed {
        Err(BondingError::PoolClosed)
    } else if pool.general_authority != Some(signer) {
        Err(BondingError::Unauthorized)
    } else if update.founder_reward_bps > BPS_DENOMINATOR {
        Err(BondingError::InvalidReward)
    } else if update.mint_cap is Some && update.mint_cap.unwrap() < pool.current_supply {
        Err(BondingError::MintCapExceeded)
    } else {
        Ok(
            BondingPool {
                general_authority: update.general_authority,
                buy_frozen: update.buy_frozen,
                sell_frozen: update.sell_frozen,
                founder_reward_bps: update.founder_reward_bps,
                mint_cap: update.mint_cap,
                ..pool
            },
        )
    }
}

/// Outcome of closing the pool: on success, the reserve released with it.
pub open spec fn close_outcome(
    pool: BondingPool,
    signer: Address,
) -> Result<(u64, BondingPool), BondingError> {
    if pool.state == PoolState::Closed {
        Err(BondingError::PoolClosed)
    } else if pool.general_authority != Some(signer) {
        Err(BondingError::Unauthorized)
    } else if pool.current_supply != 0 {
        Err(BondingError::NotEmpty)
    } else {
        Ok(
            (
                pool.reserve_balance,
                BondingPool {
                    reserve_balance: 0,
                    fees_accrued: 0,
                    state: PoolState::Closed,
                    ..pool
                },
            ),
        )
    }
}

/// The largest move of the spot price, in raw units, that a curve update may
/// cause at the current supply.
pub const PRICE_TOLERANCE: u64 = 1;

/// Outcome of moving the pool to `new_curve`, stored under id `new_id`.
pub open spec fn update_curve_outcome(
    pool: BondingPool,
    curve: Curve,
    signer: Address,
    new_curve: Curve,
    new_id: usize,
) -> Result<BondingPool, BondingError> {
    let s = pool.current_supply as nat;
    if pool.state == PoolState::Closed {
        Err(BondingError::PoolClosed)
    } else if pool.general_authority != Some(signer) {
        Err(BondingError::Unauthorized)
    } else if !new_curve.valid() {
        Err(BondingError::InvalidCurve)
    } else if curve.price_at(s) > wide_max() || new_curve.price_at(s) > wide_max() {
        Err(BondingError::ArithmeticError)
    } else if magnitude(new_curve.price_at(s) - curve.price_at(s)) > PRICE_TOLERANCE {
        Err(BondingError::InvalidCurveContinuity)
    } else if !new_curve.backing_fits(s) {
        Err(BondingError::ArithmeticError)
    } else if new_curve.backing(s) > pool.reserve_balance {
        Err(BondingError::InsufficientReserve)
    } else {
        Ok(
            BondingPool {
                curve_id: new_id,
                fees_accrued: (pool.reserve_balance - new_curve.backing(s)) as u64,
                ..pool
            },
        )
    }
}

/// Why a buy at time `now` is refused before any amount is computed, if it is.
pub open spec fn buy_gate(pool: BondingPool, now: i64) -> Option<BondingError> {
    if pool.state == PoolState::Closed {
        Some(BondingError::PoolClosed)
    } else if pool.buy_frozen {
        Some(BondingError::PoolFrozen)
    } else if now < pool.go_live_time {
        Some(BondingError::NotLive)
    } else {
        None
    }
}

/// What buying `n` target units costs, founder reward included, when the
/// purchase can be carried out: the amounts are computable, the vault can
/// hold the payment, and the mint cap is kept.
pub open spec fn buy_total(pool: BondingPool, curve: Curve, n: nat) -> Option<nat> {
    let s = pool.current_supply as nat;
    let t = s + n;
    if t > u64::MAX || !curve.backing_fits(t) {
        None
    } else {
        let cost = (curve.backing(t) - curve.backing(s)) as nat;
        let total = cost + fee_of(cost, pool.founder_reward_bps as nat);
        if pool.reserve_balance + total > u64::MAX || (pool.mint_cap is Some && t
            > pool.mint_cap.unwrap()) {
            None
        } else {
            Some(total)
        }
    }
}

/// Buying `n` target units can be carried out for at most `budget`.
pub open spec fn affordable(pool: BondingPool, curve: Curve, n: nat, budget: nat) -> bool {
    buy_total(pool, curve, n) is Some && buy_total(pool, curve, n).unwrap() <= budget
}

/// All curves and pools, each addressed by its position.
pub struct Registry {
    pub curves: Vec<Curve>,
    pub pools: Vec<BondingPool>,
}

impl Registry {
    /// Every curve is well-formed and every pool consistent with the curves.
    pub open spec fn wf(self) -> bool {
        &&& forall|i: int| 0 <= i < self.curves@.len() ==> #[trigger] self.curves@[i].valid()
        &&& forall|i: int|
            0 <= i < self.pools@.len() ==> pool_wf(#[trigger] self.pools@[i], self.curves@)
    }

    /// The curve that prices pool `id`.
    pub open spec fn curve_of(self, id: int) -> Curve {
        self.curves@[self.pools@[id].curve_id as int]
    }

    pub fn new() -> (r: Registry)
        ensures
            r.wf(),
            r.curves@.len() == 0,
            r.pools@.len() == 0,
    {
        Registry { curves: Vec::new(), pools: Vec::new() }
    }

    /// Buys `target_amount` target units at time `now`, paying at most
    /// `max_reserve` reserve units, founder reward included.
    pub fn buy(
        &mut self,
        pool_id: usize,
        now: i64,
        target_amount: u64,
        max_reserve: u64,
    ) -> (r: Result<Trade, BondingError>)
        requires
            old(self).wf(),
        ensures
            final(self).wf(),
            final(self).curves@ == old(self).curves@,
            pool_id >= old(self).pools@.len() ==> r == Err::<Trade, BondingError>(
                BondingError::PoolNotFound,
            ) && final(self).pools@ == old(self).pools@,
            pool_id < old(self).pools@.len() ==> match buy_outcome(
                old(self).pools@[pool_id as int],
                old(self).curve_of(pool_id as int),
                now,
                target_amount,
                max_reserve,
            ) {
                Ok(tp) => r == Ok::<Trade, BondingError>(tp.0)
                    && final(self).pools@ == old(self).pools@.update(pool_id as int, tp.1),
                Err(e) => r == Err::<Trade, BondingError>(e)
                    && final(self).pools@ == old(self).pools@,
            },
    {
        if pool_id >= self.pools.len() {
            return Err(BondingError::PoolNotFound);
        }
        let pool = self.pools[pool_id];
        let curve = &self.curves[pool.curve_id];
        assert(pool_wf(pool, self.curves@));
        assert(curve.valid());
        if pool.state == PoolState::Closed {
            return Err(BondingError::PoolClosed);
        }
        if pool.buy_frozen {
            return Err(BondingError::PoolFrozen);
        }
        if now < pool.go_live_time {
            return Err(BondingError::NotLive);
        }
        let s = pool.current_supply;
        if target_amount > u64::MAX - s {
            return Err(BondingError::ArithmeticError);
        }
        let new_supply = s + target_amount;
        let cost = match curve.cost(s, new_supply) {
            Some(c) => c,
            None => return Err(BondingError::ArithmeticError),
        };
        let fee = fee_amount(cost, pool.founder_reward_bps);
        let total: u128 = cost as u128 + fee as u128;
        if total > max_reserve as u128 {
            return Err(BondingError::SlippageExceeded);
        }
        match pool.mint_cap {
            Some(cap) => {
                if new_supply > cap {
                    return Err(BondingError::MintCapExceeded);
                }
            },
            None => {},
        }
        if total > (u64::MAX - pool.reserve_balance) as u128 {
            return Err(BondingError::ArithmeticError);
        }
        let total = total as u64;
        let updated = BondingPool {
            current_supply: new_supply,
            reserve_balance: pool.reserve_balance + total,
            fees_accrued: pool.fees_accrued + fee,
            ..pool
        };
        self.set_pool(pool_id, updated);
        Ok(Trade { target_amount, reserve_amount: total, fee })
    }

    /// Sells `target_amount` target units for at least `min_reserve` reserve
    /// units, after the founder reward.
    pub fn sell(
        &mut self,
        pool_id: usize,
        target_amount: u64,
        min_reserve: u64,
    ) -> (r: Result<Trade, BondingError>)
        requires
            old(self).wf(),
        ensures
            final(self).wf(),
            final(self).curves@ == old(self).curves@,
            pool_id >= old(self).pools@.len() ==> r == Err::<Trade, BondingError>(
                BondingError::PoolNotFound,
            ) && final(self).pools@ == old(self).pools@,
            pool_id < old(self).pools@.len() ==> match sell_outcome(
                old(self).pools@[pool_id as int],
                old(self).curve_of(pool_id as int),
                target_amount,
                min_reserve,
            ) {
                Ok(tp) => r == Ok::<Trade, BondingError>(tp.0)
                    && final(self).pools@ == old(self).pools@.update(pool_id as int, tp.1),
                Err(e) => r == Err::<Trade, BondingError>(e)
                    && final(self).pools@ == old(self).pools@,
            },
    {
        if pool_id >= self.pools.len() {
            return Err(BondingError::PoolNotFound);
        }
        let pool = self.pools[pool_id];
        let curve = &self.curves[pool.curve_id];
        assert(pool_wf(pool, self.curves@));
        assert(curve.valid());
        if pool.state == PoolState::Closed {
            return Err(BondingError::PoolClosed);
        }
        if pool.sell_frozen {
            return Err(BondingError::PoolFrozen);
        }
        let s = pool.current_supply;
        if target_amount > s {
            return Err(BondingError::InsufficientSupply);
        }
        let new_supply = s - target_amount;
        proof {
            lemma_backing_monotone(*curve, new_supply as nat, s as nat);
        }
        let value = match curve.cost(new_supply, s) {
            Some(v) => v,
            None => return Err(BondingError::ArithmeticError),
        };
        let fee = fee_amount(value, pool.founder_reward_bps);
        let proceeds = value - fee;
        if proceeds < min_reserve {
            return Err(BondingError::SlippageExceeded);
        }
        let updated = BondingPool {
            current_supply: new_supply,
            reserve_balance: pool.reserve_balance - proceeds,
            fees_accrued: pool.fees_accrued + fee,
            ..pool
        };
        self.set_pool(pool_id, updated);
        Ok(Trade { target_amount, reserve_amount: proceeds, fee })
    }

    /// Buys as many target units as `reserve_amount` reserve units pay for,
    /// founder reward included; refused with `SlippageExceeded` when that is
    /// fewer than `min_target`.
    pub fn buy_with_reserve(
        &mut self,
        pool_id: usize,
        now: i64,
        reserve_amount: u64,
        min_target: u64,
    ) -> (r: Result<Trade, BondingError>)
        requires
            old(self).wf(),
        ensures
            final(self).wf(),
            final(self).curves@ == old(self).curves@,
            pool_id >= old(self).pools@.len() ==> r == Err::<Trade, BondingError>(
                BondingError::PoolNotFound,
            ) && final(self).pools@ == old(self).pools@,
            pool_id < old(self).pools@.len() ==> ({
                let pool = old(self).pools@[pool_id as int];
                let curve = old(self).curve_of(pool_id as int);
                match buy_gate(pool, now) {
                    Some(e) => r == Err::<Trade, BondingError>(e)
                        && final(self).pools@ == old(self).pools@,
                    None => if !affordable(pool, curve, min_target as nat, reserve_amount as nat) {
                        r == Err::<Trade, BondingError>(BondingError::SlippageExceeded) && final(self).pools@ == old(self).pools@
                    } else {
                        &&& r is Ok
                        &&& affordable(
                            pool,
                            curve,
                            r.unwrap().target_amount as nat,
                            reserve_amount as nat,
                        )
                        &&& forall|m: nat|
                            m > r.unwrap().target_amount ==> !#[trigger] affordable(
                                pool,
                                curve,
                                m,
                                reserve_amount as nat,
                            )
                        &&& buy_outcome(
                            pool,
                            curve,
                            now,
                            r.unwrap().target_amount,
                            reserve_amount,
                        ) == Ok::<(Trade, BondingPool), BondingError>(
                            (r.unwrap(), final(self).pools@[pool_id as int]),
                        )
                        &&& final(self).pools@ == old(self).pools@.update(
                            pool_id as int,
                            final(self).pools@[pool_id as int],
                        )
                    },
                }
            }),
    {
        if pool_id >= self.pools.len() {
            return Err(BondingError::PoolNotFound);
        }
        let pool = self.pools[pool_id];
        let curve = &self.curves[pool.curve_id];
        assert(pool_wf(pool, self.curves@));
        assert(curve.valid());
        if pool.state == PoolState::Closed {
            return Err(BondingError::PoolClosed);
        }
        if pool.buy_frozen {
            return Err(BondingError::PoolFrozen);
        }
        if now < pool.go_live_time {
            return Err(BondingError::NotLive);
        }
        let ghost budget = reserve_amount as nat;
        let fits_min = match quote(&pool, curve, min_target) {
            Some(total) => total <= reserve_amount,
            None => false,
        };
        if !fits_min {
            return Err(BondingError::SlippageExceeded);
        }
        let limit = u64::MAX - pool.current_supply;
        let mut low: u64 = min_target;
        let mut high: u64 = limit;
        proof {
            lemma_buy_total_monotone(pool, *curve, min_target as nat, (limit + 1) as nat);
        }
        while low < high
            invariant
                low <= high <= limit,
                limit == u64::MAX - pool.current_supply,
                pool_wf(pool, self.curves@),
                *curve == self.curves@[pool.curve_id as int],
                budget == reserve_amount as nat,
                curve.valid(),
                affordable(pool, *curve, low as nat, budget),
                high == limit || !affordable(pool, *curve, (high + 1) as nat, budget),
            decreases high - low,
        {
            let mid = high - (high - low) / 2;
            let quoted = quote(&pool, curve, mid);
            let ok = match quoted {
                Some(total) => total <= reserve_amount,
                None => false,
            };
            if ok {
                low = mid;
            } else {
                high = mid - 1;
            }
        }
        proof {
            assert forall|m: nat| m > low implies !#[trigger] affordable(pool, *curve, m, budget) by {
                if affordable(pool, *curve, m, budget) {
                    lemma_buy_total_monotone(pool, *curve, (low + 1) as nat, m);
                }
            }
        }
        self.buy(pool_id, now, low, reserve_amount)
    }

    /// Replaces pool `id` by a pool consistent with the curves.
    fn set_pool(&mut self, id: usize, pool: BondingPool)
        requires
            old(self).wf(),
            id < old(self).pools@.len(),
            pool_wf(pool, old(self).curves@),
        ensures
            final(self).wf(),
            final(self).curves@ == old(self).curves@,
            final(self).pools@ == old(self).pools@.update(id as int, pool),
    {
        self.pools.set(id, pool);
        proof {
            assert forall|i: int| 0 <= i < self.pools@.len() implies pool_wf(
                #[trigger] self.pools@[i],
                self.curves@,
            ) by {
                if i != id {
                    assert(self.pools@[i] == old(self).pools@[i]);
                }
            }
        }
    }

    /// Stores a curve and returns its id.
    pub fn create_curve(&mut self, curve: Curve) -> (r: Result<usize, BondingError>)
        requires
            old(self).wf(),
        ensures
            final(self).wf(),
            final(self).pools@ == old(self).pools@,
            curve.valid() ==> r == Ok::<usize, BondingError>(old(self).curves@.len() as usize)
                && final(self).curves@ == old(self).curves@.push(curve),
            !curve.valid() ==> r == Err::<usize, BondingError>(BondingError::InvalidCurve)
                && final(self).curves@ == old(self).curves@,
    {
        if !curve.is_valid() {
            return Err(BondingError::InvalidCurve);
        }
        let id = self.curves.len();
        self.curves.push(curve);
        proof {
            assert forall|i: int| 0 <= i < self.pools@.len() implies pool_wf(
                #[trigger] self.pools@[i],
                self.curves@,
            ) by {
                assert(self.pools@[i] == old(self).pools@[i]);
                assert(pool_wf(old(self).pools@[i], old(self).curves@));
                assert(self.curves@[self.pools@[i].curve_id as int] == old(self).curves@[self.pools@[i].curve_id as int]);
            }
            assert forall|i: int| 0 <= i < self.curves@.len() implies #[trigger] self.curves@[i].valid() by {
                if i < old(self).curves@.len() {
                    assert(self.curves@[i] == old(self).curves@[i]);
                }
            }
        }
        Ok(id)
    }

    /// Creates a pool on curve `curve_id`, with no supply, and returns its id.
    pub fn initialize_pool(
        &mut self,
        curve_id: usize,
        config: PoolConfig,
    ) -> (r: Result<usize, BondingError>)
        requires
            old(self).wf(),
        ensures
            final(self).wf(),
            final(self).curves@ == old(self).curves@,
            curve_id >= old(self).curves@.len() ==> r == Err::<usize, BondingError>(
                BondingError::CurveNotFound,
            ) && final(self).pools@ == old(self).pools@,
            curve_id < old(self).curves@.len() && config.founder_reward_bps > BPS_DENOMINATOR ==> r
                == Err::<usize, BondingError>(BondingError::InvalidReward) && final(self).pools@
                == old(self).pools@,
            curve_id < old(self).curves@.len() && config.founder_reward_bps <= BPS_DENOMINATOR
                ==> r == Ok::<usize, BondingError>(old(self).pools@.len() as usize)
                    && final(self).pools@ == old(self).pools@.push(new_pool(curve_id, config)),
    {
        if curve_id >= self.curves.len() {
            return Err(BondingError::CurveNotFound);
        }
        if config.founder_reward_bps > BPS_DENOMINATOR {
            return Err(BondingError::InvalidReward);
        }
        let pool = BondingPool {
            curve_id,
            reserve_mint: config.reserve_mint,
            target_mint: config.target_mint,
            general_authority: config.general_authority,
            reserve_authority: config.reserve_authority,
            current_supply: 0,
            reserve_balance: 0,
            fees_accrued: 0,
            mint_cap: config.mint_cap,
            go_live_time: config.go_live_time,
            buy_frozen: false,
            sell_frozen: false,
            founder_reward_bps: config.founder_reward_bps,
            state: PoolState::Active,
        };
        proof {
            lemma_backing_at_zero(self.curves@[curve_id as int]);
        }
        let id = self.pools.len();
        self.pools.push(pool);
        proof {
            assert forall|i: int| 0 <= i < self.pools@.len() implies pool_wf(
                #[trigger] self.pools@[i],
                self.curves@,
            ) by {
                if i < old(self).pools@.len() {
                    assert(self.pools@[i] == old(self).pools@[i]);
                }
            }
        }
        Ok(id)
    }

    /// Takes `amount` reserve units held beyond the curve's backing out of
    /// the pool, signed by the reserve authority, and returns the transfer to
    /// make to `destination`.
    pub fn transfer_reserves(
        &mut self,
        pool_id: usize,
        signer: Address,
        amount: u64,
        destination: Address,
    ) -> (r: Result<Payout, BondingError>)
        requires
            old(self).wf(),
        ensures
            final(self).wf(),
            final(self).curves@ == old(self).curves@,
            pool_id >= old(self).pools@.len() ==> r == Err::<Payout, BondingError>(
                BondingError::PoolNotFound,
            ) && final(self).pools@ == old(self).pools@,
            pool_id < old(self).pools@.len() ==> match transfer_outcome(
                old(self).pools@[pool_id as int],
                signer,
                amount,
            ) {
                Ok(p) => r == Ok::<Payout, BondingError>((Payout { destination, amount }))
                    && final(self).pools@ == old(self).pools@.update(pool_id as int, p),
                Err(e) => r == Err::<Payout, BondingError>(e)
                    && final(self).pools@ == old(self).pools@,
            },
    {
        if pool_id >= self.pools.len() {
            return Err(BondingError::PoolNotFound);
        }
        let pool = self.pools[pool_id];
        assert(pool_wf(pool, self.curves@));
        if pool.state == PoolState::Closed {
            return Err(BondingError::PoolClosed);
        }
        if pool.reserve_authority != Some(signer) {
            return Err(BondingError::Unauthorized);
        }
        if amount > pool.fees_accrued {
            return Err(BondingError::InsufficientReserve);
        }
        let updated = BondingPool {
            reserve_balance: pool.reserve_balance - amount,
            fees_accrued: pool.fees_accrued - amount,
            ..pool
        };
        self.set_pool(pool_id, updated);
        Ok(Payout { destination, amount })
    }

    /// Hands the reserve authority to `new_authority`, signed by the current one.
    pub fn update_reserve_authority(
        &mut self,
        pool_id: usize,
        signer: Address,
        new_authority: Option<Address>,
    ) -> (r: Result<(), BondingError>)
        requires
            old(self).wf(),
        ensures
            final(self).wf(),
            final(self).curves@ == old(self).curves@,
            pool_id >= old(self).pools@.len() ==> r == Err::<(), BondingError>(
                BondingError::PoolNotFound,
            ) && final(self).pools@ == old(self).pools@,
            pool_id < old(self).pools@.len() ==> match reserve_authority_outcome(
                old(self).pools@[pool_id as int],
                signer,
                new_authority,
            ) {
                Ok(p) => r == Ok::<(), BondingError>(())
                    && final(self).pools@ == old(self).pools@.update(pool_id as int, p),
                Err(e) => r == Err::<(), BondingError>(e) && final(self).pools@ == old(self).pools@,
            },
    {
        if pool_id >= self.pools.len() {
            return Err(BondingError::PoolNotFound);
        }
        let pool = self.pools[pool_id];
        assert(pool_wf(pool, self.curves@));
        if pool.state == PoolState::Closed {
            return Err(BondingError::PoolClosed);
        }
        if pool.reserve_authority != Some(signer) {
            return Err(BondingError::Unauthorized);
        }
        self.set_pool(pool_id, BondingPool { reserve_authority: new_authority, ..pool });
        Ok(())
    }

    /// Changes the pool's settings, signed by the general authority.
    pub fn update_pool(
        &mut self,
        pool_id: usize,
        signer: Address,
        update: PoolUpdate,
    ) -> (r: Result<(), BondingError>)
        requires
            old(self).wf(),
        ensures
            final(self).wf(),
            final(self).curves@ == old(self).curves@,
            pool_id >= old(self).pools@.len() ==> r == Err::<(), BondingError>(
                BondingError::PoolNotFound,
            ) && final(self).pools@ == old(self).pools@,
            pool_id < old(self).pools@.len() ==> match update_pool_outcome(
                old(self).pools@[pool_id as int],
                signer,
                update,
            ) {
                Ok(p) => r == Ok::<(), BondingError>(())
                    && final(self).pools@ == old(self).pools@.update(pool_id as int, p),
                Err(e) => r == Err::<(), BondingError>(e) && final(self).pools@ == old(self).pools@,
            },
    {
        if pool_id >= self.pools.len() {
            return Err(BondingError::PoolNotFound);
        }
        let pool = self.pools[pool_id];
        assert(pool_wf(pool, self.curves@));
        if pool.state == PoolState::Closed {
            return Err(BondingError::PoolClosed);
        }
        if pool.general_authority != Some(signer) {
            return Err(BondingError::Unauthorized);
        }
        if update.founder_reward_bps > BPS_DENOMINATOR {
            return Err(BondingError::InvalidReward);
        }
        match update.mint_cap {
            Some(cap) => {
                if cap < pool.current_supply {
                    return Err(BondingError::MintCapExceeded);
                }
            },
            None => {},
        }
        let updated = BondingPool {
            general_authority: update.general_authority,
            buy_frozen: update.buy_frozen,
            sell_frozen: update.sell_frozen,
            founder_reward_bps: update.founder_reward_bps,
            mint_cap: update.mint_cap,
            ..pool
        };
        self.set_pool(pool_id, updated);
        Ok(())
    }

    /// Closes an empty pool, signed by the general authority, and returns
    /// the reserve released with it.
    pub fn close_pool(&mut self, pool_id: usize, signer: Address) -> (r: Result<u64, BondingError>)
        requires
            old(self).wf(),
        ensures
            final(self).wf(),
            final(self).curves@ == old(self).curves@,
            pool_id >= old(self).pools@.len() ==> r == Err::<u64, BondingError>(
                BondingError::PoolNotFound,
            ) && final(self).pools@ == old(self).pools@,
            pool_id < old(self).pools@.len() ==> match close_outcome(
                old(self).pools@[pool_id as int],
                signer,
            ) {
                Ok(rp) => r == Ok::<u64, BondingError>(rp.0)
                    && final(self).pools@ == old(self).pools@.update(pool_id as int, rp.1),
                Err(e) => r == Err::<u64, BondingError>(e)
                    && final(self).pools@ == old(self).pools@,
            },
    {
        if pool_id >= self.pools.len() {
            return Err(BondingError::PoolNotFound);
        }
        let pool = self.pools[pool_id];
        assert(pool_wf(pool, self.curves@));
        if pool.state == PoolState::Closed {
            return Err(BondingError::PoolClosed);
        }
        if pool.general_authority != Some(signer) {
            return Err(BondingError::Unauthorized);
        }
        if pool.current_supply != 0 {
            return Err(BondingError::NotEmpty);
        }
        proof {
            lemma_backing_at_zero(self.curves@[pool.curve_id as int]);
        }
        let released = pool.reserve_balance;
        let updated = BondingPool {
            reserve_balance: 0,
            fees_accrued: 0,
            state: PoolState::Closed,
            ..pool
        };
        self.set_pool(pool_id, updated);
        Ok(released)
    }

    /// Moves the pool to a new curve, signed by the general authority, and
    /// returns the new curve's id. The spot price at the current supply may
    /// move by at most `PRICE_TOLERANCE`, and the reserve must cover the new
    /// curve's backing; what it holds beyond that becomes accrued reserve.
    pub fn update_curve(
        &mut self,
        pool_id: usize,
        signer: Address,
        new_curve: Curve,
    ) -> (r: Result<usize, BondingError>)
        requires
            old(self).wf(),
        ensures
            final(self).wf(),
            pool_id >= old(self).pools@.len() ==> r == Err::<usize, BondingError>(
                BondingError::PoolNotFound,
            ) && final(self).pools@ == old(self).pools@ && final(self).curves@ == old(self).curves@,
            pool_id < old(self).pools@.len() ==> match update_curve_outcome(
                old(self).pools@[pool_id as int],
                old(self).curve_of(pool_id as int),
                signer,
                new_curve,
                old(self).curves@.len() as usize,
            ) {
                Ok(p) => r == Ok::<usize, BondingError>(old(self).curves@.len() as usize)
                    && final(self).curves@ == old(self).curves@.push(new_curve)
                    && final(self).pools@ == old(self).pools@.update(pool_id as int, p),
                Err(e) => r == Err::<usize, BondingError>(e)
                    && final(self).pools@ == old(self).pools@
                    && final(self).curves@ == old(self).curves@,
            },
    {
        if pool_id >= self.pools.len() {
            return Err(BondingError::PoolNotFound);
        }
        let pool = self.pools[pool_id];
        let curve = &self.curves[pool.curve_id];
        assert(pool_wf(pool, self.curves@));
        assert(curve.valid());
        if pool.state == PoolState::Closed {
            return Err(BondingError::PoolClosed);
        }
        if pool.general_authority != Some(signer) {
            return Err(BondingError::Unauthorized);
        }
        if !new_curve.is_valid() {
            return Err(BondingError::InvalidCurve);
        }
        let s = pool.current_supply;
        let old_price = match curve.price(s) {
            Some(p) => p,
            None => return Err(BondingError::ArithmeticError),
        };
        let new_price = match new_curve.price(s) {
            Some(p) => p,
            None => return Err(BondingError::ArithmeticError),
        };
        let gap = match SignedPreciseNumber::new(new_price).checked_sub(
            &SignedPreciseNumber::new(old_price),
        ) {
            Ok(g) => g,
            Err(_) => return Err(BondingError::ArithmeticError),
        };
        let tolerance = PreciseNumber::from_raw(WideUint::from_u64(PRICE_TOLERANCE));
        if !gap.value.le(&tolerance) {
            return Err(BondingError::InvalidCurveContinuity);
        }
        let backing = match new_curve.backing_at(s) {
            Some(b) => b,
            None => return Err(BondingError::ArithmeticError),
        };
        if backing > pool.reserve_balance {
            return Err(BondingError::InsufficientReserve);
        }
        let new_id = self.curves.len();
        let updated = BondingPool {
            curve_id: new_id,
            fees_accrued: pool.reserve_balance - backing,
            ..pool
        };
        let ghost before = *self;
        self.curves.push(new_curve);
        proof {
            assert forall|i: int| 0 <= i < self.pools@.len() implies pool_wf(
                #[trigger] self.pools@[i],
                self.curves@,
            ) by {
                assert(pool_wf(before.pools@[i], before.curves@));
                assert(self.curves@[self.pools@[i].curve_id as int] == before.curves@[self.pools@[i].curve_id as int]);
            }
            assert forall|i: int| 0 <= i < self.curves@.len() implies #[trigger] self.curves@[i].valid() by {
                if i < before.curves@.len() {
                    assert(self.curves@[i] == before.curves@[i]);
                }
            }
        }
        self.set_pool(pool_id, updated);
        Ok(new_id)
    }
}

/// The cost of buying `n` target units, as `buy_total` gives it.
fn quote(pool: &BondingPool, curve: &Curve, n: u64) -> (r: Option<u64>)
    requires
        curve.valid(),
        curve.backing_fits(pool.current_supply as nat),
        pool.founder_reward_bps <= BPS_DENOMINATOR,
    ensures
        match r {
            Some(v) => buy_total(*pool, *curve, n as nat) == Some(v as nat),
            None => buy_total(*pool, *curve, n as nat) is None,
        },
{
    let s = pool.current_supply;
    if n > u64::MAX - s {
        return None;
    }
    let t = s + n;
    let cost = match curve.cost(s, t) {
        Some(c) => c,
        None => return None,
    };
    let fee = fee_amount(cost, pool.founder_reward_bps);
    let total: u128 = cost as u128 + fee as u128;
    if total > (u64::MAX - pool.reserve_balance) as u128 {
        return None;
    }
    match pool.mint_cap {
        Some(cap) => {
            if t > cap {
                return None;
            }
        },
        None => {},
    }
    Some(total as u64)
}

/// Buying fewer units never costs more, and stays possible.
pub proof fn lemma_buy_total_monotone(pool: BondingPool, curve: Curve, n1: nat, n2: nat)
    requires
        n1 <= n2,
        curve.backing_fits(pool.current_supply as nat),
    ensures
        buy_total(pool, curve, n2) is Some ==> buy_total(pool, curve, n1) is Some && buy_total(
            pool,
            curve,
            n1,
        ).unwrap() <= buy_total(pool, curve, n2).unwrap(),
{
    let s = pool.current_supply as nat;
    let bps = pool.founder_reward_bps as nat;
    lemma_backing_monotone(curve, s, s + n1);
    lemma_backing_monotone(curve, s + n1, s + n2);
    let c1 = (curve.backing(s + n1) - curve.backing(s)) as nat;
    let c2 = (curve.backing(s + n2) - curve.backing(s)) as nat;
    assert(c1 * bps <= c2 * bps) by (nonlinear_arith)
        requires
            c1 <= c2,
    ;
    vstd::arithmetic::div_mod::lemma_div_is_ordered((c1 * bps) as int, (c2 * bps) as int, 10_000);
}

/// The pool that `initialize_pool` creates.
pub open spec fn new_pool(curve_id: usize, config: PoolConfig) -> BondingPool {
    BondingPool {
        curve_id,
        reserve_mint: config.reserve_mint,
        target_mint: config.target_mint,
        general_authority: config.general_authority,
        reserve_authority: config.reserve_authority,
        current_supply: 0,
        reserve_balance: 0,
        fees_accrued: 0,
        mint_cap: config.mint_cap,
        go_live_time: config.go_live_time,
        buy_frozen: false,
        sell_frozen: false,
        founder_reward_bps: config.founder_reward_bps,
        state: PoolState::Active,
    }
}

/// The founder reward on `amount`, rounded down.
fn fee_amount(amount: u64, bps: u16) -> (r: u64)
    requires
        bps <= BPS_DENOMINATOR,
    ensures
        r == fee_of(amount as nat, bps as nat),
        r <= amount,
{
    proof {
        assert(amount as nat * bps as nat <= amount as nat * 10_000) by (nonlinear_arith)
            requires
                bps <= 10_000,
        ;
    }
    (amount as u128 * bps as u128 / 10_000) as u64
}

/// In a consistent registry every pool's reserve is the curve's backing of
/// its supply plus the accrued rewards, so it never falls below the backing.
pub proof fn lemma_reserve_conservation(registry: Registry, id: int)
    requires
        registry.wf(),
        0 <= id < registry.pools@.len(),
    ensures
        registry.pools@[id].reserve_balance == registry.curve_of(id).backing(
            registry.pools@[id].current_supply as nat,
        ) + registry.pools@[id].fees_accrued,
        registry.pools@[id].reserve_balance >= registry.curve_of(id).backing(
            registry.pools@[id].current_supply as nat,
        ),
{
    assert(pool_wf(registry.pools@[id], registry.curves@));
}

/// Selling right back what was just bought, on the same curve, returns what
/// was paid less the two founder rewards, which are equal; with no reward
/// the round trip is exact. The supply comes back to where it was, and the
/// sell cannot fail unless selling is frozen or the caller's minimum is not met.
pub proof fn lemma_buy_then_sell(
    pool: BondingPool,
    curve: Curve,
    now: i64,
    n: u64,
    max_reserve: u64,
    min_reserve: u64,
)
    requires
        curve.valid(),
        pool.founder_reward_bps <= BPS_DENOMINATOR,
        buy_outcome(pool, curve, now, n, max_reserve) is Ok,
    ensures
        ({
            let (bought, after_buy) = buy_outcome(pool, curve, now, n, max_reserve).unwrap();
            &&& !pool.sell_frozen ==> sell_outcome(after_buy, curve, n, 0) is Ok
            &&& match sell_outcome(after_buy, curve, n, min_reserve) {
                Ok((sold, after_sell)) => {
                    &&& bought.fee == sold.fee
                    &&& bought.reserve_amount == sold.reserve_amount + bought.fee + sold.fee
                    &&& pool.founder_reward_bps == 0 ==> bought.reserve_amount
                        == sold.reserve_amount
                    &&& after_sell.current_supply == pool.current_supply
                    &&& after_sell.reserve_balance == pool.reserve_balance + bought.fee
                        + sold.fee
                },
                Err(e) => e == BondingError::PoolFrozen || e == BondingError::SlippageExceeded,
            }
        }),
{
    let s = pool.current_supply as nat;
    let t = (s + n) as nat;
    lemma_backing_monotone(curve, s, t);
    let cost = (curve.backing(t) - curve.backing(s)) as nat;
    let bps = pool.founder_reward_bps as nat;
    assert(fee_of(cost, bps) <= cost) by (nonlinear_arith)
        requires
            bps <= 10_000,
    ;
    if bps == 0 {
        assert(cost * bps == 0) by (nonlinear_arith)
            requires
                bps == 0,
        ;
    }
}

/// A successful buy never charges more than the caller's limit, and the same
/// buy under any lower limit is refused with `SlippageExceeded`.
pub proof fn lemma_slippage_enforced(
    pool: BondingPool,
    curve: Curve,
    now: i64,
    n: u64,
    max_reserve: u64,
    lower_limit: u64,
)
    requires
        buy_outcome(pool, curve, now, n, max_reserve) is Ok,
    ensures
        buy_outcome(pool, curve, now, n, max_reserve).unwrap().0.reserve_amount <= max_reserve,
        lower_limit < buy_outcome(pool, curve, now, n, max_reserve).unwrap().0.reserve_amount
            ==> buy_outcome(pool, curve, now, n, lower_limit) == Err::<
            (Trade, BondingPool),
            BondingError,
        >(BondingError::SlippageExceeded),
{
}

/// A buy that passes the gates and whose cost, founder reward included, is
/// over the caller's maximum is refused with `SlippageExceeded`, whatever the
/// mint cap and the vault hold.
pub proof fn lemma_buy_over_limit_refused(
    pool: BondingPool,
    curve: Curve,
    now: i64,
    n: u64,
    max_reserve: u64,
)
    requires
        buy_gate(pool, now) is None,
        pool.current_supply + n <= u64::MAX,
        curve.backing_fits((pool.current_supply + n) as nat),
        ({
            let s = pool.current_supply as nat;
            let cost = (curve.backing((s + n) as nat) - curve.backing(s)) as nat;
            cost + fee_of(cost, pool.founder_reward_bps as nat) > max_reserve
        }),
    ensures
        buy_outcome(pool, curve, now, n, max_reserve) == Err::<(Trade, BondingPool), BondingError>(
            BondingError::SlippageExceeded,
        ),
{
}

/// A buy that passes the gates and the caller's maximum but would take the
/// supply past the mint cap is refused with `MintCapExceeded`, whatever the
/// vault holds.
pub proof fn lemma_buy_past_cap_refused(
    pool: BondingPool,
    curve: Curve,
    now: i64,
    n: u64,
    max_reserve: u64,
)
    requires
        buy_gate(pool, now) is None,
        pool.current_supply + n <= u64::MAX,
        curve.backing_fits((pool.current_supply + n) as nat),
        ({
            let s = pool.current_supply as nat;
            let cost = (curve.backing((s + n) as nat) - curve.backing(s)) as nat;
            cost + fee_of(cost, pool.founder_reward_bps as nat) <= max_reserve
        }),
        pool.mint_cap is Some,
        pool.current_supply + n > pool.mint_cap.unwrap(),
    ensures
        buy_outcome(pool, curve, now, n, max_reserve) == Err::<(Trade, BondingPool), BondingError>(
            BondingError::MintCapExceeded,
        ),
{
}

/// Once a pool is closed, every buy and sell on it is refused.
pub proof fn lemma_closed_pool_refuses_trades(
    pool: BondingPool,
    signer: Address,
    curve: Curve,
    now: i64,
    n: u64,
    limit: u64,
)
    requires
        close_outcome(pool, signer) is Ok,
    ensures
        ({
            let closed = close_outcome(pool, signer).unwrap().1;
            &&& closed.state == PoolState::Closed
            &&& closed.current_supply == 0
            &&& buy_outcome(closed, curve, now, n, limit) == Err::<
                (Trade, BondingPool),
                BondingError,
            >(BondingError::PoolClosed)
            &&& sell_outcome(closed, curve, n, limit) == Err::<
                (Trade, BondingPool),
                BondingError,
            >(BondingError::PoolClosed)
        }),
{
}

} // verus!
