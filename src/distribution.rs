//! Splitting a profile's minting cost among its lineage: each ancestor role
//! gets its basis-point share of the cost, and an account that fills several
//! roles receives one transfer for all of them.
use vstd::prelude::*;
use crate::pool::Address;

verus! {

/// 100% in basis points.
pub const TOTAL_SELLER_BASIS_POINTS: u16 = 10_000;

/// Share of the minting cost, in basis points, for each role of the lineage.
#[derive(Clone, Copy, Debug, PartialEq, Eq, Structural)]
pub struct MintingCostDistribution {
    pub parent: u16,
    pub grand_parent: u16,
    pub great_grand_parent: u16,
    pub ggreat_grand_parent: u16,
    pub genesis: u16,
}

impl MintingCostDistribution {
    /// The shares in role order: parent, grand parent, great grand parent,
    /// great great grand parent, genesis.
    pub open spec fn bps(self) -> Seq<nat> {
        seq![
            self.parent as nat,
            self.grand_parent as nat,
            self.great_grand_parent as nat,
            self.ggreat_grand_parent as nat,
            self.genesis as nat,
        ]
    }

    pub open spec fn total(self) -> nat {
        (self.parent + self.grand_parent + self.great_grand_parent + self.ggreat_grand_parent
            + self.genesis) as nat
    }
}

/// The accounts that fill the roles of a lineage.
#[derive(Clone, Copy, Debug, PartialEq, Eq, Structural)]
pub struct Lineage {
    pub parent: Address,
    pub grand_parent: Address,
    pub great_grand_parent: Address,
    pub ggreat_grand_parent: Address,
    pub genesis: Address,
}

impl Lineage {
    /// The accounts in role order, as `MintingCostDistribution::bps` lists the shares.
    pub open spec fn roles(self) -> Seq<Address> {
        seq![self.parent, self.grand_parent, self.great_grand_parent, self.ggreat_grand_parent, self.genesis]
    }
}

/// One transfer of the split.
#[derive(Clone, Copy, Debug, PartialEq, Eq, Structural)]
pub struct TransferModel {
    pub key: Address,
    pub value: u64,
}

/// Some transfer goes to `key`.
pub open spec fn pays(transfers: Seq<TransferModel>, key: Address) -> bool {
    exists|i: int| 0 <= i < transfers.len() && #[trigger] transfers[i].key == key
}

/// `key` fills one of the first `n` roles.
pub open spec fn fills(roles: Seq<Address>, key: Address, n: int) -> bool {
    exists|j: int| 0 <= j < n && #[trigger] roles[j] == key
}

/// `bps` basis points of `cost`, rounded down.
pub open spec fn share_of(cost: nat, bps: nat) -> nat {
    cost * bps / 10_000
}

/// What the first `n` roles owe to `key`: the sum of the shares of those
/// roles that `key` fills.
pub open spec fn owed(roles: Seq<Address>, bps: Seq<nat>, cost: nat, key: Address, n: int) -> nat
    decreases n,
{
    if n <= 0 {
        0
    } else {
        owed(roles, bps, cost, key, n - 1) + if roles[n - 1] == key {
            share_of(cost, bps[n - 1])
        } else {
            0
        }
    }
}

/// The sum of the shares of the first `n` roles.
pub open spec fn shares_total(bps: Seq<nat>, cost: nat, n: int) -> nat
    decreases n,
{
    if n <= 0 {
        0
    } else {
        shares_total(bps, cost, n - 1) + share_of(cost, bps[n - 1])
    }
}

/// The sum of the values of `transfers`.
pub open spec fn total_value(transfers: Seq<TransferModel>) -> nat
    decreases transfers.len(),
{
    if transfers.len() == 0 {
        0
    } else {
        total_value(transfers.drop_last()) + transfers.last().value as nat
    }
}

/// The position of the first transfer to `key`, or -1 when there is none.
pub fn get_transfer_index(datas: &Vec<TransferModel>, key: Address) -> (r: i32)
    requires
        datas@.len() <= i32::MAX,
    ensures
        r == -1 ==> forall|i: int| 0 <= i < datas@.len() ==> #[trigger] datas@[i].key != key,
        r != -1 ==> 0 <= r < datas@.len() && datas@[r as int].key == key && forall|i: int|
            0 <= i < r ==> #[trigger] datas@[i].key != key,
{
    let mut i: usize = 0;
    while i < datas.len()
        invariant
            0 <= i <= datas@.len(),
            datas@.len() <= i32::MAX,
            forall|j: int| 0 <= j < i ==> #[trigger] datas@[j].key != key,
        decreases datas@.len() - i,
    {
        if datas[i].key == key {
            return i as i32;
        }
        i = i + 1;
    }
    -1
}

/// `bps` basis points of `cost`, rounded down.
pub fn share(cost: u64, bps: u16) -> (r: u64)
    requires
        share_of(cost as nat, bps as nat) <= u64::MAX,
    ensures
        r == share_of(cost as nat, bps as nat),
{
    proof {
        assert(cost as nat * bps as nat <= u64::MAX as nat * u16::MAX as nat) by (nonlinear_arith)
            requires
                cost <= u64::MAX,
                bps <= u16::MAX,
        ;
    }
    (cost as u128 * bps as u128 / TOTAL_SELLER_BASIS_POINTS as u128) as u64
}

/// `first` fills a role before every role that `later` fills.
pub open spec fn comes_first(roles: Seq<Address>, first: Address, later: Address) -> bool {
    forall|b: int| 0 <= b < roles.len() && #[trigger] roles[b] == later ==> fills(roles, first, b)
}

/// The transfers that pay `cost` out to a lineage: one per distinct account,
/// in the order in which the accounts first fill a role (parent, grand
/// parent, great grand parent, great great grand parent, genesis), each
/// carrying the shares of every role that account fills. What each account
/// receives must fit a `u64`.
pub fn cost_transfers(
    cost: u64,
    dist: &MintingCostDistribution,
    lineage: &Lineage,
) -> (r: Vec<TransferModel>)
    requires
        forall|k: int|
            0 <= k < 5 ==> owed(lineage.roles(), dist.bps(), cost as nat, #[trigger] lineage.roles()[k], 5)
                <= u64::MAX,
    ensures
        forall|i: int, j: int| 0 <= i < j < r@.len() ==> r@[i].key != r@[j].key,
        forall|i: int, j: int|
            0 <= i < j < r@.len() ==> comes_first(lineage.roles(), #[trigger] r@[i].key, #[trigger] r@[j].key),
        forall|k: int| 0 <= k < 5 ==> #[trigger] pays(r@, lineage.roles()[k]),
        forall|i: int| 0 <= i < r@.len() ==> fills(lineage.roles(), #[trigger] r@[i].key, 5),
        forall|i: int|
            0 <= i < r@.len() ==> #[trigger] r@[i].value == owed(
                lineage.roles(),
                dist.bps(),
                cost as nat,
                r@[i].key,
                5,
            ),
        total_value(r@) == shares_total(dist.bps(), cost as nat, 5),
        dist.total() <= TOTAL_SELLER_BASIS_POINTS ==> total_value(r@) <= cost,
{
    let roles: [Address; 5] = [
        lineage.parent,
        lineage.grand_parent,
        lineage.great_grand_parent,
        lineage.ggreat_grand_parent,
        lineage.genesis,
    ];
    let bps: [u16; 5] = [
        dist.parent,
        dist.grand_parent,
        dist.great_grand_parent,
        dist.ggreat_grand_parent,
        dist.genesis,
    ];
    let ghost role_seq = lineage.roles();
    let ghost bps_seq = dist.bps();
    let ghost c = cost as nat;
    proof {
        assert(roles@ == role_seq);
        if dist.total() <= TOTAL_SELLER_BASIS_POINTS {
            lemma_shares_within_cost(dist, c);
        }
    }
    let mut out: Vec<TransferModel> = Vec::new();
    let mut k: usize = 0;
    while k < 5
        invariant
            0 <= k <= 5,
            roles@ == role_seq,
            role_seq == lineage.roles(),
            bps_seq == dist.bps(),
            c == cost as nat,
            forall|j: int| 0 <= j < 5 ==> #[trigger] bps@[j] as nat == bps_seq[j],
            forall|j: int|
                0 <= j < 5 ==> owed(role_seq, bps_seq, c, #[trigger] role_seq[j], 5) <= u64::MAX,
            out@.len() <= k,
            total_value(out@) == shares_total(bps_seq, c, k as int),
            forall|i: int, j: int| 0 <= i < j < out@.len() ==> out@[i].key != out@[j].key,
            forall|i: int, j: int|
                0 <= i < j < out@.len() ==> comes_first(role_seq, #[trigger] out@[i].key, #[trigger] out@[j].key),
            forall|j: int| 0 <= j < k ==> #[trigger] pays(out@, role_seq[j]),
            forall|i: int| 0 <= i < out@.len() ==> fills(role_seq, #[trigger] out@[i].key, k as int),
            forall|i: int|
                0 <= i < out@.len() ==> #[trigger] out@[i].value == owed(
                    role_seq,
                    bps_seq,
                    c,
                    out@[i].key,
                    k as int,
                ),
        decreases 5 - k,
    {
        let key = roles[k];
        let ghost kk = k as int;
        proof {
            assert(owed(role_seq, bps_seq, c, role_seq[kk], 5) <= u64::MAX);
            lemma_owed_monotone(role_seq, bps_seq, c, key, kk + 1, 5);
            assert(owed(role_seq, bps_seq, c, key, kk + 1) == owed(role_seq, bps_seq, c, key, kk)
                + share_of(c, bps_seq[kk]));
        }
        let value = share(cost, bps[k]);
        let idx = get_transfer_index(&out, key);
        let ghost before = out@;
        if idx == -1 {
            proof {
                assert forall|j: int| 0 <= j < k implies role_seq[j] != key by {
                    if role_seq[j] == key {
                        assert(pays(before, role_seq[j]));
                        let i = choose|i: int| 0 <= i < before.len() && #[trigger] before[i].key == role_seq[j];
                        assert(before[i].key != key);
                    }
                }
                lemma_owed_absent(role_seq, bps_seq, c, key, kk);
            }
            out.push(TransferModel { key, value });
            proof {
                assert(out@.drop_last() == before);
                assert forall|j: int| 0 <= j < k + 1 implies #[trigger] pays(out@, role_seq[j]) by {
                    if j == k {
                        assert(out@[before.len() as int].key == role_seq[j]);
                    } else {
                        assert(pays(before, role_seq[j]));
                        let i = choose|i: int| 0 <= i < before.len() && #[trigger] before[i].key == role_seq[j];
                        assert(out@[i].key == role_seq[j]);
                    }
                }
                assert forall|i: int| 0 <= i < out@.len() implies fills(role_seq, #[trigger] out@[i].key, k + 1) by {
                    if i == before.len() {
                        assert(role_seq[kk] == out@[i].key);
                    } else {
                        assert(out@[i] == before[i]);
                        assert(fills(role_seq, before[i].key, kk));
                        let j = choose|j: int| 0 <= j < k && #[trigger] role_seq[j] == before[i].key;
                        assert(role_seq[j] == out@[i].key);
                    }
                }
                assert forall|i: int, j: int| 0 <= i < j < out@.len() implies comes_first(
                    role_seq,
                    #[trigger] out@[i].key,
                    #[trigger] out@[j].key,
                ) by {
                    assert(out@[i] == before[i]);
                    if j == before.len() {
                        assert(fills(role_seq, before[i].key, kk));
                        let j0 = choose|j0: int| 0 <= j0 < kk && #[trigger] role_seq[j0] == before[i].key;
                        assert forall|b: int| 0 <= b < role_seq.len() && #[trigger] role_seq[b] == key implies fills(
                            role_seq,
                            before[i].key,
                            b,
                        ) by {
                            assert(role_seq[j0] == before[i].key);
                        }
                    } else {
                        assert(out@[j] == before[j]);
                        assert(comes_first(role_seq, before[i].key, before[j].key));
                    }
                }
            }
        } else {
            let at = idx as usize;
            let entry = out[at];
            out.set(at, TransferModel { key, value: entry.value + value });
            proof {
                lemma_total_value_update(before, at as int, TransferModel { key, value: (entry.value + value) as u64 });
                assert forall|j: int| 0 <= j < k + 1 implies #[trigger] pays(out@, role_seq[j]) by {
                    if j == k {
                        assert(out@[at as int].key == role_seq[j]);
                    } else {
                        assert(pays(before, role_seq[j]));
                        let i = choose|i: int| 0 <= i < before.len() && #[trigger] before[i].key == role_seq[j];
                        assert(out@[i].key == role_seq[j]);
                    }
                }
                assert forall|i: int| 0 <= i < out@.len() implies fills(role_seq, #[trigger] out@[i].key, k + 1) by {
                    assert(out@[i].key == before[i].key);
                    assert(fills(role_seq, before[i].key, kk));
                    let j = choose|j: int| 0 <= j < k && #[trigger] role_seq[j] == before[i].key;
                    assert(role_seq[j] == out@[i].key);
                }
                assert forall|i: int, j: int| 0 <= i < j < out@.len() implies comes_first(
                    role_seq,
                    #[trigger] out@[i].key,
                    #[trigger] out@[j].key,
                ) by {
                    assert(out@[i].key == before[i].key);
                    assert(out@[j].key == before[j].key);
                    assert(comes_first(role_seq, before[i].key, before[j].key));
                }
            }
        }
        k = k + 1;
    }
    out
}

/// What an account is owed never falls as more roles are counted.
proof fn lemma_owed_monotone(roles: Seq<Address>, bps: Seq<nat>, cost: nat, key: Address, n1: int, n2: int)
    requires
        n1 <= n2,
    ensures
        owed(roles, bps, cost, key, n1) <= owed(roles, bps, cost, key, n2),
    decreases n2 - n1,
{
    if n1 < n2 {
        lemma_owed_monotone(roles, bps, cost, key, n1, n2 - 1);
    }
}

/// Replacing one transfer changes the total by the difference of the values.
proof fn lemma_total_value_update(transfers: Seq<TransferModel>, i: int, t: TransferModel)
    requires
        0 <= i < transfers.len(),
    ensures
        total_value(transfers.update(i, t)) + transfers[i].value == total_value(transfers) + t.value,
    decreases transfers.len(),
{
    let updated = transfers.update(i, t);
    if i < transfers.len() - 1 {
        lemma_total_value_update(transfers.drop_last(), i, t);
        assert(updated.drop_last() == transfers.drop_last().update(i, t));
    } else {
        assert(updated.drop_last() == transfers.drop_last());
    }
}

/// Roles that `key` does not fill owe it nothing.
proof fn lemma_owed_absent(roles: Seq<Address>, bps: Seq<nat>, cost: nat, key: Address, n: int)
    requires
        forall|j: int| 0 <= j < n ==> roles[j] != key,
    ensures
        owed(roles, bps, cost, key, n) == 0,
    decreases n,
{
    if n > 0 {
        lemma_owed_absent(roles, bps, cost, key, n - 1);
    }
}

/// Shares that add up to at most 100% add up to at most the cost.
proof fn lemma_shares_within_cost(dist: &MintingCostDistribution, cost: nat)
    requires
        dist.total() <= 10_000,
    ensures
        shares_total(dist.bps(), cost, 5) <= cost,
{
    let b = dist.bps();
    assert forall|j: int| 0 <= j < 5 implies #[trigger] share_of(cost, b[j]) * 10_000 <= cost * b[j] by {
        vstd::arithmetic::div_mod::lemma_fundamental_div_mod((cost * b[j]) as int, 10_000);
    }
    let s0 = share_of(cost, b[0]);
    let s1 = share_of(cost, b[1]);
    let s2 = share_of(cost, b[2]);
    let s3 = share_of(cost, b[3]);
    let s4 = share_of(cost, b[4]);
    reveal_with_fuel(shares_total, 6);
    assert(shares_total(b, cost, 5) == s0 + s1 + s2 + s3 + s4);
    assert((s0 + s1 + s2 + s3 + s4) * 10_000 <= cost * (b[0] + b[1] + b[2] + b[3] + b[4]))
        by (nonlinear_arith)
        requires
            s0 * 10_000 <= cost * b[0],
            s1 * 10_000 <= cost * b[1],
            s2 * 10_000 <= cost * b[2],
            s3 * 10_000 <= cost * b[3],
            s4 * 10_000 <= cost * b[4],
    ;
    assert(cost * (b[0] + b[1] + b[2] + b[3] + b[4]) <= cost * 10_000) by (nonlinear_arith)
        requires
            b[0] + b[1] + b[2] + b[3] + b[4] <= 10_000,
    ;
}

} // verus!
