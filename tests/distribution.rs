use mmoshforge::distribution::{
    cost_transfers, get_transfer_index, share, Lineage, MintingCostDistribution, TransferModel,
};
use mmoshforge::pool::Address;

fn account(n: u64) -> Address {
    Address::new(n, 0, 0, 0)
}

fn split() -> MintingCostDistribution {
    MintingCostDistribution {
        parent: 5000,
        grand_parent: 2000,
        great_grand_parent: 1000,
        ggreat_grand_parent: 500,
        genesis: 500,
    }
}

#[test]
fn transfer_index_finds_first_match() {
    let datas = vec![
        TransferModel { key: account(1), value: 10 },
        TransferModel { key: account(2), value: 20 },
        TransferModel { key: account(2), value: 30 },
    ];
    assert_eq!(get_transfer_index(&datas, account(2)), 1);
    assert_eq!(get_transfer_index(&datas, account(1)), 0);
    assert_eq!(get_transfer_index(&datas, account(3)), -1);
    assert_eq!(get_transfer_index(&Vec::new(), account(3)), -1);
}

#[test]
fn share_rounds_down() {
    assert_eq!(share(1000, 5000), 500);
    assert_eq!(share(999, 3333), 332);
    assert_eq!(share(u64::MAX, 10_000), u64::MAX);
    assert_eq!(share(7, 0), 0);
}

#[test]
fn distinct_lineage_gets_one_transfer_each() {
    let lineage = Lineage {
        parent: account(1),
        grand_parent: account(2),
        great_grand_parent: account(3),
        ggreat_grand_parent: account(4),
        genesis: account(5),
    };
    let t = cost_transfers(1000, &split(), &lineage);
    let values: Vec<(u64, u64)> = t.iter().map(|x| (x.key.bytes0, x.value)).collect();
    assert_eq!(values, vec![(1, 500), (2, 200), (3, 100), (4, 50), (5, 50)]);
}

#[test]
fn repeated_accounts_are_merged() {
    let lineage = Lineage {
        parent: account(1),
        grand_parent: account(9),
        great_grand_parent: account(9),
        ggreat_grand_parent: account(9),
        genesis: account(1),
    };
    let t = cost_transfers(1000, &split(), &lineage);
    let values: Vec<(u64, u64)> = t.iter().map(|x| (x.key.bytes0, x.value)).collect();
    assert_eq!(values, vec![(1, 550), (9, 350)]);
}

#[test]
fn shares_above_full_cost_are_paid_in_role_order() {
    let generous = MintingCostDistribution {
        parent: 20_000,
        grand_parent: 10_000,
        great_grand_parent: 0,
        ggreat_grand_parent: 0,
        genesis: 5_000,
    };
    let lineage = Lineage {
        parent: account(3),
        grand_parent: account(1),
        great_grand_parent: account(2),
        ggreat_grand_parent: account(1),
        genesis: account(3),
    };
    let t = cost_transfers(100, &generous, &lineage);
    let values: Vec<(u64, u64)> = t.iter().map(|x| (x.key.bytes0, x.value)).collect();
    assert_eq!(values, vec![(3, 250), (1, 100), (2, 0)]);
    assert_eq!(share(100, 20_000), 200);
}
