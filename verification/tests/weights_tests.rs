use dico_pallets::farm_weights::{DicoWeight as FarmWeight, WeightInfo as FarmWeightInfo};
use dico_pallets::lbp_weights::{DicoWeight as LbpWeight, WeightInfo as LbpWeightInfo};
use dico_pallets::weights::{rocks_db_weight, weight_of, RocksDbConfig, RuntimeDbWeight};

#[test]
fn rocks_db_costs() {
    let db = rocks_db_weight();
    assert_eq!(db.read, 25_000_000);
    assert_eq!(db.write, 100_000_000);
    assert_eq!(db.reads(3), 75_000_000);
    assert_eq!(db.writes(2), 200_000_000);
    assert_eq!(db.reads_writes(1, 1), 125_000_000);
}

#[test]
fn farm_weights_with_rocks_db() {
    assert_eq!(<() as FarmWeightInfo>::set_halving_period(), 12_293_000 + 100_000_000);
    assert_eq!(<() as FarmWeightInfo>::set_dico_per_block(), 12_704_000 + 100_000_000);
    assert_eq!(<() as FarmWeightInfo>::set_start_block(), 12_354_000 + 100_000_000);
    assert_eq!(<() as FarmWeightInfo>::create_pool(), 35_337_000 + 5 * 25_000_000 + 3 * 100_000_000);
    assert_eq!(<() as FarmWeightInfo>::update_pool_alloc_point(), 61_796_000 + 6 * 25_000_000 + 3 * 100_000_000);
    assert_eq!(<() as FarmWeightInfo>::deposit_lp(), 77_686_000 + 6 * 25_000_000 + 5 * 100_000_000);
    assert_eq!(<() as FarmWeightInfo>::withdraw_lp(), 142_016_000 + 9 * 25_000_000 + 4 * 100_000_000);
}

#[test]
fn farm_weights_of_runtime_match_defaults_on_rocks_db() {
    assert_eq!(<FarmWeight<RocksDbConfig> as FarmWeightInfo>::deposit_lp(), <() as FarmWeightInfo>::deposit_lp());
    assert_eq!(<FarmWeight<RocksDbConfig> as FarmWeightInfo>::withdraw_lp(), 767_016_000);
}

#[test]
fn lbp_weights_with_rocks_db() {
    assert_eq!(<() as LbpWeightInfo>::create_lbp(), 107_321_000 + 8 * 25_000_000 + 8 * 100_000_000);
    assert_eq!(<() as LbpWeightInfo>::exit_lbp(), 90_930_000 + 6 * 25_000_000 + 7 * 100_000_000);
    assert_eq!(<() as LbpWeightInfo>::swap_exact_amount_supply(), 91_872_000 + 8 * 25_000_000 + 5 * 100_000_000);
    assert_eq!(<() as LbpWeightInfo>::swap_exact_amount_target(), 88_355_000 + 8 * 25_000_000 + 5 * 100_000_000);
    assert_eq!(<LbpWeight<RocksDbConfig> as LbpWeightInfo>::create_lbp(), 1_107_321_000);
}

#[test]
fn weights_saturate() {
    let db = RuntimeDbWeight { read: u64::MAX / 2, write: 1 };
    assert_eq!(db.reads(3), u64::MAX);
    assert_eq!(weight_of(u64::MAX - 1, 0, 5, db), u64::MAX);
    assert_eq!(weight_of(10, 1, 1, RuntimeDbWeight { read: 2, write: 3 }), 15);
}
