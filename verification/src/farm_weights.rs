//! Benchmarked weights of the farm pallet's extrinsics.

use core::marker::PhantomData;
use vstd::prelude::*;

use crate::weights::{weight_formula, rocks_db_weight, rocks_db_read, rocks_db_write, DbWeightConfig, RuntimeDbWeight, Weight};

verus! {

/// Weight functions needed for the farm pool.
pub trait WeightInfo {
    fn set_halving_period() -> Weight;

    fn set_dico_per_block() -> Weight;

    fn set_start_block() -> Weight;

    fn create_pool() -> Weight;

    fn update_pool_alloc_point() -> Weight;

    fn deposit_lp() -> Weight;

    fn withdraw_lp() -> Weight;

}

/// Weights for the farm pool using the dico-chain node and recommended hardware.
pub struct DicoWeight<T>(pub PhantomData<T>);

impl<T: DbWeightConfig> WeightInfo for DicoWeight<T> {
    fn set_halving_period() -> (w: Weight)
        ensures
            w == weight_formula(12_293_000, 0, 1, T::spec_db_weight()),
    {
        let db = T::db_weight();
        12_293_000u64.saturating_add(db.writes(1))
    }

    fn set_dico_per_block() -> (w: Weight)
        ensures
            w == weight_formula(12_704_000, 0, 1, T::spec_db_weight()),
    {
        let db = T::db_weight();
        12_704_000u64.saturating_add(db.writes(1))
    }

    fn set_start_block() -> (w: Weight)
        ensures
            w == weight_formula(12_354_000, 0, 1, T::spec_db_weight()),
    {
        let db = T::db_weight();
        12_354_000u64.saturating_add(db.writes(1))
    }

    fn create_pool() -> (w: Weight)
        ensures
            w == weight_formula(35_337_000, 5, 3, T::spec_db_weight()),
    {
        let db = T::db_weight();
        35_337_000u64.saturating_add(db.reads(5)).saturating_add(db.writes(3))
    }

    fn update_pool_alloc_point() -> (w: Weight)
        ensures
            w == weight_formula(61_796_000, 6, 3, T::spec_db_weight()),
    {
        let db = T::db_weight();
        61_796_000u64.saturating_add(db.reads(6)).saturating_add(db.writes(3))
    }

    fn deposit_lp() -> (w: Weight)
        ensures
            w == weight_formula(77_686_000, 6, 5, T::spec_db_weight()),
    {
        let db = T::db_weight();
        77_686_000u64.saturating_add(db.reads(6)).saturating_add(db.writes(5))
    }

    fn withdraw_lp() -> (w: Weight)
        ensures
            w == weight_formula(142_016_000, 9, 4, T::spec_db_weight()),
    {
        let db = T::db_weight();
        142_016_000u64.saturating_add(db.reads(9)).saturating_add(db.writes(4))
    }

}

/// Weights for backwards compatibility and tests: RocksDB costs.
impl WeightInfo for () {
    fn set_halving_period() -> (w: Weight)
        ensures
            w == weight_formula(12_293_000, 0, 1, RuntimeDbWeight { read: rocks_db_read(), write: rocks_db_write() }),
    {
        let db = rocks_db_weight();
        12_293_000u64.saturating_add(db.writes(1))
    }

    fn set_dico_per_block() -> (w: Weight)
        ensures
            w == weight_formula(12_704_000, 0, 1, RuntimeDbWeight { read: rocks_db_read(), write: rocks_db_write() }),
    {
        let db = rocks_db_weight();
        12_704_000u64.saturating_add(db.writes(1))
    }

    fn set_start_block() -> (w: Weight)
        ensures
            w == weight_formula(12_354_000, 0, 1, RuntimeDbWeight { read: rocks_db_read(), write: rocks_db_write() }),
    {
        let db = rocks_db_weight();
        12_354_000u64.saturating_add(db.writes(1))
    }

    fn create_pool() -> (w: Weight)
        ensures
            w == weight_formula(35_337_000, 5, 3, RuntimeDbWeight { read: rocks_db_read(), write: rocks_db_write() }),
    {
        let db = rocks_db_weight();
        35_337_000u64.saturating_add(db.reads(5)).saturating_add(db.writes(3))
    }

    fn update_pool_alloc_point() -> (w: Weight)
        ensures
            w == weight_formula(61_796_000, 6, 3, RuntimeDbWeight { read: rocks_db_read(), write: rocks_db_write() }),
    {
        let db = rocks_db_weight();
        61_796_000u64.saturating_add(db.reads(6)).saturating_add(db.writes(3))
    }

    fn deposit_lp() -> (w: Weight)
        ensures
            w == weight_formula(77_686_000, 6, 5, RuntimeDbWeight { read: rocks_db_read(), write: rocks_db_write() }),
    {
        let db = rocks_db_weight();
        77_686_000u64.saturating_add(db.reads(6)).saturating_add(db.writes(5))
    }

    fn withdraw_lp() -> (w: Weight)
        ensures
            w == weight_formula(142_016_000, 9, 4, RuntimeDbWeight { read: rocks_db_read(), write: rocks_db_write() }),
    {
        let db = rocks_db_weight();
        142_016_000u64.saturating_add(db.reads(9)).saturating_add(db.writes(4))
    }

}

} // verus!
