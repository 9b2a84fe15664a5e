//! Benchmarked weights of the liquidity bootstrapping pallet's extrinsics.

use core::marker::PhantomData;
use vstd::prelude::*;

use crate::weights::{weight_formula, rocks_db_weight, rocks_db_read, rocks_db_write, DbWeightConfig, RuntimeDbWeight, Weight};

verus! {

/// Weight functions needed for lbp.
pub trait WeightInfo {
    fn create_lbp() -> Weight;

    fn exit_lbp() -> Weight;

    fn swap_exact_amount_supply() -> Weight;

    fn swap_exact_amount_target() -> Weight;

}

/// Weights for lbp using the dico-chain node and recommended hardware.
pub struct DicoWeight<T>(pub PhantomData<T>);

impl<T: DbWeightConfig> WeightInfo for DicoWeight<T> {
    fn create_lbp() -> (w: Weight)
        ensures
            w == weight_formula(107_321_000, 8, 8, T::spec_db_weight()),
    {
        let db = T::db_weight();
        107_321_000u64.saturating_add(db.reads(8)).saturating_add(db.writes(8))
    }

    fn exit_lbp() -> (w: Weight)
        ensures
            w == weight_formula(90_930_000, 6, 7, T::spec_db_weight()),
    {
        let db = T::db_weight();
        90_930_000u64.saturating_add(db.reads(6)).saturating_add(db.writes(7))
    }

    fn swap_exact_amount_supply() -> (w: Weight)
        ensures
            w == weight_formula(91_872_000, 8, 5, T::spec_db_weight()),
    {
        let db = T::db_weight();
        91_872_000u64.saturating_add(db.reads(8)).saturating_add(db.writes(5))
    }

    fn swap_exact_amount_target() -> (w: Weight)
        ensures
            w == weight_formula(88_355_000, 8, 5, T::spec_db_weight()),
    {
        let db = T::db_weight();
        88_355_000u64.saturating_add(db.reads(8)).saturating_add(db.writes(5))
    }

}

/// Weights for backwards compatibility and tests: RocksDB costs.
impl WeightInfo for () {
    fn create_lbp() -> (w: Weight)
        ensures
            w == weight_formula(107_321_000, 8, 8, RuntimeDbWeight { read: rocks_db_read(), write: rocks_db_write() }),
    {
        let db = rocks_db_weight();
        107_321_000u64.saturating_add(db.reads(8)).saturating_add(db.writes(8))
    }

    fn exit_lbp() -> (w: Weight)
        ensures
            w == weight_formula(90_930_000, 6, 7, RuntimeDbWeight { read: rocks_db_read(), write: rocks_db_write() }),
    {
        let db = rocks_db_weight();
        90_930_000u64.saturating_add(db.reads(6)).saturating_add(db.writes(7))
    }

    fn swap_exact_amount_supply() -> (w: Weight)
        ensures
            w == weight_formula(91_872_000, 8, 5, RuntimeDbWeight { read: rocks_db_read(), write: rocks_db_write() }),
    {
        let db = rocks_db_weight();
        91_872_000u64.saturating_add(db.reads(8)).saturating_add(db.writes(5))
    }

    fn swap_exact_amount_target() -> (w: Weight)
        ensures
            w == weight_formula(88_355_000, 8, 5, RuntimeDbWeight { read: rocks_db_read(), write: rocks_db_write() }),
    {
        let db = rocks_db_weight();
        88_355_000u64.saturating_add(db.reads(8)).saturating_add(db.writes(5))
    }

}

} // verus!
