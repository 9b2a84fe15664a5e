//! Database weights and the saturating arithmetic that extrinsic weights are built from.

use vstd::prelude::*;

verus! {

/// The weight of an extrinsic, in picoseconds of execution time.
pub type Weight = u64;

/// `a + b`, capped at `u64::MAX`.
pub open spec fn sat_add(a: int, b: int) -> Weight {
    if a + b > u64::MAX { u64::MAX } else { (a + b) as u64 }
}

/// `a * b`, capped at `u64::MAX`.
pub open spec fn sat_mul(a: int, b: int) -> Weight {
    if a * b > u64::MAX { u64::MAX } else { (a * b) as u64 }
}

/// The cost of one database read and of one database write.
#[derive(Clone, Copy, Debug, PartialEq, Eq)]
pub struct RuntimeDbWeight {
    pub read: Weight,
    pub write: Weight,
}

/// `base + reads * db.read + writes * db.write`, each step saturating.
pub open spec fn weight_formula(base: Weight, reads: Weight, writes: Weight, db: RuntimeDbWeight) -> Weight {
    sat_add(sat_add(base as int, sat_mul(db.read as int, reads as int) as int) as int,
        sat_mul(db.write as int, writes as int) as int)
}

/// Saturating multiplication of two weights.
pub fn saturating_mul(a: Weight, b: Weight) -> (r: Weight)
    ensures
        r == sat_mul(a as int, b as int),
{
    match a.checked_mul(b) {
        Some(p) => p,
        None => u64::MAX,
    }
}

impl RuntimeDbWeight {
    /// The weight of `r` database reads.
    pub fn reads(&self, r: Weight) -> (w: Weight)
        ensures
            w == sat_mul(self.read as int, r as int),
    {
        saturating_mul(self.read, r)
    }

    /// The weight of `w` database writes.
    pub fn writes(&self, w: Weight) -> (res: Weight)
        ensures
            res == sat_mul(self.write as int, w as int),
    {
        saturating_mul(self.write, w)
    }

    /// The weight of `r` reads and `w` writes.
    pub fn reads_writes(&self, r: Weight, w: Weight) -> (res: Weight)
        ensures
            res == sat_add(sat_mul(self.read as int, r as int) as int, sat_mul(self.write as int, w as int) as int),
    {
        self.reads(r).saturating_add(self.writes(w))
    }
}

/// Read cost of RocksDB in the reference hardware: 25 microseconds.
pub open spec fn rocks_db_read() -> Weight {
    25_000_000
}

/// Write cost of RocksDB in the reference hardware: 100 microseconds.
pub open spec fn rocks_db_write() -> Weight {
    100_000_000
}

/// The database weights of RocksDB, used where the runtime gives none.
pub fn rocks_db_weight() -> (w: RuntimeDbWeight)
    ensures
        w.read == rocks_db_read(),
        w.write == rocks_db_write(),
{
    RuntimeDbWeight { read: 25_000_000, write: 100_000_000 }
}

/// The part of the runtime's system configuration that extrinsic weights depend on.
pub trait DbWeightConfig {
    spec fn spec_db_weight() -> RuntimeDbWeight;

    /// The database weights that the runtime is configured with.
    fn db_weight() -> (w: RuntimeDbWeight)
        ensures
            w == Self::spec_db_weight(),
    ;
}

/// A runtime configuration whose database is RocksDB.
pub struct RocksDbConfig;

impl DbWeightConfig for RocksDbConfig {
    open spec fn spec_db_weight() -> RuntimeDbWeight {
        RuntimeDbWeight { read: rocks_db_read(), write: rocks_db_write() }
    }

    fn db_weight() -> (w: RuntimeDbWeight) {
        rocks_db_weight()
    }
}

/// Weight of an extrinsic: `base`, plus `reads` reads and `writes` writes at the given costs.
pub fn weight_of(base: Weight, reads: Weight, writes: Weight, db: RuntimeDbWeight) -> (w: Weight)
    ensures
        w == weight_formula(base, reads, writes, db),
{
    base.saturating_add(db.reads(reads)).saturating_add(db.writes(writes))
}

} // verus!
