//! The immutable per-file record the planner works on, and the basic
//! time-range reasoning (overlap, coverage) that everything else builds on.

use vstd::prelude::*;

verus! {

/// Compaction tier of a file. `L0` files come straight from ingest and may
/// overlap each other arbitrarily; `L1` and `L2` files are outputs of earlier
/// rounds and are non-overlapping within their level.
#[derive(Clone, Copy, Debug, PartialEq, Eq, Structural)]
pub enum CompactionLevel {
    L0,
    L1,
    L2,
}

impl CompactionLevel {
    /// The level an `L0` round writes to is `L1`; an `L1` round writes `L2`.
    pub fn next(self) -> (r: CompactionLevel)
        ensures
            self is L0 ==> r is L1,
            self is L1 ==> r is L2,
            self is L2 ==> r is L2,
    {
        match self {
            CompactionLevel::L0 => CompactionLevel::L1,
            CompactionLevel::L1 => CompactionLevel::L2,
            CompactionLevel::L2 => CompactionLevel::L2,
        }
    }
}

/// Largest timestamp magnitude the planner accepts, in nanoseconds. Keeping
/// ranges inside `±2^61` lets every interval length and interpolation product
/// fit comfortably in fixed-width arithmetic.
pub const MAX_NANO: i64 = 0x2000_0000_0000_0000;

/// Immutable descriptor of one stored file.
///
/// `min_time` and `max_time` are inclusive nanosecond timestamps;
/// `max_l0_created_at` is the ingest stamp carried forward through
/// compactions, used (with the id as tie-breaker) to order work by age.
#[derive(Clone, Copy, Debug, PartialEq, Eq, Structural)]
pub struct ParquetFile {
    pub id: u64,
    pub level: CompactionLevel,
    pub min_time: i64,
    pub max_time: i64,
    pub file_size_bytes: u64,
    pub max_l0_created_at: i64,
}

impl ParquetFile {
    /// A descriptor is well formed when its time range is ordered, stays
    /// inside the supported timestamp window, and it holds at least one byte.
    pub open spec fn wf(self) -> bool {
        &&& -MAX_NANO <= self.min_time <= self.max_time <= MAX_NANO
        &&& self.file_size_bytes > 0
    }

    /// Inclusive time ranges `[min, max]` intersect.
    pub open spec fn overlaps(self, other: ParquetFile) -> bool {
        self.min_time <= other.max_time && other.min_time <= self.max_time
    }

    /// The file's range intersects the inclusive interval `[lo, hi]`.
    pub open spec fn overlaps_range(self, lo: int, hi: int) -> bool {
        self.min_time <= hi && lo <= self.max_time
    }

    /// The instant `t` lies inside the file's range.
    pub open spec fn covers(self, t: int) -> bool {
        self.min_time <= t <= self.max_time
    }

    /// Executable overlap test, equal to the spec-level `overlaps`.
    pub fn overlaps_exec(&self, other: &ParquetFile) -> (r: bool)
        ensures
            r == self.overlaps(*other),
    {
        self.min_time <= other.max_time && other.min_time <= self.max_time
    }

    /// `self` carries strictly older data than `other`: smaller ingest
    /// stamp, with the id breaking ties. This is the total order the
    /// planner anchors on.
    pub open spec fn older_than(self, other: ParquetFile) -> bool {
        ||| self.max_l0_created_at < other.max_l0_created_at
        ||| (self.max_l0_created_at == other.max_l0_created_at && self.id < other.id)
    }

    /// Executable age comparison, equal to the spec-level `older_than`.
    pub fn older_than_exec(&self, other: &ParquetFile) -> (r: bool)
        ensures
            r == self.older_than(*other),
    {
        self.max_l0_created_at < other.max_l0_created_at
            || (self.max_l0_created_at == other.max_l0_created_at && self.id < other.id)
    }
}

} // verus!
