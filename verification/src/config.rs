//! Size and level policy: the constants that drive the planner's choices.

use vstd::prelude::*;

verus! {

/// Largest per-file size the policy will ever aim for, in bytes. Keeping the
/// target below `2^46` leaves room to apply the percentage headroom and to sum
/// hundreds of files without overflowing `u64`.
pub const MAX_SIZE_TARGET: u64 = 0x4000_0000_0000;

/// Planner policy knobs. All sizes are in bytes.
#[derive(Clone, Copy, Debug)]
pub struct CompactorConfig {
    /// Target size of a fully compacted file.
    pub max_desired_file_size_bytes: u64,
    /// Extra headroom, in percent of the target, a file may use before the
    /// planner insists on splitting it.
    pub percentage_max_file_size: u64,
    /// When a small round is compacted into two outputs, the first output
    /// takes this percentage of the estimated bytes.
    pub split_percentage: u64,
    /// Promote the L1 tier to L2 once at least this many L1 files exist.
    pub min_num_l1_files_to_compact: usize,
    /// Hard cap on the number of files one round may take as input.
    pub max_num_files_per_plan: usize,
    /// A partition whose table has more columns than this is aborted.
    pub max_num_columns_per_table: usize,
    /// Memory budget: total input bytes one round may hold at once.
    pub max_input_bytes_per_round: u64,
}

impl CompactorConfig {
    /// Ranges under which every size computation in the planner stays inside
    /// `u64` and a split always leaves both outputs non-empty.
    pub open spec fn wf(self) -> bool {
        &&& 0 < self.max_desired_file_size_bytes <= MAX_SIZE_TARGET
        &&& 1 <= self.percentage_max_file_size <= 400
        &&& 1 <= self.split_percentage <= 99
        &&& 1 <= self.min_num_l1_files_to_compact
        &&& 1 <= self.max_num_files_per_plan
        &&& 1 <= self.max_num_columns_per_table
        &&& self.max_desired_file_size_bytes <= self.max_input_bytes_per_round <= MAX_SIZE_TARGET
    }

    /// Size ceiling: `target × (100 + headroom) / 100`. Inputs at or below the
    /// ceiling are compacted into a single output (or the fixed two-way split);
    /// above it, the round splits into roughly target-sized pieces.
    pub open spec fn spec_max_compact_size(self) -> int {
        self.max_desired_file_size_bytes * (100 + self.percentage_max_file_size) / 100
    }

    /// Executable ceiling computation, equal to `spec_max_compact_size`.
    pub fn max_compact_size(&self) -> (r: u64)
        requires
            self.wf(),
        ensures
            r == self.spec_max_compact_size(),
            r >= self.max_desired_file_size_bytes,
    {
        proof {
            let t = self.max_desired_file_size_bytes as int;
            let p = self.percentage_max_file_size as int;
            assert(t * (100 + p) <= t * 500 <= MAX_SIZE_TARGET * 500 < u64::MAX) by (nonlinear_arith)
                requires
                    0 < t <= MAX_SIZE_TARGET,
                    1 <= p <= 400,
            ;
            assert(t * (100 + p) / 100 >= t * 100 / 100 >= t) by (nonlinear_arith)
                requires
                    0 < t,
                    1 <= p,
            ;
        }
        self.max_desired_file_size_bytes * (100 + self.percentage_max_file_size) / 100
    }

    /// A reasonable default policy: 100 MiB target, 30 % headroom, 80/20
    /// split, promotion at ten L1 files, and a 300 MiB round budget.
    pub fn recommended() -> (r: CompactorConfig)
        ensures
            r.wf(),
            r.max_desired_file_size_bytes == 100 * 1024 * 1024,
            r.percentage_max_file_size == 30,
            r.split_percentage == 80,
            r.min_num_l1_files_to_compact == 10,
    {
        CompactorConfig {
            max_desired_file_size_bytes: 100 * 1024 * 1024,
            percentage_max_file_size: 30,
            split_percentage: 80,
            min_num_l1_files_to_compact: 10,
            max_num_files_per_plan: 200,
            max_num_columns_per_table: 200,
            max_input_bytes_per_round: 300 * 1024 * 1024,
        }
    }
}

} // verus!
