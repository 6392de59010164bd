//! The control loop's verified core: one full round — snapshot, plan,
//! materialise, commit — against the catalog model, carrying every round
//! invariant in its contract, together with the small decision functions
//! the surrounding service wires up (partition sources, shard filtering,
//! cycle states).

use vstd::prelude::*;

use crate::adapter::simulate_outputs;
use crate::commit::{created_seq, has_id, ids_of, survivors, CatalogPartition, CommitError};
use crate::config::CompactorConfig;
use crate::files::{CompactionLevel, ParquetFile};
use crate::planner::{
    compact_action_sound, plan_round, spec_plan_round, Action, SpecAction,
};
use crate::view::{
    all_wf, covered, ids_unique, level_count, level_nonoverlapping, PartitionView,
};

verus! {

/// Both upper tiers of a file list are internally non-overlapping — the
/// shape every committed round preserves.
pub open spec fn tidy_files(s: Seq<ParquetFile>) -> bool {
    &&& level_nonoverlapping(s, CompactionLevel::L1)
    &&& level_nonoverlapping(s, CompactionLevel::L2)
}

/// What one driver round did to the partition.
#[derive(Debug)]
pub enum RoundOutcome {
    /// A compaction was planned, executed and committed; the new file ids
    /// are reported.
    Committed { new_ids: Vec<u64> },
    /// The partition is in final shape (or nothing fits the budget); the
    /// loop moves on.
    Done,
    /// The partition was given up on; the caller records a skip marker.
    Skipped { reason: crate::planner::AbortReason },
}

/// Runs one planning round against the catalog model and commits the
/// result.
///
/// The contract carries the round invariants: the catalog stays well
/// formed and tidy (no two L1 files overlap, no two L2 files overlap), the
/// set of covered instants is unchanged, ids only grow, and a committed
/// round strictly shrinks the backlog measure `(L0 count, L1 count)` —
/// which is why a loop of rounds without fresh ingest terminates at
/// `Done`. The cross-level stamp ordering (an L1 file overlapping an L2
/// file carries newer data) is the subject of
/// `laws::lemma_round_preserves_stamp_order`; it rests on an ingest-side
/// premise about fresh L0 stamps that the driver cannot supply itself, so
/// it is not carried in this contract.
#[verifier::rlimit(100)]
pub fn run_round(catalog: &mut CatalogPartition, column_count: usize, cfg: &CompactorConfig) -> (r:
    RoundOutcome)
    requires
        old(catalog).wf(),
        tidy_files(old(catalog).files@),
        cfg.wf(),
        old(catalog).files@.len() < usize::MAX,
        old(catalog).next_id + crate::config::MAX_SIZE_TARGET + 2 <= u64::MAX,
    ensures
        final(catalog).wf(),
        tidy_files(final(catalog).files@),
        final(catalog).next_id >= old(catalog).next_id,
        forall|t: int| covered(final(catalog).files@, t) == covered(old(catalog).files@, t),
        match r {
            RoundOutcome::Committed { new_ids } => {
                &&& spec_plan_round(old(catalog).files@, column_count as int, *cfg) is Compact
                &&& forall|j: int, i: int|
                    0 <= j < new_ids@.len() && 0 <= i < old(catalog).files@.len()
                        ==> #[trigger] new_ids@[j] > (#[trigger] old(catalog).files@[i]).id
                &&& ({
                    let target = spec_plan_round(
                        old(catalog).files@,
                        column_count as int,
                        *cfg,
                    )->Compact_target;
                    &&& (target is L1 ==> level_count(final(catalog).files@, CompactionLevel::L0)
                        < level_count(old(catalog).files@, CompactionLevel::L0))
                    &&& (target is L2 ==> level_count(final(catalog).files@, CompactionLevel::L0)
                        == 0 && level_count(final(catalog).files@, CompactionLevel::L1)
                        < level_count(old(catalog).files@, CompactionLevel::L1))
                })
            },
            RoundOutcome::Done => {
                &&& spec_plan_round(old(catalog).files@, column_count as int, *cfg) is Noop
                &&& *final(catalog) == *old(catalog)
            },
            RoundOutcome::Skipped { reason } => {
                &&& spec_plan_round(old(catalog).files@, column_count as int, *cfg) is Abort
                &&& column_count > cfg.max_num_columns_per_table
                &&& *final(catalog) == *old(catalog)
            },
        },
{
    let files = catalog.list_files();
    let view = match PartitionView::new(files, column_count) {
        Ok(v) => v,
        Err(_) => {
            proof {
                assert(false);
            }
            return RoundOutcome::Done;
        },
    };
    let action = plan_round(&view, cfg);
    match action {
        Action::Noop => RoundOutcome::Done,
        Action::Abort { reason } => RoundOutcome::Skipped { reason },
        Action::CompactAndSplit { inputs, split_times, target_level } => {
            let new_ids = execute_and_commit(catalog, inputs, split_times, target_level, cfg);
            RoundOutcome::Committed { new_ids }
        },
    }
}

/// Materialises one planned compaction and commits it: delete the inputs,
/// create the outputs. Carries the round invariants from the laws into the
/// catalog's new state.
#[verifier::rlimit(100)]
fn execute_and_commit(
    catalog: &mut CatalogPartition,
    inputs: Vec<ParquetFile>,
    split_times: Vec<i64>,
    target_level: CompactionLevel,
    cfg: &CompactorConfig,
) -> (new_ids: Vec<u64>)
    requires
        old(catalog).wf(),
        tidy_files(old(catalog).files@),
        cfg.wf(),
        old(catalog).next_id + crate::config::MAX_SIZE_TARGET + 2 <= u64::MAX,
        compact_action_sound(old(catalog).files@, *cfg, inputs@, split_times@, target_level),
        target_level is L2 ==> forall|i: int|
            0 <= i < old(catalog).files@.len() ==> !((#[trigger] old(catalog).files@[i]).level
                is L0),
    ensures
        final(catalog).wf(),
        tidy_files(final(catalog).files@),
        final(catalog).next_id >= old(catalog).next_id,
        forall|t: int| covered(final(catalog).files@, t) == covered(old(catalog).files@, t),
        forall|j: int, i: int|
            0 <= j < new_ids@.len() && 0 <= i < old(catalog).files@.len() ==> #[trigger] new_ids@[j]
                > (#[trigger] old(catalog).files@[i]).id,
        target_level is L1 ==> level_count(final(catalog).files@, CompactionLevel::L0)
            < level_count(old(catalog).files@, CompactionLevel::L0),
        target_level is L2 ==> level_count(final(catalog).files@, CompactionLevel::L0) == 0
            && level_count(final(catalog).files@, CompactionLevel::L1) < level_count(
            old(catalog).files@,
            CompactionLevel::L1,
        ),
{
    proof {
        assert forall|k: int| 0 <= k < inputs@.len() implies (#[trigger] inputs@[k]).wf() by {
            let j = choose|j: int|
                0 <= j < old(catalog).files@.len() && old(catalog).files@[j] == inputs@[k];
            assert(old(catalog).files@[j].wf());
        }
        crate::view::lemma_sum_sizes_pos(inputs@);
        crate::laws::lemma_inputs_hull_facts(inputs@);
    }
    let outputs = simulate_outputs(&inputs, &split_times, target_level);
    let n_in = inputs.len();
    let mut delete_ids: Vec<u64> = Vec::new();
    let mut i: usize = 0;
    while i < n_in
        invariant
            i <= n_in,
            n_in == inputs@.len(),
            delete_ids@ =~= ids_of(inputs@).take(i as int),
        decreases n_in - i,
    {
        delete_ids.push(inputs[i].id);
        proof {
            assert(delete_ids@ =~= ids_of(inputs@).take(i as int + 1));
        }
        i = i + 1;
    }
    proof {
        assert(delete_ids@ =~= ids_of(inputs@));
    }
    let ghost pre = *catalog;
    match catalog.commit(&delete_ids, &outputs) {
        Ok(new_ids) => {
            proof {
                let gview = pre.files@;
                let (lo, hi) = crate::planner::inputs_hull(inputs@)->Some_0;
                assert(crate::laws::output_chain(outputs@, lo, hi, target_level));
                crate::laws::lemma_round_invariants(
                    gview,
                    *cfg,
                    inputs@,
                    split_times@,
                    target_level,
                    outputs@,
                    pre.next_id,
                );
            }
            new_ids
        },
        Err(CommitError::Conflict) => {
            proof {
                let bad = choose|i: int|
                    0 <= i < delete_ids@.len() && !has_id(pre.files@, #[trigger] delete_ids@[i]);
                assert(pre.files@.contains(inputs@[bad]));
                let w = choose|w: int| 0 <= w < pre.files@.len() && pre.files@[w] == inputs@[bad];
                assert(pre.files@[w].id == delete_ids@[bad]);
                assert(false);
            }
            Vec::new()
        },
    }
}

/// Where the driver takes its partitions from.
#[derive(Clone, Debug, PartialEq, Eq)]
pub enum PartitionsSourceConfig {
    /// Partitions with writes newer than the configured threshold.
    CatalogRecentWrites,
    /// Every partition the catalog knows.
    CatalogAll,
    /// A fixed list of partition ids.
    Fixed { ids: Vec<u64> },
}

/// Chooses the partition source from the two flags: a filter list pins the
/// partitions, the process-all flag selects the whole catalog, and neither
/// means recent writes. Both together contradict each other; callers rule
/// that out first.
pub fn partitions_source_config(
    partition_filter: Option<Vec<u64>>,
    process_all_partitions: bool,
) -> (r: PartitionsSourceConfig)
    requires
        !(partition_filter is Some && process_all_partitions),
    ensures
        match partition_filter {
            Option::None => r == if process_all_partitions {
                PartitionsSourceConfig::CatalogAll
            } else {
                PartitionsSourceConfig::CatalogRecentWrites
            },
            Option::Some(ids) => r is Fixed && r->Fixed_ids@ == ids@,
        },
{
    match (partition_filter, process_all_partitions) {
        (None, false) => PartitionsSourceConfig::CatalogRecentWrites,
        (None, true) => PartitionsSourceConfig::CatalogAll,
        (Some(ids), _) => PartitionsSourceConfig::Fixed { ids },
    }
}

/// Sharding of the partition space across compactor instances.
#[derive(Clone, Copy, Debug, PartialEq, Eq, Structural)]
pub struct ShardConfig {
    pub shard_id: u64,
    pub n_shards: u64,
}

/// Pairs the two shard flags, which must be given together or not at all;
/// callers rule out a lone flag first.
pub fn shard_config(shard_id: Option<u64>, shard_count: Option<u64>) -> (r: Option<ShardConfig>)
    requires
        shard_id is Some <==> shard_count is Some,
    ensures
        match (shard_id, shard_count) {
            (Option::Some(id), Option::Some(n)) => r == Some(
                ShardConfig { shard_id: id, n_shards: n },
            ),
            _ => r is None,
        },
{
    match (shard_id, shard_count) {
        (Some(id), Some(n)) => Some(ShardConfig { shard_id: id, n_shards: n }),
        _ => None,
    }
}

/// Whether this instance owns the partition: its id modulo the shard count
/// must name this shard. The partition id acts as its own stable hash.
/// Without sharding every partition matches.
pub fn shard_matches(partition_id: u64, shard: &Option<ShardConfig>) -> (r: bool)
    requires
        match shard {
            Option::Some(s) => s.n_shards >= 1,
            Option::None => true,
        },
    ensures
        r == match shard {
            Option::Some(s) => partition_id % s.n_shards == s.shard_id,
            Option::None => true,
        },
{
    match shard {
        Some(s) => partition_id % s.n_shards == s.shard_id,
        None => true,
    }
}

/// Where one partition's cycle stands.
#[derive(Clone, Copy, Debug, PartialEq, Eq, Structural)]
pub enum CycleState {
    Planning,
    Executing,
    Committing,
    Done,
    Failed,
}

/// What just happened in the cycle.
#[derive(Clone, Copy, Debug, PartialEq, Eq, Structural)]
pub enum CycleEvent {
    /// The planner answered: a compaction to run, or nothing left, or an
    /// abort.
    Planned { compact: bool, abort: bool },
    /// The executor finished, successfully or not.
    Executed { ok: bool },
    /// The commit finished: accepted, or refused by a concurrent actor.
    Committed { ok: bool },
}

/// The per-partition cycle: planning leads to executing (or ends the
/// cycle), executing to committing (or failure), and a commit leads back
/// to planning — a refused commit also re-plans, from a fresh snapshot.
/// Events that cannot occur in a state leave it unchanged.
pub fn cycle_step(state: CycleState, event: CycleEvent) -> (r: CycleState)
    ensures
        r == match (state, event) {
            (CycleState::Planning, CycleEvent::Planned { compact, abort }) => if abort {
                CycleState::Failed
            } else if compact {
                CycleState::Executing
            } else {
                CycleState::Done
            },
            (CycleState::Executing, CycleEvent::Executed { ok }) => if ok {
                CycleState::Committing
            } else {
                CycleState::Failed
            },
            (CycleState::Committing, CycleEvent::Committed { ok: _ }) => CycleState::Planning,
            _ => state,
        },
{
    match (state, event) {
        (CycleState::Planning, CycleEvent::Planned { compact, abort }) => {
            if abort {
                CycleState::Failed
            } else if compact {
                CycleState::Executing
            } else {
                CycleState::Done
            }
        },
        (CycleState::Executing, CycleEvent::Executed { ok }) => {
            if ok {
                CycleState::Committing
            } else {
                CycleState::Failed
            }
        },
        (CycleState::Committing, CycleEvent::Committed { ok: _ }) => CycleState::Planning,
        _ => state,
    }
}

} // verus!
