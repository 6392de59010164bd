//! The round planner on concrete partitions: cluster selection, split-time
//! placement, determinism, and the guard rails.

use tiered_compactor::config::CompactorConfig;
use tiered_compactor::files::{CompactionLevel, ParquetFile};
use tiered_compactor::planner::{plan_round, Action};
use tiered_compactor::split::compute_split_times;
use tiered_compactor::view::PartitionView;

const MIB: u64 = 1024 * 1024;

fn l0(id: u64, min_time: i64, max_time: i64, size: u64, created: i64) -> ParquetFile {
    ParquetFile {
        id,
        level: CompactionLevel::L0,
        min_time,
        max_time,
        file_size_bytes: size,
        max_l0_created_at: created,
    }
}

fn l1(id: u64, min_time: i64, max_time: i64, size: u64, created: i64) -> ParquetFile {
    ParquetFile {
        id,
        level: CompactionLevel::L1,
        min_time,
        max_time,
        file_size_bytes: size,
        max_l0_created_at: created,
    }
}

fn l2(id: u64, min_time: i64, max_time: i64, size: u64, created: i64) -> ParquetFile {
    ParquetFile {
        id,
        level: CompactionLevel::L2,
        min_time,
        max_time,
        file_size_bytes: size,
        max_l0_created_at: created,
    }
}

/// Five freshly ingested overlapping files are merged and cut at 80 % of
/// their hull.
#[test]
fn five_overlapping_l0_files() {
    let cfg = CompactorConfig::recommended();
    let files = vec![
        l0(1, 0, 14, 5 * MIB, 0),
        l0(2, 10, 24, 5 * MIB, 1),
        l0(3, 20, 34, 5 * MIB, 2),
        l0(4, 30, 44, 5 * MIB, 3),
        l0(5, 40, 54, 5 * MIB, 4),
    ];
    let view = PartitionView::new(files, 3).unwrap();
    match plan_round(&view, &cfg) {
        Action::CompactAndSplit {
            inputs,
            split_times,
            target_level,
        } => {
            let ids: Vec<u64> = inputs.iter().map(|f| f.id).collect();
            assert_eq!(ids, vec![1, 2, 3, 4, 5]);
            // 0 + (54 - 0) * 80 / 100 = 43
            assert_eq!(split_times, vec![43]);
            assert!(matches!(target_level, CompactionLevel::L1));
        }
        other => panic!("expected a compaction, got {other:?}"),
    }
}

/// The L0 cluster absorbs the one L1 file its hull touches, and no other.
#[test]
fn l0_cluster_takes_overlapping_l1() {
    let cfg = CompactorConfig::recommended();
    let files = vec![
        l1(6, 0, 43, 20 * MIB, 4),
        l1(7, 44, 54, 5 * MIB, 4),
        l0(8, 50, 64, 5 * MIB, 5),
        l0(9, 60, 74, 5 * MIB, 6),
    ];
    let view = PartitionView::new(files, 3).unwrap();
    match plan_round(&view, &cfg) {
        Action::CompactAndSplit {
            inputs,
            target_level,
            ..
        } => {
            let ids: Vec<u64> = inputs.iter().map(|f| f.id).collect();
            // the untouched [0,43] file stays out; the [44,54] one is pulled in
            assert_eq!(ids, vec![7, 8, 9]);
            assert!(matches!(target_level, CompactionLevel::L1));
        }
        other => panic!("expected a compaction, got {other:?}"),
    }
}

/// An adjacent L1 chain above the promotion threshold is promoted whole,
/// with the L2 file it touches.
#[test]
fn l1_chain_promoted_to_l2() {
    let cfg = CompactorConfig::recommended();
    let files = vec![
        l2(1, 0, 99, 50 * MIB, 1),
        l1(2, 100, 149, 30 * MIB, 2),
        l1(3, 150, 199, 30 * MIB, 3),
        l1(4, 200, 249, 30 * MIB, 4),
        l1(5, 250, 299, 30 * MIB, 5),
    ];
    let view = PartitionView::new(files, 3).unwrap();
    match plan_round(&view, &cfg) {
        Action::CompactAndSplit {
            inputs,
            target_level,
            ..
        } => {
            let ids: Vec<u64> = inputs.iter().map(|f| f.id).collect();
            // the chain is left of the L2 file's range end, so no L2 overlap
            assert_eq!(ids, vec![2, 3, 4, 5]);
            assert!(matches!(target_level, CompactionLevel::L2));
        }
        other => panic!("expected a compaction, got {other:?}"),
    }
}

/// A partition already in final shape plans nothing.
#[test]
fn settled_partition_is_noop() {
    let cfg = CompactorConfig::recommended();
    let files = vec![
        l2(1, 0, 99, 100 * MIB, 1),
        l2(2, 100, 199, 100 * MIB, 2),
        l1(3, 200, 220, 10 * MIB, 3),
    ];
    let view = PartitionView::new(files, 3).unwrap();
    assert!(matches!(plan_round(&view, &cfg), Action::Noop));
}

/// Too many columns abort the partition.
#[test]
fn too_many_columns_aborts() {
    let cfg = CompactorConfig::recommended();
    let files = vec![l0(1, 0, 14, 5 * MIB, 0)];
    let view = PartitionView::new(files, 201).unwrap();
    assert!(matches!(plan_round(&view, &cfg), Action::Abort { .. }));
}

/// The planner is a pure function of the snapshot: identical views yield
/// identical actions.
#[test]
fn planner_is_deterministic() {
    let cfg = CompactorConfig::recommended();
    let make_view = || {
        PartitionView::new(
            vec![
                l0(1, 0, 14, 5 * MIB, 0),
                l0(2, 10, 24, 5 * MIB, 1),
                l1(3, 30, 60, 20 * MIB, 2),
            ],
            3,
        )
        .unwrap()
    };
    let a = plan_round(&make_view(), &cfg);
    let b = plan_round(&make_view(), &cfg);
    match (a, b) {
        (
            Action::CompactAndSplit {
                inputs: ia,
                split_times: sa,
                target_level: ta,
            },
            Action::CompactAndSplit {
                inputs: ib,
                split_times: sb,
                target_level: tb,
            },
        ) => {
            let ids_a: Vec<u64> = ia.iter().map(|f| f.id).collect();
            let ids_b: Vec<u64> = ib.iter().map(|f| f.id).collect();
            assert_eq!(ids_a, ids_b);
            assert_eq!(sa, sb);
            assert_eq!(ta, tb);
        }
        (Action::Noop, Action::Noop) => {}
        (a, b) => panic!("plans differ: {a:?} vs {b:?}"),
    }
}

/// The budget guard sheds the newest files until the round fits, so a
/// too-large cluster still compacts — just without its newest members.
#[test]
fn budget_shrinks_cluster_from_the_newest() {
    let mut cfg = CompactorConfig::recommended();
    cfg.max_desired_file_size_bytes = 4 * MIB;
    cfg.max_input_bytes_per_round = 12 * MIB;
    let files = vec![
        l0(1, 0, 14, 5 * MIB, 0),
        l0(2, 10, 24, 5 * MIB, 1),
        l0(3, 20, 34, 5 * MIB, 2),
    ];
    let view = PartitionView::new(files, 3).unwrap();
    match plan_round(&view, &cfg) {
        Action::CompactAndSplit { inputs, .. } => {
            let ids: Vec<u64> = inputs.iter().map(|f| f.id).collect();
            assert_eq!(ids, vec![1, 2]);
        }
        other => panic!("expected a compaction, got {other:?}"),
    }
}

/// A round above the ceiling is cut where the uniform estimate reaches each
/// multiple of the target size.
#[test]
fn interpolated_split_times() {
    let cfg = CompactorConfig::recommended();
    // 250 MiB over [0, 1000): three outputs, cuts at 2/5 and 4/5 of the range
    let cuts = compute_split_times(0, 1000, 250 * MIB, &cfg, 3);
    assert_eq!(cuts, vec![400, 800]);

    // at or below the ceiling, a round of two or more files is cut once at
    // the configured percentage
    let cuts = compute_split_times(0, 54, 25 * MIB, &cfg, 5);
    assert_eq!(cuts, vec![43]);

    // a lone input passes through whole
    let cuts = compute_split_times(0, 54, 25 * MIB, &cfg, 1);
    assert!(cuts.is_empty());

    // a range too narrow for a cut strictly inside stays whole
    let cuts = compute_split_times(0, 1, 25 * MIB, &cfg, 2);
    assert!(cuts.is_empty());
}

/// An L1 backlog below the promotion threshold, with fresh files landing on
/// its newest chunk: the round takes the five L0 files and the one L1 file
/// they overlap, targets L1, and cuts the result near the configured 80/20
/// byte ratio.
#[test]
fn l1_backlog_with_fresh_ingest() {
    let cfg = CompactorConfig::recommended();
    let mut files = Vec::new();
    // nine L1 files of 5 MiB — below both promotion thresholds
    for i in 0..9i64 {
        files.push(l1((i + 1) as u64, i * 50, i * 50 + 49, 5 * MIB, i));
    }
    // five fresh L0 files overlapping the newest L1 ([400, 449])
    for j in 0..5i64 {
        files.push(l0((10 + j) as u64, 440 + j * 10, 440 + j * 10 + 14, 5 * MIB, 100 + j));
    }
    let view = PartitionView::new(files, 3).unwrap();
    match plan_round(&view, &cfg) {
        Action::CompactAndSplit {
            inputs,
            split_times,
            target_level,
        } => {
            let ids: Vec<u64> = inputs.iter().map(|f| f.id).collect();
            assert_eq!(ids, vec![9, 10, 11, 12, 13, 14]);
            assert!(matches!(target_level, CompactionLevel::L1));
            // hull [400, 494], cut at 400 + 94 * 80 / 100
            assert_eq!(split_times, vec![475]);
        }
        other => panic!("expected a compaction, got {other:?}"),
    }
}
