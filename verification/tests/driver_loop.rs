//! The full round loop against the catalog model: invariants after every
//! commit, convergence under steady ingest, the commit race, and the small
//! state machines around the loop.

use tiered_compactor::adapter::FileParams;
use tiered_compactor::circuit::{circuit_admit, circuit_observe, CircuitState};
use tiered_compactor::commit::{CatalogPartition, CommitError};
use tiered_compactor::config::CompactorConfig;
use tiered_compactor::driver::{
    cycle_step, partitions_source_config, run_round, shard_config, shard_matches, CycleEvent,
    CycleState, PartitionsSourceConfig, RoundOutcome,
};
use tiered_compactor::files::{CompactionLevel, ParquetFile};
use tiered_compactor::object_store::{
    choose_credentials, list_continuation, list_next_state, retry_decision, CredentialSource,
    ListState, ObjectStoreError, RetryDecision, S3ErrorSource,
};
use tiered_compactor::retention::{validate_retention, RetentionError};
use tiered_compactor::write_buffer::{sequence_from_parts, SequenceError};

const MIB: u64 = 1024 * 1024;

fn ingest_l0(catalog: &mut CatalogPartition, min_time: i64, max_time: i64, created: i64) {
    let params = FileParams {
        level: CompactionLevel::L0,
        min_time,
        max_time,
        file_size_bytes: 5 * MIB,
        max_l0_created_at: created,
    };
    catalog.commit(&vec![], &vec![params]).unwrap();
}

fn level_count(files: &[ParquetFile], level: CompactionLevel) -> usize {
    files.iter().filter(|f| f.level == level).count()
}

fn assert_level_nonoverlapping(files: &[ParquetFile], level: CompactionLevel) {
    for (i, a) in files.iter().enumerate() {
        for (j, b) in files.iter().enumerate() {
            if i != j && a.level == level && b.level == level {
                assert!(
                    a.min_time > b.max_time || b.min_time > a.max_time,
                    "files {} and {} overlap at {level:?}",
                    a.id,
                    b.id
                );
            }
        }
    }
}

fn covered(files: &[ParquetFile], t: i64) -> bool {
    files.iter().any(|f| f.min_time <= t && t <= f.max_time)
}

/// Runs rounds until the planner reports nothing left, bounding the loop to
/// catch a non-terminating regression.
fn compact_fully(catalog: &mut CatalogPartition, cfg: &CompactorConfig) -> usize {
    let mut rounds: usize = 0;
    loop {
        match run_round(catalog, 3, cfg) {
            RoundOutcome::Committed { new_ids } => {
                assert!(!new_ids.is_empty());
                rounds += 1;
                assert!(rounds < 10_000, "round loop failed to converge");
            }
            RoundOutcome::Done => return rounds,
            RoundOutcome::Skipped { .. } => panic!("unexpected skip"),
        }
    }
}

/// Steady ingest: batches of five overlapping L0 files, each compacted as
/// it lands. The partition settles with no L0 files, non-overlapping upper
/// tiers, and every ingested instant still covered.
#[test]
fn steady_ingest_converges() {
    let cfg = CompactorConfig::recommended();
    let mut catalog = CatalogPartition::new();
    let mut idx: i64 = 0;
    for _batch in 0..20 {
        for _ in 0..5 {
            ingest_l0(&mut catalog, idx * 10, idx * 10 + 14, idx);
            idx += 1;
        }
        compact_fully(&mut catalog, &cfg);
        let files = catalog.list_files();
        assert_level_nonoverlapping(&files, CompactionLevel::L1);
        assert_level_nonoverlapping(&files, CompactionLevel::L2);
    }
    let files = catalog.list_files();
    assert_eq!(level_count(&files, CompactionLevel::L0), 0);
    // every ingested instant is still covered
    for t in [0, 7, 500, 763, (idx - 1) * 10 + 14] {
        assert!(covered(&files, t), "instant {t} lost");
    }
    // and nothing beyond the ingested range is claimed
    assert!(!covered(&files, -1));
    assert!(!covered(&files, (idx - 1) * 10 + 15));
}

/// Lighter overlap between neighbouring ingests changes the geometry but
/// not the outcome: the partition still settles clean.
#[test]
fn steady_ingest_converges_light_overlap() {
    let cfg = CompactorConfig::recommended();
    let mut catalog = CatalogPartition::new();
    let mut idx: i64 = 0;
    for _batch in 0..20 {
        for _ in 0..5 {
            ingest_l0(&mut catalog, idx * 10, idx * 10 + 11, idx);
            idx += 1;
        }
        compact_fully(&mut catalog, &cfg);
    }
    let files = catalog.list_files();
    assert_eq!(level_count(&files, CompactionLevel::L0), 0);
    assert_level_nonoverlapping(&files, CompactionLevel::L1);
    assert_level_nonoverlapping(&files, CompactionLevel::L2);
    for t in [0, 495, (idx - 1) * 10 + 11] {
        assert!(covered(&files, t), "instant {t} lost");
    }
}

/// One round over five fresh files: the two outputs take the hull's two
/// pieces, sized by the uniform-bytes estimate, with fresh consecutive ids
/// and the newest ingest stamp.
#[test]
fn first_round_output_shape() {
    let cfg = CompactorConfig::recommended();
    let mut catalog = CatalogPartition::new();
    for idx in 0..5i64 {
        ingest_l0(&mut catalog, idx * 10, idx * 10 + 14, idx);
    }
    match run_round(&mut catalog, 3, &cfg) {
        RoundOutcome::Committed { new_ids } => assert_eq!(new_ids, vec![6, 7]),
        other => panic!("expected a committed round, got {other:?}"),
    }
    let files = catalog.list_files();
    assert_eq!(files.len(), 2);
    let head = &files[0];
    let tail = &files[1];
    assert_eq!((head.id, head.min_time, head.max_time), (6, 0, 43));
    assert_eq!((tail.id, tail.min_time, tail.max_time), (7, 44, 54));
    assert!(matches!(head.level, CompactionLevel::L1));
    assert!(matches!(tail.level, CompactionLevel::L1));
    // 25 MiB spread uniformly over [0, 54], cut at 43
    assert_eq!(head.file_size_bytes, 25 * MIB * 43 / 54);
    assert_eq!(tail.file_size_bytes, 25 * MIB - 25 * MIB * 43 / 54);
    assert_eq!(head.max_l0_created_at, 4);
    assert_eq!(tail.max_l0_created_at, 4);
}

/// Every committed round creates ids above everything it deleted, and the
/// backlog measure (L0 count, then L1 count) strictly shrinks.
#[test]
fn rounds_shrink_backlog_and_grow_ids() {
    let cfg = CompactorConfig::recommended();
    let mut catalog = CatalogPartition::new();
    for idx in 0..15i64 {
        ingest_l0(&mut catalog, idx * 10, idx * 10 + 14, idx);
    }
    loop {
        let before = catalog.list_files();
        let max_id_before = before.iter().map(|f| f.id).max().unwrap();
        match run_round(&mut catalog, 3, &cfg) {
            RoundOutcome::Committed { new_ids } => {
                for id in &new_ids {
                    assert!(*id > max_id_before);
                }
                let after = catalog.list_files();
                // the same instants are covered before and after the round
                for t in -2..160i64 {
                    assert_eq!(
                        covered(&before, t),
                        covered(&after, t),
                        "coverage changed at {t}"
                    );
                }
                let l0_before = level_count(&before, CompactionLevel::L0);
                let l0_after = level_count(&after, CompactionLevel::L0);
                let l1_before = level_count(&before, CompactionLevel::L1);
                let l1_after = level_count(&after, CompactionLevel::L1);
                assert!(
                    l0_after < l0_before || (l0_after == l0_before && l1_after < l1_before),
                    "backlog did not shrink"
                );
            }
            RoundOutcome::Done => break,
            RoundOutcome::Skipped { .. } => panic!("unexpected skip"),
        }
    }
}

/// No committed file is estimated above the size ceiling.
#[test]
fn outputs_stay_under_ceiling() {
    let cfg = CompactorConfig::recommended();
    let ceiling = 100 * MIB * 130 / 100;
    let mut catalog = CatalogPartition::new();
    for idx in 0..60i64 {
        ingest_l0(&mut catalog, idx * 10, idx * 10 + 14, idx);
    }
    compact_fully(&mut catalog, &cfg);
    for f in catalog.list_files() {
        assert!(
            f.file_size_bytes <= ceiling,
            "file {} holds {} bytes, over the ceiling",
            f.id,
            f.file_size_bytes
        );
    }
}

/// Committing the backlog-with-fresh-ingest round yields two L1 outputs in
/// the configured byte ratio: roughly eighty percent ahead of the cut,
/// the tail behind it.
#[test]
fn l1_backlog_round_byte_ratio() {
    let cfg = CompactorConfig::recommended();
    let mut files = Vec::new();
    for i in 0..9i64 {
        files.push(ParquetFile {
            id: (i + 1) as u64,
            level: CompactionLevel::L1,
            min_time: i * 50,
            max_time: i * 50 + 49,
            file_size_bytes: 5 * MIB,
            max_l0_created_at: i,
        });
    }
    for j in 0..5i64 {
        files.push(ParquetFile {
            id: (10 + j) as u64,
            level: CompactionLevel::L0,
            min_time: 440 + j * 10,
            max_time: 440 + j * 10 + 14,
            file_size_bytes: 5 * MIB,
            max_l0_created_at: 100 + j,
        });
    }
    let mut catalog = CatalogPartition::from_files(files, 15).unwrap();
    match run_round(&mut catalog, 3, &cfg) {
        RoundOutcome::Committed { new_ids } => assert_eq!(new_ids, vec![15, 16]),
        other => panic!("expected a committed round, got {other:?}"),
    }
    let after = catalog.list_files();
    let head = after.iter().find(|f| f.id == 15).unwrap();
    let tail = after.iter().find(|f| f.id == 16).unwrap();
    assert_eq!((head.min_time, head.max_time), (400, 475));
    assert_eq!((tail.min_time, tail.max_time), (476, 494));
    // 30 MiB spread uniformly over the 94-nanosecond hull, cut at 75
    let total = 30 * MIB;
    assert_eq!(head.file_size_bytes, total * 75 / 94);
    assert_eq!(tail.file_size_bytes, total - total * 75 / 94);
    let head_percent = head.file_size_bytes * 100 / total;
    assert!((79..=80).contains(&head_percent), "head takes {head_percent}%");
}

/// A competing deletion between planning and committing is detected: the
/// commit is refused, nothing changes, and a fresh round succeeds.
#[test]
fn commit_race_is_detected() {
    let cfg = CompactorConfig::recommended();
    let mut catalog = CatalogPartition::new();
    for idx in 0..5i64 {
        ingest_l0(&mut catalog, idx * 10, idx * 10 + 14, idx);
    }
    let planned_inputs: Vec<u64> = catalog.list_files().iter().map(|f| f.id).collect();

    // a competing actor deletes one of the planned inputs
    catalog.commit(&vec![planned_inputs[0]], &vec![]).unwrap();
    let files_before = catalog.list_files();

    // the stale round's commit must now be refused, leaving state untouched
    let out = FileParams {
        level: CompactionLevel::L1,
        min_time: 0,
        max_time: 54,
        file_size_bytes: 25 * MIB,
        max_l0_created_at: 4,
    };
    let err = catalog.commit(&planned_inputs, &vec![out]).unwrap_err();
    assert!(matches!(err, CommitError::Conflict));
    let files_after = catalog.list_files();
    assert_eq!(files_before.len(), files_after.len());

    // re-planning from the fresh view succeeds with the remaining files
    match run_round(&mut catalog, 3, &cfg) {
        RoundOutcome::Committed { new_ids } => assert!(!new_ids.is_empty()),
        other => panic!("expected a committed round, got {other:?}"),
    }
}

#[test]
fn catalog_rejects_bad_seeds() {
    // duplicate id
    let f = ParquetFile {
        id: 7,
        level: CompactionLevel::L0,
        min_time: 0,
        max_time: 10,
        file_size_bytes: 1,
        max_l0_created_at: 0,
    };
    assert!(CatalogPartition::from_files(vec![f, f], 100).is_err());
    // empty file
    let z = ParquetFile {
        file_size_bytes: 0,
        ..f
    };
    assert!(CatalogPartition::from_files(vec![z], 100).is_err());
    // inverted range
    let inv = ParquetFile {
        min_time: 10,
        max_time: 0,
        ..f
    };
    assert!(CatalogPartition::from_files(vec![inv], 100).is_err());
    // id not below the next id
    assert!(CatalogPartition::from_files(vec![f], 5).is_err());
    // a good seed passes
    assert!(CatalogPartition::from_files(vec![f], 100).is_ok());
}

#[test]
fn retention_validation() {
    let hour_ns: i64 = 3_600 * 1_000_000_000;
    let now: i64 = 1_000_000_000_000_000_000;

    // inside the retention period
    let tables = vec![(String::from("bananas"), Some(now - 10))];
    assert!(validate_retention(&tables, Some(hour_ns), now).is_ok());

    // outside the retention period
    let tables = vec![(String::from("bananas"), Some(now - 2 * hour_ns))];
    let err = validate_retention(&tables, Some(hour_ns), now).unwrap_err();
    assert!(err
        .message()
        .contains("data in table bananas is outside of the retention period"));

    // one table inside, one outside: the offender is named
    let tables = vec![
        (String::from("bananas"), Some(now - 10)),
        (String::from("apple"), Some(now - 2 * hour_ns)),
    ];
    let err = validate_retention(&tables, Some(hour_ns), now).unwrap_err();
    assert!(err
        .message()
        .contains("data in table apple is outside of the retention period"));
    assert!(matches!(err, RetentionError::OutsideRetention { .. }));

    // no retention configured: everything passes
    let tables = vec![(String::from("bananas"), Some(i64::MIN + 1))];
    assert!(validate_retention(&tables, None, now).is_ok());

    // an empty batch cannot violate
    let tables = vec![(String::from("bananas"), None)];
    assert!(validate_retention(&tables, Some(hour_ns), now).is_ok());

    // a failed schema lookup is reported with its own description
    let err = RetentionError::NamespaceLookup {
        detail: String::from("connection refused"),
    };
    assert_eq!(
        err.message(),
        "failed to read namespace schema from catalog: connection refused"
    );
}

#[test]
fn sequence_stamps() {
    let s = sequence_from_parts(3, 42).unwrap();
    assert_eq!(s.id, 3);
    assert_eq!(s.number, 42);
    assert!(matches!(
        sequence_from_parts(-1, 42),
        Err(SequenceError::NegativePartition)
    ));
    assert!(matches!(
        sequence_from_parts(3, -1),
        Err(SequenceError::NegativeOffset)
    ));
}

#[test]
fn credentials_selection() {
    let key = Some(String::from("SECRET-REDACTED"));
    let secret = Some(String::from("SECRET-REDACTED"));
    let token = Some(String::from("SECRET-REDACTED"));
    assert_eq!(
        choose_credentials(&key, &secret, &token).unwrap(),
        CredentialSource::StaticWithToken
    );
    assert_eq!(
        choose_credentials(&key, &secret, &None).unwrap(),
        CredentialSource::StaticMinimal
    );
    assert_eq!(
        choose_credentials(&None, &None, &None).unwrap(),
        CredentialSource::InstanceMetadata
    );
    assert!(matches!(
        choose_credentials(&None, &secret, &None),
        Err(ObjectStoreError::MissingAccessKey)
    ));
    assert!(matches!(
        choose_credentials(&key, &None, &None),
        Err(ObjectStoreError::MissingSecretAccessKey)
    ));
}

#[test]
fn retry_policy() {
    let mut attempts = 0u32;
    // server errors are retried with the fixed wait
    for _ in 0..10 {
        assert!(matches!(
            retry_decision(&mut attempts, true),
            RetryDecision::Retry { wait_ms: 200 }
        ));
    }
    // the eleventh server failure gives up
    assert!(matches!(
        retry_decision(&mut attempts, true),
        RetryDecision::Fail
    ));
    // a non-server error is never retried
    let mut attempts = 0u32;
    assert!(matches!(
        retry_decision(&mut attempts, false),
        RetryDecision::Fail
    ));
}

#[test]
fn paged_listing_states() {
    assert_eq!(list_continuation(&ListState::Start), Some(None));
    let more = list_next_state(Some(String::from("token-1")));
    assert_eq!(
        list_continuation(&more),
        Some(Some(String::from("token-1")))
    );
    let done = list_next_state(None);
    assert_eq!(list_continuation(&done), None);
}

#[test]
fn credentials_error_classification() {
    let e = ObjectStoreError::UnableToGetData {
        source: S3ErrorSource::Credentials,
        bucket: String::from("bucket"),
        location: String::from("key"),
    };
    assert!(e.s3_error_due_to_credentials());
    let e = ObjectStoreError::UnableToGetData {
        source: S3ErrorSource::ServerError,
        bucket: String::from("bucket"),
        location: String::from("key"),
    };
    assert!(!e.s3_error_due_to_credentials());
    let e = ObjectStoreError::NoData {
        bucket: String::from("bucket"),
        location: String::from("key"),
    };
    assert!(!e.s3_error_due_to_credentials());
}

#[test]
fn circuit_breaker_lifecycle() {
    let threshold = 3;
    let base = 100;
    let mut state = CircuitState::Closed {
        consecutive_failures: 0,
    };
    // failures accumulate while closed
    state = circuit_observe(state, false, threshold, 1000, base);
    state = circuit_observe(state, false, threshold, 1001, base);
    assert!(matches!(
        state,
        CircuitState::Closed {
            consecutive_failures: 2
        }
    ));
    // the threshold opens the circuit
    state = circuit_observe(state, false, threshold, 1002, base);
    assert_eq!(
        state,
        CircuitState::Open {
            until_ms: 1102,
            backoff_ms: 100
        }
    );
    // requests are blocked until the deadline, then one probe is let through
    let (ok, state) = circuit_admit(state, 1050);
    assert!(!ok);
    let (ok, state) = circuit_admit(state, 1102);
    assert!(ok);
    assert!(matches!(state, CircuitState::HalfOpen { backoff_ms: 100 }));
    // a failed probe re-opens with a doubled timeout
    let state = circuit_observe(state, false, threshold, 1110, base);
    assert_eq!(
        state,
        CircuitState::Open {
            until_ms: 1310,
            backoff_ms: 200
        }
    );
    // a successful probe closes the circuit
    let (_, state) = circuit_admit(state, 2000);
    let state = circuit_observe(state, true, threshold, 2000, base);
    assert_eq!(
        state,
        CircuitState::Closed {
            consecutive_failures: 0
        }
    );
}

#[test]
fn driver_wiring_decisions() {
    assert_eq!(
        partitions_source_config(None, false),
        PartitionsSourceConfig::CatalogRecentWrites
    );
    assert_eq!(
        partitions_source_config(None, true),
        PartitionsSourceConfig::CatalogAll
    );
    assert_eq!(
        partitions_source_config(Some(vec![1, 2]), false),
        PartitionsSourceConfig::Fixed { ids: vec![1, 2] }
    );

    assert_eq!(shard_config(None, None), None);
    let shard = shard_config(Some(1), Some(3)).unwrap();
    assert_eq!(shard.shard_id, 1);
    assert_eq!(shard.n_shards, 3);
    assert!(shard_matches(4, &Some(shard)));
    assert!(!shard_matches(5, &Some(shard)));
    assert!(shard_matches(5, &None));
}

#[test]
fn cycle_transitions() {
    let s = cycle_step(
        CycleState::Planning,
        CycleEvent::Planned {
            compact: true,
            abort: false,
        },
    );
    assert_eq!(s, CycleState::Executing);
    let s = cycle_step(s, CycleEvent::Executed { ok: true });
    assert_eq!(s, CycleState::Committing);
    let s = cycle_step(s, CycleEvent::Committed { ok: false });
    assert_eq!(s, CycleState::Planning);
    let s = cycle_step(
        s,
        CycleEvent::Planned {
            compact: false,
            abort: false,
        },
    );
    assert_eq!(s, CycleState::Done);
    let s = cycle_step(
        CycleState::Planning,
        CycleEvent::Planned {
            compact: false,
            abort: true,
        },
    );
    assert_eq!(s, CycleState::Failed);
}

#[test]
fn http_error_surface() {
    let e = tiered_compactor::http_error::IoxHttpError::NotFound;
    assert_eq!(e.status_code(), 404);
    assert_eq!(e.message(), "NotFound");
}
