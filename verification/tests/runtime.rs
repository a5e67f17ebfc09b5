use seedchamp_engine::error::Error;
use seedchamp_engine::hot::{FileLayout, StorageLayout};
use seedchamp_engine::process_metrics::threads::{thread_groups_from_counters, ThreadSample};
use seedchamp_engine::process_metrics::{
    block_bytes, collect_filesystem_usage, filesystem_mount_point, pretty_thread_name,
    read_task_jiffies, shorten_path_display, FsProbe,
};
use seedchamp_engine::runtime::disk_worker::inflight::{
    aio_end, begun, pack_user_data, ring_entries, unpack_user_data, uring_end, Drain, InFlightTable,
    PieceInFlight, SpanEnd,
};
use seedchamp_engine::runtime::disk_worker::{
    complete_discard_job, complete_write_job, disk_depth_from_env, is_backend_dead,
    parse_backend_want, spawn_backend, start_piece, BackendWant, DiskBackendKind, DiskPlatform,
    PiecePlan, RestartDecision, RestartState, DEFAULT_DISK_DEPTH, DISK_DEPTH_MAX,
    MAX_DISK_RESTARTS,
};
use seedchamp_engine::runtime::hash_worker::{
    after_check, default_hash_workers, digest_eq, handle_recheck, handle_verify, next_job,
    recheck_verdict, sha1_eq, write_refused, DiskWriteJob, HashJob, HashOutcome, NextJob,
    QueueState, RecheckPieceResult, Verified,
};
use seedchamp_engine::runtime::pipeline::{
    adapt_pipeline, clamp_initial_pipeline, desired_pipeline_blocks, PipelineAdaptOutcome,
    PipelineAdaptState, PipelineTuning, MAX_PIPELINE, MIN_PIPELINE,
};
use seedchamp_engine::runtime::pool::{default_peer_workers, worker_name, PeerLoads};
use seedchamp_engine::runtime::recheck_pool::{expected_hash, RecheckTally};
use seedchamp_engine::staging::pool::BLOCK_SIZE;
use sha1::{Digest, Sha1};
use std::collections::HashMap;

const S: u64 = 1_000_000_000;

fn test_layout() -> StorageLayout {
    StorageLayout {
        data_root: "d".into(),
        piece_length: 32,
        piece_count: 1,
        total_size: 32,
        files: vec![FileLayout { path: "f.bin".into(), size: 32, offset: 0, priority: 1 }],
    }
}

fn multi_span_layout() -> StorageLayout {
    StorageLayout {
        data_root: "d".into(),
        piece_length: 32,
        piece_count: 1,
        total_size: 32,
        files: vec![
            FileLayout { path: "a.bin".into(), size: 16, offset: 0, priority: 1 },
            FileLayout { path: "b.bin".into(), size: 16, offset: 16, priority: 1 },
        ],
    }
}

/// Write a piece as the backend would, into files in memory, and read it back.
fn write_roundtrip(backend: &str, platform: DiskPlatform, layout: &StorageLayout) {
    let kind = spawn_backend(parse_backend_want(backend).unwrap(), platform)[0];
    let want = match backend {
        "thread" => DiskBackendKind::Thread,
        "uring" => DiskBackendKind::Uring,
        _ => DiskBackendKind::Aio,
    };
    assert_eq!(kind, want);
    let data: Vec<u8> = (0..32).collect();
    let job = DiskWriteJob { index: 0, plen: 32, data: data.clone() };
    let spans = layout.spans_for_piece(0).unwrap();
    let entries = if kind == DiskBackendKind::Uring {
        Some(ring_entries(DEFAULT_DISK_DEPTH))
    } else {
        None
    };
    let ops = match start_piece(&job, &spans, entries) {
        PiecePlan::Write(ops) => ops,
        other => panic!("expected writes, got {other:?}"),
    };
    let mut files: Vec<Vec<u8>> =
        layout.files.iter().map(|f| vec![0u8; f.size as usize]).collect();
    for op in &ops {
        let (a, n) = (op.data_offset as usize, op.span.length as usize);
        let at = op.span.file_offset as usize;
        files[op.span.file][at..at + n].copy_from_slice(&job.data[a..a + n]);
    }
    let outcome = if kind == DiskBackendKind::Thread {
        complete_write_job(job, true)
    } else {
        let mut table = InFlightTable::new();
        let key = table.take_key();
        let expected: Vec<u32> = ops.iter().map(|o| o.span.length as u32).collect();
        let remaining = ops.len() as u32;
        table.insert(key, PieceInFlight { job, expected, remaining, failed: None });
        let mut last = None;
        for (i, op) in ops.iter().enumerate() {
            let (k, s) = unpack_user_data(pack_user_data(key, i as u16));
            assert!(last.is_none());
            last = table.harvest(backend, k, s, SpanEnd::Wrote(op.span.length as u32));
        }
        assert_eq!(table.len(), 0);
        last.expect("the last write ends the piece")
    };
    match outcome {
        HashOutcome::Done { data: d, .. } => assert_eq!(d, data),
        other => panic!("write failed on backend {backend}: {other:?}"),
    }
    let out: Vec<u8> = files.concat();
    assert_eq!(out, data);
}

#[test]
fn thread_backend_write_roundtrip() {
    write_roundtrip("thread", DiskPlatform::Uring, &test_layout());
}

#[test]
fn thread_backend_multi_span_roundtrip() {
    write_roundtrip("thread", DiskPlatform::Uring, &multi_span_layout());
}

#[test]
fn uring_backend_write_roundtrip() {
    write_roundtrip("uring", DiskPlatform::Uring, &test_layout());
}

#[test]
fn uring_backend_multi_span_roundtrip() {
    write_roundtrip("uring", DiskPlatform::Uring, &multi_span_layout());
}

#[test]
fn aio_backend_write_roundtrip() {
    write_roundtrip("aio", DiskPlatform::Aio, &test_layout());
}

#[test]
fn aio_backend_multi_span_roundtrip() {
    write_roundtrip("aio", DiskPlatform::Aio, &multi_span_layout());
}

#[test]
fn discard_writes_skips_io() {
    let data = vec![0xab; 32];
    let job = DiskWriteJob { index: 0, plen: 32, data: data.clone() };
    match complete_discard_job(job) {
        HashOutcome::Done { data: d, .. } => assert_eq!(d, data),
        other => panic!("discard failed: {other:?}"),
    }
}

#[test]
fn a_short_write_fails_the_piece() {
    let job = DiskWriteJob { index: 4, plen: 32, data: vec![0; 32] };
    let mut table = InFlightTable::new();
    let key = table.take_key();
    table.insert(key, PieceInFlight { job, expected: vec![32], remaining: 1, failed: None });
    match table.harvest("io_uring", key, 0, uring_end(31)) {
        Some(HashOutcome::WriteFail { index, .. }) => assert_eq!(index, 4),
        other => panic!("expected WriteFail, got {other:?}"),
    }
}

#[test]
fn a_piece_with_queued_writes_stays_till_they_are_over() {
    let write = || DiskWriteJob { index: 4, plen: 32, data: vec![7; 32] };
    let spans = multi_span_layout().spans_for_piece(0).unwrap();
    let ops = match start_piece(&write(), &spans, None) {
        PiecePlan::Write(ops) => ops,
        other => panic!("expected writes, got {other:?}"),
    };
    // None of its writes was taken.
    match begun(write(), &ops, 0, Some(Error::msg("full"))) {
        Err(HashOutcome::WriteFail { index, plen, data }) => {
            assert_eq!((index, plen, data), (4, 32, vec![7; 32]));
        }
        other => panic!("expected WriteFail, got {other:?}"),
    }
    // One of two was taken.
    let piece = begun(write(), &ops, 1, Some(Error::msg("full"))).unwrap();
    assert_eq!((piece.remaining, &piece.expected), (1, &vec![16, 16]));
    let mut table = InFlightTable::new();
    let key = table.take_key();
    table.insert(key, piece);
    let out = table.harvest("io_uring", key, 0, uring_end(16));
    assert!(matches!(out, Some(HashOutcome::WriteFail { index: 4, .. })));
    // Both were taken.
    let piece = begun(write(), &ops, 2, None).unwrap();
    assert!(piece.failed.is_none());
    let key = table.take_key();
    table.insert(key, piece);
    assert!(table.harvest("io_uring", key, 1, uring_end(16)).is_none());
    let out = table.harvest("io_uring", key, 0, uring_end(16));
    assert!(matches!(out, Some(HashOutcome::Done { index: 4, .. })));
}

#[test]
fn an_aio_write_ends_with_its_bytes_or_its_error() {
    assert!(matches!(aio_end(0, 32, "fine"), SpanEnd::Wrote(32)));
    assert!(matches!(aio_end(0, 0, "fine"), SpanEnd::Wrote(0)));
    assert!(matches!(aio_end(28, -1, "disk full"), SpanEnd::Failed(t) if t == "aio_error: disk full"));
    assert!(matches!(aio_end(0, -1, "bad"), SpanEnd::Failed(t) if t == "aio_return: bad"));
    let job = DiskWriteJob { index: 4, plen: 32, data: vec![0; 32] };
    let mut p = PieceInFlight { job, expected: vec![16, 16], remaining: 2, failed: None };
    assert!(!p.span_over("aio", 1, aio_end(0, 15, "")));
    let short = p.failed.as_ref().unwrap().to_string();
    assert_eq!(short, "aio short write 15/16 span 1");
    assert!(p.span_over("aio", 0, aio_end(0, 16, "")));
    assert!(matches!(p.finish(), HashOutcome::WriteFail { index: 4, .. }));
}

#[test]
fn a_broken_ring_writes_nothing() {
    let mut table = InFlightTable::new();
    for index in 0..2 {
        let job = DiskWriteJob { index, plen: 32, data: vec![0; 32] };
        let key = table.take_key();
        table.insert(key, PieceInFlight { job, expected: vec![32], remaining: 1, failed: None });
    }
    table.fail_all("ring");
    assert_eq!(table.len(), 2);
    // The write was whole, but it is not known to be there.
    let out = table.harvest("io_uring", 1, 0, uring_end(32));
    assert!(matches!(out, Some(HashOutcome::WriteFail { index: 0, .. })));
    let mut d = Drain::new();
    assert!(d.goes_on(1, true) && !d.goes_on(0, true) && !d.goes_on(1, false));
    for _ in 0..7 {
        d.waited(false);
    }
    assert!(d.goes_on(1, true));
    d.waited(false);
    assert!(!d.goes_on(1, true));
    d.waited(true);
    assert!(d.goes_on(1, true));
}

#[test]
fn a_buffer_shorter_than_its_piece_is_not_written() {
    let job = DiskWriteJob { index: 4, plen: 32, data: vec![0; 31] };
    let spans = test_layout().spans_for_piece(0).unwrap();
    assert!(matches!(start_piece(&job, &spans, None), PiecePlan::Fail(_)));
}

#[test]
fn depth_env_clamps() {
    let d = disk_depth_from_env(None);
    assert!((1..=DISK_DEPTH_MAX).contains(&d));
    assert_eq!(disk_depth_from_env(Some("0")), 1);
    assert_eq!(disk_depth_from_env(Some("99999")), DISK_DEPTH_MAX);
    assert_eq!(disk_depth_from_env(Some("many")), DEFAULT_DISK_DEPTH);
}

#[test]
fn restart_after_dead_backend_then_write_ok() {
    let mut s = RestartState::new();
    assert_eq!(s.restarts, 0);
    assert_eq!(s.try_restart(100 * S), RestartDecision::Spawn);
    assert!(s.spawned());
    assert_eq!(s.restarts, 1);
    assert!(s.check_alive().is_ok());
    let data: Vec<u8> = (0..32).collect();
    match complete_write_job(DiskWriteJob { index: 0, plen: 32, data: data.clone() }, true) {
        HashOutcome::Done { data: d, .. } => assert_eq!(d, data),
        other => panic!("expected Done after restart, got {other:?}"),
    }
}

#[test]
fn restarts_are_five_seconds_apart() {
    let mut s = RestartState::new();
    let first = 100 * S + 999_999_999;
    assert_eq!(s.try_restart(first), RestartDecision::Spawn);
    assert_eq!(s.try_restart(first + 1), RestartDecision::Cooldown);
    assert_eq!(s.try_restart(first + 5 * S - 1), RestartDecision::Cooldown);
    assert_eq!(s.restarts, 1);
    assert_eq!(s.try_restart(first + 5 * S), RestartDecision::Spawn);
    assert_eq!(s.restarts, 2);
}

#[test]
fn permanent_dead_after_max_restarts() {
    let mut s = RestartState {
        restarts: MAX_DISK_RESTARTS,
        last_restart: Some(40 * S),
        dead_permanent: false,
    };
    assert_eq!(s.try_restart(100 * S), RestartDecision::GivenUp);
    assert!(s.dead_permanent);
    // The next one fails at once without a restart.
    assert!(matches!(s.check_alive(), Err(Error::DiskWorkerPermanent)));
    assert_eq!(s.try_restart(1000 * S), RestartDecision::StaysDead);
}

#[test]
fn is_backend_dead_detects_typed_errors() {
    assert!(is_backend_dead(&Error::DiskWorkerStopped));
    assert!(!is_backend_dead(&Error::DiskWorkerPermanent));
    assert!(!is_backend_dead(&Error::Msg("io_uring short write".into())));
}

#[test]
fn parse_backend_want_strict() {
    assert_eq!(parse_backend_want("auto").unwrap(), BackendWant::Auto);
    assert_eq!(parse_backend_want("").unwrap(), BackendWant::Auto);
    assert_eq!(parse_backend_want("thread").unwrap(), BackendWant::Thread);
    assert!(parse_backend_want("sync").is_err());
    assert!(parse_backend_want("pwrite").is_err());
    assert!(parse_backend_want("io_uring").is_err());
    assert!(parse_backend_want("nope").is_err());
}

const HALF: u64 = 500_000_000;

#[test]
fn bdp_one_mib_five_secs() {
    // 1 MiB/s x 5 s / 16 KiB = 320
    let n = desired_pipeline_blocks(1024 * 1024, 5000, MIN_PIPELINE, MAX_PIPELINE);
    assert_eq!(n, 320);
}

#[test]
fn bdp_clamps_min_max() {
    assert_eq!(desired_pipeline_blocks(0, 5000, 2, 100), 2);
    assert_eq!(desired_pipeline_blocks(100 * 1024 * 1024, 5000, 2, 100), 100);
}

#[test]
fn bdp_one_mib_five_secs_is_320() {
    let bdp = desired_pipeline_blocks(1024 * 1024, 5000, 2, 8192);
    assert_eq!(bdp, 320);
}

#[test]
fn bdp_is_rounded_to_the_nearest_block() {
    // 16 KiB in a second is one block; half a block more is rounded up.
    assert_eq!(desired_pipeline_blocks(16384, 1000, 0, 100), 1);
    assert_eq!(desired_pipeline_blocks(16384 * 5 / 2, 1000, 0, 100), 3);
    assert_eq!(desired_pipeline_blocks(16384 * 5 / 2 - 1, 1000, 0, 100), 2);
    assert_eq!(desired_pipeline_blocks(16384, 0, 0, 100), 1);
    assert_eq!(desired_pipeline_blocks(u64::MAX, u64::MAX, 4, 3), 4);
}

#[test]
fn adapt_grows_on_fast_rate() {
    let tuning = PipelineTuning::with_max(8192);
    let mut st = PipelineAdaptState::new(16, &tuning, 0);
    // Simulate 1 MB over 0.5s: 2 MB/s inst, seeds smooth.
    let t1 = st.rate_at + HALF;
    let out = adapt_pipeline(&mut st, 1_000_000, t1, &tuning);
    assert!(matches!(out, PipelineAdaptOutcome::Grew { .. }) || st.pipeline >= 16);
    // More data at high rate.
    let t2 = t1 + HALF;
    let out2 = adapt_pipeline(&mut st, 2_000_000, t2, &tuning);
    assert!(st.pipeline > 16, "pipeline={} after fast samples, out={out2:?}", st.pipeline);
    if let PipelineAdaptOutcome::Grew { pipeline } = out2 {
        assert_eq!(pipeline, st.pipeline);
    }
}

#[test]
fn adapt_hysteresis_holds_brief_dip() {
    let tuning = PipelineTuning::with_max(8192);
    assert_eq!(tuning.shrink_hold_nanos, 2_000_000_000);
    let mut st = PipelineAdaptState::new(16, &tuning, 0);
    // Build up smooth rate.
    let mut t = st.rate_at;
    let mut bytes = 0u64;
    for _ in 0..6 {
        t += HALF;
        bytes += 500_000; // ~1 MB/s
        let _ = adapt_pipeline(&mut st, bytes, t, &tuning);
    }
    let high = st.pipeline;
    assert!(high > 16, "expected deep pipe, got {high}");

    // One quiet sample: should not shrink yet.
    t += HALF;
    let out = adapt_pipeline(&mut st, bytes, t, &tuning); // delta 0
    assert_eq!(st.pipeline, high, "brief dip should hold depth");
    assert!(matches!(out, PipelineAdaptOutcome::Unchanged), "out={out:?}");
}

#[test]
fn adapt_shrinks_after_hold() {
    let tuning = PipelineTuning {
        shrink_hold_nanos: HALF,
        shrink_ratio: 850,
        ..PipelineTuning::with_max(8192)
    };
    let mut st = PipelineAdaptState::new(16, &tuning, 0);
    let mut t = st.rate_at;
    let mut bytes = 0u64;
    for _ in 0..8 {
        t += HALF;
        bytes += 1_000_000;
        let _ = adapt_pipeline(&mut st, bytes, t, &tuning);
    }
    let high = st.pipeline;
    assert!(high > 100, "high={high}");

    // Sustained zero rate past hold.
    for _ in 0..6 {
        t += HALF;
        let _ = adapt_pipeline(&mut st, bytes, t, &tuning);
    }
    assert!(st.pipeline < high, "should shrink after hold: high={high} now={}", st.pipeline);
    assert!(st.pipeline >= MIN_PIPELINE);
}

#[test]
fn zero_rate_stays_at_min_after_samples() {
    let tuning = PipelineTuning::with_max(8192);
    let mut st = PipelineAdaptState::new(16, &tuning, 0);
    let mut t = st.rate_at;
    // No bytes; after shrink hold, may drop toward min.
    for _ in 0..10 {
        t += HALF;
        let _ = adapt_pipeline(&mut st, 0, t, &tuning);
    }
    assert!(st.pipeline >= MIN_PIPELINE);
}

#[test]
fn clamp_initial() {
    assert_eq!(clamp_initial_pipeline(16, 8192), 16);
    assert_eq!(clamp_initial_pipeline(1, 8192), MIN_PIPELINE);
    assert_eq!(clamp_initial_pipeline(10000, 100), 100);
}

#[test]
fn ema_not_only_last_spike() {
    let tuning = PipelineTuning { alpha: 250, ..PipelineTuning::with_max(8192) };
    let mut st = PipelineAdaptState::new(16, &tuning, 0);
    let mut t = st.rate_at;
    // Steady modest rate.
    let mut bytes = 0u64;
    for _ in 0..4 {
        t += HALF;
        bytes += 50_000; // 100 KB/s
        let _ = adapt_pipeline(&mut st, bytes, t, &tuning);
    }
    let steady = st.smooth_bps;
    // One huge spike sample.
    t += HALF;
    bytes += 5_000_000;
    let _ = adapt_pipeline(&mut st, bytes, t, &tuning);
    // Smooth should be between steady and spike, not equal to spike alone.
    assert!(st.smooth_bps > steady);
    assert!(st.smooth_bps < 5_000_000); // not pure 10 MB/s from 0.5s of 5MB
    assert!(
        st.smooth_bps < 8_000_000,
        "smooth should not jump fully to spike, got {}",
        st.smooth_bps
    );
}

#[test]
fn a_depth_follows_the_rate() {
    let tuning = PipelineTuning::default();
    assert_eq!(tuning, PipelineTuning::with_max(MAX_PIPELINE));
    let mut st = PipelineAdaptState::new(16, &tuning, 0);
    // Too early for a sample.
    let out = adapt_pipeline(&mut st, 1 << 20, HALF - 1, &tuning);
    assert_eq!(out, PipelineAdaptOutcome::Unchanged);
    assert!(!st.rate_seeded);
    // Half a MiB in half a second is 1 MiB in one.
    let out = adapt_pipeline(&mut st, 1 << 19, HALF, &tuning);
    assert_eq!(out, PipelineAdaptOutcome::Grew { pipeline: 320 });
    assert_eq!(st.smooth_bps, 1 << 20);
    // A quarter of nothing and three quarters of 1 MiB: 240 blocks are enough, less than the
    // 272 below which it may shrink, but only once the hold time is over.
    let out = adapt_pipeline(&mut st, 1 << 19, 2 * HALF, &tuning);
    assert_eq!((st.smooth_bps, st.pipeline), (786_432, 320));
    assert_eq!((out, st.shrink_since), (PipelineAdaptOutcome::Unchanged, Some(2 * HALF)));
    st.smooth_bps = 1 << 20;
    let out = adapt_pipeline(&mut st, 1 << 19, 6 * HALF, &tuning);
    assert_eq!(out, PipelineAdaptOutcome::Shrank { pipeline: 240 });
    assert_eq!((st.pipeline, st.shrink_since), (240, None));
    // Ever so little time between samples is still some.
    let hasty = PipelineTuning { sample_nanos: 0, ..tuning };
    let before = st;
    adapt_pipeline(&mut st, 1 << 20, 6 * HALF + 49_999_999, &hasty);
    assert_eq!(st, before);
}

#[test]
fn least_peers_picks_empty_worker() {
    let mut pool = PeerLoads::new(3);
    assert_eq!(pool.least_peers_worker(), 0);
    // Load on 0, 1 and 2 in turn.
    assert_eq!(pool.assign().unwrap(), 0);
    assert_eq!(pool.assign().unwrap(), 1);
    assert_eq!(pool.least_peers_worker(), 2);
    assert_eq!(pool.assign().unwrap(), 2);
    pool.release(1);
    assert_eq!(pool.least_peers_worker(), 1);
    assert_eq!(pool.active_peers(), 2);
    assert!(pool.shutdown());
    assert!(!pool.shutdown());
    assert!(pool.assign().is_err());
}

#[test]
fn workers_have_names() {
    assert_eq!(worker_name(1, 0), "seedchamp-io");
    assert_eq!(worker_name(4, 2), "seedchamp-io-2");
    assert_eq!(default_peer_workers(Some(6)), 6);
    assert!(default_peer_workers(None) >= 1);
    assert_eq!(default_hash_workers(Some(6)), 6);
}

#[test]
fn leech_priority_over_recheck() {
    // A piece of a download that waits goes before pieces to check again.
    let waiting = QueueState::Waiting;
    assert_eq!(next_job(waiting, waiting), NextJob::Verify);
    assert_eq!(next_job(QueueState::Empty, waiting), NextJob::Recheck);
    assert_eq!(next_job(QueueState::Closed, QueueState::Closed), NextJob::Exit);
}

#[test]
fn rechecked_pieces_are_counted() {
    let good = recheck_verdict(0, &[1u8; 20], Some([1u8; 20]));
    let bad = recheck_verdict(1, &[1u8; 20], Some([2u8; 20]));
    let missing = recheck_verdict(2, &[1u8; 20], None);
    assert_eq!(bad, handle_recheck(1, &[1u8; 20], Some(b"data")));
    assert_eq!(missing, handle_recheck(2, &[1u8; 20], None));
    assert!(matches!(good, RecheckPieceResult::Good { index: 0 }));
    assert!(matches!(missing, RecheckPieceResult::Missing { index: 2 }));
    let mut tally = RecheckTally::new(3);
    tally.add(good);
    tally.add(bad);
    tally.add(missing);
    assert_eq!((tally.good, tally.bad, tally.missing), (1, 1, 1));
    assert_eq!(tally.have, vec![true, false, false]);
    let mut hashes = vec![0u8; 40];
    hashes[20] = 9;
    assert_eq!(expected_hash(&hashes, 1)[0], 9);
}

#[test]
fn pretty_names_map_seedchamp_workers() {
    assert_eq!(pretty_thread_name("seedchamp-io"), "peer i/o");
    assert_eq!(pretty_thread_name("seedchamp-acc"), "accept");
    assert_eq!(pretty_thread_name("seedchamp-trk"), "tracker");
    assert_eq!(pretty_thread_name("seedchamp-block"), "blocking pool");
    assert_eq!(pretty_thread_name("seedchamp-bloc"), "blocking pool");
    assert_eq!(pretty_thread_name("seedchamp-hash-0"), "piece hash");
    assert_eq!(pretty_thread_name("seedchamp-hash-12"), "piece hash");
    // 15-char truncation of seedchamp-hash-0
    assert_eq!(pretty_thread_name("seedchamp-hash-"), "piece hash");
    assert_eq!(pretty_thread_name("seedchamp-disk-uring"), "disk (io_uring)");
    assert_eq!(pretty_thread_name("seedchamp-disk-aio"), "disk (aio)");
    assert_eq!(pretty_thread_name("seedchamp-disk"), "disk (thread)");
    // Both uring and aio truncate to the same 15-char comm:
    assert_eq!(pretty_thread_name("seedchamp-disk-"), "disk");
    assert_eq!(pretty_thread_name("seedchamp-control"), "control plane");
    assert_eq!(pretty_thread_name("seedchamp-contr"), "control plane");
    assert_eq!(pretty_thread_name("seedchamp-mutate"), "catalog mutate");
    assert_eq!(pretty_thread_name("seedchamp-mutat"), "catalog mutate");
    assert_eq!(pretty_thread_name("seedchamp-cread"), "catalog reader");
    assert_eq!(pretty_thread_name("seedchamp-crea"), "catalog reader");
    assert_eq!(pretty_thread_name("seedchamp-watch"), "watch dir");
    assert_eq!(pretty_thread_name("seedchamp-recheck-9"), "recheck");
    assert_eq!(pretty_thread_name("seedchamp-reche"), "recheck");
    assert_eq!(pretty_thread_name("seedchamp"), "main");
    assert_eq!(pretty_thread_name("seedchamp_engin"), "main");
    // unknown kept (no Tokio runtime in process)
    assert_eq!(pretty_thread_name("custom-worker"), "custom-worker");
    // ours, but without a label
    assert_eq!(pretty_thread_name("seedchamp-new-thing"), "new thing");
    assert_eq!(pretty_thread_name("  "), "unknown");
}

#[test]
fn ticks_stand_behind_the_name() {
    let stat = "7 (a) b) S 1 2 3 4 5 6 7 8 9 10 120 30 0 0 20";
    assert_eq!(read_task_jiffies(stat), Some(150));
    assert_eq!(read_task_jiffies("7 (a) S 1 2"), None);
    assert_eq!(read_task_jiffies("no brackets"), None);
}

#[test]
fn filesystems_are_counted_and_ordered() {
    let probe = |dev: u64, mount: &str, avail: u64, blocks: u64| FsProbe {
        dev,
        mount: mount.into(),
        fragment_size: 1,
        blocks,
        blocks_available: avail,
    };
    let mut silent = probe(9, "/silent", 1, 1);
    silent.fragment_size = 0;
    let fs = collect_filesystem_usage(
        Some(probe(1, "/data", 10, 100)),
        vec![
            probe(2, "/home/u/x", 5, 50),
            probe(3, "/a", 5, 50),
            silent,
            probe(2, "ignored", 4, 50),
            probe(1, "ignored", 9, 100),
        ],
        Some("/home/u"),
    );
    let shown: Vec<(&str, u32, u64)> =
        fs.iter().map(|f| (f.path.as_str(), f.open_torrents, f.used_bytes())).collect();
    assert_eq!(shown, vec![("/data", 1, 91), ("~/x", 2, 46), ("/a", 1, 45)]);
    assert!(fs[0].is_default);
    assert_eq!(block_bytes(3, 4096), 12288);
    assert_eq!(block_bytes(u64::MAX, 2), u64::MAX);
    assert_eq!(shorten_path_display("/home/u", Some("/home/u")), "~");
    assert_eq!(shorten_path_display("/home/us", Some("/home/u")), "/home/us");
}

#[test]
fn a_ring_has_room_for_four_spans_of_each_piece() {
    assert_eq!((ring_entries(0), ring_entries(4), ring_entries(5)), (16, 16, 20));
    assert_eq!((ring_entries(1024), ring_entries(1025)), (4096, 4096));
    assert_eq!((ring_entries(1 << 30), ring_entries(usize::MAX)), (4096, 4096));
}

/// What a look at a directory below `/mnt` finds: everything there is on filesystem 5, what is
/// above it is not.
fn probed(path: &str) -> FsProbe {
    let above: Vec<&std::path::Path> = std::path::Path::new(path).ancestors().skip(1).collect();
    let parents: Vec<Option<u64>> =
        above.iter().map(|p| Some(if p.starts_with("/mnt") { 5 } else { 1 })).collect();
    let up = filesystem_mount_point(&parents, 5);
    let mount = std::path::Path::new(path).ancestors().nth(up).unwrap();
    FsProbe {
        dev: 5,
        mount: mount.to_str().unwrap().into(),
        fragment_size: 4096,
        blocks: 100,
        blocks_available: 40,
    }
}

#[test]
fn filesystem_usage_includes_default_root() {
    let root = probed("/mnt/tmp/filesystem_usage");
    let fs = collect_filesystem_usage(Some(root), Vec::new(), None);
    assert!(!fs.is_empty(), "expected at least default FS stats");
    assert!(fs.iter().any(|f| f.is_default));
    assert!(fs[0].total_bytes > 0);
    // Label is a mount point, not the nested temp path.
    assert!(!fs[0].path.contains("filesystem_usage"));
    assert_eq!(fs[0].path, "/mnt");
}

#[test]
fn filesystem_usage_counts_open_torrents_same_fs() {
    let root = probed("/mnt/tmp/root");
    // Filesystems are told apart by their device: what later looks call it is not shown.
    let below = |path: &str| FsProbe { mount: path.into(), ..probed(path) };
    let open = vec![below("/mnt/tmp/root/a"), below("/mnt/tmp/root/b")];
    let fs = collect_filesystem_usage(Some(root), open, None);
    assert_eq!(fs.len(), 1);
    let def = fs.iter().find(|f| f.is_default).expect("default fs");
    assert_eq!(def.open_torrents, 2);
    // Nested torrent dirs must not appear as the row label.
    assert!(!def.path.ends_with("/a") && !def.path.ends_with("/b"));
    assert_eq!(def.path, "/mnt");
}

fn digest_of(data: &[u8]) -> Vec<u8> {
    Sha1::digest(data).to_vec()
}

#[test]
fn hash_pool_discard_writes_skips_pwrite() {
    let len = BLOCK_SIZE as usize + 50;
    let data: Vec<u8> = (0..len).map(|i| (i % 251) as u8).collect();
    let expected = digest_of(&data);
    let job = HashJob { index: 0, plen: len as u32, data, expected };
    match handle_verify(job, true) {
        Verified::Reply(HashOutcome::Done { data: out, .. }) => assert_eq!(out.len(), len),
        other => panic!("expected ok under discard_writes: {other:?}"),
    }
}

#[test]
fn hash_pool_parallel_ok_and_fail() {
    let len = BLOCK_SIZE as usize + 100;
    let data: Vec<u8> = (0..len).map(|i| (i % 251) as u8).collect();
    let expected = digest_of(&data);
    for _ in 0..8 {
        let job = HashJob {
            index: 0,
            plen: len as u32,
            data: data.clone(),
            expected: expected.clone(),
        };
        match handle_verify(job, false) {
            Verified::Write(w) => {
                assert_eq!(w.data.len(), len);
                assert_eq!(w.data, data);
                // A disk that takes no more sends the buffer back.
                assert!(matches!(
                    write_refused(w),
                    HashOutcome::WriteFail { index: 0, data, .. } if data.len() == len
                ));
            }
            other => panic!("expected ok: {other:?}"),
        }
    }
    let mut bad = data;
    bad[0] ^= 0xff;
    match handle_verify(HashJob { index: 0, plen: len as u32, data: bad, expected }, false) {
        Verified::Reply(HashOutcome::HashFail { index, data, .. }) => {
            assert_eq!(index, 0);
            assert_eq!(data.len(), len);
        }
        other => panic!("expected HashFail: {other:?}"),
    }
}

#[test]
fn recheck_parallel_pool_good() {
    let payload: Vec<u8> = (0u16..500).map(|i| (i % 256) as u8).collect();
    let pieces: Vec<&[u8]> = payload.chunks(64).collect();
    let hashes: Vec<u8> = pieces.iter().flat_map(|p| digest_of(p)).collect();
    let mut tally = RecheckTally::new(pieces.len() as u32);
    for (i, p) in pieces.iter().enumerate() {
        let expected: [u8; 20] = expected_hash(&hashes, i as u32).try_into().unwrap();
        tally.add(handle_recheck(i as u32, &expected, Some(*p)));
    }
    assert_eq!(tally.good, pieces.len() as u32);
    assert!(tally.have.iter().all(|h| *h));
}

#[test]
fn filesystem_mount_point_walks_to_device_root() {
    // deep, dir, tmp are on the device; the root is not.
    let parents = vec![Some(7), Some(7), Some(7), Some(1)];
    let up = filesystem_mount_point(&parents, 7);
    assert_eq!(up, 3);
    assert_ne!(parents[up], Some(7), "parent of mount should leave the device");
    assert_eq!(filesystem_mount_point(&vec![Some(7)], 7), 1);
    assert_eq!(filesystem_mount_point(&vec![None, Some(7)], 7), 0);
}

#[test]
fn threads_are_grouped_by_what_they_do() {
    let thread = |tid: u64, name: &str, counter: u64| ThreadSample {
        tid,
        name: name.into(),
        counter,
    };
    let first = vec![
        thread(1, "seedchamp", 10),
        thread(2, "seedchamp-io", 100),
        thread(3, "seedchamp-io", 200),
        thread(4, "", 999),
        thread(5, "seedchamp-hash-0", 50),
    ];
    let (t, prev) = thread_groups_from_counters(&first, &HashMap::new(), true);
    assert_eq!(t.threads, Some(4));
    assert!(!t.ready, "nothing to compare with yet");
    let shown: Vec<(&str, u32)> = t.groups.iter().map(|g| (g.name.as_str(), g.count)).collect();
    assert_eq!(shown, vec![("peer i/o", 2), ("main", 1), ("piece hash", 1)]);
    assert_eq!(prev.len(), 4);

    let second = vec![
        thread(1, "seedchamp", 10),
        thread(2, "seedchamp-io", 130),
        thread(3, "seedchamp-io", 190),
        thread(5, "seedchamp-hash-0", 90),
        thread(6, "seedchamp-hash-1", 5),
    ];
    let (t, _) = thread_groups_from_counters(&second, &prev, true);
    assert!(t.ready);
    assert_eq!(t.spent, 70);
    let shown: Vec<(&str, u32, u64)> =
        t.groups.iter().map(|g| (g.name.as_str(), g.count, g.spent)).collect();
    assert_eq!(shown, vec![("piece hash", 2, 40), ("peer i/o", 2, 30), ("main", 1, 0)]);
    // Samples that follow each other at once tell no times.
    let (t, _) = thread_groups_from_counters(&second, &prev, false);
    assert!(!t.ready && t.spent == 0);
    let (t, _) = thread_groups_from_counters(&Vec::new(), &prev, true);
    assert_eq!(t.threads, None);
}

#[test]
fn a_hash_fits_only_where_it_is_whole() {
    let digest = [3u8; 20];
    assert!(digest_eq(&digest, &[3u8; 20]));
    assert!(!digest_eq(&digest, &[3u8; 19]));
    assert!(!digest_eq(&digest, &[4u8; 20]));
    assert!(sha1_eq(b"abc", &digest_of(b"abc")));
    assert!(!sha1_eq(b"abc", &digest_of(b"abd")));
    let job = || HashJob { index: 4, plen: 2, data: vec![1, 2, 3], expected: vec![] };
    assert!(matches!(
        after_check(job(), false, true),
        Verified::Reply(HashOutcome::HashFail { index: 4, plen: 2, .. })
    ));
    assert!(matches!(
        after_check(job(), true, true),
        Verified::Reply(HashOutcome::Done { index: 4, plen: 2, .. })
    ));
    assert!(matches!(
        after_check(job(), true, false),
        Verified::Write(DiskWriteJob { index: 4, plen: 2, data }) if data == vec![1, 2, 3]
    ));
}
