use seedchamp_engine::error::Error;
use seedchamp_engine::hot::{FileLayout, HotTorrent, StorageLayout};
use seedchamp_engine::net::PeerAddr;
use seedchamp_engine::peer::config::EncryptionMode;
use seedchamp_engine::runtime::disk_worker::DISK_WORKER_DEAD_STATUS;
use seedchamp_engine::session::announce::{
    activity_status, announce_order, clamp_announce_interval, clamp_min_interval, schedule_status,
    AnnounceBaseline, AnnounceEvent, AnnounceFacts, AnnounceOutcome, AnnounceSchedule,
    AnnounceWalk, TorrentAnnounce, WalkNext,
};
use seedchamp_engine::session::catalog_io::{
    reset_announce_baseline, ByteCounters, PieceHave, PieceHaveBuffer, Progress,
};
use seedchamp_engine::session::config::{
    generate_peer_id_with_prefix, peer_id_with, Config, RuntimeConfig,
};
use seedchamp_engine::session::dial::{merge_in_order, merge_outbound_peers};
use seedchamp_engine::session::dial_policy::{
    backoff_delay, clear_dial_fail, is_cooled_down, light_disconnect_cooldown, record_dial_fail,
    DialData,
};
use seedchamp_engine::session::lifecycle::{
    complete_status, quit_retry, quit_retry_status, remove_torrent_catalog, soft_delete_torrent,
    starting_status, stopped_status, sync_want_start, QuitProgress, RecheckClaims, TickState,
};
use seedchamp_engine::session::limits::{apply_session_limits, PeerBounds, SessionLimits};
use seedchamp_engine::session::peer_policy::{PeerBook, PeerGauges, SessionEnd};
use seedchamp_engine::session::rates::{
    ema_u64, steady, update_rate, RateBook, RateSample, RATE_EMA_ALPHA,
};
use seedchamp_engine::session::relocate::{
    handoff_status, next_switch, relocate_data_root, relocate_report, run_leech_cache_handoff,
    switch_payload_root, Handoff, RelocateFacts, RelocateKind, RelocateStep, SwitchNext,
    SwitchStep,
};
use seedchamp_engine::session::snapshot::{
    snapshot_busy, snapshot_inner, status_line_for_snapshot, torrent_row, wire_down, PeerCrypto,
    PeerDirection, PeerRow, SessionFrame, TorrentRow,
};
use seedchamp_engine::session::table::{PeerKey, Table};
use seedchamp_engine::staging::piece_pool::PieceBufferPool;
use seedchamp_engine::tracker::http::{tracker_user_agent, AnnounceResponse};
use seedchamp_engine::upload::UploadOptions;

const SEC: u64 = 1_000_000_000;
const MS: u64 = 1_000_000;

fn v4(o: u8, port: u16) -> PeerAddr {
    PeerAddr::V4 { ip: u32::from_be_bytes([10, 0, 0, o]), port }
}

// Dialing.

#[test]
fn backoff_grows_and_caps() {
    assert_eq!(backoff_delay(1), 30);
    assert_eq!(backoff_delay(2), 60);
    assert_eq!(backoff_delay(3), 120);
    assert_eq!(backoff_delay(20), 30 * 60);
}

#[test]
fn fail_blocks_until_next_ok() {
    let mut map: Table<PeerKey, DialData> = Table::new();
    let now = 1_000_000u64;
    let a = v4(4, 6881);
    record_dial_fail(&mut map, 1, a, now);
    assert!(is_cooled_down(&map, 1, a, now));
    assert!(!is_cooled_down(&map, 1, a, now + 31 * SEC));
}

#[test]
fn a_short_quiet_does_not_cut_a_longer_one() {
    let mut map: Table<PeerKey, DialData> = Table::new();
    let a = v4(4, 6881);
    record_dial_fail(&mut map, 1, a, 0);
    record_dial_fail(&mut map, 1, a, 0);
    light_disconnect_cooldown(&mut map, 1, a, 0);
    assert!(is_cooled_down(&map, 1, a, 60 * SEC - 1));
    assert!(!is_cooled_down(&map, 1, a, 60 * SEC));
    assert!(!is_cooled_down(&map, 2, a, 0));
    clear_dial_fail(&mut map, 1, a);
    assert!(!is_cooled_down(&map, 1, a, 0));
}

#[test]
fn manual_first_then_dedupe() {
    let manual = vec![v4(1, 6881)];
    let tracker = vec![v4(1, 6881), v4(2, 6881)];
    let cached = vec![v4(2, 6881), v4(3, 6881)];
    let dial = merge_outbound_peers(&manual, tracker, cached, 10);
    assert_eq!(dial[0], v4(1, 6881));
    assert_eq!(dial.len(), 3);
    assert!(dial.contains(&v4(2, 6881)));
    assert!(dial.contains(&v4(3, 6881)));
}

#[test]
fn respects_max() {
    let tracker: Vec<_> = (1..=20).map(|i| v4(i, 6881)).collect();
    let dial = merge_outbound_peers(&[], tracker, vec![], 5);
    assert_eq!(dial.len(), 5);
}

#[test]
fn the_dialed_order_is_drawn() {
    let tracker: Vec<_> = (1..=40).map(|i| v4(i, 6881)).collect();
    let dial = merge_outbound_peers(&[], tracker.clone(), vec![], 40);
    let mut sorted = dial.clone();
    sorted.sort_by_key(|a| format!("{a:?}"));
    let mut want = tracker.clone();
    want.sort_by_key(|a| format!("{a:?}"));
    assert_eq!(sorted, want);
    assert_ne!(dial, tracker);
}

#[test]
fn cached_addresses_come_before_the_trackers() {
    let list = merge_in_order(&[v4(9, 1)], &vec![v4(2, 1), v4(9, 1)], &vec![v4(3, 1), v4(2, 1)], 0);
    assert_eq!(list, vec![v4(9, 1)]);
    let list = merge_in_order(&[v4(9, 1)], &vec![v4(2, 1), v4(9, 1)], &vec![v4(3, 1), v4(2, 1)], 9);
    assert_eq!(list, vec![v4(9, 1), v4(2, 1), v4(3, 1)]);
}

// Rates.

#[test]
fn ema_decays_when_window_goes_quiet() {
    let mut s = RateSample::new();
    // Burst in the first second, then idle long enough that the burst
    // ages out of the 15 s window: window mean ~0, EMA decays.
    update_rate(&mut s, 0, 0, 0);
    update_rate(&mut s, 15_000_000, 0, SEC);
    assert!(s.up_bps > 100_000, "seeded high window rate, got {}", s.up_bps);
    let peak = s.up_bps;
    for sec in 2..=20 {
        update_rate(&mut s, 15_000_000, 0, SEC * sec);
    }
    assert!(s.up_bps < peak, "EMA below peak after quiet window");
    let mid = ema_u64(peak, 0, RATE_EMA_ALPHA);
    assert!(mid > 0 && mid < peak);
}

#[test]
fn ema_u64_formula() {
    assert_eq!(ema_u64(1000, 0, 150), 850);
    assert_eq!(ema_u64(0, 1000, 150), 150);
    // To the nearest, and no weight is more than the whole.
    assert_eq!(ema_u64(3, 0, 150), 3);
    assert_eq!(ema_u64(4, 0, 150), 3);
    assert_eq!(ema_u64(u64::MAX, u64::MAX, 150), u64::MAX);
    assert_eq!(ema_u64(7, 9, 5000), 9);
    assert_eq!(ema_u64(7, 9, 0), 7);
}

/// Aggregate wire_down can drop when a peer leaves; must not flash 0.
#[test]
fn counter_dip_keeps_displayed_rate() {
    let mut s = RateSample::new();
    // ~35 MiB/s down for a few seconds.
    let mut down = 0u64;
    for sec in 0..=4 {
        down = 35 * 1024 * 1024 * sec;
        update_rate(&mut s, 0, down, SEC * sec);
    }
    let before = s.down_bps;
    assert!(before > 30 * 1024 * 1024, "expected ~35MiB/s class rate, got {before}");
    // Peer disconnect style: sum drops by half, then resumes climbing.
    down /= 2;
    update_rate(&mut s, 0, down, SEC * 5);
    assert_eq!(s.down_bps, before, "single-point re-anchor must keep last EMA, not zero");
    // Resume at ~31 MiB/s from the new base.
    for sec in 6..=10 {
        down += 31 * 1024 * 1024;
        update_rate(&mut s, 0, down, SEC * sec);
        assert!(
            s.down_bps > 512,
            "must not flash idle after dip (sec={sec}, bps={})",
            s.down_bps
        );
    }
    assert!(
        s.down_bps > 20 * 1024 * 1024,
        "should re-settle near 31MiB/s class, got {}",
        s.down_bps
    );
}

#[test]
fn points_are_spaced_and_bounded() {
    let mut s = RateSample::new();
    update_rate(&mut s, 0, 0, 0);
    update_rate(&mut s, 100, 0, SEC / 10);
    assert_eq!(s.history.len(), 1);
    assert!(!s.ema_seeded);
    for i in 1..200u64 {
        update_rate(&mut s, 1000 * i, 2000 * i, SEC * i);
        assert_eq!((s.up_bps, s.down_bps), (1000, 2000));
        let first = s.history[0];
        assert!(SEC * i - first.at <= 16 * SEC);
    }
    assert_eq!(s.history.len(), 16);
    assert_eq!(steady(511), 0);
    assert_eq!(steady(512), 512);
}

#[test]
fn a_shown_rate_is_smoothed() {
    let mut s = RateSample::new();
    update_rate(&mut s, 0, 0, 0);
    update_rate(&mut s, 10_000, 100, SEC);
    // The first mean is shown as it is, less than the noise not at all.
    assert_eq!((s.up_bps, s.down_bps, s.ema_seeded), (10_000, 0, true));
    // A mean of 25000 over two seconds: 150 thousandths of it and the rest of 10000.
    update_rate(&mut s, 50_000, 100, 2 * SEC);
    assert_eq!((s.up_bps, s.down_bps), (12_250, 0));
    // What is left of a rate is not shown once it is noise.
    s.up_bps = 600;
    for sec in 3..40u64 {
        let before = s.up_bps;
        update_rate(&mut s, 50_000, 100, SEC * sec);
        if sec > 18 && before > 0 {
            assert!(s.up_bps < before);
        }
    }
    assert_eq!(s.up_bps, 0);
}

// Settings.

fn from_config(c: &Config) -> RuntimeConfig {
    RuntimeConfig::from_config(
        c,
        PeerAddr::V4 { ip: 0, port: 6881 },
        EncryptionMode::PreferPlain,
        UploadOptions::default(),
    )
}

#[test]
fn maps_buffers_limits_and_tracker() {
    let mut c = Config::default();
    c.network.send_buffer_bytes = 4 * 1024 * 1024;
    c.network.recv_buffer_bytes = 2 * 1024 * 1024;
    c.limits.min_peers = 40;
    c.limits.max_peers = 8;
    c.limits.seed_dial_peers = true;
    c.limits.max_connections = 100;
    c.limits.redundant_seed_idle_secs = 0;
    c.limits.useless_peer_idle_secs = 90;
    c.tracker.max_concurrent_per_host = 3;
    c.tracker.startup_stagger_ms = 10;
    c.tracker.max_inflight_announces = 4;
    c.tracker.numwant = 80;
    let rt = from_config(&c);
    assert_eq!(rt.send_buffer_bytes, 4 * 1024 * 1024);
    assert_eq!(rt.recv_buffer_bytes, 2 * 1024 * 1024);
    assert_eq!(rt.max_peers, 8);
    assert_eq!(rt.min_peers, 8); // clamped to max
    assert!(rt.seed_dial_peers);
    assert_eq!(rt.max_connections, 100);
    assert_eq!(rt.redundant_seed_idle_secs, 0);
    assert_eq!(rt.useless_peer_idle_secs, 90);
    assert_eq!(rt.max_concurrent_per_host, 3);
    assert_eq!(rt.startup_stagger_ms, 10);
    assert_eq!(rt.max_inflight_announces, 4);
    assert_eq!(rt.numwant, 80);
}

#[test]
fn clamps_zero_limits_to_one() {
    let mut c = Config::default();
    c.limits.min_peers = 0;
    c.limits.max_peers = 0;
    c.limits.max_connections = 0;
    let rt = from_config(&c);
    assert_eq!(rt.max_peers, 1);
    assert_eq!(rt.min_peers, 0); // min may be 0; max floor is 1
    assert_eq!(rt.max_connections, 1);
}

#[test]
fn peer_limit_defaults() {
    let rt = from_config(&Config::default());
    assert_eq!(rt.min_peers, 20);
    assert_eq!(rt.max_peers, 40);
    assert!(!rt.seed_dial_peers);
}

#[test]
fn peer_id_prefix_and_user_agent() {
    let c = Config::default();
    let rt = from_config(&c);
    assert_eq!(rt.peer_id_prefix, b"-sc0001-");
    assert_eq!(rt.http_user_agent, tracker_user_agent());
    assert_eq!(rt.ltep_client, "seedchamp 1");
    assert_eq!(rt.http_user_agent, "seedchamp/1");

    // Explicit overrides for peer id prefix, UA, and LTEP.
    let mut c = Config::default();
    c.network.peer_id_prefix = "-sc9999-".into();
    c.network.http_user_agent = "seedchamp-test/9".into();
    c.network.ltep_client = "custom-client 9".into();
    let rt = from_config(&c);
    assert_eq!(rt.peer_id_prefix, b"-sc9999-");
    assert_eq!(rt.http_user_agent, "seedchamp-test/9");
    assert_eq!(rt.ltep_client, "custom-client 9");
}

#[test]
fn nothing_is_served_where_nothing_is_written() {
    let mut rt = RuntimeConfig::default();
    assert!(rt.outbound_peer([1; 20]).allow_upload);
    rt.send_buffer_bytes = 7;
    rt.discard_writes = true;
    let out = rt.outbound_peer([1; 20]);
    assert!(!out.allow_upload);
    assert_eq!(out.send_buffer_bytes, 7);
    let inb = rt.inbound_peer([1; 20]);
    assert!(!inb.allow_upload);
    assert_eq!(inb.send_buffer_bytes, 0);
    assert_eq!(inb.listen_port, 6881);
}

#[test]
fn live_limits_are_clamped() {
    let lim = SessionLimits { max_upload_bps: 0, max_download_bps: 0, min_peers: 9, max_peers: 4 };
    assert_eq!(apply_session_limits(&lim), PeerBounds { min_peers: 4, max_peers: 4 });
    assert_eq!(PeerBounds::new(0, 0), PeerBounds { min_peers: 1, max_peers: 1 });
}

// Announces.

#[test]
fn intervals_are_clamped() {
    assert_eq!(clamp_announce_interval(0), 1800);
    assert_eq!(clamp_announce_interval(1), 60);
    assert_eq!(clamp_announce_interval(900), 900);
    assert_eq!(clamp_announce_interval(999_999), 21_600);
    assert_eq!(clamp_min_interval(0), 600);
    assert_eq!(clamp_min_interval(1), 300);
    assert_eq!(clamp_min_interval(999_999), 14_400);
}

#[test]
fn started_then_completed_then_nothing() {
    let mut s = AnnounceSchedule::new();
    assert_eq!(s.begin(7, 0), Some(AnnounceEvent::Started));
    // The last piece comes while the start is being announced.
    assert!(!s.maybe_request_completed_announce(7, true, true, 5));
    assert!(s.finish(7, Some(AnnounceEvent::Started), true, 900, Some(600), 10));
    assert_eq!(s.begin(7, 11), Some(AnnounceEvent::Completed));
    // No second one while it runs.
    assert!(!s.maybe_request_completed_announce(7, true, true, 12));
    assert_eq!(s.begin(7, 12), None);
    // It failed: it is told again, after a while.
    assert!(!s.finish(7, Some(AnnounceEvent::Completed), false, 900, None, 20));
    let e = *s.entries.get(&7).unwrap();
    assert_eq!(e.next_due, 20 + 300 * SEC);
    assert_eq!(s.begin(7, 400 * SEC), Some(AnnounceEvent::Completed));
    assert!(!s.finish(7, Some(AnnounceEvent::Completed), true, 900, Some(600), 500 * SEC));
    let e = *s.entries.get(&7).unwrap();
    assert_eq!(e.next_due, (500 + 900) * SEC);
    assert_eq!(s.begin(7, 2000 * SEC), None);
    assert_eq!(AnnounceEvent::Stopped.as_str(), "stopped");
}

#[test]
fn a_torrent_complete_at_its_start_is_not_announced_as_completed() {
    let mut s = AnnounceSchedule::new();
    s.begin(7, 0);
    s.finish(7, Some(AnnounceEvent::Started), true, 900, Some(600), 10);
    assert!(!s.maybe_request_completed_announce(7, false, true, 12));
    assert!(!s.maybe_request_completed_announce(7, true, false, 12));
    assert!(!s.maybe_request_completed_announce(8, true, true, 12));
    assert!(s.maybe_request_completed_announce(7, true, true, 12));
}

#[test]
fn starving_keeps_the_minimum_interval() {
    let mut s = AnnounceSchedule::new();
    s.begin(7, 0);
    s.finish(7, Some(AnnounceEvent::Started), true, 1800, Some(300), 0);
    assert!(!s.starve(7, 600 * SEC - 1));
    assert!(s.starve(7, 600 * SEC));
    assert!(!s.starve(7, 600 * SEC + 1), "it is due already");
    assert!(!s.starve(8, 600 * SEC), "it is not known");
}

#[test]
fn first_announces_are_staggered_and_polled_in_order() {
    let mut s = AnnounceSchedule::new();
    for id in [3, 1, 2] {
        s.hold(id, 0);
    }
    assert!(s.poll_announce_due(&vec![1, 2, 3], 0, SEC).is_empty());
    s.batch_announce_hot(&vec![3, 2, 1], 50, SEC);
    let at = SEC + 100 * MS;
    assert_eq!(s.entries.get(&1).unwrap().next_due, at);
    assert_eq!(s.poll_announce_due(&vec![1, 2, 3], 2, at), vec![3, 2]);
    assert!(s.poll_announce_due(&vec![1, 2, 3], 2, at).is_empty(), "two are running");
    assert!(!s.kick_announce_now(3, true, at), "it is running");
    s.finish(3, None, true, 60, None, at);
    assert_eq!(s.poll_announce_due(&vec![1, 2, 3], 2, at), vec![1]);
    // A torrent that comes later is due at once.
    s.hold(9, 2 * SEC);
    assert_eq!(s.poll_announce_due(&vec![9], 0, 2 * SEC), vec![9]);
    s.remove(9);
    assert!(s.kick_announce_now(9, true, 2 * SEC));
    assert!(!s.kick_announce_now(10, false, 2 * SEC), "it is not active");
    s.restart(9, 3 * SEC);
    assert_eq!(s.entries.get(&9), Some(&TorrentAnnounce::fresh(3 * SEC)));
    assert_eq!(
        schedule_status("startup", 3, 50, 2),
        "announce schedule (startup): 3 torrent(s), stagger=50ms, ~0s spread, max_per_host=2"
    );
}

fn reply(failure: Option<&str>) -> AnnounceResponse {
    AnnounceResponse {
        interval: 10,
        min_interval: 10,
        peers: vec![v4(1, 1)],
        failure: failure.map(|f| f.to_string()),
        complete: Some(4),
        incomplete: None,
    }
}

fn tiers(t: &[&[&str]]) -> Vec<Vec<String>> {
    t.iter().map(|u| u.iter().map(|s| s.to_string()).collect()).collect()
}

#[test]
fn trackers_are_asked_in_order_until_one_takes_the_announce() {
    let t = tiers(&[&["http://a/", " HTTP://A/ ", ""], &["udp://b:1", "http://c/"]]);
    assert_eq!(announce_order(&t), vec!["http://a/", "udp://b:1", "http://c/"]);
    let (mut w, next) = AnnounceWalk::start(&t);
    assert!(matches!(next, WalkNext::Ask(0)));
    let facts = AnnounceFacts {
        infohash: [1; 20],
        peer_id: [2; 20],
        port: 6881,
        uploaded: 1,
        downloaded: 2,
        left: 3,
        event: Some(AnnounceEvent::Started),
        numwant: 50,
        user_agent: "ua".into(),
        key: 9,
    };
    let req = w.request(1, &facts);
    assert_eq!(req.announce_url, "udp://b:1");
    assert_eq!(req.event, Some("started"));
    assert_eq!((req.uploaded, req.downloaded, req.left, req.numwant), (1, 2, 3, 50));
    assert!(matches!(w.answered(Err(Error::Msg("down".into()))), WalkNext::Ask(1)));
    let WalkNext::Done(o) = w.answered(Ok(reply(None))) else {
        panic!("the second tracker took it");
    };
    assert!(o.ok);
    assert_eq!((o.interval_secs, o.min_interval_secs), (60, 300));
    assert_eq!(o.last_url.as_deref(), Some("udp://b:1"));
    let n = o.notes(false);
    assert!(n.new_peers && n.store);
    assert_eq!(n.swarm, Some((Some(4), None)));
    let tr = n.tracker.unwrap();
    assert_eq!((tr.peers, tr.status.as_str(), tr.success), (Some(1), "ok", true));
}

#[test]
fn an_announce_that_nobody_takes_fails_with_the_last_answer() {
    let (mut w, _) = AnnounceWalk::start(&tiers(&[&["http://a/"], &["http://b/"]]));
    assert!(matches!(w.answered(Ok(reply(Some("banned")))), WalkNext::Ask(1)));
    let WalkNext::Done(o) = w.answered(Err(Error::Msg("timed out".into()))) else {
        panic!("no tracker is left");
    };
    assert!(!o.ok && o.peers.is_empty());
    let n = o.notes(false);
    let tr = n.tracker.unwrap();
    assert_eq!((tr.url.as_str(), tr.status.as_str()), ("http://b/", "timed out"));
    assert_eq!((tr.seeders, tr.interval_secs, tr.success), (None, None, false));
    // Without trackers there is nothing to fail.
    let (_, next) = AnnounceWalk::start(&Vec::new());
    assert!(matches!(next, WalkNext::Done(o) if o.ok));
    let (_, next) = AnnounceWalk::start(&tiers(&[&[" "]]));
    assert!(matches!(next, WalkNext::Done(o) if !o.ok
        && o.last_url.is_none()
        && o.peers.is_empty()
        && (o.interval_secs, o.min_interval_secs) == (1800, 600)));
    assert!(!AnnounceOutcome::empty_ok().notes(false).store);
    assert!(AnnounceOutcome::empty_ok().notes(true).store);
}

#[test]
fn an_announce_tells_what_is_configured_and_counted() {
    let layout = StorageLayout {
        data_root: "d".into(),
        piece_length: 32,
        piece_count: 3,
        total_size: 80,
        files: vec![FileLayout { path: "a".into(), size: 80, offset: 0, priority: 1 }],
    };
    let mut t = HotTorrent::new_empty(4, [7u8; 20], "n".into(), layout, vec![0u8; 60]);
    t.mark_have(0);
    t.mark_have(2);
    let mut cfg = RuntimeConfig::default();
    cfg.numwant = 33;
    let base = AnnounceBaseline { uploaded: 100, completed: 16, incomplete_at_start: true };
    let f = AnnounceFacts::of_torrent(
        &cfg, [1; 20], &t, 9, 150, &base, Some(AnnounceEvent::Completed),
    );
    assert_eq!((f.infohash, f.peer_id, f.key, f.numwant), ([7; 20], [1; 20], 9, 33));
    assert_eq!((f.uploaded, f.downloaded, f.left), (50, 32, 32));
    assert_eq!((f.port, f.event), (cfg.listen.port(), Some(AnnounceEvent::Completed)));
    assert_eq!(f.user_agent, cfg.http_user_agent);
}

#[test]
fn what_a_torrent_does_is_told() {
    assert_eq!(activity_status(3, false, false), "#3 leeching");
    assert_eq!(activity_status(3, true, true), "#3 seeding");
    assert_eq!(activity_status(-3, true, false), "#-3 seeding (wanted done)");
}

// What is stored.

#[test]
fn pieces_are_stored_at_intervals_and_none_is_lost() {
    let mut b = PieceHaveBuffer::new();
    b.queue_piece_have(1, 0, 16);
    b.queue_piece_have(2, 5, 16);
    b.queue_piece_have(1, 1, 8);
    let batch = b.flush_piece_haves(Some(1), true, false, 100);
    assert_eq!(
        batch,
        vec![
            PieceHave { torrent_id: 1, index: 0, len: 16 },
            PieceHave { torrent_id: 1, index: 1, len: 8 }
        ]
    );
    // Storing failed.
    b.put_back(batch);
    let all = b.flush_piece_haves(None, false, false, 200);
    assert_eq!(all.len(), 3);
    b.stored(200);
    b.queue_piece_have(1, 2, 16);
    assert!(b.flush_piece_haves(None, false, false, 200 + 10 * SEC - 1).is_empty());
    assert_eq!(b.flush_piece_haves(None, false, true, 200 + 10 * SEC - 1).len(), 1);
    b.queue_piece_have(1, 3, 16);
    assert_eq!(b.flush_piece_haves(None, false, false, 200 + 10 * SEC).len(), 1);
}

#[test]
fn sent_bytes_never_go_down() {
    let mut c = ByteCounters::new();
    c.seed_byte_counters(1, 100);
    c.on_upload(1, 5);
    c.seed_byte_counters(1, 50);
    assert_eq!(c.raw_uploaded(1), 105);
    c.ensure_byte_counters(2);
    assert_eq!(c.flush_uploaded(), vec![(1, 105)]);
    assert_eq!(c.remove(1), 105);
    assert_eq!(c.raw_uploaded(1), 0);
}

#[test]
fn totals_are_told_since_the_start() {
    let b = reset_announce_baseline(105, Some(Progress { completed: 64, complete: false }));
    assert!(b.incomplete_at_start);
    assert_eq!(b.since(105, 64), (0, 0));
    assert_eq!(b.since(110, 80), (5, 16));
    assert_eq!(b.since(0, 0), (0, 0));
    assert!(!reset_announce_baseline(1, None).incomplete_at_start);
    assert_eq!(AnnounceBaseline::none().since(3, 4), (3, 4));
}

// Peers.

fn book(max_peers: usize, max_connections: usize) -> PeerBook {
    PeerBook::new(PeerBounds::new(2, max_peers), false, max_connections)
}

#[test]
fn an_address_is_dialed_once_and_within_the_limit() {
    let mut b = book(2, 10);
    assert!(b.spawn_outbound(1, 8, v4(1, 1), 0).is_none(), "the torrent does not run");
    assert!(!b.start_torrent(1));
    let p = b.spawn_outbound(1, 8, v4(1, 1), 0).unwrap();
    assert!(b.spawn_outbound(1, 8, v4(1, 1), 0).is_none(), "it is being dialed");
    let q = b.spawn_outbound(1, 8, v4(2, 1), 0).unwrap();
    assert_ne!(p, q);
    assert!(b.spawn_outbound(1, 8, v4(3, 1), 0).is_none(), "no room is left");
    assert_eq!(b.peer_slots_remaining(1), 0);
    assert!(b.begin_outbound(p, 1, v4(1, 1), false));
    // A session that ended at once counts as a failure.
    let ended = 5 * SEC - 1;
    b.end_outbound(p, 1, v4(1, 1), SessionEnd::Closed, 0, ended);
    assert_eq!(b.peer_count_for_torrent(1), 1);
    assert!(b.spawn_outbound(1, 8, v4(1, 1), ended + 30 * SEC - 1).is_none());
    let p = b.spawn_outbound(1, 8, v4(1, 1), ended + 30 * SEC).unwrap();
    // A long one makes up for it.
    b.end_outbound(p, 1, v4(1, 1), SessionEnd::Closed, 0, 30 * SEC);
    assert!(b.spawn_outbound(1, 8, v4(1, 1), 30 * SEC).is_some());
    assert_eq!((b.connects, b.disconnects), (1, 2));
}

#[test]
fn ends_of_sessions_decide_the_next_dial() {
    let key = v4(1, 1);
    for (end, at, quiet_until) in [
        (SessionEnd::Failed, 60 * SEC, 90 * SEC),
        (SessionEnd::Idle, 60 * SEC, 90 * SEC),
        (SessionEnd::Closed, 10 * SEC, 40 * SEC),
    ] {
        let mut b = book(4, 10);
        b.start_torrent(1);
        let p = b.spawn_outbound(1, 8, key, 0).unwrap();
        b.end_outbound(p, 1, key, end, 0, at);
        assert!(is_cooled_down(&b.cooldown, 1, key, quiet_until - 1), "{end:?}");
        assert!(!is_cooled_down(&b.cooldown, 1, key, quiet_until), "{end:?}");
    }
}

#[test]
fn a_stopped_torrent_loses_its_peers() {
    let mut b = book(4, 10);
    b.start_torrent(1);
    b.start_torrent(2);
    let p = b.spawn_outbound(1, 8, v4(1, 1), 0).unwrap();
    let q = b.spawn_outbound(2, 8, v4(1, 1), 0).unwrap();
    assert_eq!(b.stop_torrent(1), vec![p]);
    assert!(!b.begin_outbound(p, 1, v4(1, 1), false));
    assert!(b.begin_outbound(q, 2, v4(1, 1), false));
    assert!(!b.already_have_peer(1, v4(1, 1)));
    assert!(b.already_have_peer(2, v4(1, 1)));
    b.activate_torrent(1);
    assert!(b.spawn_outbound(1, 8, v4(1, 1), 0).is_some());
}

#[test]
fn incoming_peers_are_admitted_within_the_limits() {
    let mut b = book(1, 2);
    assert!(b.admits_inbound());
    let p = b.begin_inbound(v4(1, 5000), 0);
    let q = b.begin_inbound(v4(2, 5000), 0);
    assert!(!b.admits_inbound());
    assert!(b.on_bound(p, 1));
    assert!(!b.on_bound(q, 1), "the torrent is full");
    assert_eq!(b.peers.get(p).unwrap().direction, PeerDirection::Inbound);
    b.end_inbound(p);
    assert!(b.on_bound(q, 1));
    assert!(b.admits_inbound());
}

#[test]
fn peers_are_refilled_until_enough_help() {
    let mut b = book(5, 10);
    b.start_torrent(1);
    assert!(!b.needs_peer_refill(1, false), "seeds do not dial");
    let plan = b.peer_refill_plan(1, true).unwrap();
    assert_eq!((plan.min_peers, plan.useful, plan.slots), (2, 0, 5));
    let list = b.refill_peers_with_cache(1, true, &[v4(1, 1)], vec![v4(2, 1)], vec![v4(3, 1)], 0);
    assert_eq!(list, vec![v4(1, 1), v4(3, 1), v4(2, 1)]);
    for a in [v4(1, 1), v4(2, 1)] {
        let p = b.spawn_outbound(1, 8, a, 0).unwrap();
        let mut g = PeerGauges::at_start(true, 8);
        g.peer_have = 3;
        g.peer_choking = false;
        b.observe(p, g);
    }
    assert_eq!(b.useful_peer_count(1, true), 2);
    assert_eq!(b.useful_peer_count(1, false), 0);
    assert!(!b.starves(1, true));
    assert!(b.refill_peers_with_cache(1, true, &[v4(9, 1)], vec![], vec![], 0).is_empty());
}

// What is shown.

fn known_row(uploaded: u64) -> TorrentRow {
    let mut a = TorrentAnnounce::fresh(9_500 * MS);
    a.in_flight = true;
    TorrentRow {
        id: 1,
        name: "t".into(),
        complete: false,
        have_count: 3,
        piece_count: 8,
        left: 50,
        lifetime_uploaded: uploaded,
        completed_bytes: 40,
        baseline: AnnounceBaseline { uploaded: 10, completed: 15, incomplete_at_start: true },
        announce: Some(a),
        swarm: (Some(9), None),
        staging: Some((1, 4, 64)),
        staging_claims: 1,
    }
}

fn frame() -> SessionFrame {
    SessionFrame {
        listen: "0.0.0.0:6881".into(),
        peer_id: [0xab; 20],
        running: true,
        status_line: status_line_for_snapshot(false, Some("#1 leeching".into())),
    }
}

fn peer_row() -> PeerRow {
    PeerRow { torrent_name: "t".into(), client: "qBittorrent".into() }
}

#[test]
fn a_snapshot_shows_torrents_peers_and_totals() {
    let mut b = book(5, 10);
    b.start_torrent(1);
    let p = b.spawn_outbound(1, 8, v4(1, 1), SEC).unwrap();
    let mut g = PeerGauges::at_start(true, 8);
    g.down = 77;
    g.crypto = PeerCrypto::Rc4;
    b.observe(p, g);
    assert_eq!(wire_down(&b, 1), 77);
    assert_eq!(wire_down(&b, 2), 0);
    let mut rates = RateBook::new();
    let rows = vec![known_row(30)];
    let s = snapshot_inner(frame(), rows, &b, vec![peer_row()], &mut rates, 7 * SEC);
    assert!(!s.lock_busy);
    assert_eq!(s.peer_id_hex, "ab".repeat(20));
    assert_eq!(s.status_line, "#1 leeching");
    let t = &s.torrents[0];
    assert_eq!((t.peer_count, t.session_uploaded, t.session_downloaded), (1, 20, 25));
    assert_eq!((t.announce_in_secs, t.announce_in_flight), (Some(2), true));
    assert_eq!((t.staging_used, t.staging_cap, t.staging_limit_bytes), (Some(1), Some(4), Some(64)));
    assert_eq!((s.total_session_up, s.total_session_down), (20, 25));
    let i = &s.peers[0];
    assert_eq!((i.id, i.downloaded, i.connected_secs), (p, 77, 6));
    assert_eq!((i.crypto.as_str(), i.crypto.wire_tag()), ("rc4", '4'));
    assert_eq!(i.client, "qBittorrent");
    // No rate is known after one look.
    assert_eq!((t.upload_bps, t.download_bps, s.total_upload_bps), (0, 0, 0));
    assert_eq!((i.upload_bps, i.download_bps), (0, 0));
}

#[test]
fn a_snapshot_shows_rates() {
    let mut b = book(5, 10);
    b.start_torrent(1);
    let p = b.spawn_outbound(1, 8, v4(1, 1), 0).unwrap();
    let q = b.begin_inbound(v4(2, 1), 0);
    let mut rates = RateBook::new();
    let rows = vec![known_row(0)];
    snapshot_inner(frame(), rows, &b, vec![peer_row(), peer_row()], &mut rates, 0);
    let mut g = PeerGauges::at_start(true, 8);
    g.down = 5_000;
    g.up = 600;
    b.observe(p, g);
    // This peer belongs to no torrent yet.
    b.observe(q, g);
    let rows = vec![known_row(4_000)];
    let s = snapshot_inner(frame(), rows, &b, vec![peer_row(), peer_row()], &mut rates, 2 * SEC);
    let t = &s.torrents[0];
    // A torrent's rates are those of what it ever sent and of what its peers brought.
    assert_eq!((t.peer_count, t.upload_bps, t.download_bps), (1, 2_000, 2_500));
    // In all, what was sent before the start does not count.
    assert_eq!((s.total_upload_bps, s.total_download_bps), (1_995, 2_500));
    for i in &s.peers {
        assert_eq!((i.upload_bps, i.download_bps), (0, 2_500));
    }
    // Peers that are gone are forgotten.
    assert_eq!(rates.peers.len(), 2);
    b.end_inbound(q);
    let rows = vec![known_row(4_000)];
    snapshot_inner(frame(), rows, &b, vec![peer_row()], &mut rates, 3 * SEC);
    assert_eq!(rates.peers.len(), 1);
}

#[test]
fn a_torrent_is_known_by_its_pieces_and_buffers() {
    let layout = StorageLayout {
        data_root: "d".into(),
        piece_length: 32,
        piece_count: 3,
        total_size: 80,
        files: vec![
            FileLayout { path: "a".into(), size: 64, offset: 0, priority: 1 },
            FileLayout { path: "b".into(), size: 16, offset: 64, priority: 0 },
        ],
    };
    let mut t = HotTorrent::new_empty(4, [0u8; 20], "n".into(), layout, vec![0u8; 60]);
    t.mark_have(0);
    assert!(t.try_claim_piece(1, false));
    let mut pool = PieceBufferPool::new(32, 128);
    pool.try_acquire();
    let base = AnnounceBaseline::none();
    let row = torrent_row(&t, Some(&pool), 9, base, None, (None, Some(2)));
    assert_eq!((row.id, row.name.as_str(), row.complete), (4, "n", false));
    assert_eq!((row.have_count, row.piece_count, row.staging_claims), (1, 3, 1));
    assert_eq!((row.completed_bytes, row.left, row.lifetime_uploaded), (32, 48, 9));
    assert_eq!((row.staging, row.swarm), (Some((1, 4, 128)), (None, Some(2))));
    // The last piece is not wanted: complete as shown, but not all is there.
    t.mark_have(1);
    let row = torrent_row(&t, None, 9, base, None, (None, None));
    assert_eq!((row.complete, row.left, row.staging), (true, 16, None));
}

#[test]
fn a_file_that_is_switched_on_is_wanted() {
    let layout = StorageLayout {
        data_root: "d".into(),
        piece_length: 32,
        piece_count: 3,
        total_size: 80,
        files: vec![
            FileLayout { path: "a".into(), size: 40, offset: 0, priority: 1 },
            FileLayout { path: "b".into(), size: 40, offset: 40, priority: 0 },
        ],
    };
    let mut t = HotTorrent::new_empty(4, [0u8; 20], "n".into(), layout, vec![0u8; 60]);
    t.mark_have(0);
    t.mark_have(1);
    assert!(!t.wants_piece(2));
    assert!(t.is_download_complete());
    t.set_file_priority(1, 2);
    assert!(t.wants_piece(2));
    assert!(!t.is_download_complete());
    assert_eq!(t.layout().files[1].priority, 2);
    // The second piece has bytes of both files.
    t.set_file_priority(0, 0);
    assert!(!t.wants_piece(0));
    assert!(t.wants_piece(1));
    // There is no such file.
    t.set_file_priority(7, 1);
    assert!(!t.wants_piece(0));
}

#[test]
fn a_busy_session_shows_its_status_alone() {
    let frame = SessionFrame {
        listen: "l".into(),
        peer_id: [0x0f; 20],
        running: false,
        status_line: status_line_for_snapshot(true, Some("fine".into())),
    };
    let s = snapshot_busy(frame);
    assert!(s.lock_busy && s.torrents.is_empty() && s.peers.is_empty());
    assert_eq!(s.status_line, DISK_WORKER_DEAD_STATUS);
    assert_eq!(s.peer_id_hex, "0f".repeat(20));
    assert_eq!(status_line_for_snapshot(false, None), "");
    for c in [PeerCrypto::Unknown, PeerCrypto::Plain, PeerCrypto::PePlain, PeerCrypto::Rc4] {
        assert_eq!(PeerCrypto::from_u8(c.to_u8()), c);
    }
}

// Lifecycle.

#[test]
fn torrents_that_are_checked_or_run_stay() {
    let mut r = RecheckClaims::new();
    assert!(r.try_begin_recheck(4));
    assert!(!r.try_begin_recheck(4));
    assert!(r.recheck_in_progress(4));
    assert_eq!(
        soft_delete_torrent(4, r.recheck_in_progress(4), false).unwrap_err().to_string(),
        "torrent #4 recheck in progress; wait or cancel before delete"
    );
    assert_eq!(
        remove_torrent_catalog(4, true, true).unwrap_err().to_string(),
        "torrent #4 recheck in progress; wait or cancel before remove"
    );
    r.end_recheck(4);
    assert_eq!(
        remove_torrent_catalog(4, r.recheck_in_progress(4), true).unwrap_err().to_string(),
        "torrent #4 is started"
    );
    assert!(soft_delete_torrent(4, false, false).is_ok());
    assert_eq!(starting_status(4), "#4 starting \u{2014} announcing\u{2026}");
    assert_eq!(stopped_status(4), "stopped #4");
    assert_eq!(complete_status(4), "#4 complete \u{2014} seeding");
}

#[test]
fn work_is_done_at_its_intervals() {
    let mut t = TickState::new(0);
    let w = t.tick(0);
    assert!(w.announce_poll && w.sync && !w.summary);
    let w = t.tick(2 * SEC - 1);
    assert!(!w.announce_poll && !w.sync);
    assert!(t.tick(2 * SEC).announce_poll);
    assert!(t.tick(5 * SEC).sync);
    assert!(t.tick(60 * SEC).summary);
}

#[test]
fn goodbyes_go_on_until_they_are_taken() {
    let mut q = QuitProgress::new(2);
    assert_eq!(q.status("\u{2026}"), "quitting \u{2014} stopped announce 0/2\u{2026}");
    q.taken();
    assert!(!q.finished());
    q.taken();
    assert!(q.finished());
    assert_eq!(q.status(" done"), "quitting \u{2014} stopped announce 2/2 done");
    assert_eq!(quit_retry(1), (2, 1));
    assert_eq!(quit_retry(30), (31, 10));
    assert_eq!(
        quit_retry_status(3, 12),
        "quitting \u{2014} #3 stopped announce failed (try 12) \u{2014} retry 10s"
    );
}

#[test]
fn files_are_moved_step_by_step() {
    let facts = RelocateFacts {
        empty: false,
        home_set: false,
        at_home: false,
        home_is_new: false,
        at_new: false,
        hot: true,
    };
    assert_eq!(relocate_data_root(facts).unwrap(), RelocateStep::MoveLive);
    let staged = RelocateFacts { home_set: true, ..facts };
    assert_eq!(relocate_data_root(staged).unwrap(), RelocateStep::RetargetHome);
    let r = relocate_report(RelocateStep::RetargetHome, "/stage", "/new");
    assert_eq!(r.kind, RelocateKind::RetargetHome);
    assert_eq!((r.data_root.as_str(), r.note.as_str()), ("/stage", "home \u{2192} /new (still staging)"));
    let r = relocate_report(RelocateStep::MoveCold, "/old", "/new");
    assert_eq!((r.data_root.as_str(), r.note.as_str()), ("/new", "data \u{2192} /new"));
    assert_eq!(
        relocate_data_root(RelocateFacts { empty: true, ..facts }).unwrap_err().to_string(),
        "relocate: empty path"
    );
    let mut step = switch_payload_root(false, true);
    let mut seen = Vec::new();
    while let SwitchNext::Do(s) = step {
        seen.push(s);
        step = next_switch(s, true, true, true);
    }
    assert_eq!(
        seen,
        vec![
            SwitchStep::Transfer,
            SwitchStep::StoreRoot,
            SwitchStep::SwapLive,
            SwitchStep::Cleanup,
            SwitchStep::ClearHome
        ]
    );
    assert_eq!(step, SwitchNext::Done);
    assert_eq!(next_switch(SwitchStep::StoreRoot, false, true, true), SwitchNext::Fail);
    assert_eq!(next_switch(SwitchStep::Cleanup, false, true, false), SwitchNext::Done);
    assert_eq!(run_leech_cache_handoff(false, true), Handoff::Move);
    assert_eq!(run_leech_cache_handoff(false, false), Handoff::Wait);
    assert_eq!(
        handoff_status(5, Some(&Error::Msg("disk full".into()))),
        "#5 handoff failed: disk full"
    );
}

#[test]
fn torrents_that_run_are_not_activated_again() {
    assert_eq!(sync_want_start(&vec![3, 1, 2], &vec![1, 9]), vec![3, 2]);
    assert!(sync_want_start(&vec![1], &vec![1]).is_empty());
}

#[test]
fn a_peer_id_is_a_prefix_and_random_bytes() {
    let rest = [b'r'; 20];
    assert_eq!(&peer_id_with(b"-sc0001-", &rest), b"-sc0001-rrrrrrrrrrrr");
    assert_eq!(peer_id_with(b"", &rest), rest);
    assert_eq!(peer_id_with(&[b'p'; 30], &rest), [b'p'; 20]);
    let (a, b) = (generate_peer_id_with_prefix(b"-sc"), generate_peer_id_with_prefix(b"-sc"));
    assert_eq!(&a[..3], b"-sc");
    assert_ne!(a, b);
}
