use seedchamp_engine::bencode::{decode, decode_full, dict_get_bytes, dict_get_int, dict_get_str};
use seedchamp_engine::bitfield::{
    bitfield_get, bitfield_set, bitfield_size_bytes, count_have_bits, empty_bitfield,
};
use seedchamp_engine::bytes::{
    bytes_eq, copy_range, push_all, push_be16, push_be32, push_be64, read_be16, read_be32,
    read_be64,
};
use seedchamp_engine::error::Error;
use seedchamp_engine::hot::{FileLayout, HotTorrent, StorageLayout};
use seedchamp_engine::net::{Ip, PeerAddr};
use seedchamp_engine::peer::config::EncryptionMode;
use seedchamp_engine::peer::download::PeerDownload;
use seedchamp_engine::peer::duplex::{OutCmd, WriterMsg};
use seedchamp_engine::peer::helpers::push_suggest;
use seedchamp_engine::runtime::disk_worker::inflight::{next_step, LoopStep};
use seedchamp_engine::runtime::disk_worker::{clamp_depth, RestartDecision, RestartState};
use seedchamp_engine::session::config::Config;
use seedchamp_engine::session::dial_policy::{
    is_cooled_down, record_dial_soft_fail, record_idle_close, DialData,
};
use seedchamp_engine::session::lifecycle::file_priority_set;
use seedchamp_engine::session::table::{PeerKey, Table};
use seedchamp_engine::staging::piece_pool::PieceBufferPool;
use seedchamp_engine::staging::pool::{ActivePiece, StagingPool, BLOCK_SIZE};
use seedchamp_engine::text::{
    chars_of, parse_number, push_decimal, push_signed, same_text, starts_with, text_of, to_lower,
    trim,
};
use seedchamp_engine::tracker::http::{percent_encode_bytes, AnnounceRequest};
use seedchamp_engine::tracker::limit::host_key_from;
use seedchamp_engine::tracker::udp::{
    announce_packet, build_announce_packet, fresh_transaction, UdpExchange, UdpNext,
};
use seedchamp_engine::wire::messages::PieceHeader;
use std::collections::VecDeque;

#[test]
fn bencoded_values_end_where_they_should() {
    assert_eq!(decode(b"i42erest"), Some(4));
    assert_eq!(decode(b"4:spamX"), Some(6));
    assert_eq!(decode(b"d1:ai1e1:bli2ei3eee"), Some(19));
    assert_eq!(decode(b"5:spam"), None);
    assert_eq!(decode(b""), None);
    assert!(decode_full(b"le"));
    assert!(!decode_full(b"lex"));
}

#[test]
fn bencoded_dictionaries_are_read() {
    let d = b"d1:ai-7e1:b4:spam1:c2:\xff\xfee";
    assert_eq!(dict_get_int(d, b"a"), Some(-7));
    assert_eq!(dict_get_int(d, b"b"), None);
    assert_eq!(dict_get_bytes(d, b"b"), Some(b"spam".to_vec()));
    assert_eq!(dict_get_str(d, b"b").as_deref(), Some("spam"));
    // Bytes that are no text.
    assert_eq!(dict_get_bytes(d, b"c"), Some(vec![0xff, 0xfe]));
    assert_eq!(dict_get_str(d, b"c"), None);
    assert_eq!(dict_get_int(d, b"z"), None);
    assert_eq!(dict_get_int(b"i1e", b"a"), None);
}

#[test]
fn numbers_are_written_and_read_back() {
    let mut v = Vec::new();
    push_be16(&mut v, 0x0102);
    push_be32(&mut v, 0x0304_0506);
    push_be64(&mut v, 0x0708_090a_0b0c_0d0e);
    assert_eq!(v, (1..=14).collect::<Vec<u8>>());
    assert_eq!(read_be16(&v, 0), 0x0102);
    assert_eq!(read_be32(&v, 2), 0x0304_0506);
    assert_eq!(read_be64(&v, 6), 0x0708_090a_0b0c_0d0e);
    push_all(&mut v, &[15, 16]);
    assert_eq!(copy_range(&v, 13, 16), vec![14, 15, 16]);
    assert!(bytes_eq(&[1, 2], &[1, 2]));
    assert!(!bytes_eq(&[1, 2], &[1, 3]));
    assert!(!bytes_eq(&[1, 2], &[1]));
}

#[test]
fn texts_are_taken_apart() {
    assert_eq!(trim(" \t a b\n"), "a b");
    assert_eq!(to_lower("AbC"), "abc");
    assert!(starts_with("abc", "ab") && !starts_with("abc", "b"));
    assert!(same_text("x", "x") && !same_text("x", "xx"));
    let v = chars_of("a+17b");
    assert_eq!(text_of(&v, 1, 4), "+17");
    assert_eq!(parse_number(&v, 1, 4, 100), Some(17));
    assert_eq!(parse_number(&v, 2, 4, 16), None);
    assert_eq!(parse_number(&v, 0, 4, 100), None);
    let mut s = String::new();
    push_decimal(&mut s, u64::MAX);
    assert_eq!(s, u64::MAX.to_string());
    s.clear();
    push_signed(&mut s, i64::MIN);
    assert_eq!(s, i64::MIN.to_string());
    assert_eq!(percent_encode_bytes(b"a-\x00 "), "%61%2D%00%20");
}

#[test]
fn bits_are_counted_within_the_pieces() {
    assert_eq!(bitfield_size_bytes(9), 2);
    let mut bf = empty_bitfield(9);
    assert!(bitfield_set(&mut bf, 8));
    assert!(!bitfield_set(&mut bf, 16));
    assert!(bitfield_get(&bf, 8));
    assert!(!bitfield_get(&bf, 100));
    bf[1] |= 1;
    assert_eq!(count_have_bits(&bf, 9), 1);
}

#[test]
fn addresses_keep_their_host() {
    let a = Ip::V4(0x7f00_0001).at(80);
    assert_eq!(a.with_port(81), PeerAddr::V4 { ip: 0x7f00_0001, port: 81 });
    assert_eq!(Ip::V6(1).at(9).port(), 9);
    assert!(EncryptionMode::PreferPlain.wants_pe() && !EncryptionMode::Off.wants_pe());
    assert!(EncryptionMode::RequireRc4.requires_rc4());
    assert!(!EncryptionMode::PreferRc4.requires_rc4());
}

#[test]
fn a_disk_thread_is_restarted_a_few_times() {
    const S: u64 = 1_000_000_000;
    let mut s = RestartState::new();
    assert_eq!(s.try_restart(100 * S), RestartDecision::Spawn);
    assert!(s.spawned());
    assert_eq!(s.restarted_status(), "disk worker restarted (1/3)");
    assert_eq!(s.try_restart(104 * S), RestartDecision::Cooldown);
    assert!(!s.spawn_failed());
    assert!(matches!(s.refusal(Error::DiskWorkerStopped), Error::DiskWorkerStopped));
    assert_eq!(s.try_restart(105 * S), RestartDecision::Spawn);
    assert_eq!(s.try_restart(110 * S), RestartDecision::Spawn);
    assert!(s.spawn_failed());
    assert_eq!(s.try_restart(200 * S), RestartDecision::StaysDead);
    assert!(matches!(s.check_alive(), Err(Error::DiskWorkerPermanent)));
    assert!(matches!(s.refusal(Error::DiskWorkerStopped), Error::DiskWorkerPermanent));
    assert_eq!((clamp_depth(0), clamp_depth(9), clamp_depth(1000)), (1, 9, 256));
}

#[test]
fn the_disk_thread_leaves_no_job_behind() {
    assert_eq!(next_step(true, false, 0, 0, 2), LoopStep::TryReceive);
    assert_eq!(next_step(true, true, 1, 0, 2), LoopStep::Start);
    assert_eq!(next_step(true, false, 1, 2, 2), LoopStep::AwaitCompletion);
    assert_eq!(next_step(true, true, 0, 0, 2), LoopStep::AwaitJob);
    assert_eq!(next_step(false, true, 0, 1, 2), LoopStep::AwaitCompletion);
    assert_eq!(next_step(false, true, 1, 0, 2), LoopStep::Start);
    assert_eq!(next_step(false, true, 0, 0, 2), LoopStep::Exit);
}

fn request(key: u32) -> AnnounceRequest {
    AnnounceRequest {
        announce_url: "udp://x:1".into(),
        infohash: [1u8; 20],
        peer_id: [2u8; 20],
        port: 6881,
        uploaded: 3,
        downloaded: 4,
        left: 5,
        event: Some("completed"),
        numwant: 50,
        user_agent: String::new(),
        key,
    }
}

#[test]
fn announces_without_a_key_get_one() {
    let keyed = build_announce_packet(9, 8, &request(7));
    assert_eq!(keyed, announce_packet(9, 8, &request(7), 7));
    assert_eq!(read_be64(&keyed, 0), 9);
    assert_eq!(read_be32(&keyed, 8), 1);
    assert_eq!(read_be32(&keyed, 12), 8);
    assert_eq!(&keyed[16..36], &[1u8; 20]);
    assert_eq!(read_be64(&keyed, 56), 4, "downloaded stands first");
    assert_eq!(read_be64(&keyed, 64), 5);
    assert_eq!(read_be64(&keyed, 72), 3);
    assert_eq!(read_be32(&keyed, 80), 1, "completed");
    let mut seen = Vec::new();
    for _ in 0..8 {
        let p = build_announce_packet(9, 8, &request(0));
        assert_eq!(p.len(), 98);
        seen.push(read_be32(&p, 88));
    }
    assert!(seen.iter().any(|k| *k != seen[0]), "keys are random: {seen:?}");
    let mut tids: Vec<u32> = (0..8).map(|_| fresh_transaction()).collect();
    tids.dedup();
    assert!(tids.len() > 1);
}

#[test]
fn a_failed_address_gives_way_to_the_next() {
    let (mut x, first) = UdpExchange::start(2, 5);
    assert!(matches!(first, UdpNext::Send(p) if read_be32(&p, 12) == 5));
    match x.address_failed(Error::msg("timeout"), 6) {
        UdpNext::Send(p) => assert_eq!(read_be32(&p, 12), 6),
        other => panic!("{other:?}"),
    }
    match x.address_failed(Error::msg("refused"), 7) {
        UdpNext::Failed(e) => assert_eq!(e.to_string(), "refused"),
        other => panic!("{other:?}"),
    }
}

#[test]
fn hosts_are_keyed_with_their_port() {
    assert_eq!(host_key_from("X", Some((Some("A.b".into()), Some(80)))), "a.b:80");
    assert_eq!(host_key_from("Bad URL", None), "bad url");
}

#[test]
fn files_that_are_switched_on_get_their_space() {
    assert_eq!(file_priority_set(true, 1, false, false), (true, true));
    assert_eq!(file_priority_set(true, 0, false, true), (false, false));
    assert_eq!(file_priority_set(true, 1, true, false), (false, true));
    assert_eq!(file_priority_set(false, 1, false, false), (false, false));
}

#[test]
fn soft_failures_and_idle_peers_cool_down() {
    let a = PeerAddr::V4 { ip: 1, port: 1 };
    let mut map: Table<PeerKey, DialData> = Table::new();
    record_dial_soft_fail(&mut map, 1, a, 0);
    assert!(is_cooled_down(&map, 1, a, 29_999_999_999));
    assert!(!is_cooled_down(&map, 1, a, 30_000_000_000));
    assert!(!is_cooled_down(&map, 2, a, 0));
    record_idle_close(&mut map, 2, a, 0);
    assert!(is_cooled_down(&map, 2, a, 1));
    assert!(map.contains_key(PeerKey { torrent_id: 2, addr: a }));
    assert_eq!(map.key_at(0).torrent_id, 1);
    assert_eq!(map.value(0).fails, 1);
}

#[test]
fn peer_limits_are_put_in_order() {
    let mut c = Config::default();
    c.limits.max_peers = 0;
    c.limits.min_peers = 5;
    assert_eq!(c.limits.clamped_peer_limits(), (1, 1));
    c.limits.max_peers = 9;
    assert_eq!(c.limits.clamped_peer_limits(), (5, 9));
}

#[test]
fn a_full_budget_is_told_now_and_then() {
    let mut p = PieceBufferPool::with_torrent(3, "t".into(), 100, 200);
    assert_eq!((p.capacity(), p.limit_bytes()), (2, 200));
    assert!(p.warn_budget_full(1000));
    assert!(!p.warn_budget_full(1004));
    assert!(p.warn_budget_full(1005));
    let a = p.try_acquire().unwrap();
    assert!(p.try_acquire().is_some());
    assert!(p.try_acquire().is_none());
    // A buffer that leaves for hashing frees its place, and may come back later.
    p.detach();
    assert_eq!(p.available(), 1);
    p.donate(a);
    assert_eq!((p.available(), p.freelist_len()), (1, 1));
}

#[test]
fn blocks_of_a_piece_are_asked_for_once() {
    let len = BLOCK_SIZE + 10;
    let mut p = ActivePiece::open(4, len);
    let mut buf = vec![0u8; len as usize];
    assert_eq!(p.next_request(), Some((0, BLOCK_SIZE)));
    assert_eq!(p.next_request(), Some((BLOCK_SIZE, 10)));
    assert_eq!(p.next_request(), None);
    assert_eq!(p.outstanding_requests(), 2);
    assert_eq!(p.outstanding_blocks(), vec![(0, BLOCK_SIZE), (BLOCK_SIZE, 10)]);
    assert!(!p.ingest(&mut buf, BLOCK_SIZE, &[7u8; 10]).unwrap());
    assert_eq!(buf[BLOCK_SIZE as usize], 7);
    p.requeue_missing();
    assert_eq!(p.next_request(), Some((0, BLOCK_SIZE)));
    p.mark_range_have(0, BLOCK_SIZE, len).unwrap();
    assert!(p.is_complete());
    assert!(p.mark_range_have(len, 1, len).is_err());
}

#[test]
fn a_block_read_in_place_counts_like_any_other() {
    let layout = StorageLayout {
        data_root: "d".into(),
        piece_length: 100,
        piece_count: 1,
        total_size: 100,
        files: vec![FileLayout { path: "f".into(), size: 100, offset: 0, priority: 1 }],
    };
    assert_eq!(layout.piece_size(0).unwrap(), 100);
    assert!(layout.piece_size(1).is_err());
    let t = HotTorrent::new_empty(1, [0u8; 20], "t".into(), layout, vec![0u8; 20]);
    assert!(t.wants_piece(0));
    let mut bufs = PieceBufferPool::new(100, 1000);
    let mut d = PeerDownload::new(empty_bitfield(1), StagingPool::from_pool(&bufs), 4, None);
    let h = PieceHeader { index: 0, begin: 0, block_len: 100, message_len: 109 };
    assert!(!d.want_direct_piece(&t, &h));
    assert!(d.staging.try_start(&mut bufs, 0, 100));
    assert!(d.want_direct_piece(&t, &h));
    assert!(!d.expect_piece_header(true));
    assert!(matches!(
        d.finish_direct_piece_body(&t, &mut bufs, 5, 0, 100),
        Ok((false, None))
    ));
    let (more, job) = d.finish_direct_piece_body(&t, &mut bufs, 0, 0, 100).unwrap();
    assert!(more);
    assert_eq!(job.unwrap().plen, 100);
    assert!(!d.want_direct_piece(&t, &h));
}

#[test]
fn suggestions_are_few_and_the_newest_first() {
    let mut q: VecDeque<u32> = VecDeque::new();
    push_suggest(&mut q, 99, 50);
    assert!(q.is_empty(), "no such piece");
    for i in 0..40 {
        push_suggest(&mut q, i, 50);
    }
    assert_eq!(q.len(), 32);
    assert_eq!(q.front(), Some(&39));
}

#[test]
fn commands_are_handed_over_in_order() {
    let mut o = OutCmd::new();
    o.push_interested();
    o.push_not_interested();
    o.push_reject(1, 2, 3);
    o.reader_done();
    let msgs = o.take_msgs();
    assert_eq!(msgs.len(), 4);
    assert!(matches!(&msgs[0], WriterMsg::Ctrl(b) if b[4] == 2));
    assert!(matches!(&msgs[1], WriterMsg::Ctrl(b) if b[4] == 3));
    assert!(matches!(&msgs[2], WriterMsg::Ctrl(b) if b[4] == 0x10));
    assert!(matches!(&msgs[3], WriterMsg::ReaderDone));
    assert!(o.take_msgs().is_empty());
}
