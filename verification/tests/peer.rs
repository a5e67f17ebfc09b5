use seedchamp_engine::bitfield::{bitfield_set, empty_bitfield};
use seedchamp_engine::error::Error;
use seedchamp_engine::hot::{FileLayout, HotTorrent, PeerAvailability, StorageLayout};
use seedchamp_engine::net::{PeerAddr, ReadCursor, COMPACT_AT};
use seedchamp_engine::peer::config::{EncryptionMode, PeerConfig};
use seedchamp_engine::peer::download::PeerDownload;
use seedchamp_engine::peer::duplex::{
    apply_writer_msg, OutCmd, PeerSend, ReaderNext, ReaderState, TurnStart, WriterMsg, WriterNext,
};
use seedchamp_engine::peer::establish::{
    after_sync_read, at_max_peers, check_after_pe, check_answer, check_consumed, dial_error,
    find_slice, first_dial, handshake_client, handshake_in_initial, inbound_dial,
    inbound_infohash, initiator_pad, may_scan_more, obfuscated_torrent, pad_of_draw, second_dial,
    unknown_infohash, Dial,
};
use seedchamp_engine::peer::established::{
    build_hello, encode_our_pieces, negotiated, parse_available_messages,
};
use seedchamp_engine::peer::helpers::mse_to_wire;
use seedchamp_engine::peer::out_queue::{
    upload_write_error, AfterFill, AfterReserve, OutProgress, OutQueue, SendAction,
};
use seedchamp_engine::peer::reader_turn::{
    earlier, read_stalled, ReaderTurn, TurnPhase, TurnStep,
};
use seedchamp_engine::runtime::hash_worker::{handle_verify, HashJob, HashOutcome, Verified};
use seedchamp_engine::session::snapshot::{set_peer_crypto, PeerCrypto};
use seedchamp_engine::staging::piece_pool::PieceBufferPool;
use seedchamp_engine::staging::pool::{StagingPool, BLOCK_SIZE};
use seedchamp_engine::upload::fs_gate::env_truthy_any_fs;
use seedchamp_engine::upload::inflight::{plan_upload, InFlightUpload};
use seedchamp_engine::upload::queue::UploadBlock;
use seedchamp_engine::upload::read::fill_piece_header;
use seedchamp_engine::upload::{PIECE_HEADER_LEN, UPLOAD_SCRATCH_LEN};
use seedchamp_engine::wire::fast::{encode_suggest_messages, FastSession};
use seedchamp_engine::wire::messages::{
    encode_handshake, encode_message, parse_message, Message, ParsedMessage,
};
use sha1::{Digest, Sha1};

const PIECE: u32 = 2 * BLOCK_SIZE;

/// Nanoseconds in a second.
const S: u64 = 1_000_000_000;

/// The bytes of a torrent of three pieces, the last one short.
fn payload() -> Vec<u8> {
    (0..(2 * PIECE + 1000) as usize).map(|i| (i % 251) as u8).collect()
}

fn torrent() -> HotTorrent {
    let data = payload();
    let mut hashes = Vec::new();
    for piece in data.chunks(PIECE as usize) {
        hashes.extend_from_slice(&Sha1::digest(piece));
    }
    let layout = StorageLayout {
        data_root: "d".into(),
        piece_length: PIECE,
        piece_count: 3,
        total_size: data.len() as u64,
        files: vec![FileLayout {
            path: "f".into(),
            size: data.len() as u64,
            offset: 0,
            priority: 1,
        }],
    };
    HotTorrent::new_empty(7, [9u8; 20], "t".into(), layout, hashes)
}

fn buffers() -> PieceBufferPool {
    PieceBufferPool::new(PIECE, 32 * PIECE as u64)
}

fn config() -> PeerConfig {
    let mut cfg = PeerConfig::with_client("seedchamp 1".into());
    cfg.can_hash = true;
    cfg
}

fn fetching(t: &HotTorrent, bufs: &PieceBufferPool, cfg: &PeerConfig, now: u64) -> ReaderState {
    let (r, issue) =
        ReaderState::new(t, bufs, cfg, true, FastSession::new(true), "unknown".into(), now);
    assert!(!issue, "a peer chokes at first");
    r
}

fn text(e: &Error) -> String {
    e.to_string()
}

fn ctrl_bytes(msgs: Vec<WriterMsg>) -> Vec<u8> {
    let mut out = Vec::new();
    for m in msgs {
        match m {
            WriterMsg::Ctrl(b) => out.extend_from_slice(&b),
            other => panic!("unexpected {other:?}"),
        }
    }
    out
}

/// The messages of a byte stream.
fn messages(mut bytes: &[u8]) -> Vec<Message> {
    let mut out = Vec::new();
    while let Some((m, used)) = parse_message(bytes).unwrap() {
        match m {
            ParsedMessage::Msg(m) => out.push(m),
            ParsedMessage::Piece { index, begin, block } => {
                out.push(Message::Piece { index, begin, block: block.to_vec() })
            }
        }
        bytes = &bytes[used..];
    }
    assert!(bytes.is_empty());
    out
}

#[test]
fn a_torrent_knows_what_it_has_and_what_is_left() {
    let mut t = torrent();
    let total = payload().len() as u64;
    assert_eq!(t.completed_bytes(), 0);
    assert_eq!(t.left_bytes(), total);
    assert_eq!(t.piece_len_of(2), 1000);
    t.mark_have(2);
    assert_eq!(t.have_count(), 1);
    assert_eq!(t.completed_bytes(), 1000);
    assert_eq!(t.left_bytes(), total - 1000);
    assert_eq!(t.bitfield_snapshot(), vec![0b0010_0000]);
    assert!(!t.is_complete());
    t.mark_have(0);
    t.mark_have(1);
    assert!(t.is_complete());
    assert!(t.is_download_complete());
    assert_eq!(t.left_bytes(), 0);
    assert_eq!(text(&t.piece_hash(3).unwrap_err()), "piece index out of range");
}

#[test]
fn a_torrent_without_an_unwanted_piece_is_downloaded_but_not_complete() {
    let layout = StorageLayout {
        data_root: "d".into(),
        piece_length: 32,
        piece_count: 2,
        total_size: 64,
        files: vec![
            FileLayout { path: "a".into(), size: 32, offset: 0, priority: 1 },
            FileLayout { path: "b".into(), size: 32, offset: 32, priority: 0 },
        ],
    };
    let mut t = HotTorrent::new_empty(1, [0u8; 20], "t".into(), layout, vec![0u8; 40]);
    t.mark_have(0);
    assert!(t.is_download_complete());
    assert!(!t.is_complete());
    // What is not wanted is left all the same.
    assert_eq!(t.left_bytes(), 32);
}

#[test]
fn a_visit_leaves_the_availability_as_it_was() {
    let mut t = torrent();
    t.avail_inc(1);
    let mut a = PeerAvailability::new(&t);
    a.on_have(&mut t, 1);
    a.on_have(&mut t, 1);
    a.on_have(&mut t, 2);
    assert_eq!(t.piece_availability(1), 2);
    let mut bf = empty_bitfield(3);
    bitfield_set(&mut bf, 0);
    a.on_bitfield(&mut t, &bf);
    assert_eq!(
        (t.piece_availability(0), t.piece_availability(1), t.piece_availability(2)),
        (1, 1, 0)
    );
    a.leave(&mut t);
    assert_eq!(
        (t.piece_availability(0), t.piece_availability(1), t.piece_availability(2)),
        (0, 1, 0)
    );
}

#[test]
fn read_bytes_are_kept_until_they_make_a_frame() {
    let frame = encode_message(&Message::Have(5));
    let mut c = ReadCursor::from_vec(frame[..3].to_vec());
    assert!(!c.has_complete_frame());
    c.append(&frame[3..8]);
    assert!(!c.has_complete_frame());
    c.append(&frame[8..]);
    assert!(c.has_complete_frame());
    c.append(&[1, 2]);
    c.advance(frame.len());
    assert_eq!(c.unparsed(), &[1, 2]);
    c.compact_if_needed();
    assert_eq!(c.unparsed(), &[1, 2]);
    let mut big = ReadCursor::from_vec(vec![7u8; COMPACT_AT + 3]);
    big.advance(COMPACT_AT + 1);
    big.compact_if_needed();
    assert_eq!(big.unparsed(), &[7, 7]);
}

#[test]
fn a_piece_is_fetched_hashed_and_told() {
    let data = payload();
    let mut t = torrent();
    let mut bufs = buffers();
    let cfg = config();
    let mut r = fetching(&t, &bufs, &cfg, 100);
    let downloading = cfg.wants_download(t.is_download_complete());
    assert!(downloading);

    // The peer has every piece and serves us.
    let mut said = encode_message(&Message::HaveAll);
    said.extend(encode_message(&Message::Unchoke));
    let mut cursor = ReadCursor::from_vec(said);
    let fill = parse_available_messages(
        &mut r.session, &mut cursor, &mut t, &mut bufs, &cfg, downloading, 101,
    )
    .unwrap();
    assert!(fill);
    assert_eq!(t.piece_availability(1), 1);
    assert_eq!(r.session.last_piece_at, 101);
    assert!(r.session.dl.should_issue(downloading, fill));

    // Four blocks are granted: those of two pieces.
    let granted = 4 * BLOCK_SIZE as u64 + 5;
    assert!(granted <= r.session.dl.request_want());
    let mut out = std::mem::replace(&mut r.session.out, OutCmd::new());
    let issued = r.session.dl.issue_requests(&mut t, &mut bufs, &mut out, Some(granted));
    let n = issued.reqs.len();
    assert!(n == 3 || n == 4, "two pieces, one of which may be the short one");
    let asked: u64 = issued.reqs.iter().map(|q| q.2 as u64).sum();
    assert_eq!(issued.refund, 4 * BLOCK_SIZE as u64 - asked);
    assert_eq!(r.session.dl.outstanding(), n as u64);
    let sent = messages(&ctrl_bytes(out.take_msgs()));
    assert_eq!(sent.len(), n);
    assert!(matches!(sent[0], Message::Request { .. }));
    let (first, _, _) = issued.reqs[0];
    assert!(t.piece_is_claimed(first));

    // The blocks of one piece come, split over reads.
    let mut stream = Vec::new();
    for &(index, begin, length) in issued.reqs.iter().filter(|q| q.0 == first) {
        let at = (index * PIECE + begin) as usize;
        stream.extend(encode_message(&Message::Piece {
            index,
            begin,
            block: data[at..at + length as usize].to_vec(),
        }));
    }
    let cut = stream.len() / 2;
    cursor.append(&stream[..cut]);
    parse_available_messages(
        &mut r.session, &mut cursor, &mut t, &mut bufs, &cfg, downloading, 102,
    )
    .unwrap();
    cursor.append(&stream[cut..]);
    parse_available_messages(
        &mut r.session, &mut cursor, &mut t, &mut bufs, &cfg, downloading, 103,
    )
    .unwrap();
    assert!(cursor.unparsed().is_empty());
    assert_eq!(r.session.jobs.len(), 1);
    assert_eq!(r.session.wire_down, t.piece_len_of(first) as u64);
    assert!(r.session.dl.picks.hashing.contains(&first));

    // Its hash is right, so it is written and told.
    let job = r.session.jobs.pop().unwrap();
    let write = match handle_verify(job, false) {
        Verified::Write(w) => w,
        other => panic!("{other:?}"),
    };
    let told = r.session.dl.apply_hash_outcome(
        &mut t,
        &mut bufs,
        HashOutcome::Done { index: write.index, plen: write.plen, data: write.data },
    );
    assert_eq!(told, Some((7, first, t.piece_len_of(first))));
    assert!(t.has_piece(first));
    assert!(!r.session.dl.picks.hashing.contains(&first));
}

#[test]
fn a_wrong_piece_may_be_fetched_again() {
    let mut t = torrent();
    let mut bufs = buffers();
    let mut d = PeerDownload::new(empty_bitfield(3), StagingPool::from_pool(&bufs), 4, None);
    assert!(t.try_claim_piece(2, false));
    assert!(!t.try_claim_piece(2, false));
    assert!(d.staging.try_start(&mut bufs, 2, 1000));
    let (stored, job) = d.handle_piece(&t, &mut bufs, 2, 0, &[0u8; 1000]).unwrap();
    assert!(stored);
    let job = job.unwrap();
    // A second copy of the block changes nothing.
    assert!(matches!(d.handle_piece(&t, &mut bufs, 2, 0, &[1u8; 1000]), Ok((false, None))));
    let outcome = match handle_verify(job, false) {
        Verified::Reply(o) => o,
        other => panic!("{other:?}"),
    };
    assert!(matches!(outcome, HashOutcome::HashFail { index: 2, plen: 1000, .. }));
    assert_eq!(d.apply_hash_outcome(&mut t, &mut bufs, outcome), None);
    assert!(!t.has_piece(2));
    assert!(!t.piece_is_claimed(2));
    assert!(!d.staging.contains(2));
}

#[test]
fn hash_workers_that_are_gone_give_the_buffer_back() {
    let t = torrent();
    let mut bufs = buffers();
    let mut d = PeerDownload::new(empty_bitfield(3), StagingPool::from_pool(&bufs), 4, None);
    assert!(d.staging.try_start(&mut bufs, 2, 1000));
    let (_, job) = d.handle_piece(&t, &mut bufs, 2, 0, &[0u8; 1000]).unwrap();
    let job: HashJob = job.unwrap();
    d.submit_failed(&t, &mut bufs, job);
    assert!(d.picks.hashing.is_empty());
    assert!(d.staging.is_empty());
}

#[test]
fn blocks_that_do_not_fit_end_the_connection() {
    let mut t = torrent();
    let mut bufs = buffers();
    let mut cfg = config();
    let mut r = fetching(&t, &bufs, &cfg, 0);
    assert!(r.session.dl.staging.try_start(&mut bufs, 2, 1000));
    let bad = encode_message(&Message::Piece { index: 2, begin: 0, block: vec![1; 1001] });
    let mut said = encode_message(&Message::Interested);
    said.extend(&bad);
    let mut cursor = ReadCursor::from_vec(said);
    let e = parse_available_messages(
        &mut r.session, &mut cursor, &mut t, &mut bufs, &cfg, true, 0,
    )
    .unwrap_err();
    assert!(!text(&e).is_empty());
    // What was said before was carried out; the block changed nothing.
    assert!(r.session.peer_interested);
    assert_eq!(cursor.unparsed(), &bad[..]);
    assert!(r.session.dl.staging.contains(2) && r.session.jobs.is_empty());
    assert_eq!(bufs.available(), bufs.capacity() - 1);
    // Without hash workers no block can be used.
    cfg.can_hash = false;
    let e = parse_available_messages(
        &mut r.session, &mut cursor, &mut t, &mut bufs, &cfg, true, 0,
    )
    .unwrap_err();
    assert_eq!(text(&e), "hash thread not configured");
    // A seed ignores blocks.
    assert!(!parse_available_messages(
        &mut r.session, &mut cursor, &mut t, &mut bufs, &cfg, false, 0,
    )
    .unwrap());
}

#[test]
fn messages_of_a_peer_change_the_session() {
    let mut t = torrent();
    t.mark_have(0);
    let mut bufs = buffers();
    let cfg = config();
    let mut r = fetching(&t, &bufs, &cfg, 0);
    let mut said = Vec::new();
    for m in [
        Message::KeepAlive,
        Message::Interested,
        Message::Request { index: 0, begin: 0, length: BLOCK_SIZE },
        Message::Request { index: 1, begin: 0, length: BLOCK_SIZE },
        Message::Cancel { index: 0, begin: 0, length: BLOCK_SIZE },
        Message::Have(1),
        Message::Have(500),
        Message::AllowedFast(1),
        Message::SuggestPiece(1),
        Message::Choke,
        Message::NotInterested,
        Message::Extended { ext_id: 0, payload: b"d1:v9:client 12e".to_vec() },
    ] {
        said.extend(encode_message(&m));
    }
    let mut cursor = ReadCursor::from_vec(said);
    assert!(parse_available_messages(
        &mut r.session, &mut cursor, &mut t, &mut bufs, &cfg, true, 9,
    )
    .unwrap());
    assert!(!r.session.peer_interested);
    assert!(r.session.dl.picks.peer_choking);
    assert!(r.session.dl.can_request(), "a piece is allowed while choked");
    assert_eq!(r.session.dl.picks.peer_bf, vec![0b0100_0000]);
    assert_eq!(r.session.dl.picks.suggested, vec![1]);
    assert_eq!(r.session.client_label, "client 12");
    let b = UploadBlock { index: 0, begin: 0, length: BLOCK_SIZE };
    let out = r.session.out.take_msgs();
    assert!(matches!(&out[0], WriterMsg::Upload(x) if *x == b));
    match &out[1] {
        WriterMsg::Ctrl(bytes) => {
            assert!(matches!(messages(bytes)[0], Message::RejectRequest { index: 1, .. }))
        }
        other => panic!("{other:?}"),
    }
    assert!(matches!(&out[2], WriterMsg::Cancel(x) if *x == b));
    assert!(matches!(&out[3], WriterMsg::ClearPieces));
    assert_eq!(out.len(), 4);

    // A bitfield replaces, and a message that is too long is refused.
    let mut cursor = ReadCursor::from_vec(encode_message(&Message::Bitfield(vec![0b1000_0000])));
    parse_available_messages(&mut r.session, &mut cursor, &mut t, &mut bufs, &cfg, true, 9)
        .unwrap();
    assert_eq!(r.session.dl.picks.peer_bf, vec![0b1000_0000]);
    assert_eq!(t.piece_availability(1), 0);
    let mut cursor = ReadCursor::from_vec(vec![0xff, 0xff, 0xff, 0xff]);
    assert!(parse_available_messages(
        &mut r.session, &mut cursor, &mut t, &mut bufs, &cfg, true, 9,
    )
    .is_err());
}

#[test]
fn fetching_is_given_up_and_taken_up() {
    let mut t = torrent();
    let mut bufs = buffers();
    let mut cfg = config();
    let mut r = fetching(&t, &bufs, &cfg, 0);
    assert_eq!(r.begin_turn(&mut t, &mut bufs, &cfg, true, 1), TurnStart::Go { issue: false });
    assert_eq!(r.begin_turn(&mut t, &mut bufs, &cfg, false, 2), TurnStart::Go { issue: false });
    assert!(r.sent_not_interested && !r.am_interested);
    let said = messages(&ctrl_bytes(r.session.out.take_msgs()));
    assert!(matches!(said[0], Message::NotInterested));
    assert!(matches!(said[1], Message::HaveNone));
    assert_eq!(r.begin_turn(&mut t, &mut bufs, &cfg, true, 3), TurnStart::Go { issue: true });
    assert!(r.am_interested);
    let said = messages(&ctrl_bytes(r.session.out.take_msgs()));
    assert!(matches!(said[0], Message::Interested));
    // Where nothing is served either, there is no more to do.
    cfg.allow_upload = false;
    assert_eq!(r.begin_turn(&mut t, &mut bufs, &cfg, false, 4), TurnStart::DrainThenExit);
    assert_eq!(r.begin_turn(&mut t, &mut bufs, &cfg, false, 5), TurnStart::Exit);
}

#[test]
fn unanswered_requests_are_asked_anew() {
    let mut t = torrent();
    let mut bufs = buffers();
    let cfg = config();
    let mut r = fetching(&t, &bufs, &cfg, 0);
    r.session.dl.picks.peer_choking = false;
    r.session.dl.picks.peer_bf = vec![0b1110_0000];
    let mut out = OutCmd::new();
    r.session.dl.pipeline = 2;
    let issued = r.session.dl.issue_requests(&mut t, &mut bufs, &mut out, None);
    assert_eq!(issued.reqs.len(), 2);
    assert_eq!(issued.refund, 0);
    assert_eq!(r.session.dl.queue_counters(true), Some((2, 2)));
    assert_eq!(r.session.dl.queue_counters(false), None);
    assert_eq!(r.next_wait(true, true), ReaderNext::Parse);
    assert_eq!(r.next_wait(false, true), ReaderNext::Read { stall_deadline: Some(20 * S) });
    // Too early.
    assert!(!r.check_stall(&t, &bufs, false, 10 * S));
    assert_eq!(r.session.dl.outstanding(), 2);
    // Too late: withdrawn.
    assert!(r.check_stall(&t, &bufs, false, 40 * S));
    assert_eq!(r.session.dl.outstanding(), 0);
    let said = messages(&ctrl_bytes(r.session.out.take_msgs()));
    assert_eq!(said.len(), 2);
    assert!(matches!(said[0], Message::Cancel { .. }));
    assert!(r.waits_for_budget(false, true));
    assert!(!r.waits_for_budget(true, true));
    // In the endgame the wait is shorter.
    assert!(r.try_endgame(&t, &bufs, true));
    assert!(!r.try_endgame(&t, &bufs, true));
    let issued = r.session.dl.issue_requests(&mut t, &mut bufs, &mut out, None);
    assert_eq!(issued.reqs.len(), 2);
    assert_eq!(r.next_wait(false, true), ReaderNext::Read { stall_deadline: Some(44 * S) });
    r.on_read_stall(&t, &bufs, 50 * S);
    assert_eq!(r.session.dl.outstanding(), 0);
    assert_eq!(r.session.last_piece_at, 50 * S);
    // A grant below one block is given back whole.
    let issued = r.session.dl.issue_requests(&mut t, &mut bufs, &mut out, Some(100));
    assert_eq!((issued.reqs.len(), issued.refund), (0, 100));
}

#[test]
fn interest_is_renewed_from_time_to_time() {
    let t = torrent();
    let bufs = buffers();
    let cfg = config();
    let mut r = fetching(&t, &bufs, &cfg, 0);
    assert!(!r.renew_interest(45 * S));
    assert!(r.renew_interest(46 * S));
    assert!(!r.renew_interest(47 * S));
}

#[test]
fn the_pipeline_follows_the_peer() {
    let t = torrent();
    let bufs = buffers();
    let cfg = config();
    let mut r = fetching(&t, &bufs, &cfg, 0);
    let depth = r.session.dl.pipeline;
    r.session.wire_down = 1 << 20;
    assert!(!r.adapt(S / 4));
    assert_eq!(r.session.dl.pipeline, depth);
    // 1 MiB in a second asks for 320 blocks.
    assert!(r.adapt(S));
    assert_eq!(r.session.dl.pipeline, 320.min(r.tuning.max));
    let deep = r.session.dl.pipeline;
    assert!(!r.adapt(3 * S));
    assert!(!r.adapt(6 * S));
    assert!(r.session.dl.pipeline < deep);
    assert_eq!(r.session.dl.pipeline, r.pipe.pipeline);
}

#[test]
fn commands_reach_the_queue() {
    let mut send = PeerSend::new(10 * S);
    assert_eq!(send.next(false, false), WriterNext::Idle { keepalive_at: 130 * S });
    assert_eq!(send.next(false, true), WriterNext::Finish);
    let a = UploadBlock { index: 0, begin: 0, length: 10 };
    let b = UploadBlock { index: 1, begin: 0, length: 10 };
    assert_eq!(apply_writer_msg(&mut send, true, WriterMsg::Upload(a)), (false, Some(1)));
    assert_eq!(apply_writer_msg(&mut send, true, WriterMsg::Upload(b)), (false, Some(2)));
    // A block that waits already is refused.
    assert_eq!(apply_writer_msg(&mut send, true, WriterMsg::Upload(b)), (false, Some(2)));
    assert!(matches!(messages(&send.out.ctrl[0])[0], Message::RejectRequest { index: 1, .. }));
    assert_eq!(apply_writer_msg(&mut send, true, WriterMsg::Cancel(a)), (false, Some(1)));
    assert_eq!(apply_writer_msg(&mut send, true, WriterMsg::Cancel(a)), (false, None));
    assert_eq!(apply_writer_msg(&mut send, true, WriterMsg::ClearPieces), (false, Some(0)));
    assert_eq!(apply_writer_msg(&mut send, true, WriterMsg::ReaderDone), (true, None));
    assert_eq!(send.next(false, true), WriterNext::Pump { allow_upload: true });
    assert_eq!(send.next(true, true), WriterNext::Finish);
    assert!(send.flush_again(OutProgress::Progress, 1, 2));
    assert!(!send.flush_again(OutProgress::Progress, 2, 2));
    assert!(!send.flush_again(OutProgress::Idle, 1, 2));
    assert!(send.on_haves(Some(3), &[4, 5]));
    assert!(!send.on_haves(None, &[]));
    send.on_keepalive_time(129 * S);
    assert!(!send.out.keepalive_queued);
    send.on_keepalive_time(131 * S);
    assert!(send.out.keepalive_queued);
    send.wrote(false, 50);
    assert_eq!(send.last_send_at, 10 * S);
    send.wrote(true, 50);
    assert_eq!(send.last_send_at, 50);
}

#[test]
fn a_round_sends_control_before_blocks() {
    let mut q = OutQueue::new();
    let a = UploadBlock { index: 0, begin: 0, length: 100 };
    let b = UploadBlock { index: 1, begin: 0, length: 100 };
    let c = UploadBlock { index: 2, begin: 0, length: 100 };
    assert!(q.try_push_piece(a) && q.try_push_piece(b) && q.try_push_piece(c));
    q.push_ctrl_owned(vec![1, 2, 3]);
    let mut ctrl = Default::default();
    let mut round = q.begin_round(true, true);
    match q.next_action(&round) {
        SendAction::WriteCtrl(p) => assert_eq!(p, vec![1, 2, 3]),
        other => panic!("{other:?}"),
    }
    q.ctrl_written(&mut round);
    let block = match q.next_action(&round) {
        SendAction::Fill(x) => x,
        other => panic!("{other:?}"),
    };
    assert_eq!(block, a);
    assert_eq!(q.fill_failed(a, true, true, &round, &mut ctrl), AfterFill::Retry);
    q.piece_filled(InFlightUpload::buffered(a, false));
    assert!(matches!(q.next_action(&round), SendAction::WritePiece(inf) if inf.block == a));
    // Too little allowance: the round waits, and the block stays.
    match q.reserved(40, 0, &round) {
        AfterReserve::Wait { refund, outcome } => {
            assert_eq!(refund, 40);
            assert_eq!(outcome.kind, OutProgress::RateLimited(1_000_000));
            assert!(outcome.wrote);
        }
        other => panic!("{other:?}"),
    }
    assert_eq!(q.reserved(100, 0, &round), AfterReserve::Write);
    assert_eq!(q.piece_written(90, &mut round), 10);
    // The next block is missing on disk: its refusal goes out before the block behind it.
    assert!(matches!(q.next_action(&round), SendAction::Fill(x) if x == b));
    assert_eq!(q.fill_failed(b, true, false, &round, &mut ctrl), AfterFill::Continue);
    let refusal =
        encode_message(&Message::RejectRequest { index: 1, begin: 0, length: 100 });
    assert!(matches!(q.next_action(&round), SendAction::WriteCtrl(p) if p == refusal));
    q.ctrl_written(&mut round);
    // Without uploads the rest is dropped.
    q.push_ctrl_owned(vec![4]);
    let mut round = q.begin_round(false, true);
    assert!(matches!(q.next_action(&round), SendAction::WriteCtrl(_)));
    q.ctrl_written(&mut round);
    match q.next_action(&round) {
        SendAction::Finish(o) => assert!(o.wrote),
        other => panic!("{other:?}"),
    }
    assert!(!q.has_work());
    assert_eq!(
        text(&upload_write_error(a, "broken pipe")),
        "upload write failed piece=0 begin=0: broken pipe"
    );
}

#[test]
fn a_refusal_is_sent_before_the_round_is_idle() {
    let mut q = OutQueue::new();
    let a = UploadBlock { index: 0, begin: 0, length: 100 };
    assert!(q.try_push_piece(a));
    let mut ctrl = Default::default();
    let mut round = q.begin_round(true, true);
    assert!(matches!(q.next_action(&round), SendAction::Fill(_)));
    // Nothing was written yet, but the refusal is left to send.
    assert_eq!(q.fill_failed(a, false, true, &round, &mut ctrl), AfterFill::Continue);
    assert!(q.has_work());
    assert!(matches!(q.next_action(&round), SendAction::WriteCtrl(_)));
    q.ctrl_written(&mut round);
    match q.next_action(&round) {
        SendAction::Finish(o) => assert_eq!(o.kind, OutProgress::Progress),
        other => panic!("{other:?}"),
    }
    // A peer that knows no refusal gets none, and then nothing is left.
    assert!(q.try_push_piece(a));
    let round = q.begin_round(true, false);
    assert!(matches!(q.next_action(&round), SendAction::Fill(_)));
    match q.fill_failed(a, false, true, &round, &mut ctrl) {
        AfterFill::Finish(o) => assert_eq!(o.kind, OutProgress::Idle),
        other => panic!("{other:?}"),
    }
    assert!(!q.has_work());
}

#[test]
fn a_peer_that_knows_no_refusal_is_served_on() {
    let mut q = OutQueue::new();
    let a = UploadBlock { index: 0, begin: 0, length: 100 };
    let b = UploadBlock { index: 1, begin: 0, length: 100 };
    assert!(q.try_push_piece(a) && q.try_push_piece(b));
    let mut ctrl = Default::default();
    let round = q.begin_round(true, false);
    assert!(matches!(q.next_action(&round), SendAction::Fill(_)));
    assert_eq!(q.fill_failed(a, false, true, &round, &mut ctrl), AfterFill::Continue);
    assert!(matches!(q.next_action(&round), SendAction::Fill(x) if x == b));
}

#[test]
fn encryption_modes_choose_how_to_dial() {
    assert_eq!((first_dial(EncryptionMode::PreferPlain), second_dial(EncryptionMode::PreferPlain)), (Dial::Plain, Some(Dial::Pe)));
    assert_eq!((first_dial(EncryptionMode::PreferRc4), second_dial(EncryptionMode::PreferRc4)), (Dial::Pe, Some(Dial::Plain)));
    assert_eq!((first_dial(EncryptionMode::RequireRc4), second_dial(EncryptionMode::RequireRc4)), (Dial::Pe, None));
    assert_eq!((first_dial(EncryptionMode::Off), second_dial(EncryptionMode::Off)), (Dial::Plain, None));
    let e = dial_error(EncryptionMode::PreferPlain, Error::msg("a"), Some(Error::msg("b")));
    assert_eq!(text(&e), "prefer-plain: plain failed (a); PE retry: b");
    let e = dial_error(EncryptionMode::PreferRc4, Error::msg("a"), Some(Error::msg("b")));
    assert_eq!(text(&e), "prefer-rc4: PE failed (a); plain retry: b");
    assert_eq!(text(&dial_error(EncryptionMode::Off, Error::msg("a"), None)), "a");
    assert_eq!(inbound_dial(19, EncryptionMode::PreferPlain).unwrap(), Dial::Plain);
    assert_eq!(inbound_dial(3, EncryptionMode::PreferPlain).unwrap(), Dial::Pe);
    assert_eq!(
        text(&inbound_dial(19, EncryptionMode::RequireRc4).unwrap_err()),
        "plain BT rejected: encryption mode requires RC4"
    );
    assert_eq!(text(&inbound_dial(3, EncryptionMode::Off).unwrap_err()), "peer tried PE but encryption is off");
    assert_eq!(mse_to_wire(true), (true, PeerCrypto::Rc4));
    assert_eq!(mse_to_wire(false), (false, PeerCrypto::PePlain));
}

#[test]
fn handshakes_are_checked() {
    let ih = [9u8; 20];
    let mut id = [0u8; 20];
    id[..8].copy_from_slice(b"-qB4500-");
    let hs = encode_handshake(&ih, &id);
    assert!(check_answer(&hs, &ih, Dial::Plain).is_ok());
    assert_eq!(
        text(&check_answer(&hs, &[1u8; 20], Dial::Pe).unwrap_err()),
        "infohash mismatch"
    );
    let mut bad = hs;
    bad[0] = 7;
    assert_eq!(
        text(&check_answer(&bad, &ih, Dial::Plain).unwrap_err()),
        "plain peer handshake invalid first=7 (encryption required?)"
    );
    assert_eq!(
        text(&check_answer(&bad, &ih, Dial::Pe).unwrap_err()),
        "PE peer handshake invalid first=7"
    );
    bad = hs;
    bad[3] = b'x';
    assert_eq!(
        text(&check_answer(&bad, &ih, Dial::Plain).unwrap_err()),
        "not a BitTorrent handshake"
    );
    assert_eq!(text(&inbound_infohash(&bad).unwrap_err()), "invalid handshake");
    assert_eq!(inbound_infohash(&hs).unwrap(), ih);
    assert_eq!(handshake_client(&bad), "unknown");
    assert!(handshake_client(&hs).starts_with("qBittorrent"));
    assert_eq!(
        text(&unknown_infohash(&ih)),
        "unknown infohash 0909090909090909090909090909090909090909"
    );
    assert_eq!(text(&at_max_peers(-3)), "torrent #-3 at max_peers \u{2014} rejecting inbound");
    assert!(check_after_pe(&hs, &ih).is_ok());
    assert_eq!(
        text(&check_after_pe(&hs, &[1u8; 20]).unwrap_err()),
        "handshake infohash mismatch after PE"
    );
    assert_eq!(text(&check_after_pe(&bad, &ih).unwrap_err()), "invalid handshake after PE");
    let mut ia = hs.to_vec();
    ia.extend_from_slice(&[1, 2]);
    let (head, rest) = handshake_in_initial(&ia, &ih).unwrap().unwrap();
    assert_eq!((head, rest), (hs.to_vec(), vec![1, 2]));
    assert!(handshake_in_initial(&ia[..10], &ih).unwrap().is_none());
    assert_eq!(
        text(&handshake_in_initial(&ia, &[1u8; 20]).unwrap_err()),
        "IA infohash mismatch"
    );
    let n = negotiated(&hs);
    assert!(n.ext && n.fast);
    assert!(n.label.unwrap().starts_with("qBittorrent"));
    assert!(negotiated(&hs[..60]).label.is_none());
}

#[test]
fn encrypted_handshakes_are_searched_within_bounds() {
    assert_eq!(find_slice(b"abcabd", b"abd"), Some(3));
    assert_eq!(find_slice(b"ab", b"abd"), None);
    assert!(may_scan_more(1591).is_ok());
    assert_eq!(
        text(&may_scan_more(1592).unwrap_err()),
        "MSE: req1 not found within pad limit"
    );
    let buf: Vec<u8> = (0..60).collect();
    assert_eq!(obfuscated_torrent(&buf, 5).unwrap(), (25..45).collect::<Vec<u8>>());
    assert!(obfuscated_torrent(&buf, 21).is_none());
    assert!(after_sync_read("short", 1, 1600, 8).is_ok());
    assert_eq!(text(&after_sync_read("short", 0, 9, 8).unwrap_err()), "MSE: eof mid-sync: short");
    assert_eq!(
        text(&after_sync_read("short", 1, 1601, 8).unwrap_err()),
        "MSE: sync too large: short"
    );
    assert!(check_consumed(5, 5).is_ok());
    assert_eq!(
        text(&check_consumed(4, 5).unwrap_err()),
        "MSE: over-read after response (consumed=4 buf=5)"
    );
    assert_eq!((pad_of_draw(31), pad_of_draw(32), pad_of_draw(u32::MAX)), (31, 0, 31));
    assert!(initiator_pad() < 32);
}

#[test]
fn the_first_words_follow_what_the_peer_knows() {
    let mut t = torrent();
    let cfg = config();
    let addr = PeerAddr::V4 { ip: 0x0102_0304, port: 1 };
    let (bytes, allowed) = build_hello(&t, &cfg, true, true, Some(addr), Some(1), true);
    let said = messages(&bytes);
    assert!(matches!(said[0], Message::HaveNone));
    assert!(matches!(said[1], Message::Interested));
    assert!(matches!(said[2], Message::Unchoke));
    assert_eq!(allowed.len(), 3, "no more than there are pieces");
    for (k, i) in allowed.iter().enumerate() {
        assert!(matches!(said[3 + k], Message::AllowedFast(x) if x == *i));
    }
    assert!(matches!(&said[6], Message::Extended { ext_id: 0, .. }));
    assert_eq!(said.len(), 7);
    let (bytes, allowed) = build_hello(&t, &cfg, false, false, Some(addr), None, false);
    let said = messages(&bytes);
    assert!(matches!(&said[0], Message::Bitfield(b) if *b == vec![0u8]));
    assert!(matches!(said[1], Message::Unchoke));
    assert_eq!((said.len(), allowed.len()), (2, 0));
    for i in 0..3 {
        t.mark_have(i);
    }
    assert!(matches!(messages(&encode_our_pieces(&t, true))[0], Message::HaveAll));
}

#[test]
fn fast_session_keeps_what_is_allowed() {
    let mut f = FastSession::new(true);
    assert!(!f.peer_allows_while_choked(4));
    f.on_allowed_fast(4);
    assert!(f.peer_allows_while_choked(4));
    assert!(!f.we_allow_while_choking(4));
    f.allowed_to_peer.insert(5);
    assert!(f.we_allow_while_choking(5));
    let said = messages(&encode_suggest_messages(&[1, 2]));
    assert!(matches!(said[..], [Message::SuggestPiece(1), Message::SuggestPiece(2)]));
}

#[test]
fn an_upload_is_planned_and_framed() {
    let data: Vec<u8> = (0..80).collect();
    let mut scratch = vec![0u8; UPLOAD_SCRATCH_LEN];
    let block = UploadBlock { index: 0, begin: 0, length: 32 };
    let off = plan_upload(block, 64, 64).unwrap() as usize;
    scratch[PIECE_HEADER_LEN..PIECE_HEADER_LEN + 32].copy_from_slice(&data[off..off + 32]);
    fill_piece_header(&mut scratch, block.index, block.begin, block.length);
    assert_eq!(scratch[4], 7);
    let msg_len = u32::from_be_bytes(scratch[0..4].try_into().unwrap());
    assert_eq!(msg_len, 9 + 32);
    assert_eq!(&scratch[PIECE_HEADER_LEN..PIECE_HEADER_LEN + 32], &data[..32]);
}

#[test]
fn uploads_out_of_bounds_are_refused() {
    let block = |begin: u32, length: u32| UploadBlock { index: 1, begin, length };
    assert_eq!(plan_upload(block(4, 16), 64, 64).unwrap(), 68);
    assert_eq!(
        text(&plan_upload(block(60, 16), 64, 64).unwrap_err()),
        "request past piece end"
    );
    assert_eq!(
        text(&plan_upload(block(0, 0), 64, 64).unwrap_err()),
        "zero-length piece request"
    );
    assert_eq!(
        text(&plan_upload(block(0, 20_000), 30_000, 30_000).unwrap_err()),
        "piece request length 20000 > upload block 16384"
    );
}

#[test]
fn any_filesystem_is_asked_for_by_name() {
    for yes in ["1", "true", " TRUE ", "all", "any", "force", "on"] {
        assert!(env_truthy_any_fs(Some(yes)), "{yes}");
    }
    for no in ["0", "", "no", "yes"] {
        assert!(!env_truthy_any_fs(Some(no)), "{no}");
    }
    assert!(!env_truthy_any_fs(None));
}

#[test]
fn crypto_is_published_where_a_slot_is() {
    let mut slot = Some(PeerCrypto::Unknown);
    set_peer_crypto(&mut slot, PeerCrypto::Rc4);
    assert_eq!(slot, Some(PeerCrypto::Rc4));
    let mut none = None;
    set_peer_crypto(&mut none, PeerCrypto::Rc4);
    assert_eq!(none, None);
}

#[test]
fn options_hold_where_none_is_set() {
    let c = PeerConfig::with_client("x".into());
    assert!(!c.wants_download(false), "nothing hashes yet");
    assert!(config().wants_download(false));
    assert!(!config().wants_download(true));
    assert_eq!(c.listen_port, 6881);
}

#[test]
fn a_turn_of_the_reader_tops_up_before_it_waits() {
    let (t, bufs, cfg) = (torrent(), buffers(), config());
    let mut r = fetching(&t, &bufs, &cfg, 0);
    let mut turn = ReaderTurn::new(true);
    assert_eq!(turn.next(&r, false, false, 0), TurnStep::Issue);
    assert_eq!(turn.next(&r, false, false, 0), TurnStep::Parse);
    assert_eq!(turn.next(&r, false, false, 0), TurnStep::Begin);
    turn.began(TurnStart::Go { issue: false }, true, 0);
    assert_eq!(turn.next(&r, false, false, 0), TurnStep::Adapt);
    // The peer chokes us, so that nothing can be asked for.
    turn.told(&r, true);
    assert_eq!(turn.next(&r, false, false, 0), TurnStep::TryEndgame);
    r.session.dl.picks.peer_choking = false;
    turn.told(&r, true);
    assert_eq!(turn.next(&r, false, false, 0), TurnStep::Issue);
    assert_eq!(turn.next(&r, false, false, 0), TurnStep::RenewInterest);
    assert_eq!(turn.next(&r, false, false, 0), TurnStep::TakeOutcomes);
    turn.outcomes_taken(true);
    assert_eq!(turn.next(&r, false, false, 0), TurnStep::CheckStall { need_fill: true });
    turn.told(&r, true);
    assert_eq!(turn.next(&r, false, false, 0), TurnStep::Issue);
    // Nothing was asked for: only the download limit can have been in the way.
    assert_eq!(turn.next(&r, false, false, 0), TurnStep::AwaitBudget);
    turn.slept(false);
    let read = TurnStep::Wait(ReaderNext::Read { stall_deadline: None });
    assert_eq!(turn.next(&r, false, false, 0), read);
    turn.told(&r, true);
    assert_eq!(turn.next(&r, false, false, 0), TurnStep::Issue);
    assert_eq!(turn.next(&r, false, true, 0), TurnStep::Exit);
    assert_eq!(turn.phase, TurnPhase::Over);
}

#[test]
fn a_reader_that_only_serves_takes_outcomes_and_waits() {
    let (t, bufs, cfg) = (torrent(), buffers(), config());
    let r = fetching(&t, &bufs, &cfg, 0);
    let mut turn = ReaderTurn::new(false);
    assert_eq!(turn.next(&r, true, false, 0), TurnStep::Parse);
    assert_eq!(turn.next(&r, true, false, 0), TurnStep::Begin);
    turn.began(TurnStart::Go { issue: false }, false, 0);
    assert_eq!(turn.next(&r, true, false, 0), TurnStep::TakeOutcomes);
    turn.outcomes_taken(false);
    assert_eq!(turn.next(&r, true, false, 0), TurnStep::Wait(ReaderNext::Parse));
    turn.told(&r, true);
    assert_eq!(turn.next(&r, true, false, 0), TurnStep::Begin);
    turn.began(TurnStart::Exit, false, 0);
    assert_eq!(turn.next(&r, true, false, 0), TurnStep::TakeOutcomes);
    turn.outcomes_taken(false);
    assert_eq!(turn.next(&r, true, false, 0), TurnStep::Exit);
}

#[test]
fn a_reader_drains_hashed_pieces_before_it_leaves() {
    let (t, bufs, cfg) = (torrent(), buffers(), config());
    let mut r = fetching(&t, &bufs, &cfg, 0);
    r.session.dl.picks.hashing.insert(1);
    let mut turn = ReaderTurn::new(false);
    turn.began(TurnStart::DrainThenExit, false, S);
    let drain = TurnStep::DrainOutcome { deadline: 6 * S };
    assert_eq!(turn.next(&r, false, false, 2 * S), drain);
    turn.drained(true);
    assert_eq!(turn.next(&r, false, false, 3 * S), drain);
    let mut late = turn;
    assert_eq!(late.next(&r, false, false, 6 * S), TurnStep::TakeOutcomes);
    assert_eq!(late.next(&r, false, false, 6 * S), TurnStep::Exit);
    turn.drained(false);
    assert_eq!(turn.next(&r, false, false, 3 * S), TurnStep::TakeOutcomes);
    assert_eq!(turn.next(&r, false, false, 3 * S), TurnStep::Exit);
    let mut gone = ReaderTurn::new(true);
    gone.ended();
    assert_eq!(gone.next(&r, false, false, 0), TurnStep::Exit);
}

#[test]
fn a_peer_without_transfer_is_left() {
    let mut cfg = config();
    // Two seeds part after fifteen seconds, others after a minute.
    assert_eq!(cfg.idle_deadline(true, S), Some(16 * S));
    assert_eq!(cfg.idle_deadline(false, S), Some(61 * S));
    cfg.redundant_seed_idle = 0;
    assert_eq!(cfg.idle_deadline(true, S), Some(61 * S));
    cfg.useless_peer_idle = 0;
    assert_eq!(cfg.idle_deadline(true, S), None);
    assert_eq!(cfg.idle_deadline(false, S), None);
    cfg.redundant_seed_idle = 15;
    assert_eq!(cfg.idle_deadline(true, S), Some(16 * S));
    assert_eq!(cfg.idle_deadline(true, u64::MAX), None);
    cfg.useless_peer_idle = u64::MAX;
    assert_eq!(cfg.idle_deadline(false, 0), None);
}

#[test]
fn two_seeds_part_early() {
    let (mut t, bufs, cfg) = (torrent(), buffers(), config());
    let mut r = fetching(&t, &bufs, &cfg, S);
    r.session.last_useful_at = S;
    r.session.dl.picks.peer_bf = vec![0; r.session.dl.picks.peer_bf.len()];
    assert_eq!(r.idle_deadline(&t, &cfg, 0), Some(61 * S));
    for i in 0..t.piece_count {
        t.mark_have(i);
    }
    // The peer has no piece.
    assert_eq!(r.idle_deadline(&t, &cfg, 0), Some(61 * S));
    r.session.dl.picks.peer_bf.fill(0xff);
    assert_eq!(r.idle_deadline(&t, &cfg, 0), Some(16 * S));
    // What was sent counts too.
    assert_eq!(r.idle_deadline(&t, &cfg, 3 * S), Some(18 * S));
    assert!(!r.is_idle(&t, &cfg, 3 * S, 18 * S - 1));
    assert!(r.is_idle(&t, &cfg, 3 * S, 18 * S));
    // We have no piece.
    let t = torrent();
    assert!(!r.is_idle(&t, &cfg, 3 * S, 18 * S));
}

#[test]
fn a_read_wakes_at_the_earlier_time() {
    assert_eq!(earlier(Some(3), Some(2)), Some(2));
    assert_eq!(earlier(Some(3), None), Some(3));
    assert_eq!(earlier(None, Some(4)), Some(4));
    assert_eq!(earlier(None, None), None);
    assert!(read_stalled(Some(3), 3));
    assert!(!read_stalled(Some(3), 2));
    assert!(!read_stalled(None, 9));
}
