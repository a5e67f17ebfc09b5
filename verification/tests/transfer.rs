use seedchamp_engine::peer::ctrl_scratch::CtrlScratch;
use seedchamp_engine::peer::establish::reject_if_self;
use seedchamp_engine::peer::out_queue::OutQueue;
use seedchamp_engine::staging::piece_pool::{buffer_count_for_limit, PieceBufferPool};
use seedchamp_engine::upload::fs_gate::{fs_type_allows_compio_fill, prefer_compio_fill, Platform};
use seedchamp_engine::upload::inflight::InFlightUpload;
use seedchamp_engine::upload::queue::{
    classify_upload_request, UploadBlock, UploadRequestStatus, MAX_REQUEST_LENGTH,
};
use seedchamp_engine::upload::read::build_piece_header;
use seedchamp_engine::upload::{ResolvedUploadBackend, UploadBackend, PIECE_HEADER_LEN};
use seedchamp_engine::wire::messages::{encode_handshake, encode_message, Message};

#[test]
fn request_matches_encode_message() {
    let mut s = CtrlScratch::new();
    s.append_request(1, 2, 16384);
    let got = s.take();
    let expect = encode_message(&Message::Request { index: 1, begin: 2, length: 16384 });
    assert_eq!(got, expect);
}

#[test]
fn have_cancel_reject_keepalive_match() {
    let mut s = CtrlScratch::new();
    s.append_have(9);
    assert_eq!(s.take(), encode_message(&Message::Have(9)));
    s.append_cancel(1, 0, 16);
    assert_eq!(s.take(), encode_message(&Message::Cancel { index: 1, begin: 0, length: 16 }));
    s.append_reject_request(2, 0, 32);
    assert_eq!(
        s.take(),
        encode_message(&Message::RejectRequest { index: 2, begin: 0, length: 32 })
    );
    s.append_keepalive();
    assert_eq!(s.take(), encode_message(&Message::KeepAlive));
    s.append_interested();
    assert_eq!(s.take(), encode_message(&Message::Interested));
    s.append_not_interested();
    assert_eq!(s.take(), encode_message(&Message::NotInterested));
}

fn block(index: u32, begin: u32) -> UploadBlock {
    UploadBlock { index, begin, length: 16 * 1024 }
}

#[test]
fn can_abort_matrix() {
    let b = block(0, 0);
    let plain0 = InFlightUpload::test_buffered(b, false, 0, 100);
    assert!(plain0.can_abort());
    let cipher0 = InFlightUpload::test_buffered(b, true, 0, 100);
    assert!(!cipher0.can_abort());
    let plain_sent = InFlightUpload::test_buffered(b, false, 10, 100);
    assert!(!plain_sent.can_abort());
    let cipher_sent = InFlightUpload::test_buffered(b, true, 10, 100);
    assert!(!cipher_sent.can_abort());
}

#[test]
fn cancel_queued_piece() {
    let mut q = OutQueue::new();
    let b = block(1, 0);
    assert!(q.try_push_piece(b));
    assert!(q.cancel_piece(b));
    assert_eq!(q.piece_pending_count(), 0);
}

#[test]
fn cancel_active_abortable() {
    let mut q = OutQueue::new();
    let b = block(2, 0);
    q.active = Some(InFlightUpload::test_buffered(b, false, 0, 50));
    assert!(q.cancel_piece(b));
    assert!(q.active.is_none());
}

#[test]
fn cancel_active_cipher_applied_keeps_active() {
    let mut q = OutQueue::new();
    let b = block(3, 0);
    q.active = Some(InFlightUpload::test_buffered(b, true, 0, 50));
    assert!(!q.cancel_piece(b));
    assert!(q.active.is_some());
    assert!(q.has_unabortable_piece());
}

#[test]
fn clear_pieces_keeps_cipher_active() {
    let mut q = OutQueue::new();
    let b = block(4, 0);
    assert!(q.try_push_piece(block(5, 0)));
    q.active = Some(InFlightUpload::test_buffered(b, true, 0, 50));
    q.clear_pieces();
    assert_eq!(q.pieces.len(), 0);
    assert!(matches!(q.active, Some(ref inf) if inf.block == b));
}

#[test]
fn clear_pieces_drops_abortable_active() {
    let mut q = OutQueue::new();
    let b = block(6, 0);
    q.active = Some(InFlightUpload::test_buffered(b, false, 0, 50));
    q.clear_pieces();
    assert!(q.active.is_none());
}

#[test]
fn only_one_keepalive_queued() {
    let mut q = OutQueue::new();
    let mut encode = CtrlScratch::new();
    q.push_keepalive(&mut encode);
    q.push_keepalive(&mut encode);
    q.push_keepalive(&mut encode);
    assert_eq!(q.ctrl.len(), 1);
    assert!(q.keepalive_queued);
    assert_eq!(q.ctrl[0].len(), 4);
}

#[test]
fn drop_out_queue_empty() {
    drop(OutQueue::new());
}

#[test]
fn reject_matching_peer_id() {
    let id = *b"-sc0001-selftest!!!!"; // 20
    let ih = [0u8; 20];
    let hs = encode_handshake(&ih, &id);
    assert!(reject_if_self(&id, &hs).is_err());
    let other = *b"-sc0001-otherpeer!!!"; // 20
    let hs2 = encode_handshake(&ih, &other);
    assert!(reject_if_self(&id, &hs2).is_ok());
}

#[test]
fn magics_allow_list() {
    assert!(fs_type_allows_compio_fill(0xEF53)); // ext4
    assert!(fs_type_allows_compio_fill(0x5846_5342)); // xfs
    assert!(fs_type_allows_compio_fill(0x9123_683E)); // btrfs
    // ZFS on Linux is typically 0x2FC12FC1
    assert!(!fs_type_allows_compio_fill(0x2FC1_2FC1));
    assert!(!fs_type_allows_compio_fill(0x0102_1994)); // tmpfs
}

#[test]
fn prefer_pread_backend() {
    assert!(!prefer_compio_fill(ResolvedUploadBackend::Pread, Platform::Linux, false, &[]));
}

#[test]
fn prefer_compio_backend() {
    assert!(prefer_compio_fill(ResolvedUploadBackend::Compio, Platform::Linux, false, &[]));
}

#[test]
fn auto_prefers_pread_on_macos() {
    assert!(!prefer_compio_fill(ResolvedUploadBackend::Auto, Platform::Darwin, false, &[]));
    assert!(prefer_compio_fill(ResolvedUploadBackend::Compio, Platform::Darwin, false, &[]));
    assert!(!prefer_compio_fill(ResolvedUploadBackend::Pread, Platform::Darwin, false, &[]));
}

#[test]
fn auto_prefers_compio_off_linux() {
    assert!(prefer_compio_fill(ResolvedUploadBackend::Auto, Platform::Other, false, &[]));
}

#[test]
fn classify_upload_request_geometry() {
    let pc = 10u32;
    let plen = 16384u32 * 2;
    assert_eq!(
        classify_upload_request(pc, plen, true, true, 0, 0, 16384),
        UploadRequestStatus::Accept
    );
    // past piece end
    assert_eq!(
        classify_upload_request(pc, plen, true, true, 0, plen - 100, 200),
        UploadRequestStatus::Reject
    );
    // bad index
    assert_eq!(
        classify_upload_request(pc, plen, true, true, 99, 0, 16384),
        UploadRequestStatus::Reject
    );
    // zero / too long
    assert_eq!(
        classify_upload_request(pc, plen, true, true, 0, 0, 0),
        UploadRequestStatus::Reject
    );
    assert_eq!(
        classify_upload_request(pc, plen, true, true, 0, 0, MAX_REQUEST_LENGTH + 1),
        UploadRequestStatus::Reject
    );
    // not interested / don't have
    assert_eq!(
        classify_upload_request(pc, plen, true, false, 0, 0, 16384),
        UploadRequestStatus::Reject
    );
    assert_eq!(
        classify_upload_request(pc, plen, false, true, 0, 0, 16384),
        UploadRequestStatus::Reject
    );
}

#[test]
fn upload_backend_parse_and_resolve() {
    assert_eq!(UploadBackend::parse("auto").unwrap(), UploadBackend::Auto);
    assert_eq!(UploadBackend::parse("compio").unwrap(), UploadBackend::Compio);
    assert_eq!(
        UploadBackend::parse("pread").unwrap().resolve().unwrap(),
        ResolvedUploadBackend::Pread
    );
    assert_eq!(UploadBackend::Compio.resolve().unwrap(), ResolvedUploadBackend::Compio);
    assert!(UploadBackend::parse("async").is_err());
    assert!(UploadBackend::parse("uring").is_err());
    assert!(UploadBackend::parse("aio").is_err());
}

#[test]
fn piece_header_layout() {
    let h = build_piece_header(1, 0x100, 0x4000);
    assert_eq!(h.len(), PIECE_HEADER_LEN);
    assert_eq!(h[4], 7);
    let msg_len = u32::from_be_bytes(h[0..4].try_into().unwrap());
    assert_eq!(msg_len, 9 + 0x4000);
}

#[test]
fn count_1m_and_16m() {
    let n1 = buffer_count_for_limit(1024 * 1024, 256 * 1024 * 1024);
    assert_eq!(n1, 256);
    let n16 = buffer_count_for_limit(16 * 1024 * 1024, 256 * 1024 * 1024);
    assert_eq!(n16, 16);
}

#[test]
fn lazy_no_alloc_until_acquire() {
    let pool = PieceBufferPool::new(1024 * 1024, 4 * 1024 * 1024); // cap 4
    assert_eq!(pool.capacity(), 4);
    assert_eq!(pool.available(), 4);
    assert_eq!(pool.freelist_len(), 0);
}

#[test]
fn acquire_release_roundtrip() {
    let mut pool = PieceBufferPool::new(1024 * 1024, 4 * 1024 * 1024); // 4 buffers
    assert_eq!(pool.capacity(), 4);
    assert_eq!(pool.available(), 4);
    let mut held = Vec::new();
    for _ in 0..4 {
        held.push(pool.try_acquire().expect("acquire"));
    }
    assert!(pool.try_acquire().is_none());
    assert_eq!(pool.available(), 0);
    assert_eq!(pool.freelist_len(), 0);
    for b in held {
        pool.release(b);
    }
    assert_eq!(pool.available(), 4);
    assert_eq!(pool.freelist_len(), 4);
    // Reuse: no new capacity growth path needed.
    let b = pool.try_acquire().unwrap();
    assert_eq!(pool.freelist_len(), 3);
    pool.release(b);
    assert_eq!(pool.freelist_len(), 4);
}

#[test]
fn zero_limit_uses_default() {
    let n = buffer_count_for_limit(1024 * 1024, 0);
    assert_eq!(n, 256);
}

#[test]
fn tiny_limit_still_min_two() {
    let n = buffer_count_for_limit(16 * 1024 * 1024, 1);
    assert_eq!(n, 2); // floor 2 x piece
}
