use seedchamp_engine::bitfield::{bitfield_set, empty_bitfield};
use seedchamp_engine::hot::{FileLayout, HotTorrent, StorageLayout};
use seedchamp_engine::peer::download::{start_piece, PeerPicks};
use seedchamp_engine::runtime::hash_worker::{handle_verify, sha1_eq, HashJob, HashOutcome, Verified};
use seedchamp_engine::staging::piece_pool::PieceBufferPool;
use seedchamp_engine::staging::pool::{
    max_assembling_pieces, num_blocks, PieceSource, StagedView, StagingPool, BLOCK_SIZE,
};
use sha1::{Digest, Sha1};

fn two_wanted_layout() -> StorageLayout {
    StorageLayout {
        data_root: "/tmp".into(),
        piece_length: 32,
        piece_count: 2,
        total_size: 64,
        files: vec![
            FileLayout { path: "a".into(), size: 32, offset: 0, priority: 1 },
            FileLayout { path: "b".into(), size: 32, offset: 32, priority: 1 },
        ],
    }
}

fn torrent() -> HotTorrent {
    HotTorrent::new_empty(1, [0u8; 20], "t".into(), two_wanted_layout(), vec![0u8; 40])
}

fn all_peer_bf() -> Vec<u8> {
    let mut bf = empty_bitfield(2);
    bitfield_set(&mut bf, 0);
    bitfield_set(&mut bf, 1);
    bf
}

/// A peer that serves us, with one suggestion.
fn suggesting(peer_bf: Vec<u8>, piece: u32) -> PeerPicks {
    let mut p = PeerPicks::new(peer_bf);
    p.peer_choking = false;
    p.suggested.push_front(piece);
    p
}

#[test]
fn suggested_beats_rarer_piece() {
    let mut t = torrent();
    t.avail_inc(0);
    t.avail_inc(0);
    t.avail_inc(0);
    t.avail_inc(1); // rarer
    let mut p = suggesting(all_peer_bf(), 0);
    let pick = start_piece(&mut p, &mut t, &StagingPool::empty(32));
    assert_eq!(pick.map(|p| p.0), Some(0));
}

#[test]
fn ineligible_suggest_falls_back_to_rarest() {
    let mut t = torrent();
    t.avail_inc(0);
    t.avail_inc(0);
    t.avail_inc(0);
    t.avail_inc(1); // rarer
    let mut peer_bf = empty_bitfield(2);
    bitfield_set(&mut peer_bf, 1); // peer lacks suggested 0
    let mut p = suggesting(peer_bf, 0);
    let pick = start_piece(&mut p, &mut t, &StagingPool::empty(32));
    assert_eq!(pick.map(|p| p.0), Some(1));
    assert!(p.suggested.is_empty());
}

#[test]
fn choked_suggest_without_allowed_fast_is_not_picked() {
    let mut t = torrent();
    t.avail_inc(0);
    t.avail_inc(1);
    let mut p = suggesting(all_peer_bf(), 0);
    p.peer_choking = true;
    let pick = start_piece(&mut p, &mut t, &StagingPool::empty(32));
    assert!(pick.is_none());
}

#[test]
fn choked_suggest_in_allowed_fast_is_picked() {
    let mut t = torrent();
    t.avail_inc(0);
    t.avail_inc(0);
    t.avail_inc(0);
    t.avail_inc(1); // rarer, but not Allowed Fast
    let mut p = suggesting(all_peer_bf(), 0);
    p.peer_choking = true;
    p.allowed_fast.insert(0);
    let pick = start_piece(&mut p, &mut t, &StagingPool::empty(32));
    assert_eq!(pick.map(|p| p.0), Some(0));
}

#[test]
fn suggest_already_have_or_unwanted_is_dropped() {
    let mut t = torrent();
    t.mark_have(0);
    let mut p = suggesting(all_peer_bf(), 0);
    let pick = start_piece(&mut p, &mut t, &StagingPool::empty(32));
    assert_eq!(pick.map(|p| p.0), Some(1));
    assert!(p.suggested.is_empty());
}

#[test]
fn a_started_piece_is_claimed_for_the_peer_alone() {
    let mut t = torrent();
    let mut p = suggesting(all_peer_bf(), 0);
    let staging = StagingPool::empty(32);
    assert_eq!(start_piece(&mut p, &mut t, &staging), Some((0, 32)));
    assert!(t.piece_is_claimed(0));
    // Another peer gets the other piece, then none.
    let mut q = suggesting(all_peer_bf(), 0);
    assert_eq!(start_piece(&mut q, &mut t, &staging), Some((1, 32)));
    assert_eq!(start_piece(&mut q, &mut t, &staging), None);
    // A peer that leaves gives its pieces back.
    p.claims.release_all(&mut t);
    assert!(!t.piece_is_claimed(0));
    assert!(t.piece_is_claimed(1));
}

fn test_bufs(buffer_count: usize, piece_length: u32) -> PieceBufferPool {
    let limit = (buffer_count as u64).saturating_mul(piece_length as u64);
    PieceBufferPool::new(piece_length, limit)
}

/// Pieces for a test: which may be requested, and which are started.
struct Pieces {
    may: fn(u32) -> bool,
    next: u32,
    len: u32,
    most: usize,
    offers: bool,
    aborted: Vec<u32>,
}

impl Pieces {
    fn none() -> Self {
        Pieces { may: |_| true, next: 0, len: 0, most: 0, offers: false, aborted: Vec::new() }
    }

    fn from(next: u32, len: u32, most: usize) -> Self {
        Pieces { may: |_| true, next, len, most, offers: true, aborted: Vec::new() }
    }
}

impl PieceSource<()> for Pieces {
    // Contracts speak of these; nothing calls them.
    fn ready(&self, _t: &()) -> bool {
        true
    }

    fn may(&self, index: u32) -> bool {
        (self.may)(index)
    }

    fn offers(&self, _t: &(), _index: u32) -> bool {
        self.offers
    }

    fn holds(&self, _index: u32) -> bool {
        false
    }

    fn size(&self, _t: &(), _index: u32) -> u32 {
        self.len
    }

    fn chooses(&self, _t: &(), _now: StagedView, index: u32) -> bool {
        self.offers && index == self.next
    }

    fn kept(&self, _t: &(), _before: &Self, _t_before: &()) -> bool {
        true
    }

    fn kept_at_first(&self, _t: &()) {}

    fn kept_in_steps(&self, _t: &(), _mid: &Self, _t_mid: &(), _before: &Self, _t_before: &()) {}

    fn may_request_piece(&self, index: u32) -> bool {
        (self.may)(index)
    }

    fn start_piece(&mut self, _t: &mut (), staging: &StagingPool) -> Option<(u32, u32)> {
        if !self.offers || staging.len() >= self.most {
            return None;
        }
        let i = self.next;
        self.next += 1;
        Some((i, self.len))
    }

    fn abort_start(&mut self, _t: &mut (), index: u32) {
        self.aborted.push(index);
        self.offers = false;
    }
}

#[test]
fn assemble_verify_write() {
    let len = BLOCK_SIZE as usize * 2 + 100;
    let data: Vec<u8> = (0..len).map(|i| (i % 251) as u8).collect();
    let mut h = Sha1::new();
    h.update(&data);
    let digest = h.finalize();

    let mut bufs = test_bufs(1, len as u32);
    let mut pool = StagingPool::from_pool(&bufs);
    assert!(pool.try_start(&mut bufs, 0, len as u32));
    assert_eq!(num_blocks(len as u32), 3);
    assert_eq!(
        pool.ingest_if_staged(0, 0, &data[0..BLOCK_SIZE as usize]).unwrap(),
        Some(false)
    );
    assert_eq!(
        pool.ingest_if_staged(
            0,
            BLOCK_SIZE,
            &data[BLOCK_SIZE as usize..2 * BLOCK_SIZE as usize]
        )
        .unwrap(),
        Some(false)
    );
    assert_eq!(
        pool.ingest_if_staged(0, 2 * BLOCK_SIZE, &data[2 * BLOCK_SIZE as usize..]).unwrap(),
        Some(true)
    );
    let (plen, buf) = pool.take_for_hash(&mut bufs, 0).unwrap();
    let mut h2 = Sha1::new();
    h2.update(&buf[..len]);
    assert_eq!(h2.finalize().as_slice(), digest.as_slice());
    assert!(sha1_eq(&buf[..len], digest.as_slice()));

    let job = HashJob { index: 0, plen, data: buf, expected: digest.to_vec() };
    let buf = match handle_verify(job, false) {
        Verified::Write(w) => {
            assert_eq!(&w.data[..len], data.as_slice());
            w.data
        }
        other => panic!("expected a write, got {other:?}"),
    };
    pool.reclaim(&mut bufs, 0, buf);
}

#[test]
fn a_wrong_hash_is_not_written() {
    let data = vec![7u8; 64];
    let mut h = Sha1::new();
    h.update(&data);
    let digest = h.finalize().to_vec();
    let mut bad = data.clone();
    bad[0] ^= 0xff;
    let job = HashJob { index: 3, plen: 64, data: bad, expected: digest.clone() };
    match handle_verify(job, false) {
        Verified::Reply(HashOutcome::HashFail { index, plen, data }) => {
            assert_eq!((index, plen, data.len()), (3, 64, 64));
        }
        other => panic!("expected HashFail, got {other:?}"),
    }
    let job = HashJob { index: 3, plen: 64, data, expected: digest };
    match handle_verify(job, true) {
        Verified::Reply(HashOutcome::Done { index, .. }) => assert_eq!(index, 3),
        other => panic!("expected Done without a write, got {other:?}"),
    }
}

#[test]
fn reject_clears_only_one_block() {
    let len = BLOCK_SIZE * 3;
    let mut bufs = test_bufs(1, len);
    let mut pool = StagingPool::from_pool(&bufs);
    assert!(pool.try_start(&mut bufs, 0, len));
    let mut src = Pieces::none();
    let reqs = pool.take_requests(&mut bufs, 3, true, &mut src, &mut ());
    assert_eq!(reqs.len(), 3);
    assert_eq!(pool.total_outstanding(), 3);
    assert!(pool.clear_request(0, BLOCK_SIZE, BLOCK_SIZE));
    assert_eq!(pool.total_outstanding(), 2);
    let again = pool.take_requests(&mut bufs, 3, true, &mut src, &mut ());
    assert_eq!(again, vec![(0, BLOCK_SIZE, BLOCK_SIZE)]);
    assert!(pool.take_requests(&mut bufs, 3, true, &mut src, &mut ()).is_empty());
    assert!(!pool.clear_request(0, 0, 1));
    assert_eq!(pool.total_outstanding(), 3);
}

#[test]
fn unsolicited_piece_does_not_allocate_staging() {
    let plen = BLOCK_SIZE * 2;
    let mut bufs = test_bufs(4, plen);
    let mut pool = StagingPool::from_pool(&bufs);
    let data = vec![0u8; BLOCK_SIZE as usize];
    assert!(pool.ingest_if_staged(0, 0, &data).unwrap().is_none());
    assert!(pool.is_empty());
    assert!(pool.try_start(&mut bufs, 0, plen));
    assert_eq!(pool.ingest_if_staged(0, 0, &data).unwrap(), Some(false));
    assert_eq!(pool.len(), 1);
}

#[test]
fn fixed_slots_no_start_when_full() {
    let plen = BLOCK_SIZE * 2;
    let mut bufs = test_bufs(2, plen);
    let mut pool = StagingPool::from_pool(&bufs);
    assert!(pool.try_start(&mut bufs, 0, plen));
    assert!(pool.try_start(&mut bufs, 1, plen));
    assert!(!pool.can_start_more(&bufs));
    assert!(!pool.try_start(&mut bufs, 2, plen));
    // Complete + take leaves InFlight; still no Free.
    let data = vec![0xab; BLOCK_SIZE as usize];
    assert_eq!(pool.ingest_if_staged(0, 0, &data).unwrap(), Some(false));
    assert_eq!(pool.ingest_if_staged(0, BLOCK_SIZE, &data).unwrap(), Some(true));
    let (_plen, buf) = pool.take_for_hash(&mut bufs, 0).unwrap();
    // Hash/disk no longer holds the staging slot: next piece can start.
    assert!(pool.can_start_more(&bufs));
    assert!(pool.try_start(&mut bufs, 2, plen));
    pool.reclaim(&mut bufs, 0, buf);
}

#[test]
fn pipeline_requests() {
    let len = BLOCK_SIZE * 2 + 100;
    let mut bufs = test_bufs(1, len);
    let mut pool = StagingPool::from_pool(&bufs);
    let mut src = Pieces::none();
    assert!(pool.try_start(&mut bufs, 0, len));
    let reqs = pool.take_requests(&mut bufs, 10, true, &mut src, &mut ());
    assert_eq!(
        reqs,
        vec![(0, 0, BLOCK_SIZE), (0, BLOCK_SIZE, BLOCK_SIZE), (0, 2 * BLOCK_SIZE, 100)]
    );
    assert!(pool.take_requests(&mut bufs, 10, true, &mut src, &mut ()).is_empty());
    pool.enable_endgame();
    assert!(pool.take_requests(&mut bufs, 10, true, &mut src, &mut ()).is_empty());
    pool.requeue_timed_out();
    let again = pool.take_requests(&mut bufs, 10, true, &mut src, &mut ());
    assert_eq!(again[0], (0, 0, BLOCK_SIZE));
    assert_eq!(again[1].1, BLOCK_SIZE);
    assert_eq!(again.len(), 3);
    assert!(pool.take_requests(&mut bufs, 10, true, &mut src, &mut ()).is_empty());
}

#[test]
fn take_requests_fills_pipeline() {
    let plen = BLOCK_SIZE * 64;
    let mut bufs = test_bufs(4, plen);
    let mut pool = StagingPool::from_pool(&bufs);
    let mut src = Pieces::from(0, plen, 2);
    let reqs = pool.take_requests(&mut bufs, 32, false, &mut src, &mut ());
    assert_eq!(reqs.len(), 32, "should queue full pipeline in one shot");
    assert_eq!(pool.total_outstanding(), 32);
    let mut seen = std::collections::HashSet::new();
    for (i, b, l) in &reqs {
        assert!(seen.insert((*i, *b)), "duplicate request {i}:{b}");
        assert_eq!(*l, BLOCK_SIZE);
    }
    let mut more_src = Pieces::from(99, plen, 100);
    let more = pool.take_requests(&mut bufs, 32, false, &mut more_src, &mut ());
    assert!(more.is_empty());
}

#[test]
fn take_requests_respects_may_request_piece() {
    let plen = BLOCK_SIZE * 4;
    let mut bufs = test_bufs(4, plen);
    let mut pool = StagingPool::from_pool(&bufs);
    assert!(pool.try_start(&mut bufs, 0, plen));
    assert!(pool.try_start(&mut bufs, 1, plen));
    let mut src = Pieces::none();
    src.may = |i| i == 1;
    let reqs = pool.take_requests(&mut bufs, 8, false, &mut src, &mut ());
    assert!(!reqs.is_empty());
    assert!(reqs.iter().all(|(i, _, _)| *i == 1));
    // Piece 0 staged but not allowed: no outstanding on it.
    let out0: usize = pool.outstanding_list().iter().filter(|(i, _, _)| *i == 0).count();
    assert_eq!(out0, 0);
}

#[test]
fn reclaim_restores_free_slot() {
    let plen = BLOCK_SIZE;
    let mut bufs = test_bufs(2, plen);
    let mut pool = StagingPool::from_pool(&bufs);
    assert_eq!(pool.capacity(&bufs), 2);
    assert!(pool.try_start(&mut bufs, 0, plen));
    assert_eq!(pool.free_slots(&bufs), 1);
    let data = vec![1u8; BLOCK_SIZE as usize];
    assert_eq!(pool.ingest_if_staged(0, 0, &data).unwrap(), Some(true));
    let (len, buf) = pool.take_for_hash(&mut bufs, 0).unwrap();
    assert_eq!(len, plen);
    // Detached from staging budget; hash/disk owns `buf`.
    assert_eq!(pool.free_slots(&bufs), 2);
    pool.reclaim(&mut bufs, 0, buf);
    assert_eq!(pool.free_slots(&bufs), 2);
    assert!(pool.try_start(&mut bufs, 1, plen));
}

#[test]
fn assembling_cap_spreads_large_piece_budget() {
    // 16 MiB pieces, 256 MiB budget: 16 buffers. A 8192-block pipe
    // would otherwise start 8 pieces on one peer.
    assert_eq!(
        max_assembling_pieces(8192, 16 * 1024 * 1024, 16),
        1,
        "one 16MiB piece per peer so 16 peers can leech"
    );
    assert_eq!(max_assembling_pieces(32, 16 * 1024 * 1024, 16), 1);
    // 1 GiB / 16 MiB = 64 buffers. Large-piece cap 2: ~32 peers.
    assert_eq!(
        max_assembling_pieces(8192, 16 * 1024 * 1024, 64),
        2,
        "1G staging + 16MiB pieces must not collapse onto a handful of peers"
    );
    // 4 MiB pieces, 64 buffers: fair 4 but large-piece cap 2.
    assert_eq!(max_assembling_pieces(8192, 4 * 1024 * 1024, 64), 2);
    // Small pieces: pipe needs 1, don't start extras.
    assert_eq!(max_assembling_pieces(16, BLOCK_SIZE * 64, 256), 1);
    assert_eq!(max_assembling_pieces(32, BLOCK_SIZE * 64, 4), 1);
    assert_eq!(max_assembling_pieces(32, BLOCK_SIZE, 0), 0);
}

#[test]
fn take_requests_caps_pieces_per_peer() {
    let plen = BLOCK_SIZE * 4; // 4 blocks/piece
    let mut bufs = test_bufs(32, plen); // plenty of buffers
    let mut pool = StagingPool::from_pool(&bufs);
    // pipeline 64 would want 16 pieces; cap is fair share of 32 = 2.
    let mut src = Pieces::from(0, plen, 1000);
    let reqs = pool.take_requests(&mut bufs, 64, true, &mut src, &mut ());
    assert_eq!(pool.len(), 2, "must not hog the freelist");
    assert_eq!(reqs.len(), 8); // 2 pieces x 4 blocks
    assert!(src.aborted.is_empty());
}

#[test]
fn take_requests_releases_claim_when_start_fails() {
    let plen = BLOCK_SIZE;
    let mut bufs = test_bufs(1, plen);
    let mut pool = StagingPool::from_pool(&bufs);
    // longer than piece_length: try_start fails
    let mut src = Pieces::from(7, plen + 1, 1000);
    let reqs = pool.take_requests(&mut bufs, 8, true, &mut src, &mut ());
    assert!(reqs.is_empty());
    assert_eq!(src.aborted, vec![7]);
    assert!(pool.is_empty());
}

/// Two pieces of two blocks each and a short one; the peer suggests the short one, and the
/// second is rarer than the first.
fn three_pieces() -> (HotTorrent, PeerPicks) {
    let layout = StorageLayout {
        data_root: "/tmp".into(),
        piece_length: 2 * BLOCK_SIZE,
        piece_count: 3,
        total_size: 4 * BLOCK_SIZE as u64 + 100,
        files: vec![FileLayout {
            path: "a".into(),
            size: 4 * BLOCK_SIZE as u64 + 100,
            offset: 0,
            priority: 1,
        }],
    };
    let mut t = HotTorrent::new_empty(1, [0u8; 20], "t".into(), layout, vec![0u8; 60]);
    t.avail_inc(0);
    t.avail_inc(0);
    t.avail_inc(1);
    t.avail_inc(2);
    t.avail_inc(2);
    t.avail_inc(2);
    let mut bf = empty_bitfield(3);
    for i in 0..3 {
        bitfield_set(&mut bf, i);
    }
    (t, suggesting(bf, 2))
}

#[test]
fn pieces_are_fetched_in_the_order_of_choice() {
    let (mut t, mut p) = three_pieces();
    let mut bufs = test_bufs(48, 2 * BLOCK_SIZE);
    let mut pool = StagingPool::from_pool(&bufs);
    let reqs = pool.take_requests(&mut bufs, 8, false, &mut p, &mut t);
    assert_eq!(
        reqs,
        vec![
            (2, 0, 100),
            (1, 0, BLOCK_SIZE),
            (1, BLOCK_SIZE, BLOCK_SIZE),
            (0, 0, BLOCK_SIZE),
            (0, BLOCK_SIZE, BLOCK_SIZE),
        ]
    );
    assert!(p.suggested.is_empty());
}

#[test]
fn a_shallow_pipeline_starts_only_what_it_asks_for() {
    let (mut t, mut p) = three_pieces();
    let mut bufs = test_bufs(48, 2 * BLOCK_SIZE);
    let mut pool = StagingPool::from_pool(&bufs);
    let reqs = pool.take_requests(&mut bufs, 3, false, &mut p, &mut t);
    assert_eq!(reqs, vec![(2, 0, 100), (1, 0, BLOCK_SIZE), (1, BLOCK_SIZE, BLOCK_SIZE)]);
    assert_eq!(pool.len(), 2);
    assert!(!t.piece_is_claimed(0));
}

#[test]
fn clearing_gives_back_one_slot_for_each_assembling_piece() {
    let mut bufs = test_bufs(8, BLOCK_SIZE);
    let mut pool = StagingPool::from_pool(&bufs);
    for i in 0..3 {
        assert!(pool.try_start(&mut bufs, i, BLOCK_SIZE));
    }
    // One piece is being hashed: its buffer is no longer counted.
    let data = vec![5u8; BLOCK_SIZE as usize];
    assert_eq!(pool.ingest_if_staged(1, 0, &data).unwrap(), Some(true));
    assert!(pool.take_for_hash(&mut bufs, 1).is_some());
    let (free, held) = (pool.free_slots(&bufs), pool.len());
    assert_eq!(held, 2);
    pool.clear(&mut bufs);
    assert_eq!(pool.free_slots(&bufs), free + held);
    assert!(pool.is_empty() && pool.indices().is_empty() && pool.total_outstanding() == 0);
    assert!(!pool.contains(0) && pool.contains(1) && !pool.contains(2));
    assert_eq!(bufs.freelist_len(), 2);
}
