//! Per-peer assembly of pieces from blocks.
//!
//! Each peer keeps the pieces it is fetching. The piece bytes live in buffers that are
//! checked out of the torrent's shared [`PieceBufferPool`].
use crate::error::{Error, Result};
use crate::staging::piece_pool::PieceBufferPool;
use vstd::prelude::*;

verus! {

/// Standard request size.
pub const BLOCK_SIZE: u32 = 16384;

/// Steady state refills once the outstanding requests drop to the pipeline divided by
/// this.
pub const PIPE_REFILL_DIV: usize = 2;

/// A shared pool is meant to serve at least this many peers.
pub const MIN_PEER_SPREAD: usize = 16;

/// Pieces of at least this many blocks (4 MiB) count as large.
pub const LARGE_PIECE_BLOCKS: usize = 256;

/// Most large pieces that one peer assembles at a time.
pub const LARGE_PIECE_MAX: usize = 2;

// ---------------------------------------------------------------------------
// Blocks of a piece.
// ---------------------------------------------------------------------------

/// Number of blocks in a piece of `len` bytes.
pub open spec fn blocks(len: int) -> int {
    (len + BLOCK_SIZE - 1) / (BLOCK_SIZE as int)
}

/// Length of block `k` of a piece of `len` bytes: zero past its end.
pub open spec fn block_size_at(len: int, k: int) -> int {
    if k * BLOCK_SIZE >= len {
        0
    } else if len - k * BLOCK_SIZE < BLOCK_SIZE {
        len - k * BLOCK_SIZE
    } else {
        BLOCK_SIZE as int
    }
}

/// Number of blocks in a piece.
pub fn num_blocks(piece_len: u32) -> (n: usize)
    ensures
        n == blocks(piece_len as int),
{
    let whole: u32 = piece_len / BLOCK_SIZE;
    if piece_len % BLOCK_SIZE == 0 {
        whole as usize
    } else {
        whole as usize + 1
    }
}

/// Length of one block: the last one of a piece may be short.
pub fn block_len(piece_len: u32, block_index: u32) -> (n: u32)
    requires
        block_index * BLOCK_SIZE <= u32::MAX,
    ensures
        n == block_size_at(piece_len as int, block_index as int),
{
    let begin: u32 = block_index * BLOCK_SIZE;
    if begin >= piece_len {
        return 0;
    }
    if piece_len - begin < BLOCK_SIZE {
        piece_len - begin
    } else {
        BLOCK_SIZE
    }
}

/// The blocks of a piece cover it: each starts where the one before ends, none is empty,
/// and the last ends where the piece ends.
pub proof fn blocks_cover_the_piece(len: int, k: int)
    requires
        0 < len,
        0 <= k < blocks(len),
    ensures
        0 < block_size_at(len, k) <= BLOCK_SIZE,
        k + 1 < blocks(len) ==> k * BLOCK_SIZE + block_size_at(len, k) == (k + 1) * BLOCK_SIZE,
        k + 1 == blocks(len) ==> k * BLOCK_SIZE + block_size_at(len, k) == len,
{
}

// ---------------------------------------------------------------------------
// One piece.
// ---------------------------------------------------------------------------

/// A piece that is being assembled. Its bytes are kept beside it.
#[derive(Debug)]
pub struct ActivePiece {
    index: u32,
    length: u32,
    have: Vec<bool>,
    requested: Vec<bool>,
    endgame: bool,
}

/// What a piece under assembly has and has asked for, block by block.
#[verifier::ext_equal]
pub struct PieceView {
    pub index: u32,
    pub length: u32,
    pub have: Seq<bool>,
    pub requested: Seq<bool>,
    pub endgame: bool,
}

/// The request for a block: where it begins in its piece, and its length.
pub open spec fn request_of(length: int, k: int) -> (u32, u32) {
    ((k * BLOCK_SIZE) as u32, block_size_at(length, k) as u32)
}

impl PieceView {
    /// One flag per block.
    pub open spec fn wf(self) -> bool {
        &&& self.length > 0
        &&& self.have.len() == blocks(self.length as int)
        &&& self.requested.len() == self.have.len()
    }

    /// A piece with no block in and none requested.
    pub open spec fn fresh(index: u32, length: u32) -> PieceView {
        PieceView {
            index,
            length,
            have: Seq::new(blocks(length as int) as nat, |k: int| false),
            requested: Seq::new(blocks(length as int) as nat, |k: int| false),
            endgame: false,
        }
    }

    /// Every block is in.
    pub open spec fn complete(self) -> bool {
        forall|k: int| 0 <= k < self.have.len() ==> self.have[k]
    }

    /// Block `k` is neither in nor requested.
    pub open spec fn open_block(self, k: int) -> bool {
        0 <= k < self.have.len() && !self.have[k] && !self.requested[k]
    }

    /// Block `k` is requested and not in.
    pub open spec fn pending_block(self, k: int) -> bool {
        0 <= k < self.have.len() && !self.have[k] && self.requested[k]
    }

    /// The first block from `k` on that is neither in nor requested.
    pub open spec fn first_open(self, k: int) -> Option<int>
        decreases self.have.len() - k,
    {
        if k < 0 || k >= self.have.len() {
            None
        } else if self.open_block(k) {
            Some(k)
        } else {
            self.first_open(k + 1)
        }
    }

    /// Block `k` now counts as requested.
    pub open spec fn with_request(self, k: int) -> PieceView {
        PieceView { requested: self.requested.update(k, true), ..self }
    }

    /// Block `k` no longer counts as requested.
    pub open spec fn without_request(self, k: int) -> PieceView {
        PieceView { requested: self.requested.update(k, false), ..self }
    }

    /// No missing block counts as requested.
    pub open spec fn requeued(self) -> PieceView {
        PieceView {
            requested: Seq::new(
                self.requested.len(),
                |k: int| self.requested[k] && self.have[k],
            ),
            ..self
        }
    }

    /// The blocks that lie whole in `[begin, begin + n)` are in.
    pub open spec fn with_range(self, begin: int, n: int) -> PieceView {
        PieceView {
            have: Seq::new(
                self.have.len(),
                |k: int| self.have[k] || range_covers(self.length as int, begin, n, k),
            ),
            ..self
        }
    }

    /// The requested and missing blocks among the first `n`, in order.
    pub open spec fn pending(self, n: int) -> Seq<(u32, u32)>
        decreases n,
    {
        if n <= 0 {
            Seq::empty()
        } else if self.pending_block(n - 1) {
            self.pending(n - 1).push(request_of(self.length as int, n - 1))
        } else {
            self.pending(n - 1)
        }
    }

    /// Number of blocks that are requested and missing.
    pub open spec fn pending_count(self) -> nat {
        self.pending(self.have.len() as int).len()
    }
}

/// Whether block `k` of a piece of `length` bytes lies whole in `[begin, begin + n)`.
pub open spec fn range_covers(length: int, begin: int, n: int, k: int) -> bool {
    begin <= k * BLOCK_SIZE && begin + n >= k * BLOCK_SIZE + block_size_at(length, k)
}

/// Why a range of received bytes is refused, if it is.
pub open spec fn range_refusal(length: int, buf_len: int, begin: int, n: int) -> Option<Seq<char>> {
    if n == 0 {
        None
    } else if begin % (BLOCK_SIZE as int) != 0 && begin + n != length && begin / (BLOCK_SIZE as int)
        != (begin + n - 1) / (BLOCK_SIZE as int) {
        Some("unaligned multi-block piece data"@)
    } else if begin / (BLOCK_SIZE as int) >= blocks(length) {
        Some("block begin past piece"@)
    } else if begin + n > length || begin + n > buf_len {
        Some("block past piece end"@)
    } else {
        None
    }
}

/// Why a received block is refused, if it is.
pub open spec fn block_refusal(length: int, buf_len: int, begin: int, n: int) -> Option<Seq<char>> {
    if begin + n > buf_len || begin + n > length {
        Some("block overflows piece buffer"@)
    } else {
        range_refusal(length, buf_len, begin, n)
    }
}

/// Requesting an open block adds one pending block.
proof fn request_adds_one(p: PieceView, k: int, n: int)
    requires
        p.wf(),
        p.open_block(k),
        0 <= n <= p.have.len(),
    ensures
        p.with_request(k).pending(n).len() == p.pending(n).len() + if k < n {
            1int
        } else {
            0int
        },
    decreases n,
{
    if n > 0 {
        request_adds_one(p, k, n - 1);
    }
}

/// Withdrawing a pending request takes one pending block away.
proof fn withdrawal_takes_one(p: PieceView, k: int, n: int)
    requires
        p.wf(),
        p.pending_block(k),
        0 <= n <= p.have.len(),
    ensures
        p.without_request(k).pending(n).len() == p.pending(n).len() - if k < n {
            1int
        } else {
            0int
        },
    decreases n,
{
    if n > 0 {
        withdrawal_takes_one(p, k, n - 1);
    }
}

/// Nothing is pending where no block is requested.
proof fn nothing_requested_nothing_pending(p: PieceView, n: int)
    requires
        forall|k: int| 0 <= k < p.have.len() ==> !p.pending_block(k),
    ensures
        p.pending(n) == Seq::<(u32, u32)>::empty(),
    decreases n,
{
    if n > 0 {
        nothing_requested_nothing_pending(p, n - 1);
    }
}

impl View for ActivePiece {
    type V = PieceView;

    closed spec fn view(&self) -> PieceView {
        PieceView {
            index: self.index,
            length: self.length,
            have: self.have@,
            requested: self.requested@,
            endgame: self.endgame,
        }
    }
}

impl ActivePiece {
    /// A piece of which nothing is in yet.
    pub fn open(index: u32, length: u32) -> (p: Self)
        requires
            length > 0,
        ensures
            p@ == PieceView::fresh(index, length),
            p@.wf(),
    {
        let n: usize = num_blocks(length);
        let p = ActivePiece {
            index,
            length,
            have: vec![false; n],
            requested: vec![false; n],
            endgame: false,
        };
        assert(p@ =~= PieceView::fresh(index, length));
        p
    }

    /// Whether every block is in.
    pub fn is_complete(&self) -> (r: bool)
        ensures
            r == self@.complete(),
    {
        let mut i: usize = 0;
        while i < self.have.len()
            invariant
                i <= self.have@.len(),
                forall|k: int| 0 <= k < i ==> self.have@[k],
            decreases self.have@.len() - i,
        {
            if !self.have[i] {
                assert(!self@.have[i as int]);
                return false;
            }
            i += 1;
        }
        true
    }

    /// Mark or clear endgame.
    pub fn set_endgame(&mut self, on: bool)
        ensures
            final(self)@ == (PieceView { endgame: on, ..old(self)@ }),
    {
        self.endgame = on;
    }

    /// Forget every request that has not been answered.
    pub fn requeue_missing(&mut self)
        requires
            old(self)@.wf(),
        ensures
            final(self)@ == old(self)@.requeued(),
            final(self)@.wf(),
    {
        let mut i: usize = 0;
        while i < self.have.len()
            invariant
                i <= self.have@.len(),
                self.have@ == old(self).have@,
                self.requested@.len() == old(self).requested@.len(),
                self.have@.len() == self.requested@.len(),
                self.index == old(self).index,
                self.length == old(self).length,
                self.endgame == old(self).endgame,
                forall|k: int|
                    0 <= k < i ==> self.requested@[k] == (old(self).requested@[k]
                        && self.have@[k]),
                forall|k: int|
                    i <= k < self.have@.len() ==> self.requested@[k] == old(self).requested@[k],
            decreases self.have@.len() - i,
        {
            if !self.have[i] {
                self.requested.set(i, false);
            }
            i += 1;
        }
        assert(self@ =~= old(self)@.requeued());
    }

    /// Forget the request for one block, after the peer refused it. False where there is
    /// no such pending request.
    pub fn clear_request(&mut self, begin: u32, length: u32) -> (r: bool)
        requires
            old(self)@.wf(),
        ensures
            final(self)@.wf(),
            r == exists|k: int|
                old(self)@.pending_block(k) && #[trigger] request_of(old(self)@.length as int, k)
                    == (begin, length),
            r ==> old(self)@.pending_block((begin / BLOCK_SIZE) as int)
                && final(self)@ == old(self)@.without_request((begin / BLOCK_SIZE) as int),
            !r ==> final(self)@ == old(self)@,
            final(self)@.pending_count() == old(self)@.pending_count() - if r {
                1int
            } else {
                0int
            },
    {
        let ghost p = self@;
        let bi: usize = (begin / BLOCK_SIZE) as usize;
        proof {
            assert forall|k: int| p.pending_block(k) implies (#[trigger] request_of(
                p.length as int,
                k,
            )).0 == k * BLOCK_SIZE by {
                blocks_cover_the_piece(p.length as int, k);
            }
        }
        if begin % BLOCK_SIZE != 0 {
            return false;
        }
        if bi >= self.have.len() || self.have[bi] || !self.requested[bi] {
            return false;
        }
        proof {
            blocks_cover_the_piece(p.length as int, bi as int);
        }
        let expect: u32 = block_len(self.length, bi as u32);
        if length != expect {
            return false;
        }
        self.requested.set(bi, false);
        proof {
            assert(self@ =~= p.without_request(bi as int));
            withdrawal_takes_one(p, bi as int, p.have.len() as int);
            assert(request_of(p.length as int, bi as int) == (begin, length));
        }
        true
    }

    /// The next block to ask for, which then counts as requested.
    pub fn next_request(&mut self) -> (r: Option<(u32, u32)>)
        requires
            old(self)@.wf(),
        ensures
            final(self)@.wf(),
            match old(self)@.first_open(0) {
                Some(k) => {
                    &&& old(self)@.open_block(k)
                    &&& r == Some(request_of(old(self)@.length as int, k))
                    &&& final(self)@ == old(self)@.with_request(k)
                    &&& final(self)@.pending_count() == old(self)@.pending_count() + 1
                },
                None => r is None && final(self)@ == old(self)@,
            },
    {
        let mut i: usize = 0;
        while i < self.have.len()
            invariant
                i <= self.have@.len(),
                self@ == old(self)@,
                self@.wf(),
                self@.first_open(0) == self@.first_open(i as int),
            decreases self.have@.len() - i,
        {
            if !self.have[i] && !self.requested[i] {
                proof {
                    blocks_cover_the_piece(self@.length as int, i as int);
                }
                self.requested.set(i, true);
                let begin: u32 = i as u32 * BLOCK_SIZE;
                let len: u32 = block_len(self.length, i as u32);
                proof {
                    assert(self@ =~= old(self)@.with_request(i as int));
                    request_adds_one(old(self)@, i as int, old(self)@.have.len() as int);
                }
                return Some((begin, len));
            }
            i += 1;
        }
        None
    }

    /// Number of blocks that are requested and missing.
    pub fn outstanding_requests(&self) -> (n: usize)
        requires
            self@.wf(),
        ensures
            n == self@.pending_count(),
    {
        let mut n: usize = 0;
        let mut i: usize = 0;
        while i < self.have.len()
            invariant
                i <= self.have@.len(),
                self@.wf(),
                n == self@.pending(i as int).len(),
                n <= i,
            decreases self.have@.len() - i,
        {
            if !self.have[i] && self.requested[i] {
                n += 1;
            }
            i += 1;
        }
        n
    }

    /// The requests that are pending, in order.
    pub fn outstanding_blocks(&self) -> (r: Vec<(u32, u32)>)
        requires
            self@.wf(),
        ensures
            r@ == self@.pending(self@.have.len() as int),
    {
        let mut out: Vec<(u32, u32)> = Vec::new();
        let mut i: usize = 0;
        while i < self.have.len()
            invariant
                i <= self.have@.len(),
                self@.wf(),
                out@ == self@.pending(i as int),
            decreases self.have@.len() - i,
        {
            if !self.have[i] && self.requested[i] {
                proof {
                    blocks_cover_the_piece(self@.length as int, i as int);
                }
                out.push((i as u32 * BLOCK_SIZE, block_len(self.length, i as u32)));
            }
            i += 1;
        }
        out
    }

    /// Mark the blocks that `[begin, begin + length)` covers whole as in.
    pub fn mark_range_have(&mut self, begin: u32, length: u32, buf_len: u32) -> (r: Result<()>)
        requires
            old(self)@.wf(),
            begin + length <= u32::MAX,
        ensures
            final(self)@.wf(),
            match r {
                Ok(_) => {
                    &&& range_refusal(
                        old(self)@.length as int,
                        buf_len as int,
                        begin as int,
                        length as int,
                    ) is None
                    &&& final(self)@ == old(self)@.with_range(begin as int, length as int)
                },
                Err(e) => {
                    &&& e is Msg
                    &&& range_refusal(
                        old(self)@.length as int,
                        buf_len as int,
                        begin as int,
                        length as int,
                    ) == Some(e.text())
                    &&& final(self)@ == old(self)@
                },
            },
    {
        let ghost p = self@;
        if length == 0 {
            proof {
                assert forall|k: int| 0 <= k < p.have.len() implies p.with_range(
                    begin as int,
                    0,
                ).have[k] == p.have[k] by {
                    blocks_cover_the_piece(p.length as int, k);
                }
                assert(p.with_range(begin as int, 0) =~= p);
            }
            return Ok(());
        }
        let end: u32 = begin + length;
        if begin % BLOCK_SIZE != 0 && end != self.length && begin / BLOCK_SIZE != (end - 1)
            / BLOCK_SIZE {
            return Err(Error::msg("unaligned multi-block piece data"));
        }
        let start_b: usize = (begin / BLOCK_SIZE) as usize;
        if start_b >= self.have.len() {
            return Err(Error::msg("block begin past piece"));
        }
        if end > self.length || end > buf_len {
            return Err(Error::msg("block past piece end"));
        }
        let mut i: usize = start_b;
        proof {
            assert forall|k: int| 0 <= k < start_b implies !range_covers(
                p.length as int,
                begin as int,
                length as int,
                k,
            ) by {}
        }
        while i < self.have.len()
            invariant
                start_b <= i <= self.have@.len(),
                p == old(self)@,
                p.wf(),
                end == begin + length,
                self.index == p.index,
                self.length == p.length,
                self.endgame == p.endgame,
                self.requested@ == p.requested,
                self.have@.len() == p.have.len(),
                forall|k: int|
                    0 <= k < i ==> #[trigger] self.have@[k] == (p.have[k] || range_covers(
                        p.length as int,
                        begin as int,
                        length as int,
                        k,
                    )),
                forall|k: int|
                    i <= k < p.have.len() ==> #[trigger] self.have@[k] == p.have[k],
            decreases self.have@.len() - i,
        {
            proof {
                blocks_cover_the_piece(p.length as int, i as int);
            }
            let b0: u32 = i as u32 * BLOCK_SIZE;
            let b1: u32 = b0 + block_len(self.length, i as u32);
            if begin <= b0 && end >= b1 {
                self.have.set(i, true);
            }
            assert(self.have@[i as int] == (p.have[i as int] || range_covers(
                p.length as int,
                begin as int,
                length as int,
                i as int,
            )));
            i += 1;
        }
        assert(self@ =~= p.with_range(begin as int, length as int));
        Ok(())
    }

    /// Write a received block into the piece's buffer. Says whether the piece is now
    /// whole.
    pub fn ingest(&mut self, buf: &mut Vec<u8>, begin: u32, data: &[u8]) -> (r: Result<bool>)
        requires
            old(self)@.wf(),
        ensures
            final(self)@.wf(),
            ({
                let refusal = block_refusal(
                    old(self)@.length as int,
                    old(buf)@.len() as int,
                    begin as int,
                    data@.len() as int,
                );
                match r {
                    Ok(complete) => {
                        &&& refusal is None
                        &&& final(self)@ == old(self)@.with_range(begin as int, data@.len() as int)
                        &&& final(buf)@ == overwritten(old(buf)@, begin as int, data@)
                        &&& complete == final(self)@.complete()
                    },
                    Err(e) => {
                        &&& e is Msg
                        &&& refusal == Some(e.text())
                        &&& final(self)@ == old(self)@
                        &&& final(buf)@ == old(buf)@
                    },
                }
            }),
    {
        let n: usize = data.len();
        let blen: usize = buf.len();
        if n > blen || begin as usize > blen - n || n > self.length as usize || begin as usize
            > self.length as usize - n {
            return Err(Error::msg("block overflows piece buffer"));
        }
        let cap: u32 = if blen > self.length as usize {
            self.length
        } else {
            blen as u32
        };
        match self.mark_range_have(begin, n as u32, cap) {
            Ok(_) => {},
            Err(e) => {
                return Err(e);
            },
        }
        let mut i: usize = 0;
        while i < n
            invariant
                i <= n,
                n == data@.len(),
                begin + n <= blen,
                blen == old(buf)@.len(),
                buf@ == overwritten(old(buf)@, begin as int, data@.subrange(0, i as int)),
            decreases n - i,
        {
            buf.set(begin as usize + i, data[i]);
            assert(buf@ =~= overwritten(old(buf)@, begin as int, data@.subrange(0, i + 1)));
            i += 1;
        }
        assert(data@.subrange(0, n as int) =~= data@);
        assert(buf@ =~= overwritten(old(buf)@, begin as int, data@));
        Ok(self.is_complete())
    }
}

/// `buf` with `data` written from `begin` on.
pub open spec fn overwritten(buf: Seq<u8>, begin: int, data: Seq<u8>) -> Seq<u8> {
    Seq::new(
        buf.len(),
        |i: int|
            if begin <= i < begin + data.len() {
                data[i - begin]
            } else {
                buf[i]
            },
    )
}

// ---------------------------------------------------------------------------
// The pieces of one peer.
// ---------------------------------------------------------------------------

#[derive(Debug)]
enum Slot {
    /// Blocks of the piece are coming in.
    Assembling { piece: ActivePiece, buf: Vec<u8> },
    /// The piece is with hashing and disk, and so is its buffer.
    Hashing { index: u32 },
}

/// A staged piece: its blocks and bytes while it assembles, its index alone while it is
/// hashed.
#[verifier::ext_equal]
pub enum SlotView {
    Assembling { piece: PieceView, buf: Seq<u8> },
    Hashing { index: u32 },
}

impl View for Slot {
    type V = SlotView;

    closed spec fn view(&self) -> SlotView {
        match *self {
            Slot::Assembling { piece, buf } => SlotView::Assembling { piece: piece@, buf: buf@ },
            Slot::Hashing { index } => SlotView::Hashing { index },
        }
    }
}

impl SlotView {
    /// Index of the staged piece.
    pub open spec fn index(self) -> u32 {
        match self {
            SlotView::Assembling { piece, .. } => piece.index,
            SlotView::Hashing { index } => index,
        }
    }

    /// The piece is no longer than the buffer, and the buffer has the piece length.
    pub open spec fn wf(self, piece_length: u32) -> bool {
        match self {
            SlotView::Assembling { piece, buf } => piece.wf() && piece.length <= piece_length
                && buf.len() == piece_length,
            SlotView::Hashing { .. } => true,
        }
    }

    /// Number of its blocks that are requested and missing.
    pub open spec fn pending_count(self) -> nat {
        match self {
            SlotView::Assembling { piece, .. } => piece.pending_count(),
            SlotView::Hashing { .. } => 0,
        }
    }

    /// The pending requests of the slot, in order.
    pub open spec fn pending(self) -> Seq<(u32, u32, u32)> {
        match self {
            SlotView::Assembling { piece, .. } => piece.pending(
                piece.have.len() as int,
            ).map_values(|r: (u32, u32)| (piece.index, r.0, r.1)),
            SlotView::Hashing { .. } => Seq::empty(),
        }
    }

    /// The first block to ask for, where requests for the piece are allowed.
    pub open spec fn first_open(self, may: spec_fn(u32) -> bool) -> Option<int> {
        match self {
            SlotView::Assembling { piece, .. } => if may(piece.index) {
                piece.first_open(0)
            } else {
                None
            },
            SlotView::Hashing { .. } => None,
        }
    }

    /// Block `k` now counts as requested.
    pub open spec fn with_request(self, k: int) -> SlotView {
        match self {
            SlotView::Assembling { piece, buf } => SlotView::Assembling {
                piece: piece.with_request(k),
                buf,
            },
            SlotView::Hashing { .. } => self,
        }
    }

    /// The request for block `k`.
    pub open spec fn request(self, k: int) -> (u32, u32, u32) {
        match self {
            SlotView::Assembling { piece, .. } => {
                let r = request_of(piece.length as int, k);
                (piece.index, r.0, r.1)
            },
            SlotView::Hashing { index } => (index, 0, 0),
        }
    }

    /// Whether `r` asks for a block of this slot that is requested and missing.
    pub open spec fn awaits(self, r: (u32, u32, u32)) -> bool {
        self matches SlotView::Assembling { piece, .. } && exists|k: int|
            piece.pending_block(k) && r == #[trigger] self.request(k)
    }
}

/// Number of requested and missing blocks over all slots.
pub open spec fn pending_total(slots: Seq<SlotView>) -> nat
    decreases slots.len(),
{
    if slots.len() == 0 {
        0
    } else {
        pending_total(slots.drop_last()) + slots.last().pending_count()
    }
}

/// The pending requests of all slots, in order.
pub open spec fn pending_all(slots: Seq<SlotView>) -> Seq<(u32, u32, u32)>
    decreases slots.len(),
{
    if slots.len() == 0 {
        Seq::empty()
    } else {
        pending_all(slots.drop_last()) + slots.last().pending()
    }
}

/// The requests that are awaiting their block.
pub open spec fn awaited(slots: Seq<SlotView>) -> Set<(u32, u32, u32)> {
    Set::new(|r: (u32, u32, u32)| exists|t: int| 0 <= t < slots.len() && (#[trigger] slots[t]).awaits(r))
}

/// The slots whose piece is assembling.
pub open spec fn assembling(slots: Seq<SlotView>) -> Seq<SlotView>
    decreases slots.len(),
{
    if slots.len() == 0 {
        Seq::empty()
    } else if slots.last() is Assembling {
        assembling(slots.drop_last()).push(slots.last())
    } else {
        assembling(slots.drop_last())
    }
}

/// The slots whose piece is being hashed.
pub open spec fn hashing(slots: Seq<SlotView>) -> Seq<SlotView>
    decreases slots.len(),
{
    if slots.len() == 0 {
        Seq::empty()
    } else if slots.last() is Hashing {
        hashing(slots.drop_last()).push(slots.last())
    } else {
        hashing(slots.drop_last())
    }
}

/// A piece is staged at most once, and each slot is sound.
pub open spec fn slots_wf(slots: Seq<SlotView>, piece_length: u32) -> bool {
    &&& forall|t: int| 0 <= t < slots.len() ==> (#[trigger] slots[t]).wf(piece_length)
    &&& forall|t: int, u: int|
        0 <= t < u < slots.len() ==> (#[trigger] slots[t]).index() != (#[trigger] slots[u]).index()
}

/// Whether some slot stages the piece.
pub open spec fn staged(slots: Seq<SlotView>, index: u32) -> bool {
    exists|t: int| 0 <= t < slots.len() && (#[trigger] slots[t]).index() == index
}

/// The slot that stages the piece, where one does.
pub open spec fn position(slots: Seq<SlotView>, index: u32) -> int {
    choose|t: int| 0 <= t < slots.len() && (#[trigger] slots[t]).index() == index
}

/// There is only one slot for a piece.
pub proof fn position_is(slots: Seq<SlotView>, t: int, piece_length: u32)
    requires
        slots_wf(slots, piece_length),
        0 <= t < slots.len(),
    ensures
        position(slots, slots[t].index()) == t,
{
    let u = position(slots, slots[t].index());
    assert(0 <= u < slots.len() && slots[u].index() == slots[t].index());
    if u < t {
        assert(slots[u].index() != slots[t].index());
    } else if t < u {
        assert(slots[t].index() != slots[u].index());
    }
}

/// Whether some slot assembles the piece.
pub open spec fn assembles(slots: Seq<SlotView>, index: u32) -> bool {
    exists|t: int|
        0 <= t < slots.len() && slots[t] is Assembling && (#[trigger] slots[t]).index() == index
}

/// The largest machine number that is no more than `n`.
pub open spec fn clipped(n: nat) -> nat {
    if n > usize::MAX {
        usize::MAX as nat
    } else {
        n
    }
}

/// The slot from `t` on, and its block, that the next request is for.
pub open spec fn next_open(slots: Seq<SlotView>, may: spec_fn(u32) -> bool, t: int) -> Option<
    (int, int),
>
    decreases slots.len() - t,
{
    if t < 0 || t >= slots.len() {
        None
    } else {
        match slots[t].first_open(may) {
            Some(k) => Some((t, k)),
            None => next_open(slots, may, t + 1),
        }
    }
}

/// The slots and the requests after asking for up to `room` more blocks of the staged
/// pieces, slot by slot and block by block.
pub open spec fn filled(slots: Seq<SlotView>, may: spec_fn(u32) -> bool, room: nat) -> (
    Seq<SlotView>,
    Seq<(u32, u32, u32)>,
)
    decreases room,
{
    match next_open(slots, may, 0) {
        Some((t, k)) if room > 0 => {
            let rest = filled(
                slots.update(t, slots[t].with_request(k)),
                may,
                (room - 1) as nat,
            );
            (rest.0, seq![slots[t].request(k)] + rest.1)
        },
        _ => (slots, Seq::empty()),
    }
}

/// Per-peer download staging.
#[derive(Debug)]
pub struct StagingPool {
    slots: Vec<Slot>,
    piece_length: u32,
    /// Whether this peer downloads: a pure seeder never checks out a buffer.
    leech: bool,
}

impl StagingPool {
    /// The staged pieces.
    pub closed spec fn slots(&self) -> Seq<SlotView> {
        self.slots@.map_values(|s: Slot| s@)
    }

    /// Length of a full piece.
    pub closed spec fn spec_piece_length(&self) -> u32 {
        self.piece_length
    }

    /// Whether this peer downloads.
    pub closed spec fn leeches(&self) -> bool {
        self.leech
    }

    /// Validity of the staging state.
    pub open spec fn wf(&self) -> bool {
        &&& self.spec_piece_length() >= 1
        &&& slots_wf(self.slots(), self.spec_piece_length())
    }

    /// Whether `bufs` is a pool that this staging state can draw from.
    pub open spec fn fits(&self, bufs: &PieceBufferPool) -> bool {
        bufs.wf() && bufs.spec_piece_length() == self.spec_piece_length()
    }

    /// The buffers that are out cover the assembling pieces and those of other peers, and a
    /// seeder assembles none.
    pub open spec fn covered(&self, bufs: &PieceBufferPool, others: nat) -> bool {
        &&& assembling(self.slots()).len() + others <= bufs.outstanding()
        &&& self.leeches() || assembling(self.slots()).len() == 0
    }

    /// Number of buffers that the pool can still give, zero for a seeder.
    pub open spec fn free(&self, bufs: &PieceBufferPool) -> int {
        if self.leeches() {
            bufs.room()
        } else {
            0
        }
    }

    /// Apart from the slots, nothing ever changes.
    pub open spec fn same_peer(&self, other: &Self) -> bool {
        self.spec_piece_length() == other.spec_piece_length() && self.leeches() == other.leeches()
    }

    /// A pure seeder's staging: it takes no buffers.
    pub fn empty(piece_length: u32) -> (s: Self)
        ensures
            s.wf(),
            s.slots() == Seq::<SlotView>::empty(),
            s.spec_piece_length() == if piece_length == 0 { 1 } else { piece_length },
            !s.leeches(),
    {
        let s = StagingPool {
            slots: Vec::new(),
            piece_length: if piece_length == 0 {
                1
            } else {
                piece_length
            },
            leech: false,
        };
        assert(s.slots() =~= Seq::<SlotView>::empty());
        s
    }

    /// Staging that draws its buffers from the torrent's pool.
    pub fn from_pool(bufs: &PieceBufferPool) -> (s: Self)
        requires
            bufs.wf(),
        ensures
            s.wf(),
            s.fits(bufs),
            s.slots() == Seq::<SlotView>::empty(),
            s.leeches(),
    {
        let s = StagingPool { slots: Vec::new(), piece_length: bufs.piece_length(), leech: true };
        assert(s.slots() =~= Seq::<SlotView>::empty());
        s
    }

    /// Length of a full piece.
    pub fn piece_length(&self) -> (n: u32)
        ensures
            n == self.spec_piece_length(),
    {
        self.piece_length
    }

    /// Capacity of the shared pool, zero for a seeder.
    pub fn capacity(&self, bufs: &PieceBufferPool) -> (n: usize)
        ensures
            n == if self.leeches() {
                bufs.spec_capacity()
            } else {
                0
            },
    {
        if self.leech {
            bufs.capacity()
        } else {
            0
        }
    }

    /// Position of the slot that assembles the piece.
    fn find_assembling(&self, index: u32) -> (r: Option<usize>)
        ensures
            match r {
                Some(t) => t < self.slots().len() && self.slots()[t as int] is Assembling
                    && self.slots()[t as int].index() == index,
                None => !assembles(self.slots(), index),
            },
    {
        let mut t: usize = 0;
        while t < self.slots.len()
            invariant
                t <= self.slots@.len(),
                forall|u: int|
                    0 <= u < t && self.slots()[u] is Assembling ==> (
                    #[trigger] self.slots()[u]).index() != index,
            decreases self.slots@.len() - t,
        {
            assert(self.slots()[t as int] == self.slots@[t as int]@);
            if let Slot::Assembling { piece, .. } = &self.slots[t] {
                if piece.index == index {
                    return Some(t);
                }
            }
            t += 1;
        }
        None
    }

    /// Whether the piece is staged, assembling or hashing.
    pub fn contains(&self, index: u32) -> (r: bool)
        ensures
            r == staged(self.slots(), index),
    {
        let mut t: usize = 0;
        while t < self.slots.len()
            invariant
                t <= self.slots@.len(),
                forall|u: int| 0 <= u < t ==> (#[trigger] self.slots()[u]).index() != index,
            decreases self.slots@.len() - t,
        {
            assert(self.slots()[t as int] == self.slots@[t as int]@);
            let at: u32 = match &self.slots[t] {
                Slot::Assembling { piece, .. } => piece.index,
                Slot::Hashing { index: i } => *i,
            };
            if at == index {
                return true;
            }
            t += 1;
        }
        false
    }

    /// Start assembling a piece, which takes a buffer. To be called where requests are
    /// about to be issued, never for a piece that a peer sends unasked.
    pub fn try_start(&mut self, bufs: &mut PieceBufferPool, index: u32, length: u32) -> (r: bool)
        requires
            old(self).wf(),
            old(self).fits(old(bufs)),
        ensures
            final(self).wf(),
            final(self).fits(final(bufs)),
            final(self).same_peer(old(self)),
            final(bufs).same_pool(old(bufs)),
            r == (staged(old(self).slots(), index) || (0 < length <= old(self).spec_piece_length()
                && old(self).leeches() && old(bufs).room() > 0)),
            if r && !staged(old(self).slots(), index) {
                &&& final(self).slots().len() == old(self).slots().len() + 1
                &&& final(self).slots().drop_last() == old(self).slots()
                &&& final(self).slots().last() matches SlotView::Assembling { piece, buf }
                    && piece == PieceView::fresh(index, length) && if old(bufs).freelist().len()
                    > 0 {
                    buf == old(bufs).freelist().last() && final(bufs).freelist() == old(
                        bufs,
                    ).freelist().drop_last()
                } else {
                    buf == Seq::new(old(bufs).spec_piece_length() as nat, |i: int| 0u8)
                        && final(bufs).freelist() == old(bufs).freelist()
                }
                &&& final(bufs).outstanding() == old(bufs).outstanding() + 1
            } else {
                &&& final(self).slots() == old(self).slots()
                &&& final(bufs).outstanding() == old(bufs).outstanding()
                &&& final(bufs).freelist() == old(bufs).freelist()
            },
            // The buffers out still cover the assembling pieces.
            forall|others: nat| #[trigger]
                old(self).covered(old(bufs), others) ==> final(self).covered(
                    final(bufs),
                    others,
                ),
    {
        if self.contains(index) {
            return true;
        }
        if length == 0 || length > self.piece_length || !self.leech {
            return false;
        }
        match bufs.try_acquire() {
            None => false,
            Some(buf) => {
                let piece = ActivePiece::open(index, length);
                self.slots.push(Slot::Assembling { piece, buf });
                assert(self.slots().drop_last() =~= old(self).slots());
                assert(self.slots().last() == (SlotView::Assembling { piece: piece@, buf: buf@ }));
                assert forall|t: int| 0 <= t < self.slots().len() implies (
                #[trigger] self.slots()[t]).wf(self.spec_piece_length()) by {
                    if t < old(self).slots().len() {
                        assert(self.slots()[t] == old(self).slots()[t]);
                    }
                }
                assert forall|t: int, u: int| 0 <= t < u < self.slots().len() implies (
                #[trigger] self.slots()[t]).index() != (#[trigger] self.slots()[u]).index() by {
                    assert(self.slots()[t] == old(self).slots()[t]);
                    if u < old(self).slots().len() {
                        assert(self.slots()[u] == old(self).slots()[u]);
                    }
                }
                true
            },
        }
    }

    /// Write a received block, where its piece is assembling. Says whether the piece is
    /// now whole; `Ok(None)` where the piece is not assembling.
    pub fn ingest_if_staged(&mut self, index: u32, begin: u32, data: &[u8]) -> (r: Result<
        Option<bool>,
    >)
        requires
            old(self).wf(),
        ensures
            final(self).wf(),
            final(self).same_peer(old(self)),
            r == Ok::<Option<bool>, Error>(None) ==> !assembles(old(self).slots(), index)
                && final(self).slots() == old(self).slots(),
            r matches Ok(Some(complete)) ==> took_block(
                old(self).slots(),
                final(self).slots(),
                position(old(self).slots(), index),
                index,
                begin as int,
                data@,
                complete,
            ),
            r matches Err(e) ==> e is Msg && final(self).slots() == old(self).slots()
                && refused_block(
                old(self).slots(),
                position(old(self).slots(), index),
                index,
                begin as int,
                data@.len() as int,
                e.text(),
            ),
            assembling(final(self).slots()).len() == assembling(old(self).slots()).len(),
    {
        let t: usize = match self.find_assembling(index) {
            Some(t) => t,
            None => {
                return Ok(None);
            },
        };
        let ghost before = self.slots();
        proof {
            position_is(before, t as int, self.piece_length);
        }
        assert(before[t as int] == self.slots@[t as int]@);
        let r = match &mut self.slots[t] {
            Slot::Assembling { piece, buf } => piece.ingest(buf, begin, data),
            Slot::Hashing { .. } => Ok(false),
        };
        assert(self.slots().len() == before.len());
        assert(self.slots()[t as int] == self.slots@[t as int]@);
        assert forall|u: int| 0 <= u < before.len() && u != t implies self.slots()[u]
            == before[u] by {
            assert(self.slots@[u] == old(self).slots@[u]);
        }
        proof {
            slots_keep_wf(before, self.slots(), t as int, self.piece_length);
        }
        match r {
            Ok(complete) => {
                assert(self.slots() =~= before.update(t as int, self.slots()[t as int]));
                proof {
                    assembling_updated(before, t as int, self.slots()[t as int]);
                }
                assert(took_block(
                    before,
                    self.slots(),
                    t as int,
                    index,
                    begin as int,
                    data@,
                    complete,
                ));
                Ok(Some(complete))
            },
            Err(e) => {
                assert(self.slots() =~= before);
                assert(refused_block(
                    before,
                    t as int,
                    index,
                    begin as int,
                    data@.len() as int,
                    e.text(),
                ));
                Err(e)
            },
        }
    }
}

/// Slot `t` of `a`, which assembles the piece, took the block; the others are as before.
pub open spec fn took_block(
    a: Seq<SlotView>,
    b: Seq<SlotView>,
    t: int,
    index: u32,
    begin: int,
    data: Seq<u8>,
    complete: bool,
) -> bool {
    &&& 0 <= t < a.len()
    &&& a[t].index() == index
    &&& a[t] matches SlotView::Assembling { piece, buf } && {
        &&& block_refusal(piece.length as int, buf.len() as int, begin, data.len() as int) is None
        &&& b == a.update(
            t,
            SlotView::Assembling {
                piece: piece.with_range(begin, data.len() as int),
                buf: overwritten(buf, begin, data),
            },
        )
        &&& complete == piece.with_range(begin, data.len() as int).complete()
    }
}

/// Slot `t`, which assembles the piece, refuses the block for this reason.
pub open spec fn refused_block(
    a: Seq<SlotView>,
    t: int,
    index: u32,
    begin: int,
    n: int,
    why: Seq<char>,
) -> bool {
    &&& 0 <= t < a.len()
    &&& a[t].index() == index
    &&& a[t] matches SlotView::Assembling { piece, buf } && block_refusal(
        piece.length as int,
        buf.len() as int,
        begin,
        n,
    ) == Some(why)
}

/// Replacing one slot by a sound one for the same piece keeps the slots sound.
proof fn slots_keep_wf(a: Seq<SlotView>, b: Seq<SlotView>, t: int, piece_length: u32)
    requires
        slots_wf(a, piece_length),
        0 <= t < a.len(),
        b.len() == a.len(),
        forall|u: int| 0 <= u < a.len() && u != t ==> b[u] == a[u],
        b[t].index() == a[t].index(),
        b[t].wf(piece_length),
    ensures
        slots_wf(b, piece_length),
{
    assert forall|u: int| 0 <= u < b.len() implies (#[trigger] b[u]).wf(piece_length) by {
        if u != t {
            assert(b[u] == a[u]);
        }
    }
    assert forall|u: int, v: int| 0 <= u < v < b.len() implies (#[trigger] b[u]).index() != (
    #[trigger] b[v]).index() by {
        assert(b[u].index() == a[u].index());
        assert(b[v].index() == a[v].index());
    }
}

/// Slot `t` of `a`, which assembles the piece, has the range in its buffer already and
/// counts it as in; the others are as before.
pub open spec fn took_range(
    a: Seq<SlotView>,
    b: Seq<SlotView>,
    t: int,
    index: u32,
    begin: int,
    n: int,
    complete: bool,
) -> bool {
    &&& 0 <= t < a.len()
    &&& a[t].index() == index
    &&& a[t] matches SlotView::Assembling { piece, buf } && {
        &&& block_refusal(piece.length as int, buf.len() as int, begin, n) is None
        &&& b == a.update(
            t,
            SlotView::Assembling { piece: piece.with_range(begin, n), buf },
        )
        &&& complete == piece.with_range(begin, n).complete()
    }
}

/// The slots once the piece in slot `t` went to hashing: its slot is filled by the last
/// one, and the piece is noted at the end.
pub open spec fn handed_over(slots: Seq<SlotView>, t: int) -> Seq<SlotView> {
    slots.update(t, slots.last()).drop_last().push(SlotView::Hashing { index: slots[t].index() })
}

/// The slots once a piece that was being hashed is forgotten.
pub open spec fn forgotten(slots: Seq<SlotView>, index: u32) -> Seq<SlotView> {
    let t = position(slots, index);
    if staged(slots, index) && slots[t] is Hashing {
        slots.remove(t)
    } else {
        slots
    }
}

/// The buffers of the assembling pieces.
pub open spec fn held_buffers(slots: Seq<SlotView>) -> Seq<Seq<u8>>
    decreases slots.len(),
{
    if slots.len() == 0 {
        Seq::empty()
    } else {
        match slots.last() {
            SlotView::Assembling { buf, .. } => held_buffers(slots.drop_last()).push(buf),
            SlotView::Hashing { .. } => held_buffers(slots.drop_last()),
        }
    }
}

/// The first buffers of these, as many as a pool can keep.
pub open spec fn first_of(bufs: Seq<Seq<u8>>, capacity: nat) -> Seq<Seq<u8>> {
    if bufs.len() <= capacity {
        bufs
    } else {
        bufs.subrange(0, capacity as int)
    }
}

/// The assembling pieces are dropped and their buffers are back in the pool.
pub open spec fn cleared(
    before: &StagingPool,
    bufs_before: &PieceBufferPool,
    after: &StagingPool,
    bufs_after: &PieceBufferPool,
) -> bool {
    let held = held_buffers(before.slots());
    &&& after.same_peer(before)
    &&& after.slots() == hashing(before.slots())
    &&& bufs_after.same_pool(bufs_before)
    &&& if before.leeches() {
        &&& bufs_after.outstanding() == if bufs_before.outstanding() >= held.len() {
            (bufs_before.outstanding() - held.len()) as nat
        } else {
            0
        }
        &&& bufs_after.freelist() == first_of(
            bufs_before.freelist() + held,
            bufs_before.spec_capacity(),
        )
    } else {
        &&& bufs_after.outstanding() == bufs_before.outstanding()
        &&& bufs_after.freelist() == bufs_before.freelist()
    }
}

/// Clearing leaves nothing to wait for and gives back one slot for each piece that was
/// assembling, where the buffers out cover these pieces. Pieces that are being hashed stay
/// staged, and no others.
pub proof fn clearing_frees_each_slot(
    before: &StagingPool,
    bufs_before: &PieceBufferPool,
    after: &StagingPool,
    bufs_after: &PieceBufferPool,
)
    requires
        before.wf(),
        before.covered(bufs_before, 0),
        cleared(before, bufs_before, after, bufs_after),
    ensures
        assembling(after.slots()).len() == 0,
        assembling_indices(after.slots()).len() == 0,
        pending_total(after.slots()) == 0,
        after.free(bufs_after) == before.free(bufs_before) + assembling(before.slots()).len(),
        forall|i: u32| #[trigger]
            staged(after.slots(), i) <==> staged(before.slots(), i) && !assembling_indices(
                before.slots(),
            ).contains(i),
{
    let slots = before.slots();
    only_hashing_left(slots);
    one_buffer_each(slots);
    assert forall|i: u32| #[trigger]
        staged(after.slots(), i) <==> staged(slots, i) && !assembling_indices(slots).contains(
            i,
        ) by {
        hashing_holds(slots, i);
        assembling_holds(slots, i);
        if staged(slots, i) {
            let t = position(slots, i);
            assert(slots[t].index() == i);
            if slots[t] is Assembling {
                assert forall|u: int| 0 <= u < slots.len() && slots[u] is Hashing implies (
                #[trigger] slots[u]).index() != i by {
                    position_is(slots, u, before.spec_piece_length());
                    position_is(slots, t, before.spec_piece_length());
                }
            } else {
                assert forall|u: int| 0 <= u < slots.len() && slots[u] is Assembling implies (
                #[trigger] slots[u]).index() != i by {
                    position_is(slots, u, before.spec_piece_length());
                    position_is(slots, t, before.spec_piece_length());
                }
            }
        }
    }
}

proof fn only_hashing_left(slots: Seq<SlotView>)
    ensures
        assembling(hashing(slots)).len() == 0,
        pending_total(hashing(slots)) == 0,
    decreases slots.len(),
{
    if slots.len() > 0 {
        only_hashing_left(slots.drop_last());
        if slots.last() is Hashing {
            assert(hashing(slots).drop_last() =~= hashing(slots.drop_last()));
        }
    }
}

proof fn one_buffer_each(slots: Seq<SlotView>)
    ensures
        held_buffers(slots).len() == assembling(slots).len(),
    decreases slots.len(),
{
    if slots.len() > 0 {
        one_buffer_each(slots.drop_last());
    }
}

proof fn hashing_holds(slots: Seq<SlotView>, i: u32)
    ensures
        staged(hashing(slots), i) <==> exists|t: int|
            0 <= t < slots.len() && slots[t] is Hashing && (#[trigger] slots[t]).index() == i,
    decreases slots.len(),
{
    if slots.len() > 0 {
        let rest = slots.drop_last();
        let h = hashing(slots);
        hashing_holds(rest, i);
        assert forall|t: int| 0 <= t < rest.len() implies #[trigger] rest[t] == slots[t] by {}
        if slots.last() is Hashing {
            let r = hashing(rest);
            assert(h == r.push(slots.last()));
            if staged(r, i) {
                let u = position(r, i);
                assert(h[u].index() == i);
            }
            if slots.last().index() == i {
                assert(h[h.len() - 1].index() == i);
            }
            if staged(h, i) {
                let u = position(h, i);
                if u < r.len() {
                    assert(r[u].index() == i);
                } else {
                    assert(slots[slots.len() - 1].index() == i);
                }
            }
        }
        if exists|t: int|
            0 <= t < rest.len() && rest[t] is Hashing && (#[trigger] rest[t]).index() == i {
            let t = choose|t: int|
                0 <= t < rest.len() && rest[t] is Hashing && (#[trigger] rest[t]).index() == i;
            assert(slots[t].index() == i);
        }
        if exists|t: int|
            0 <= t < slots.len() && slots[t] is Hashing && (#[trigger] slots[t]).index() == i {
            let t = choose|t: int|
                0 <= t < slots.len() && slots[t] is Hashing && (#[trigger] slots[t]).index() == i;
            if t < rest.len() {
                assert(rest[t].index() == i);
            }
        }
    }
}

proof fn assembling_holds(slots: Seq<SlotView>, i: u32)
    ensures
        assembling_indices(slots).contains(i) <==> exists|t: int|
            0 <= t < slots.len() && slots[t] is Assembling && (#[trigger] slots[t]).index() == i,
    decreases slots.len(),
{
    let a = assembling_indices(slots);
    if slots.len() > 0 {
        let rest = slots.drop_last();
        let b = assembling_indices(rest);
        assembling_holds(rest, i);
        assert forall|t: int| 0 <= t < rest.len() implies #[trigger] rest[t] == slots[t] by {}
        if slots.last() is Assembling {
            assert(a =~= b.push(slots.last().index()));
            if b.contains(i) {
                let u = choose|u: int| 0 <= u < b.len() && b[u] == i;
                assert(a[u] == i);
            }
            if slots.last().index() == i {
                assert(a[a.len() - 1] == i);
            }
            if a.contains(i) {
                let u = choose|u: int| 0 <= u < a.len() && a[u] == i;
                if u < b.len() {
                    assert(b[u] == i);
                } else {
                    assert(slots[slots.len() - 1].index() == i);
                }
            }
        }
        if exists|t: int|
            0 <= t < rest.len() && rest[t] is Assembling && (#[trigger] rest[t]).index() == i {
            let t = choose|t: int|
                0 <= t < rest.len() && rest[t] is Assembling && (#[trigger] rest[t]).index() == i;
            assert(slots[t].index() == i);
        }
        if exists|t: int|
            0 <= t < slots.len() && slots[t] is Assembling && (#[trigger] slots[t]).index() == i {
            let t = choose|t: int|
                0 <= t < slots.len() && slots[t] is Assembling && (#[trigger] slots[t]).index() == i;
            if t < rest.len() {
                assert(rest[t].index() == i);
            }
        }
    }
}

/// How many pieces assemble once a slot has changed.
proof fn assembling_updated(slots: Seq<SlotView>, t: int, s: SlotView)
    requires
        0 <= t < slots.len(),
    ensures
        assembling(slots.update(t, s)).len() + if slots[t] is Assembling {
            1int
        } else {
            0
        } == assembling(slots).len() + if s is Assembling {
            1int
        } else {
            0
        },
    decreases slots.len(),
{
    let after = slots.update(t, s);
    if t < slots.len() - 1 {
        assembling_updated(slots.drop_last(), t, s);
        assert(after.drop_last() =~= slots.drop_last().update(t, s));
    } else {
        assert(after.drop_last() =~= slots.drop_last());
    }
}

/// A piece that is handed to hashing is no longer assembling.
proof fn one_assembling_less(slots: Seq<SlotView>, t: int)
    requires
        0 <= t < slots.len(),
        slots[t] is Assembling,
    ensures
        assembling(handed_over(slots, t)).len() == assembling(slots).len() - 1,
{
    let mid = slots.update(t, slots.last());
    assembling_updated(slots, t, slots.last());
    assert(mid.last() == slots.last());
    assert(handed_over(slots, t).drop_last() =~= mid.drop_last());
}

/// Forgetting a hashed piece leaves the assembling ones.
proof fn assembling_without(slots: Seq<SlotView>, t: int)
    requires
        0 <= t < slots.len(),
        slots[t] is Hashing,
    ensures
        assembling(slots.remove(t)).len() == assembling(slots).len(),
    decreases slots.len(),
{
    if t < slots.len() - 1 {
        assembling_without(slots.drop_last(), t);
        assert(slots.remove(t).drop_last() =~= slots.drop_last().remove(t));
    } else {
        assert(slots.remove(t) =~= slots.drop_last());
    }
}

/// A slot with endgame on.
pub open spec fn in_endgame(s: SlotView) -> SlotView {
    match s {
        SlotView::Assembling { piece, buf } => SlotView::Assembling {
            piece: PieceView { endgame: true, ..piece },
            buf,
        },
        SlotView::Hashing { .. } => s,
    }
}

/// A slot that has forgotten its unanswered requests.
pub open spec fn requeued(s: SlotView) -> SlotView {
    match s {
        SlotView::Assembling { piece, buf } => SlotView::Assembling {
            piece: piece.requeued(),
            buf,
        },
        SlotView::Hashing { .. } => s,
    }
}

/// The indices of the assembling pieces.
pub open spec fn assembling_indices(slots: Seq<SlotView>) -> Seq<u32> {
    assembling(slots).map_values(|s: SlotView| s.index())
}

impl StagingPool {
    /// The bytes `[begin, begin + length)` of an assembling piece are in its buffer: mark
    /// the blocks they cover. Says whether the piece is now whole; `Ok(None)` where the
    /// piece is not assembling.
    pub fn finish_block_range(&mut self, index: u32, begin: u32, length: u32) -> (r: Result<
        Option<bool>,
    >)
        requires
            old(self).wf(),
        ensures
            final(self).wf(),
            final(self).same_peer(old(self)),
            r == Ok::<Option<bool>, Error>(None) ==> !assembles(old(self).slots(), index)
                && final(self).slots() == old(self).slots(),
            r matches Ok(Some(complete)) ==> took_range(
                old(self).slots(),
                final(self).slots(),
                position(old(self).slots(), index),
                index,
                begin as int,
                length as int,
                complete,
            ),
            r matches Err(e) ==> e is Msg && final(self).slots() == old(self).slots()
                && refused_block(
                old(self).slots(),
                position(old(self).slots(), index),
                index,
                begin as int,
                length as int,
                e.text(),
            ),
            assembling(final(self).slots()).len() == assembling(old(self).slots()).len(),
    {
        let t: usize = match self.find_assembling(index) {
            Some(t) => t,
            None => {
                return Ok(None);
            },
        };
        let ghost before = self.slots();
        proof {
            position_is(before, t as int, self.piece_length);
        }
        assert(before[t as int] == self.slots@[t as int]@);
        let buf_len: u32 = self.piece_length;
        let r = match &mut self.slots[t] {
            Slot::Assembling { piece, .. } => {
                if length > piece.length || begin > piece.length - length {
                    Err(Error::msg("block overflows piece buffer"))
                } else {
                    match piece.mark_range_have(begin, length, buf_len) {
                        Ok(_) => Ok(piece.is_complete()),
                        Err(e) => Err(e),
                    }
                }
            },
            Slot::Hashing { .. } => Ok(false),
        };
        assert(self.slots().len() == before.len());
        assert(self.slots()[t as int] == self.slots@[t as int]@);
        assert forall|u: int| 0 <= u < before.len() && u != t implies self.slots()[u]
            == before[u] by {
            assert(self.slots@[u] == old(self).slots@[u]);
        }
        proof {
            slots_keep_wf(before, self.slots(), t as int, self.piece_length);
        }
        match r {
            Ok(complete) => {
                assert(self.slots() =~= before.update(t as int, self.slots()[t as int]));
                proof {
                    assembling_updated(before, t as int, self.slots()[t as int]);
                }
                Ok(Some(complete))
            },
            Err(e) => {
                assert(self.slots() =~= before);
                Err(e)
            },
        }
    }

    /// Hand a whole piece to hashing: its length and its buffer. The piece stays known
    /// until [`Self::reclaim`]; its buffer leaves the budget at once.
    pub fn take_for_hash(&mut self, bufs: &mut PieceBufferPool, index: u32) -> (r: Option<
        (u32, Vec<u8>),
    >)
        requires
            old(self).wf(),
            old(self).fits(old(bufs)),
        ensures
            final(self).wf(),
            final(self).fits(final(bufs)),
            final(self).same_peer(old(self)),
            final(bufs).same_pool(old(bufs)),
            final(bufs).freelist() == old(bufs).freelist(),
            r is Some <==> assembles(old(self).slots(), index),
            match r {
                Some((plen, data)) => {
                    let t = position(old(self).slots(), index);
                    &&& 0 <= t < old(self).slots().len()
                    &&& old(self).slots()[t] matches SlotView::Assembling { piece, buf }
                        && piece.index == index && plen == piece.length && data@ == buf
                    &&& final(self).slots() == handed_over(old(self).slots(), t)
                    &&& final(bufs).outstanding() == if old(self).leeches() && old(bufs).outstanding() > 0 {
                        (old(bufs).outstanding() - 1) as nat
                    } else {
                        old(bufs).outstanding()
                    }
                },
                None => {
                    &&& final(self).slots() == old(self).slots()
                    &&& final(bufs).outstanding() == old(bufs).outstanding()
                },
            },
            // The buffers out still cover the assembling pieces.
            forall|others: nat| #[trigger]
                old(self).covered(old(bufs), others) ==> final(self).covered(
                    final(bufs),
                    others,
                ),
    {
        let t: usize = match self.find_assembling(index) {
            Some(t) => t,
            None => {
                return None;
            },
        };
        let ghost before = self.slots();
        proof {
            position_is(before, t as int, self.piece_length);
        }
        assert(before[t as int] == self.slots@[t as int]@);
        match self.slots.swap_remove(t) {
            Slot::Assembling { piece, buf } => {
                if self.leech {
                    bufs.detach();
                }
                self.slots.push(Slot::Hashing { index });
                proof {
                    let after = self.slots();
                    assert(after =~= handed_over(before, t as int));
                    one_assembling_less(before, t as int);
                    assert forall|u: int| 0 <= u < after.len() implies (#[trigger] after[u]).wf(
                        self.piece_length,
                    ) by {
                        if u < before.len() - 1 && u != t {
                            assert(after[u] == before[u]);
                        }
                    }
                    assert forall|u: int, v: int| 0 <= u < v < after.len() implies (
                    #[trigger] after[u]).index() != (#[trigger] after[v]).index() by {
                        let last = before.len() - 1;
                        let bu = if u == t {
                            last
                        } else {
                            u
                        };
                        let bv = if v == last {
                            t as int
                        } else if v == t {
                            last
                        } else {
                            v
                        };
                        assert(after[v].index() == before[bv].index());
                        if u < last {
                            assert(after[u].index() == before[bu].index());
                        }
                        if bu < bv {
                            assert(before[bu].index() != before[bv].index());
                        } else if bv < bu {
                            assert(before[bv].index() != before[bu].index());
                        }
                    }
                }
                Some((piece.length, buf))
            },
            Slot::Hashing { .. } => {
                assert(false);
                None
            },
        }
    }

    /// Forget a hashed piece and park its buffer for reuse.
    pub fn reclaim(&mut self, bufs: &mut PieceBufferPool, index: u32, data: Vec<u8>)
        requires
            old(self).wf(),
            old(self).fits(old(bufs)),
        ensures
            final(self).wf(),
            final(self).fits(final(bufs)),
            final(self).same_peer(old(self)),
            final(bufs).same_pool(old(bufs)),
            final(bufs).outstanding() == old(bufs).outstanding(),
            final(bufs).freelist() == if old(self).leeches() {
                old(bufs).parked(data@)
            } else {
                old(bufs).freelist()
            },
            final(self).slots() == forgotten(old(self).slots(), index),
            // The buffers out still cover the assembling pieces.
            forall|others: nat| #[trigger]
                old(self).covered(old(bufs), others) ==> final(self).covered(
                    final(bufs),
                    others,
                ),
    {
        let ghost before = self.slots();
        if self.leech {
            bufs.donate(data);
        }
        let mut t: usize = 0;
        while t < self.slots.len()
            invariant
                t <= self.slots@.len(),
                self.slots() == before,
                self.wf(),
                before == old(self).slots(),
                self.same_peer(old(self)),
                self.fits(bufs),
                bufs.same_pool(old(bufs)),
                bufs.outstanding() == old(bufs).outstanding(),
                bufs.freelist() == if old(self).leeches() {
                    old(bufs).parked(data@)
                } else {
                    old(bufs).freelist()
                },
                forall|u: int|
                    0 <= u < t ==> !((#[trigger] before[u]) is Hashing && before[u].index()
                        == index),
            decreases self.slots@.len() - t,
        {
            assert(before[t as int] == self.slots@[t as int]@);
            let found: bool = match &self.slots[t] {
                Slot::Hashing { index: i } => *i == index,
                Slot::Assembling { .. } => false,
            };
            if found {
                let _gone = self.slots.remove(t);
                proof {
                    position_is(before, t as int, self.piece_length);
                    assembling_without(before, t as int);
                    let after = self.slots();
                    assert(after =~= before.remove(t as int));
                    assert forall|u: int| 0 <= u < after.len() implies (#[trigger] after[u]).wf(
                        self.piece_length,
                    ) by {
                        let b = if u < t {
                            u
                        } else {
                            u + 1
                        };
                        assert(after[u] == before[b]);
                    }
                    assert forall|u: int, v: int| 0 <= u < v < after.len() implies (
                    #[trigger] after[u]).index() != (#[trigger] after[v]).index() by {
                        let bu = if u < t {
                            u
                        } else {
                            u + 1
                        };
                        let bv = if v < t {
                            v
                        } else {
                            v + 1
                        };
                        assert(before[bu].index() != before[bv].index());
                    }
                }
                return;
            }
            t += 1;
        }
        proof {
            if staged(before, index) {
                let u = position(before, index);
                assert(0 <= u < before.len() && before[u].index() == index);
            }
        }
    }

    /// Drop the assembling pieces, their buffers back to the pool. Pieces that are being
    /// hashed stay known.
    pub fn clear(&mut self, bufs: &mut PieceBufferPool)
        requires
            old(self).wf(),
            old(self).fits(old(bufs)),
        ensures
            final(self).wf(),
            final(self).fits(final(bufs)),
            cleared(old(self), old(bufs), final(self), final(bufs)),
            // The buffers out still cover the assembling pieces.
            forall|others: nat| #[trigger]
                old(self).covered(old(bufs), others) ==> final(self).covered(
                    final(bufs),
                    others,
                ),
    {
        let ghost before = self.slots();
        let ghost plen = self.piece_length;
        let mut rest: Vec<Slot> = Vec::new();
        std::mem::swap(&mut rest, &mut self.slots);
        let mut kept: Vec<Slot> = Vec::new();
        let ghost mut n: int = 0;
        assert(rest@.map_values(|s: Slot| s@) =~= before);
        assert(before.subrange(0, 0) =~= Seq::<SlotView>::empty());
        assert(before.subrange(0, before.len() as int) =~= before);
        assert(bufs.freelist() + held_buffers(before.subrange(0, 0)) =~= bufs.freelist());
        while rest.len() > 0
            invariant
                0 <= n <= before.len(),
                before == old(self).slots(),
                slots_wf(before, plen),
                plen == self.piece_length,
                self.same_peer(old(self)),
                self.slots@.len() == 0,
                rest@.map_values(|s: Slot| s@) == before.subrange(n, before.len() as int),
                kept@.map_values(|s: Slot| s@) == hashing(before.subrange(0, n)),
                self.fits(bufs),
                bufs.same_pool(old(bufs)),
                ({
                    let held = held_buffers(before.subrange(0, n));
                    if old(self).leeches() {
                        &&& bufs.outstanding() == if old(bufs).outstanding() >= held.len() {
                            (old(bufs).outstanding() - held.len()) as nat
                        } else {
                            0
                        }
                        &&& bufs.freelist() == first_of(
                            old(bufs).freelist() + held,
                            old(bufs).spec_capacity(),
                        )
                        // Until none is out, all come back.
                        &&& bufs.outstanding() > 0 ==> bufs.freelist().len() == old(
                            bufs,
                        ).freelist().len() + held.len()
                    } else {
                        &&& bufs.outstanding() == old(bufs).outstanding()
                        &&& bufs.freelist() == old(bufs).freelist()
                    }
                }),
            decreases rest@.len(),
        {
            let ghost q0 = rest@;
            let ghost r0 = q0.map_values(|s: Slot| s@);
            let ghost k0 = kept@.map_values(|s: Slot| s@);
            assert(r0.len() == rest@.len());
            assert(r0[0] == rest@[0]@);
            assert(n < before.len());
            assert(before.subrange(n, before.len() as int)[0] == before[n]);
            let s = rest.remove(0);
            proof {
                assert(before[n] == s@);
                assert(before[n].wf(plen));
                assert(before.subrange(0, n + 1).drop_last() =~= before.subrange(0, n));
                assert(before.subrange(0, n + 1).last() == s@);
                let tail = before.subrange(n + 1, before.len() as int);
                assert forall|j: int| 0 <= j < rest@.len() implies (#[trigger] rest@[j])@
                    == tail[j] by {
                    assert(rest@[j] == q0[j + 1]);
                    assert(r0[j + 1] == q0[j + 1]@);
                    assert(r0[j + 1] == before[n + (j + 1)]);
                }
                assert(rest@.map_values(|s: Slot| s@) =~= tail);
            }
            match s {
                Slot::Assembling { buf, .. } => {
                    let ghost f0 = bufs.freelist();
                    let ghost held0 = held_buffers(before.subrange(0, n));
                    if self.leech {
                        assert(bufs.fitted(buf@) =~= buf@);
                        bufs.release(buf);
                        proof {
                            let all = old(bufs).freelist() + held0;
                            assert(all.push(buf@) =~= old(bufs).freelist() + held0.push(buf@));
                            let cap = old(bufs).spec_capacity();
                            if f0.len() < cap {
                                assert(f0 =~= all);
                                assert(first_of(all.push(buf@), cap) =~= f0.push(buf@));
                            } else {
                                assert(first_of(all.push(buf@), cap) =~= first_of(all, cap));
                            }
                        }
                    }
                },
                Slot::Hashing { index } => {
                    kept.push(Slot::Hashing { index });
                    assert(kept@.map_values(|s: Slot| s@) =~= k0.push(s@));
                },
            }
            proof {
                n = n + 1;
            }
        }
        assert(n == before.len()) by {
            assert(rest@.map_values(|s: Slot| s@).len() == 0);
        }
        self.slots = kept;
        proof {
            assert(self.slots() == hashing(before));
            hashing_keeps_wf(before, plen);
            only_hashing_left(before);
            one_buffer_each(before);
        }
    }

    /// Number of assembling pieces.
    pub fn len(&self) -> (n: usize)
        ensures
            n == assembling(self.slots()).len(),
    {
        let mut n: usize = 0;
        let mut t: usize = 0;
        assert(self.slots().subrange(0, 0) =~= Seq::<SlotView>::empty());
        while t < self.slots.len()
            invariant
                t <= self.slots@.len(),
                n <= t,
                n == assembling(self.slots().subrange(0, t as int)).len(),
            decreases self.slots@.len() - t,
        {
            proof {
                let pre = self.slots().subrange(0, t + 1);
                assert(pre.drop_last() =~= self.slots().subrange(0, t as int));
                assert(pre.last() == self.slots@[t as int]@);
            }
            if let Slot::Assembling { .. } = &self.slots[t] {
                n += 1;
            }
            t += 1;
        }
        assert(self.slots().subrange(0, t as int) =~= self.slots());
        n
    }

    /// Whether no piece is assembling.
    pub fn is_empty(&self) -> (r: bool)
        ensures
            r == (assembling(self.slots()).len() == 0),
    {
        self.len() == 0
    }

    /// Whether the pool has a buffer for one more piece.
    pub fn can_start_more(&self, bufs: &PieceBufferPool) -> (r: bool)
        requires
            bufs.wf(),
        ensures
            r == (self.leeches() && bufs.room() > 0),
    {
        self.leech && bufs.available() > 0
    }

    /// Number of buffers that the pool can still give, zero for a seeder.
    pub fn free_slots(&self, bufs: &PieceBufferPool) -> (n: usize)
        requires
            bufs.wf(),
        ensures
            n == self.free(bufs),
    {
        if self.leech {
            bufs.available()
        } else {
            0
        }
    }

    /// Mark every assembling piece as endgame.
    pub fn enable_endgame(&mut self)
        requires
            old(self).wf(),
        ensures
            final(self).wf(),
            final(self).same_peer(old(self)),
            final(self).slots() == old(self).slots().map_values(|s: SlotView| in_endgame(s)),
            assembling(final(self).slots()).len() == assembling(old(self).slots()).len(),
    {
        let ghost before = self.slots();
        let mut t: usize = 0;
        while t < self.slots.len()
            invariant
                t <= self.slots@.len(),
                before == old(self).slots(),
                self.same_peer(old(self)),
                slots_wf(before, old(self).spec_piece_length()),
                self.slots().len() == before.len(),
                forall|u: int| 0 <= u < t ==> #[trigger] self.slots()[u] == in_endgame(before[u]),
                forall|u: int| t <= u < before.len() ==> #[trigger] self.slots()[u] == before[u],
            decreases self.slots@.len() - t,
        {
            let ghost mid = self.slots();
            let ghost raw = self.slots@;
            assert(mid[t as int] == raw[t as int]@);
            if let Slot::Assembling { piece, .. } = &mut self.slots[t] {
                piece.set_endgame(true);
            }
            assert forall|u: int| 0 <= u < before.len() && u != t implies (
            #[trigger] self.slots()[u]) == mid[u] by {
                assert(self.slots@[u] == raw[u]);
            }
            assert(self.slots()[t as int] == self.slots@[t as int]@);
            t += 1;
        }
        proof {
            let after = self.slots();
            assert(after =~= before.map_values(|s: SlotView| in_endgame(s)));
            same_kinds_same_count(before, after);
            assert forall|u: int| 0 <= u < after.len() implies (#[trigger] after[u]).wf(
                self.piece_length,
            ) by {
                assert(before[u].wf(self.piece_length));
            }
            assert forall|u: int, v: int| 0 <= u < v < after.len() implies (
            #[trigger] after[u]).index() != (#[trigger] after[v]).index() by {
                assert(before[u].index() != before[v].index());
            }
        }
    }

    /// Forget the unanswered requests of every assembling piece.
    pub fn requeue_timed_out(&mut self)
        requires
            old(self).wf(),
        ensures
            final(self).wf(),
            final(self).same_peer(old(self)),
            final(self).slots() == old(self).slots().map_values(|s: SlotView| requeued(s)),
            pending_total(final(self).slots()) == 0,
            assembling(final(self).slots()).len() == assembling(old(self).slots()).len(),
    {
        let ghost before = self.slots();
        let mut t: usize = 0;
        while t < self.slots.len()
            invariant
                t <= self.slots@.len(),
                before == old(self).slots(),
                self.same_peer(old(self)),
                slots_wf(before, old(self).spec_piece_length()),
                self.slots().len() == before.len(),
                forall|u: int| 0 <= u < t ==> #[trigger] self.slots()[u] == requeued(before[u]),
                forall|u: int| t <= u < before.len() ==> #[trigger] self.slots()[u] == before[u],
            decreases self.slots@.len() - t,
        {
            let ghost mid = self.slots();
            let ghost raw = self.slots@;
            assert(mid[t as int] == raw[t as int]@);
            assert(mid[t as int].wf(self.piece_length));
            if let Slot::Assembling { piece, .. } = &mut self.slots[t] {
                piece.requeue_missing();
            }
            assert forall|u: int| 0 <= u < before.len() && u != t implies (
            #[trigger] self.slots()[u]) == mid[u] by {
                assert(self.slots@[u] == raw[u]);
            }
            assert(self.slots()[t as int] == self.slots@[t as int]@);
            t += 1;
        }
        proof {
            let after = self.slots();
            assert(after =~= before.map_values(|s: SlotView| requeued(s)));
            same_kinds_same_count(before, after);
            assert forall|u: int| 0 <= u < after.len() implies (#[trigger] after[u]).wf(
                self.piece_length,
            ) && after[u].pending_count() == 0 by {
                assert(before[u].wf(self.piece_length));
                if let SlotView::Assembling { piece, .. } = after[u] {
                    nothing_requested_nothing_pending(piece, piece.have.len() as int);
                }
            }
            assert forall|u: int, v: int| 0 <= u < v < after.len() implies (
            #[trigger] after[u]).index() != (#[trigger] after[v]).index() by {
                assert(before[u].index() != before[v].index());
            }
            no_pending_no_total(after);
        }
    }

    /// Number of requested and missing blocks.
    pub fn total_outstanding(&self) -> (n: usize)
        requires
            self.wf(),
        ensures
            n == clipped(pending_total(self.slots())),
    {
        let mut n: usize = 0;
        let mut t: usize = 0;
        assert(self.slots().subrange(0, 0) =~= Seq::<SlotView>::empty());
        while t < self.slots.len()
            invariant
                t <= self.slots@.len(),
                self.wf(),
                n == clipped(pending_total(self.slots().subrange(0, t as int))),
            decreases self.slots@.len() - t,
        {
            proof {
                let pre = self.slots().subrange(0, t + 1);
                assert(pre.drop_last() =~= self.slots().subrange(0, t as int));
                assert(pre.last() == self.slots@[t as int]@);
                assert(self.slots()[t as int].wf(self.piece_length));
            }
            let here: usize = match &self.slots[t] {
                Slot::Assembling { piece, .. } => piece.outstanding_requests(),
                Slot::Hashing { .. } => 0,
            };
            n = if usize::MAX - n < here {
                usize::MAX
            } else {
                n + here
            };
            t += 1;
        }
        assert(self.slots().subrange(0, t as int) =~= self.slots());
        n
    }

    /// The requests that are pending: piece, begin, length.
    pub fn outstanding_list(&self) -> (r: Vec<(u32, u32, u32)>)
        requires
            self.wf(),
        ensures
            r@ == pending_all(self.slots()),
    {
        let mut out: Vec<(u32, u32, u32)> = Vec::new();
        let mut t: usize = 0;
        assert(self.slots().subrange(0, 0) =~= Seq::<SlotView>::empty());
        while t < self.slots.len()
            invariant
                t <= self.slots@.len(),
                self.wf(),
                out@ == pending_all(self.slots().subrange(0, t as int)),
            decreases self.slots@.len() - t,
        {
            proof {
                let pre = self.slots().subrange(0, t + 1);
                assert(pre.drop_last() =~= self.slots().subrange(0, t as int));
                assert(pre.last() == self.slots@[t as int]@);
                assert(self.slots()[t as int].wf(self.piece_length));
            }
            if let Slot::Assembling { piece, .. } = &self.slots[t] {
                let ghost base = out@;
                let here: Vec<(u32, u32)> = piece.outstanding_blocks();
                let ghost tail = here@.map_values(|r: (u32, u32)| (piece@.index, r.0, r.1));
                let mut j: usize = 0;
                assert(tail.subrange(0, 0) =~= Seq::<(u32, u32, u32)>::empty());
                while j < here.len()
                    invariant
                        j <= here@.len(),
                        tail == here@.map_values(|r: (u32, u32)| (piece@.index, r.0, r.1)),
                        out@ == base + tail.subrange(0, j as int),
                    decreases here@.len() - j,
                {
                    let (begin, len) = here[j];
                    out.push((piece.index, begin, len));
                    assert(tail.subrange(0, j + 1) =~= tail.subrange(0, j as int).push(
                        tail[j as int],
                    ));
                    assert(out@ =~= base + tail.subrange(0, j + 1));
                    j += 1;
                }
                assert(tail.subrange(0, j as int) =~= tail);
            } else {
                assert(out@ + Seq::<(u32, u32, u32)>::empty() =~= out@);
            }
            t += 1;
        }
        assert(self.slots().subrange(0, t as int) =~= self.slots());
        out
    }

    /// The indices of the assembling pieces.
    pub fn indices(&self) -> (r: Vec<u32>)
        ensures
            r@ == assembling_indices(self.slots()),
    {
        let mut out: Vec<u32> = Vec::new();
        let mut t: usize = 0;
        assert(self.slots().subrange(0, 0) =~= Seq::<SlotView>::empty());
        assert(assembling_indices(Seq::<SlotView>::empty()) =~= Seq::<u32>::empty());
        while t < self.slots.len()
            invariant
                t <= self.slots@.len(),
                out@ == assembling_indices(self.slots().subrange(0, t as int)),
            decreases self.slots@.len() - t,
        {
            let ghost pre = self.slots().subrange(0, t + 1);
            proof {
                assert(pre.drop_last() =~= self.slots().subrange(0, t as int));
                assert(pre.last() == self.slots@[t as int]@);
            }
            if let Slot::Assembling { piece, .. } = &self.slots[t] {
                out.push(piece.index);
            }
            assert(out@ =~= assembling_indices(pre));
            t += 1;
        }
        assert(self.slots().subrange(0, t as int) =~= self.slots());
        out
    }

    /// Forget one request after the peer refused it. False where it is not pending.
    pub fn clear_request(&mut self, index: u32, begin: u32, length: u32) -> (r: bool)
        requires
            old(self).wf(),
        ensures
            final(self).wf(),
            final(self).same_peer(old(self)),
            r == awaited(old(self).slots()).contains((index, begin, length)),
            ({
                let t = position(old(self).slots(), index);
                final(self).slots() == if r {
                    old(self).slots().update(
                        t,
                        old(self).slots()[t].without_request((begin / BLOCK_SIZE) as int),
                    )
                } else {
                    old(self).slots()
                }
            }),
            assembling(final(self).slots()).len() == assembling(old(self).slots()).len(),
    {
        let ghost before = self.slots();
        let ghost req = (index, begin, length);
        let t: usize = match self.find_assembling(index) {
            Some(t) => t,
            None => {
                return false;
            },
        };
        proof {
            position_is(before, t as int, self.piece_length);
        }
        assert(before[t as int] == self.slots@[t as int]@);
        assert(before[t as int].wf(self.piece_length));
        let r: bool = match &mut self.slots[t] {
            Slot::Assembling { piece, .. } => piece.clear_request(begin, length),
            Slot::Hashing { .. } => false,
        };
        assert(self.slots().len() == before.len());
        assert(self.slots()[t as int] == self.slots@[t as int]@);
        assert forall|u: int| 0 <= u < before.len() && u != t implies self.slots()[u]
            == before[u] by {
            assert(self.slots@[u] == old(self).slots@[u]);
        }
        proof {
            slots_keep_wf(before, self.slots(), t as int, self.piece_length);
            assert(self.slots() =~= before.update(t as int, self.slots()[t as int]));
            assert(before.update(t as int, before[t as int]) =~= before);
            assembling_updated(before, t as int, self.slots()[t as int]);
            let p = before[t as int]->piece;
            if r {
                let k = choose|k: int|
                    p.pending_block(k) && #[trigger] request_of(p.length as int, k) == (
                        begin,
                        length,
                    );
                assert(before[t as int].request(k) == req);
                assert(before[t as int].awaits(req));
            }
            if awaited(before).contains(req) {
                let u = choose|u: int| 0 <= u < before.len() && (#[trigger] before[u]).awaits(req);
                position_is(before, u, self.piece_length);
                let k = choose|k: int|
                    p.pending_block(k) && req == #[trigger] before[t as int].request(k);
                assert(request_of(p.length as int, k) == (begin, length));
            }
        }
        r
    }
}

impl SlotView {
    /// Block `k` no longer counts as requested.
    pub open spec fn without_request(self, k: int) -> SlotView {
        match self {
            SlotView::Assembling { piece, buf } => SlotView::Assembling {
                piece: piece.without_request(k),
                buf,
            },
            SlotView::Hashing { .. } => self,
        }
    }
}

/// The slots that are being hashed are sound where all are.
proof fn hashing_keeps_wf(slots: Seq<SlotView>, piece_length: u32)
    requires
        slots_wf(slots, piece_length),
    ensures
        slots_wf(hashing(slots), piece_length),
        forall|u: int|
            0 <= u < hashing(slots).len() ==> exists|t: int|
                0 <= t < slots.len() && #[trigger] slots[t] == #[trigger] hashing(slots)[u],
    decreases slots.len(),
{
    if slots.len() > 0 {
        let pre = slots.drop_last();
        assert forall|t: int| 0 <= t < pre.len() implies (#[trigger] pre[t]).wf(piece_length) by {
            assert(pre[t] == slots[t]);
        }
        assert forall|t: int, u: int| 0 <= t < u < pre.len() implies (#[trigger] pre[t]).index()
            != (#[trigger] pre[u]).index() by {
            assert(slots[t].index() != slots[u].index());
        }
        hashing_keeps_wf(pre, piece_length);
        let h = hashing(slots);
        let hp = hashing(pre);
        assert forall|u: int| 0 <= u < h.len() implies exists|t: int|
            0 <= t < slots.len() && #[trigger] slots[t] == #[trigger] h[u] by {
            if u < hp.len() {
                assert(h[u] == hp[u]);
                let t = choose|t: int| 0 <= t < pre.len() && #[trigger] pre[t] == hp[u];
                assert(slots[t] == h[u]);
            } else {
                assert(slots[slots.len() - 1] == h[u]);
            }
        }
        assert forall|u: int| 0 <= u < h.len() implies (#[trigger] h[u]).wf(piece_length) by {
            let t = choose|t: int| 0 <= t < slots.len() && #[trigger] slots[t] == h[u];
            assert(slots[t].wf(piece_length));
        }
        assert forall|u: int, v: int| 0 <= u < v < h.len() implies (#[trigger] h[u]).index() != (
        #[trigger] h[v]).index() by {
            assert(h[u] == hp[u]);
            if v < hp.len() {
                assert(h[v] == hp[v]);
            } else {
                let t = choose|t: int| 0 <= t < pre.len() && #[trigger] pre[t] == hp[u];
                assert(slots[t].index() != slots[slots.len() - 1].index());
            }
        }
    }
}

/// Nothing is pending over all where nothing is pending in each.
proof fn no_pending_no_total(slots: Seq<SlotView>)
    requires
        forall|t: int| 0 <= t < slots.len() ==> (#[trigger] slots[t]).pending_count() == 0,
    ensures
        pending_total(slots) == 0,
    decreases slots.len(),
{
    if slots.len() > 0 {
        no_pending_no_total(slots.drop_last());
    }
}

// ---------------------------------------------------------------------------
// Filling the request pipeline.
// ---------------------------------------------------------------------------

/// `a / b`, rounded up.
pub open spec fn ceil_div(a: int, b: int) -> int {
    if a % b == 0 {
        a / b
    } else {
        a / b + 1
    }
}

/// Most pieces that one peer may assemble: enough to fill its pipeline, but no more than
/// its share of the pool, and few where pieces are large.
pub open spec fn assembling_cap(pipeline: int, piece_length: int, capacity: int) -> int {
    if capacity == 0 {
        0
    } else {
        let per_piece = if blocks(piece_length) < 1 {
            1
        } else {
            blocks(piece_length)
        };
        let for_pipe = if pipeline == 0 {
            1
        } else {
            ceil_div(pipeline, per_piece)
        };
        let fair = ceil_div(capacity, MIN_PEER_SPREAD as int);
        let n = if for_pipe < fair {
            for_pipe
        } else {
            fair
        };
        if per_piece >= LARGE_PIECE_BLOCKS && n > LARGE_PIECE_MAX {
            LARGE_PIECE_MAX as int
        } else {
            n
        }
    }
}

/// `a / b`, rounded up.
fn div_up(a: usize, b: usize) -> (r: usize)
    requires
        b > 0,
        a > 0,
    ensures
        r == ceil_div(a as int, b as int),
        r >= 1,
{
    let q: usize = a / b;
    proof {
        vstd::arithmetic::div_mod::lemma_fundamental_div_mod(a as int, b as int);
        assert(a % b != 0 ==> q < usize::MAX) by (nonlinear_arith)
            requires
                a == b * q + a % b,
                b > 0,
                a <= usize::MAX,
        ;
        assert(a % b == 0 ==> q >= 1) by (nonlinear_arith)
            requires
                a == b * q + a % b,
                a > 0,
        ;
    }
    if a % b == 0 {
        q
    } else {
        q + 1
    }
}

/// Most pieces that one peer may assemble at a time. Pieces that are being hashed do not
/// count.
pub fn max_assembling_pieces(pipeline: usize, piece_length: u32, capacity: usize) -> (n: usize)
    ensures
        n == assembling_cap(pipeline as int, piece_length as int, capacity as int),
        capacity > 0 ==> n >= 1,
{
    if capacity == 0 {
        return 0;
    }
    let nb: usize = num_blocks(piece_length);
    let per_piece: usize = if nb < 1 {
        1
    } else {
        nb
    };
    let for_pipe: usize = if pipeline == 0 {
        1
    } else {
        div_up(pipeline, per_piece)
    };
    let fair: usize = div_up(capacity, MIN_PEER_SPREAD);
    let n: usize = if for_pipe < fair {
        for_pipe
    } else {
        fair
    };
    if per_piece >= LARGE_PIECE_BLOCKS && n > LARGE_PIECE_MAX {
        LARGE_PIECE_MAX
    } else {
        n
    }
}

/// The pieces that are staged.
#[verifier::ext_equal]
pub struct StagedView {
    pub pieces: Set<u32>,
}

impl StagedView {
    /// Whether all pieces of the slots are among them.
    pub open spec fn covers(self, slots: Seq<SlotView>) -> bool {
        forall|i: u32| staged(slots, i) ==> #[trigger] self.pieces.contains(i)
    }
}

/// The pieces of the slots.
pub open spec fn staged_pieces(slots: Seq<SlotView>) -> StagedView {
    StagedView { pieces: Set::new(|i: u32| staged(slots, i)) }
}

/// Where the pieces to fetch come from: one peer's choice among the pieces of a torrent
/// `T`, which it shares with other peers.
pub trait PieceSource<T> {
    /// Validity of the source.
    spec fn ready(&self, torrent: &T) -> bool;

    /// Whether blocks of the piece may be requested from this peer now.
    spec fn may(&self, index: u32) -> bool;

    /// Whether the piece may be started.
    spec fn offers(&self, torrent: &T, index: u32) -> bool;

    /// Whether this peer has claimed the piece.
    spec fn holds(&self, index: u32) -> bool;

    /// Length of the piece.
    spec fn size(&self, torrent: &T, index: u32) -> u32;

    /// Whether the piece is the one to start while the given pieces are staged.
    spec fn chooses(&self, torrent: &T, now: StagedView, index: u32) -> bool;

    /// What starting pieces leaves as it was.
    spec fn kept(&self, torrent: &T, before: &Self, torrent_before: &T) -> bool;

    proof fn kept_at_first(&self, torrent: &T)
        ensures
            self.kept(torrent, self, torrent),
    ;

    proof fn kept_in_steps(
        &self,
        torrent: &T,
        mid: &Self,
        torrent_mid: &T,
        before: &Self,
        torrent_before: &T,
    )
        requires
            self.kept(torrent, mid, torrent_mid),
            mid.kept(torrent_mid, before, torrent_before),
        ensures
            self.kept(torrent, before, torrent_before),
    ;

    /// Whether blocks of the piece may be requested from this peer now.
    fn may_request_piece(&self, index: u32) -> (r: bool)
        ensures
            r == self.may(index),
    ;

    /// Claim a piece to start: its index and length.
    fn start_piece(&mut self, torrent: &mut T, staging: &StagingPool) -> (r: Option<(u32, u32)>)
        requires
            old(self).ready(old(torrent)),
        ensures
            final(self).ready(final(torrent)),
            final(self).kept(final(torrent), old(self), old(torrent)),
            forall|i: u32| final(self).may(i) == old(self).may(i),
            forall|i: u32| #[trigger]
                final(self).offers(final(torrent), i) ==> old(self).offers(old(torrent), i),
            r matches Some(p) ==> old(self).offers(old(torrent), p.0),
            forall|i: u32| #[trigger]
                final(self).holds(i) == (old(self).holds(i) || (r is Some && i == (r->0).0)),
            forall|i: u32| #[trigger]
                final(self).size(final(torrent), i) == old(self).size(old(torrent), i),
            match r {
                Some(p) => {
                    &&& old(self).chooses(old(torrent), staged_pieces(staging.slots()), p.0)
                    &&& p.1 == old(self).size(old(torrent), p.0)
                    // Once the piece is staged, the choice is what it would have been.
                    &&& forall|now: StagedView, i: u32| #[trigger]
                        final(self).chooses(final(torrent), now, i) && now.covers(
                            staging.slots(),
                        ) && now.pieces.contains(p.0) ==> old(self).chooses(old(torrent), now, i)
                },
                None => forall|i: u32|
                    !(#[trigger] final(self).chooses(
                        final(torrent),
                        staged_pieces(staging.slots()),
                        i,
                    )),
            },
    ;

    /// Give back the claim on a piece that could not be started.
    fn abort_start(&mut self, torrent: &mut T, index: u32)
        requires
            old(self).ready(old(torrent)),
        ensures
            final(self).ready(final(torrent)),
            final(self).kept(final(torrent), old(self), old(torrent)),
            forall|i: u32| final(self).may(i) == old(self).may(i),
            forall|i: u32| #[trigger]
                final(self).holds(i) == (old(self).holds(i) && i != index),
    ;
}

/// The pipeline depth in force: at least one.
pub open spec fn depth(pipeline: usize) -> nat {
    if pipeline == 0 {
        1
    } else {
        pipeline as nat
    }
}

/// Outside endgame, no refill while more than half of the pipeline is outstanding.
pub open spec fn holds_back(slots: Seq<SlotView>, pipeline: usize, endgame: bool) -> bool {
    !endgame && pending_total(slots) > if depth(pipeline) / 2 == 0 {
        1
    } else {
        depth(pipeline) / 2
    }
}

/// What asking for blocks `r` made of the slots `a`, where `may` says which pieces may be
/// asked for.
pub open spec fn asked(
    a: Seq<SlotView>,
    b: Seq<SlotView>,
    r: Seq<(u32, u32, u32)>,
    pipeline: usize,
    endgame: bool,
    may: spec_fn(u32) -> bool,
) -> bool {
    // Nothing happens while enough is outstanding.
    &&& holds_back(a, pipeline, endgame) ==> r.len() == 0 && b == a
    // Pieces that were staged keep their place, their blocks and their bytes.
    &&& only_requests_added(a, b)
    // Every request is new, is for a block that is missing, and is counted.
    &&& r.no_duplicates()
    &&& forall|x: (u32, u32, u32)| r.contains(x) ==> !awaited(a).contains(x)
    &&& awaited(b) == awaited(a).union(r.to_set())
    &&& pending_total(b) == pending_total(a) + r.len()
    // The pipeline is never overfilled.
    &&& r.len() > 0 ==> pending_total(b) <= depth(pipeline)
    // The pipeline is full, or the staged pieces have nothing left to ask for.
    &&& !holds_back(a, pipeline, endgame) && pending_total(b) < depth(pipeline) ==> forall|t: int|
        0 <= t < b.len() ==> (#[trigger] b[t]).first_open(may) is None
}

/// How many blocks may be asked for.
pub open spec fn refill(slots: Seq<SlotView>, pipeline: usize, endgame: bool) -> nat {
    if holds_back(slots, pipeline, endgame) || pending_total(slots) >= depth(pipeline) {
        0
    } else {
        (depth(pipeline) - pending_total(slots)) as nat
    }
}

/// The slot as it was when its piece was started.
pub open spec fn at_start(s: SlotView) -> SlotView {
    match s {
        SlotView::Assembling { piece, buf } => SlotView::Assembling {
            piece: PieceView::fresh(piece.index, piece.length),
            buf,
        },
        SlotView::Hashing { .. } => s,
    }
}

/// The slots `a`, and behind them the pieces that `b` has started, with nothing asked for.
pub open spec fn with_started(a: Seq<SlotView>, b: Seq<SlotView>) -> Seq<SlotView> {
    Seq::new(
        b.len(),
        |t: int|
            if t < a.len() {
                a[t]
            } else {
                at_start(b[t])
            },
    )
}

/// Each piece from slot `from` on is the one that was to be started while the pieces before
/// it were staged, in its full length.
pub open spec fn chosen_from<T, S: PieceSource<T>>(
    from: int,
    slots: Seq<SlotView>,
    source_before: &S,
    torrent_before: &T,
) -> bool {
    forall|t: int|
        from <= t < slots.len() ==> ((#[trigger] slots[t]) matches SlotView::Assembling {
            piece,
            ..
        } && source_before.chooses(
            torrent_before,
            staged_pieces(slots.subrange(0, t)),
            piece.index,
        ) && piece.length == source_before.size(torrent_before, piece.index))
}

/// Why no further piece is started: the peer is not fetched from, no buffer is free, enough
/// pieces are assembling, there is no piece to start, or the one to start does not fit.
pub open spec fn starts_no_more<T, S: PieceSource<T>>(
    staging: &StagingPool,
    bufs: &PieceBufferPool,
    pipeline: usize,
    source_before: &S,
    torrent_before: &T,
    source: &S,
    torrent: &T,
) -> bool {
    ||| !staging.leeches()
    ||| bufs.room() == 0
    ||| assembling(staging.slots()).len() >= assembling_cap(
        depth(pipeline) as int,
        staging.spec_piece_length() as int,
        bufs.spec_capacity() as int,
    )
    ||| forall|i: u32|
        !(#[trigger] source.chooses(torrent, staged_pieces(staging.slots()), i))
    ||| exists|i: u32| #[trigger]
        source_before.chooses(torrent_before, staged_pieces(staging.slots()), i) && (staged(
            staging.slots(),
            i,
        ) || !(0 < source_before.size(torrent_before, i) <= staging.spec_piece_length()))
}

proof fn same_indices_staged(a: Seq<SlotView>, b: Seq<SlotView>)
    requires
        only_requests_added(a, b),
        a.len() == b.len(),
    ensures
        staged_pieces(a) == staged_pieces(b),
{
    assert forall|t: int| 0 <= t < a.len() implies (#[trigger] a[t]).index() == b[t].index() by {
        assert(request_superset(a[t], b[t]));
    }
    assert forall|i: u32| staged(a, i) == staged(b, i) by {
        if staged(a, i) {
            let u = position(a, i);
            assert(b[u].index() == a[u].index());
        }
        if staged(b, i) {
            let u = position(b, i);
            assert(a[u].index() == b[u].index());
        }
    }
    assert(staged_pieces(a) =~= staged_pieces(b));
}

/// Requests change neither which pieces were started nor how they began.
proof fn requests_keep_starts<T, S: PieceSource<T>>(
    before: Seq<SlotView>,
    a: Seq<SlotView>,
    b: Seq<SlotView>,
    source_before: &S,
    torrent_before: &T,
)
    requires
        before.len() <= a.len(),
        chosen_from(before.len() as int, a, source_before, torrent_before),
        only_requests_added(a, b),
        a.len() == b.len(),
    ensures
        chosen_from(before.len() as int, b, source_before, torrent_before),
        with_started(before, a) == with_started(before, b),
{
    assert forall|t: int| before.len() <= t < b.len() implies ((
    #[trigger] b[t]) matches SlotView::Assembling { piece, .. } && source_before.chooses(
        torrent_before,
        staged_pieces(b.subrange(0, t)),
        piece.index,
    ) && piece.length == source_before.size(torrent_before, piece.index)) by {
        assert(a[t] is Assembling);
        assert(request_superset(a[t], b[t]));
        let x = a.subrange(0, t);
        let y = b.subrange(0, t);
        assert forall|u: int| 0 <= u < x.len() implies #[trigger] request_superset(
            x[u],
            y[u],
        ) by {
            assert(request_superset(a[u], b[u]));
        }
        same_indices_staged(x, y);
    }
    assert forall|t: int| before.len() <= t < b.len() implies at_start(a[t]) == at_start(
        #[trigger] b[t],
    ) by {
        assert(request_superset(a[t], b[t]));
    }
    assert(with_started(before, a) =~= with_started(before, b));
}

/// The buffer that a pool hands out after `k` others.
pub open spec fn nth_buffer(bufs: &PieceBufferPool, k: int) -> Seq<u8> {
    if k < bufs.freelist().len() {
        bufs.freelist()[bufs.freelist().len() - 1 - k]
    } else {
        Seq::new(bufs.spec_piece_length() as nat, |i: int| 0u8)
    }
}

/// The pieces that `b` has started behind the slots `a` have each taken a buffer, one after
/// the other.
pub open spec fn drawn(
    a: Seq<SlotView>,
    b: Seq<SlotView>,
    bufs_before: &PieceBufferPool,
    bufs_after: &PieceBufferPool,
) -> bool {
    let free = bufs_before.freelist();
    let n = b.len() - a.len();
    &&& bufs_after.outstanding() == bufs_before.outstanding() + n
    &&& bufs_after.freelist() == if n <= free.len() {
        free.subrange(0, free.len() - n)
    } else {
        Seq::empty()
    }
    &&& forall|t: int|
        a.len() <= t < b.len() ==> ((#[trigger] b[t]) matches SlotView::Assembling { buf, .. }
            && buf == nth_buffer(bufs_before, t - a.len()))
}

proof fn requests_draw_nothing(
    before: Seq<SlotView>,
    a: Seq<SlotView>,
    b: Seq<SlotView>,
    bufs_before: &PieceBufferPool,
    bufs: &PieceBufferPool,
)
    requires
        drawn(before, a, bufs_before, bufs),
        only_requests_added(a, b),
        a.len() == b.len(),
    ensures
        drawn(before, b, bufs_before, bufs),
{
    assert forall|t: int| before.len() <= t < b.len() implies ((
    #[trigger] b[t]) matches SlotView::Assembling { buf, .. } && buf == nth_buffer(
        bufs_before,
        t - before.len(),
    )) by {
        assert(request_superset(a[t], b[t]));
    }
}

proof fn start_draws_one(
    before: Seq<SlotView>,
    slots: Seq<SlotView>,
    s: SlotView,
    bufs_before: &PieceBufferPool,
    bufs: &PieceBufferPool,
    bufs_after: &PieceBufferPool,
)
    requires
        before.len() <= slots.len(),
        drawn(before, slots, bufs_before, bufs),
        bufs.same_pool(bufs_before),
        s is Assembling,
        s->buf == nth_buffer(bufs, 0),
        bufs_after.outstanding() == bufs.outstanding() + 1,
        bufs_after.freelist() == if bufs.freelist().len() > 0 {
            bufs.freelist().drop_last()
        } else {
            bufs.freelist()
        },
    ensures
        drawn(before, slots.push(s), bufs_before, bufs_after),
{
    let after = slots.push(s);
    let free = bufs_before.freelist();
    let n = slots.len() - before.len();
    if n < free.len() {
        assert(bufs.freelist().drop_last() =~= free.subrange(0, free.len() - (n + 1)));
    } else if n == free.len() {
        assert(bufs.freelist() =~= Seq::<Seq<u8>>::empty());
    }
    assert forall|t: int| before.len() <= t < after.len() implies ((
    #[trigger] after[t]) matches SlotView::Assembling { buf, .. } && buf == nth_buffer(
        bufs_before,
        t - before.len(),
    )) by {
        if t < slots.len() {
            assert(after[t] == slots[t]);
        }
    }
}

/// A started piece is one more that was to be started.
proof fn start_adds_a_choice<T, S: PieceSource<T>>(
    before: Seq<SlotView>,
    slots: Seq<SlotView>,
    s: SlotView,
    source_before: &S,
    torrent_before: &T,
)
    requires
        before.len() <= slots.len(),
        chosen_from(before.len() as int, slots, source_before, torrent_before),
        s is Assembling,
        s->piece == PieceView::fresh(s->piece.index, s->piece.length),
        source_before.chooses(torrent_before, staged_pieces(slots), s->piece.index),
        s->piece.length == source_before.size(torrent_before, s->piece.index),
    ensures
        chosen_from(before.len() as int, slots.push(s), source_before, torrent_before),
        with_started(before, slots.push(s)) == with_started(before, slots).push(s),
{
    let after = slots.push(s);
    assert forall|t: int| before.len() <= t < after.len() implies ((
    #[trigger] after[t]) matches SlotView::Assembling { piece, .. } && source_before.chooses(
        torrent_before,
        staged_pieces(after.subrange(0, t)),
        piece.index,
    ) && piece.length == source_before.size(torrent_before, piece.index)) by {
        if t < slots.len() {
            assert(after[t] == slots[t]);
            assert(after.subrange(0, t) =~= slots.subrange(0, t));
        } else {
            assert(after.subrange(0, t) =~= slots);
        }
    }
    assert(at_start(s) == s);
    assert(with_started(before, after) =~= with_started(before, slots).push(s));
}

proof fn next_open_of_longer(
    slots: Seq<SlotView>,
    s: SlotView,
    may: spec_fn(u32) -> bool,
    from: int,
)
    requires
        0 <= from,
        next_open(slots, may, from) is Some,
    ensures
        next_open(slots.push(s), may, from) == next_open(slots, may, from),
        0 <= (next_open(slots, may, from)->0).0 < slots.len(),
    decreases slots.len() - from,
{
    assert(slots.push(s)[from] == slots[from]);
    if slots[from].first_open(may) is None {
        next_open_of_longer(slots, s, may, from + 1);
    }
}

/// A piece that is started once the slots have nothing left to ask for might as well have
/// been there from the beginning.
proof fn filled_with_one_more(
    slots: Seq<SlotView>,
    s: SlotView,
    may: spec_fn(u32) -> bool,
    room: nat,
)
    requires
        filled(slots, may, room).1.len() < room,
    ensures
        ({
            let (mid, first) = filled(slots, may, room);
            let (end, second) = filled(mid.push(s), may, (room - first.len()) as nat);
            filled(slots.push(s), may, room) == (end, first + second)
        }),
    decreases room,
{
    let (mid, first) = filled(slots, may, room);
    let (end, second) = filled(mid.push(s), may, (room - first.len()) as nat);
    match next_open(slots, may, 0) {
        Some((t, k)) => {
            next_open_of_longer(slots, s, may, 0);
            let next = slots.update(t, slots[t].with_request(k));
            let rest = filled(next, may, (room - 1) as nat);
            assert(first == seq![slots[t].request(k)] + rest.1);
            assert(first.len() == 1 + rest.1.len());
            filled_with_one_more(next, s, may, (room - 1) as nat);
            assert(next.push(s) =~= slots.push(s).update(t, slots[t].with_request(k)));
            assert(first + second =~= seq![slots[t].request(k)] + (rest.1 + second));
        },
        None => {
            assert(first + second =~= second);
        },
    }
}

/// Each piece from slot `from` on had been offered before, and is claimed by the peer. Claims
/// that came are for staged pieces, and none for a staged piece is gone.
pub open spec fn started_from<T, S: PieceSource<T>>(
    from: int,
    slots: Seq<SlotView>,
    source_before: &S,
    torrent_before: &T,
    source: &S,
) -> bool {
    &&& forall|t: int|
        from <= t < slots.len() ==> source_before.offers(
            torrent_before,
            (#[trigger] slots[t]).index(),
        ) && source.holds(slots[t].index())
    &&& forall|i: u32| #[trigger]
        source.holds(i) ==> source_before.holds(i) || staged(slots, i)
    &&& forall|i: u32| #[trigger]
        source_before.holds(i) && staged(slots, i) ==> source.holds(i)
}

proof fn same_indices_started<T, S: PieceSource<T>>(
    from: int,
    a: Seq<SlotView>,
    b: Seq<SlotView>,
    source_before: &S,
    torrent_before: &T,
    source: &S,
)
    requires
        0 <= from,
        started_from(from, a, source_before, torrent_before, source),
        only_requests_added(a, b),
        a.len() == b.len(),
    ensures
        started_from(from, b, source_before, torrent_before, source),
{
    assert forall|t: int| 0 <= t < a.len() implies (#[trigger] a[t]).index() == b[t].index() by {
        assert(request_superset(a[t], b[t]));
    }
    assert forall|i: u32| staged(a, i) == staged(b, i) by {
        if staged(a, i) {
            let u = position(a, i);
            assert(b[u].index() == a[u].index());
        }
        if staged(b, i) {
            let u = position(b, i);
            assert(a[u].index() == b[u].index());
        }
    }
    assert forall|t: int| from <= t < b.len() implies source_before.offers(
        torrent_before,
        (#[trigger] b[t]).index(),
    ) && source.holds(b[t].index()) by {
        assert(a[t].index() == b[t].index());
    }
}

/// From `a` to `b` only requests were added: to the slots of `a`, and to pieces that were
/// started behind them.
pub open spec fn only_requests_added(a: Seq<SlotView>, b: Seq<SlotView>) -> bool {
    &&& a.len() <= b.len()
    &&& forall|t: int| 0 <= t < a.len() ==> #[trigger] request_superset(a[t], b[t])
    &&& forall|t: int| a.len() <= t < b.len() ==> #[trigger] untouched_but_requested(b[t])
}

/// The same piece in the same state, with perhaps more requests.
pub open spec fn request_superset(a: SlotView, b: SlotView) -> bool {
    match (a, b) {
        (
            SlotView::Assembling { piece: p, buf: pb },
            SlotView::Assembling { piece: q, buf: qb },
        ) => {
            &&& pb == qb
            &&& p.requested.len() == q.requested.len()
            &&& q == (PieceView { requested: q.requested, ..p })
            &&& forall|k: int| 0 <= k < p.requested.len() && p.requested[k] ==> q.requested[k]
        },
        _ => a == b,
    }
}

/// A started piece of which nothing is in.
pub open spec fn untouched_but_requested(s: SlotView) -> bool {
    s matches SlotView::Assembling { piece, .. } && !piece.endgame && forall|k: int|
        0 <= k < piece.have.len() ==> !piece.have[k]
}

proof fn first_open_is_open(p: PieceView, from: int)
    requires
        p.first_open(from) is Some,
    ensures
        p.open_block(p.first_open(from)->0),
    decreases p.have.len() - from,
{
    if !p.open_block(from) {
        first_open_is_open(p, from + 1);
    }
}

proof fn total_after_update(slots: Seq<SlotView>, t: int, s: SlotView)
    requires
        0 <= t < slots.len(),
    ensures
        pending_total(slots.update(t, s)) == pending_total(slots) - slots[t].pending_count()
            + s.pending_count(),
    decreases slots.len(),
{
    let u = slots.update(t, s);
    if t == slots.len() - 1 {
        assert(u.drop_last() =~= slots.drop_last());
    } else {
        total_after_update(slots.drop_last(), t, s);
        assert(u.drop_last() =~= slots.drop_last().update(t, s));
    }
}

proof fn total_after_push(slots: Seq<SlotView>, s: SlotView)
    ensures
        pending_total(slots.push(s)) == pending_total(slots) + s.pending_count(),
{
    assert(slots.push(s).drop_last() =~= slots);
}

proof fn same_kinds_same_count(a: Seq<SlotView>, b: Seq<SlotView>)
    requires
        a.len() == b.len(),
        forall|t: int| 0 <= t < a.len() ==> ((#[trigger] a[t]) is Assembling <==> b[t] is Assembling),
    ensures
        assembling(a).len() == assembling(b).len(),
    decreases a.len(),
{
    if a.len() > 0 {
        assert(a[a.len() - 1] is Assembling <==> b[b.len() - 1] is Assembling);
        assert forall|t: int| 0 <= t < a.drop_last().len() implies ((
        #[trigger] a.drop_last()[t]) is Assembling <==> b.drop_last()[t] is Assembling) by {
            assert(a[t] is Assembling <==> b[t] is Assembling);
        }
        same_kinds_same_count(a.drop_last(), b.drop_last());
    }
}

/// Two blocks of one slot have different requests.
proof fn requests_differ(s: SlotView, piece_length: u32, k: int, j: int)
    requires
        s.wf(piece_length),
        s is Assembling,
        0 <= k < s->piece.have.len(),
        0 <= j < s->piece.have.len(),
        s.request(k) == s.request(j),
    ensures
        k == j,
{
    blocks_cover_the_piece(s->piece.length as int, k);
    blocks_cover_the_piece(s->piece.length as int, j);
}

/// Asking for one open block of one slot: one more pending block, one more awaited
/// request, which was not awaited before.
proof fn one_request(slots: Seq<SlotView>, piece_length: u32, t: int, k: int)
    requires
        slots_wf(slots, piece_length),
        0 <= t < slots.len(),
        slots[t] is Assembling,
        slots[t]->piece.open_block(k),
    ensures
        ({
            let after = slots.update(t, slots[t].with_request(k));
            let r = slots[t].request(k);
            &&& slots_wf(after, piece_length)
            &&& pending_total(after) == pending_total(slots) + 1
            &&& !awaited(slots).contains(r)
            &&& awaited(after) == awaited(slots).insert(r)
            &&& only_requests_added(slots, after)
            &&& assembling(after).len() == assembling(slots).len()
        }),
{
    let s = slots[t];
    let p = s->piece;
    let after = slots.update(t, s.with_request(k));
    let r = s.request(k);
    assert(s.wf(piece_length));
    slots_keep_wf(slots, after, t, piece_length);
    request_adds_one(p, k, p.have.len() as int);
    total_after_update(slots, t, s.with_request(k));
    same_kinds_same_count(slots, after);
    if awaited(slots).contains(r) {
        let u = choose|u: int| 0 <= u < slots.len() && (#[trigger] slots[u]).awaits(r);
        position_is(slots, t, piece_length);
        position_is(slots, u, piece_length);
        let j = choose|j: int| p.pending_block(j) && r == #[trigger] s.request(j);
        requests_differ(s, piece_length, k, j);
    }
    assert forall|x: (u32, u32, u32)| awaited(after).contains(x) <==> awaited(slots).insert(
        r,
    ).contains(x) by {
        if awaited(after).contains(x) {
            let u = choose|u: int| 0 <= u < after.len() && (#[trigger] after[u]).awaits(x);
            if u == t {
                let j = choose|j: int|
                    after[t]->piece.pending_block(j) && x == #[trigger] after[t].request(j);
                assert(s.request(j) == after[t].request(j));
                if j != k {
                    assert(p.pending_block(j));
                    assert(slots[t].awaits(x));
                }
            } else {
                assert(slots[u].awaits(x));
            }
        }
        if awaited(slots).contains(x) {
            let u = choose|u: int| 0 <= u < slots.len() && (#[trigger] slots[u]).awaits(x);
            if u == t {
                let j = choose|j: int| p.pending_block(j) && x == #[trigger] s.request(j);
                assert(after[t]->piece.pending_block(j));
                assert(after[t].request(j) == x);
                assert(after[t].awaits(x));
            } else {
                assert(after[u].awaits(x));
            }
        }
        if x == r {
            assert(after[t]->piece.pending_block(k));
            assert(after[t].request(k) == x);
            assert(after[t].awaits(x));
        }
    }
    assert(awaited(after) =~= awaited(slots).insert(r));
    assert forall|u: int| 0 <= u < slots.len() implies #[trigger] request_superset(
        slots[u],
        after[u],
    ) by {}
}

/// A started piece awaits nothing yet.
proof fn one_start(slots: Seq<SlotView>, s: SlotView)
    requires
        s matches SlotView::Assembling { piece, .. } && forall|k: int| !piece.pending_block(k),
    ensures
        awaited(slots.push(s)) == awaited(slots),
        pending_total(slots.push(s)) == pending_total(slots),
        assembling(slots.push(s)).len() == assembling(slots).len() + 1,
{
    let after = slots.push(s);
    assert(after.drop_last() =~= slots);
    nothing_requested_nothing_pending(s->piece, s->piece.have.len() as int);
    total_after_push(slots, s);
    assert forall|x: (u32, u32, u32)| awaited(after).contains(x) <==> awaited(slots).contains(
        x,
    ) by {
        if awaited(after).contains(x) {
            let u = choose|u: int| 0 <= u < after.len() && (#[trigger] after[u]).awaits(x);
            assert(slots[u].awaits(x));
        }
        if awaited(slots).contains(x) {
            let u = choose|u: int| 0 <= u < slots.len() && (#[trigger] slots[u]).awaits(x);
            assert(after[u].awaits(x));
        }
    }
    assert(awaited(after) =~= awaited(slots));
}

proof fn additions_compose(a: Seq<SlotView>, b: Seq<SlotView>, c: Seq<SlotView>)
    requires
        only_requests_added(a, b),
        only_requests_added(b, c),
    ensures
        only_requests_added(a, c),
{
    assert forall|t: int| 0 <= t < a.len() implies #[trigger] request_superset(a[t], c[t]) by {
        assert(request_superset(a[t], b[t]));
        assert(request_superset(b[t], c[t]));
    }
    assert forall|t: int| a.len() <= t < c.len() implies #[trigger] untouched_but_requested(
        c[t],
    ) by {
        if t < b.len() {
            assert(untouched_but_requested(b[t]));
            assert(request_superset(b[t], c[t]));
        }
    }
}

/// Where nothing before slot `t` is open, the search may begin at `t`.
proof fn search_from(slots: Seq<SlotView>, may: spec_fn(u32) -> bool, from: int, t: int)
    requires
        0 <= from <= t <= slots.len(),
        forall|u: int| from <= u < t ==> (#[trigger] slots[u]).first_open(may) is None,
    ensures
        next_open(slots, may, from) == next_open(slots, may, t),
    decreases t - from,
{
    if from < t {
        assert(slots[from].first_open(may) is None);
        search_from(slots, may, from + 1, t);
    }
}

impl StagingPool {
    /// Ask for up to `room` more blocks of the pieces that are assembling, piece by piece
    /// and block by block, where the source allows requests for the piece.
    pub fn request_staged<T, S: PieceSource<T>>(&mut self, room: usize, source: &S) -> (r: Vec<
        (u32, u32, u32),
    >)
        requires
            old(self).wf(),
        ensures
            final(self).wf(),
            final(self).same_peer(old(self)),
            (final(self).slots(), r@) == filled(
                old(self).slots(),
                |i: u32| source.may(i),
                room as nat,
            ),
            // What follows from it for the callers.
            final(self).slots().len() == old(self).slots().len(),
            only_requests_added(old(self).slots(), final(self).slots()),
            pending_total(final(self).slots()) == pending_total(old(self).slots()) + r@.len(),
            assembling(final(self).slots()).len() == assembling(old(self).slots()).len(),
            r@.len() <= room,
            r@.no_duplicates(),
            forall|x: (u32, u32, u32)|
                r@.contains(x) ==> !awaited(old(self).slots()).contains(x) && source.may(x.0)
                    && staged(old(self).slots(), x.0),
            awaited(final(self).slots()) == awaited(old(self).slots()).union(r@.to_set()),
            r@.len() < room ==> forall|t: int|
                0 <= t < final(self).slots().len() ==> (#[trigger] final(self).slots()[t]).first_open(|i: u32| source.may(i)) is None,
    {
        let ghost may = |i: u32| source.may(i);
        let ghost before = self.slots();
        let mut out: Vec<(u32, u32, u32)> = Vec::new();
        let mut left: usize = room;
        let mut t: usize = 0;
        proof {
            assert(awaited(before).union(out@.to_set()) =~= awaited(before));
            assert(out@ + filled(before, may, room as nat).1 =~= filled(
                before,
                may,
                room as nat,
            ).1);
        }
        while t < self.slots.len() && left > 0
            invariant
                t <= self.slots@.len(),
                self.wf(),
                self.same_peer(old(self)),
                before == old(self).slots(),
                may == |i: u32| source.may(i),
                left + out@.len() == room,
                self.slots().len() == before.len(),
                only_requests_added(before, self.slots()),
                pending_total(self.slots()) == pending_total(before) + out@.len(),
                assembling(self.slots()).len() == assembling(before).len(),
                out@.no_duplicates(),
                forall|x: (u32, u32, u32)|
                    out@.contains(x) ==> !awaited(before).contains(x) && source.may(x.0) && staged(
                        before,
                        x.0,
                    ),
                awaited(self.slots()) == awaited(before).union(out@.to_set()),
                forall|u: int| 0 <= u < t ==> (#[trigger] self.slots()[u]).first_open(may) is None,
                filled(before, may, room as nat) == (
                    filled(self.slots(), may, left as nat).0,
                    out@ + filled(self.slots(), may, left as nat).1,
                ),
            decreases left + (self.slots@.len() - t),
        {
            let ghost mid = self.slots();
            let ghost raw = self.slots@;
            let ghost out0 = out@;
            assert(mid[t as int] == raw[t as int]@);
            assert(mid[t as int].wf(self.piece_length));
            let idx: Option<u32> = match &self.slots[t] {
                Slot::Assembling { piece, .. } => Some(piece.index),
                Slot::Hashing { .. } => None,
            };
            let allowed: bool = match idx {
                Some(i) => source.may_request_piece(i),
                None => false,
            };
            if !allowed {
                assert(mid[t as int].first_open(may) is None);
                t += 1;
            } else {
                let next: Option<(u32, u32)> = match &mut self.slots[t] {
                    Slot::Assembling { piece, .. } => piece.next_request(),
                    Slot::Hashing { .. } => None,
                };
                assert(self.slots().len() == mid.len());
                assert(self.slots()[t as int] == self.slots@[t as int]@);
                assert forall|u: int| 0 <= u < mid.len() && u != t implies (
                #[trigger] self.slots()[u]) == mid[u] by {
                    assert(self.slots@[u] == raw[u]);
                }
                match (idx, next) {
                    (Some(i), Some((begin, len))) => {
                        out.push((i, begin, len));
                        left = left - 1;
                        proof {
                            let s = mid[t as int];
                            let k = s.first_open(may)->0;
                            first_open_is_open(s->piece, 0);
                            let r = s.request(k);
                            assert(r == (i, begin, len));
                            assert(self.slots() =~= mid.update(t as int, s.with_request(k)));
                            one_request(mid, self.piece_length, t as int, k);
                            additions_compose(before, mid, self.slots());
                            search_from(mid, may, 0, t as int);
                            assert(next_open(mid, may, 0) == Some((t as int, k)));
                            assert(filled(mid, may, (left + 1) as nat) == (
                                filled(self.slots(), may, left as nat).0,
                                seq![r] + filled(self.slots(), may, left as nat).1,
                            ));
                            assert(out0 + (seq![r] + filled(self.slots(), may, left as nat).1)
                                =~= out@ + filled(self.slots(), may, left as nat).1);
                            assert(awaited(before).union(out@.to_set()) =~= awaited(before).union(
                                out0.to_set(),
                            ).insert(r)) by {
                                assert forall|x: (u32, u32, u32)| out@.contains(x) <==> (
                                out0.contains(x) || x == r) by {
                                    if out0.contains(x) {
                                        let j = choose|j: int| 0 <= j < out0.len() && out0[j] == x;
                                        assert(out@[j] == x);
                                    }
                                    if x == r {
                                        assert(out@[out0.len() as int] == x);
                                    }
                                }
                            }
                            assert(!out0.contains(r)) by {
                                if out0.contains(r) {
                                    assert(out0.to_set().contains(r));
                                }
                            }
                            assert(request_superset(before[t as int], mid[t as int]));
                            assert(before[t as int].index() == i);
                            assert forall|x: (u32, u32, u32)| out@.contains(x) implies !awaited(
                                before,
                            ).contains(x) && source.may(x.0) && staged(before, x.0) by {
                                if x != r {
                                    let j = choose|j: int| 0 <= j < out@.len() && out@[j] == x;
                                    assert(out0[j] == x);
                                }
                            }
                        }
                    },
                    _ => {
                        assert(mid[t as int].first_open(may) is None);
                        assert(self.slots() =~= mid);
                        t += 1;
                    },
                }
            }
        }
        proof {
            if left > 0 {
                search_from(self.slots(), may, 0, t as int);
            }
        }
        out
    }
}

impl StagingPool {
    /// Ask for blocks until the pipeline is full: first of the pieces that are assembling,
    /// then of pieces that the source lets this peer start.
    ///
    /// Outside endgame nothing is asked for while more than half of the pipeline is
    /// outstanding. The source must have claimed the piece that it names; where the piece
    /// then cannot be started, the claim is given back.
    #[verifier::spinoff_prover]
    #[verifier::rlimit(60)]
    pub fn take_requests<T, S: PieceSource<T>>(
        &mut self,
        bufs: &mut PieceBufferPool,
        pipeline: usize,
        endgame: bool,
        source: &mut S,
        torrent: &mut T,
    ) -> (r: Vec<(u32, u32, u32)>)
        requires
            old(self).wf(),
            old(self).fits(old(bufs)),
            old(source).ready(old(torrent)),
        ensures
            final(self).wf(),
            final(self).fits(final(bufs)),
            final(self).same_peer(old(self)),
            final(bufs).same_pool(old(bufs)),
            final(source).ready(final(torrent)),
            final(source).kept(final(torrent), old(source), old(torrent)),
            forall|i: u32| final(source).may(i) == old(source).may(i),
            // Pieces that were started had been offered, and are claimed now; of the other
            // pieces none that is not staged is claimed anew.
            started_from(
                old(self).slots().len() as int,
                final(self).slots(),
                old(source),
                old(torrent),
                final(source),
            ),
            // Each started piece takes one buffer, and the buffers out still cover the pieces.
            drawn(old(self).slots(), final(self).slots(), old(bufs), final(bufs)),
            forall|others: nat| #[trigger]
                old(self).covered(old(bufs), others) ==> final(self).covered(
                    final(bufs),
                    others,
                ),
            assembling(final(self).slots()).len() <= assembling(old(self).slots()).len()
                || assembling(final(self).slots()).len() <= assembling_cap(
                depth(pipeline) as int,
                old(self).spec_piece_length() as int,
                old(bufs).spec_capacity() as int,
            ),
            forall|x: (u32, u32, u32)|
                r@.contains(x) ==> (old(source).may(x.0) || (!staged(old(self).slots(), x.0)
                    && old(source).offers(old(torrent), x.0))),
            asked(
                old(self).slots(),
                final(self).slots(),
                r@,
                pipeline,
                endgame,
                |i: u32| old(source).may(i),
            ),
            // The started pieces are the ones to start, one after the other.
            chosen_from(
                old(self).slots().len() as int,
                final(self).slots(),
                old(source),
                old(torrent),
            ),
            // Blocks are asked for in order.
            (forall|i: u32| #[trigger] old(source).offers(old(torrent), i) ==> old(source).may(i))
                ==> (final(self).slots(), r@) == filled(
                with_started(old(self).slots(), final(self).slots()),
                |i: u32| old(source).may(i),
                refill(old(self).slots(), pipeline, endgame),
            ),
            // The pipeline is full, or there is nothing more to start.
            holds_back(old(self).slots(), pipeline, endgame) || pending_total(final(self).slots())
                >= depth(pipeline) || starts_no_more(
                final(self),
                final(bufs),
                pipeline,
                old(source),
                old(torrent),
                final(source),
                final(torrent),
            ),
    {
        let ghost before = self.slots();
        let ghost may = |i: u32| old(source).may(i);
        let pipe: usize = if pipeline == 0 {
            1
        } else {
            pipeline
        };
        let mut out: Vec<(u32, u32, u32)> = Vec::new();
        let ghost room: nat = refill(before, pipeline, endgame);
        let ghost in_order: bool = forall|i: u32| #[trigger]
            old(source).offers(old(torrent), i) ==> old(source).may(i);
        proof {
            assert(awaited(before).union(out@.to_set()) =~= awaited(before));
            source.kept_at_first(&*torrent);
            assert(drawn(before, before, old(bufs), bufs)) by {
                assert(bufs.freelist() =~= bufs.freelist().subrange(
                    0,
                    bufs.freelist().len() as int,
                ));
            }
            assert(with_started(before, before) =~= before);
            assert(out@ + filled(before, may, room).1 =~= filled(before, may, room).1);
        }
        if !endgame {
            let half: usize = pipe / PIPE_REFILL_DIV;
            let low_water: usize = if half == 0 {
                1
            } else {
                half
            };
            if self.total_outstanding() > low_water {
                return out;
            }
        }
        let cap: usize = max_assembling_pieces(pipe, self.piece_length, self.capacity(bufs));
        let ghost mut settled: bool = false;
        loop
            invariant_except_break
                forall|i: u32| #[trigger]
                    source.offers(torrent, i) ==> old(source).offers(old(torrent), i),
                forall|i: u32| #[trigger]
                    source.size(torrent, i) == old(source).size(old(torrent), i),
                forall|now: StagedView, i: u32| #[trigger]
                    source.chooses(torrent, now, i) && now.covers(self.slots()) ==> old(
                        source,
                    ).chooses(old(torrent), now, i),
            invariant
                chosen_from(before.len() as int, self.slots(), old(source), old(torrent)),
                room == refill(before, pipeline, endgame),
                in_order == forall|i: u32| #[trigger]
                    old(source).offers(old(torrent), i) ==> old(source).may(i),
                pending_total(before) < pipe ==> out@.len() <= room,
                pending_total(before) >= pipe ==> out@.len() == 0,
                in_order ==> filled(with_started(before, self.slots()), may, room) == (
                    filled(self.slots(), may, (room - out@.len()) as nat).0,
                    out@ + filled(self.slots(), may, (room - out@.len()) as nat).1,
                ),
                source.kept(torrent, old(source), old(torrent)),
                started_from(
                    before.len() as int,
                    self.slots(),
                    old(source),
                    old(torrent),
                    source,
                ),
                pipe == depth(pipeline),
                self.wf(),
                self.fits(bufs),
                self.same_peer(old(self)),
                bufs.same_pool(old(bufs)),
                source.ready(torrent),
                forall|i: u32| source.may(i) == old(source).may(i),
                may == |i: u32| old(source).may(i),
                before == old(self).slots(),
                slots_wf(before, self.piece_length),
                !holds_back(before, pipeline, endgame),
                self.leeches() ==> cap == assembling_cap(
                    pipe as int,
                    old(self).spec_piece_length() as int,
                    old(bufs).spec_capacity() as int,
                ),
                only_requests_added(before, self.slots()),
                drawn(before, self.slots(), old(bufs), bufs),
                assembling(self.slots()).len() == assembling(before).len() + (self.slots().len()
                    - before.len()),
                self.slots().len() > before.len() ==> self.leeches(),
                assembling(self.slots()).len() <= assembling(before).len() || (self.leeches()
                    && assembling(self.slots()).len() <= cap),
                out@.no_duplicates(),
                forall|x: (u32, u32, u32)|
                    out@.contains(x) ==> !awaited(before).contains(x) && (old(source).may(x.0)
                        || (!staged(before, x.0) && old(source).offers(old(torrent), x.0))),
                awaited(self.slots()) == awaited(before).union(out@.to_set()),
                pending_total(self.slots()) == pending_total(before) + out@.len(),
                out@.len() > 0 ==> pending_total(self.slots()) <= pipe,
            ensures
                pending_total(self.slots()) >= pipe || settled,
                settled ==> forall|t: int|
                    0 <= t < self.slots().len() ==> (#[trigger] self.slots()[t]).first_open(may)
                        is None,
                settled ==> starts_no_more(
                    self,
                    bufs,
                    pipeline,
                    old(source),
                    old(torrent),
                    source,
                    torrent,
                ),
            decreases cap - assembling(self.slots()).len(),
        {
            let n: usize = self.total_outstanding();
            if n >= pipe {
                proof {
                    settled = false;
                }
                break;
            }
            let ghost mid = self.slots();
            let ghost out0 = out@;
            let queued: Vec<(u32, u32, u32)> = self.request_staged::<T, S>(pipe - n, &*source);
            let queued_any: bool = queued.len() > 0;
            proof {
                assert((|i: u32| source.may(i)) =~= may);
                same_indices_started(
                    before.len() as int,
                    mid,
                    self.slots(),
                    old(source),
                    old(torrent),
                    source,
                );
                requests_keep_starts(before, mid, self.slots(), old(source), old(torrent));
                requests_draw_nothing(before, mid, self.slots(), old(bufs), bufs);
                same_indices_staged(mid, self.slots());
                additions_compose(before, mid, self.slots());
                joined_requests(before, mid, out0, queued@);
                assert forall|x: (u32, u32, u32)| (out0 + queued@).contains(x) implies !awaited(
                    before,
                ).contains(x) && (old(source).may(x.0) || (!staged(before, x.0) && old(source).offers(
                    old(torrent),
                    x.0,
                ))) by {
                    if !out0.contains(x) {
                        joined_contains(out0, queued@, x);
                        assert(!awaited(mid).contains(x));
                    }
                }
            }
            append_requests(&mut out, &queued);
            assert(out@ == out0 + queued@);
            assert forall|x: (u32, u32, u32)| out@.contains(x) implies !awaited(before).contains(x)
                && (old(source).may(x.0) || (!staged(before, x.0) && old(source).offers(
                    old(torrent),
                    x.0,
                ))) by {}
            proof {
                let rest = (room - out@.len()) as nat;
                assert(room - out0.len() == pipe - n);
                assert(filled(self.slots(), may, rest) == (
                    self.slots(),
                    Seq::<(u32, u32, u32)>::empty(),
                )) by {
                    if rest > 0 {
                        search_from(self.slots(), may, 0, self.slots().len() as int);
                    }
                }
                assert(out@ + filled(self.slots(), may, rest).1 =~= out@);
                assert forall|now: StagedView, i: u32| #[trigger]
                    source.chooses(torrent, now, i) && now.covers(self.slots()) implies old(
                    source,
                ).chooses(old(torrent), now, i) by {
                    assert forall|j: u32| staged(mid, j) implies #[trigger] now.pieces.contains(
                        j,
                    ) by {
                        assert(staged_pieces(mid).pieces.contains(j));
                        assert(staged_pieces(self.slots()).pieces.contains(j));
                    }
                    assert(now.covers(mid));
                }
            }
            if self.total_outstanding() >= pipe {
                proof {
                    settled = false;
                }
                break;
            }
            proof {
                settled = true;
            }
            if !self.can_start_more(bufs) || self.len() >= cap {
                break;
            }
            let ghost source0 = *source;
            let ghost torrent0 = *torrent;
            let picked: Option<(u32, u32)> = source.start_piece(torrent, &*self);
            proof {
                source.kept_in_steps(&*torrent, &source0, &torrent0, old(source), old(torrent));
            }
            let (index, plen) = match picked {
                Some(p) => p,
                None => {
                    assert(started_from(
                        before.len() as int,
                        self.slots(),
                        old(source),
                        old(torrent),
                        source,
                    ));
                    break;
                },
            };
            if self.contains(index) {
                break;
            }
            let ghost mid2 = self.slots();
            let ghost bufs2 = *bufs;
            if !self.try_start(bufs, index, plen) {
                let ghost source1 = *source;
                let ghost torrent1 = *torrent;
                source.abort_start(torrent, index);
                proof {
                    source.kept_in_steps(&*torrent, &source1, &torrent1, old(source), old(torrent));
                    assert forall|t: int| before.len() <= t < self.slots().len() implies (
                    #[trigger] self.slots()[t]).index() != index by {
                        assert(staged(self.slots(), self.slots()[t].index()));
                    }
                }
                break;
            }
            proof {
                let s2 = self.slots();
                assert(s2.last().index() == index);
                assert(old(source).offers(old(torrent), index));
                assert forall|i: u32| staged(s2, i) == (staged(mid2, i) || i == index) by {
                    if staged(mid2, i) {
                        let u = position(mid2, i);
                        assert(s2[u] == mid2[u]);
                    }
                    if i == index {
                        assert(s2[s2.len() - 1].index() == i);
                    }
                    if staged(s2, i) {
                        let u = position(s2, i);
                        if u < mid2.len() {
                            assert(mid2[u] == s2[u]);
                        }
                    }
                }
                assert(started_from(
                    before.len() as int,
                    s2,
                    old(source),
                    old(torrent),
                    source,
                )) by {
                    assert forall|t: int| before.len() <= t < s2.len() implies old(source).offers(
                        old(torrent),
                        (#[trigger] s2[t]).index(),
                    ) && source.holds(s2[t].index()) by {
                        if t < mid2.len() {
                            assert(s2[t] == mid2[t]);
                        }
                    }
                }
            }
            proof {
                let s = self.slots().last();
                assert(self.slots() =~= mid2.push(s));
                one_start(mid2, s);
                assert(only_requests_added(mid2, self.slots())) by {
                    assert forall|t: int| 0 <= t < mid2.len() implies #[trigger] request_superset(
                        mid2[t],
                        self.slots()[t],
                    ) by {
                        assert(self.slots()[t] == mid2[t]);
                    }
                }
                additions_compose(before, mid2, self.slots());
                assert(old(source).chooses(old(torrent), staged_pieces(mid2), index)) by {
                    assert(staged_pieces(mid2).covers(mid2));
                }
                start_adds_a_choice(before, mid2, s, old(source), old(torrent));
                start_draws_one(before, mid2, s, old(bufs), &bufs2, bufs);
                assert forall|now: StagedView, i: u32| #[trigger]
                    source.chooses(torrent, now, i) && now.covers(self.slots()) implies old(
                    source,
                ).chooses(old(torrent), now, i) by {
                    assert(staged(self.slots(), index));
                    assert(now.pieces.contains(index));
                    assert forall|j: u32| staged(mid2, j) implies #[trigger] now.pieces.contains(
                        j,
                    ) by {
                        assert(staged(self.slots(), j));
                    }
                    assert(now.covers(mid2));
                    assert(source0.chooses(&torrent0, now, i));
                }
                if in_order {
                    filled_with_one_more(with_started(before, mid2), s, may, room);
                }
            }
            if !queued_any {
                let ghost mid3 = self.slots();
                let ghost raw3 = self.slots@;
                let ghost out1 = out@;
                let t: usize = self.slots.len() - 1;
                assert(mid3[t as int] == raw3[t as int]@);
                assert(mid3[t as int].wf(self.piece_length));
                let next: Option<(u32, u32)> = match &mut self.slots[t] {
                    Slot::Assembling { piece, .. } => piece.next_request(),
                    Slot::Hashing { .. } => None,
                };
                proof {
                    assert(self.slots().len() == mid3.len());
                    assert(self.slots()[t as int] == self.slots@[t as int]@);
                    assert forall|u: int| 0 <= u < mid3.len() && u != t implies (
                    #[trigger] self.slots()[u]) == mid3[u] by {
                        assert(self.slots@[u] == raw3[u]);
                    }
                    let p = mid3[t as int]->piece;
                    assert(p.open_block(0));
                    assert(p.first_open(0) == Some(0int));
                    assert(self.slots() =~= mid3.update(t as int, mid3[t as int].with_request(0)));
                    one_request(mid3, self.piece_length, t as int, 0);
                    additions_compose(before, mid3, self.slots());
                    same_indices_started(
                        before.len() as int,
                        mid3,
                        self.slots(),
                        old(source),
                        old(torrent),
                        source,
                    );
                    requests_keep_starts(before, mid3, self.slots(), old(source), old(torrent));
                    requests_draw_nothing(before, mid3, self.slots(), old(bufs), bufs);
                    same_indices_staged(mid3, self.slots());
                    assert forall|now: StagedView, i: u32| #[trigger]
                        source.chooses(torrent, now, i) && now.covers(self.slots()) implies old(
                        source,
                    ).chooses(old(torrent), now, i) by {
                        assert forall|j: u32| staged(mid3, j) implies #[trigger] now.pieces.contains(
                            j,
                        ) by {
                            assert(staged_pieces(mid3).pieces.contains(j));
                            assert(staged_pieces(self.slots()).pieces.contains(j));
                        }
                        assert(now.covers(mid3));
                    }
                }
                match next {
                    Some((begin, len)) => {
                        out.push((index, begin, len));
                        proof {
                            let r = (index, begin, len);
                            assert(seq![r].no_duplicates());
                            assert(out@ =~= out1 + seq![r]);
                            assert(awaited(self.slots()) =~= awaited(mid3).union(
                                seq![r].to_set(),
                            )) by {
                                assert forall|x: (u32, u32, u32)| seq![r].contains(x) <==> x
                                    == r by {
                                    if x == r {
                                        assert(seq![r][0] == x);
                                    }
                                }
                            }
                            assert forall|x: (u32, u32, u32)| seq![r].contains(x) implies !awaited(
                                mid3,
                            ).contains(x) by {}
                            joined_requests(before, mid3, out1, seq![r]);
                            assert(!staged(before, index)) by {
                                if staged(before, index) {
                                    let u = position(before, index);
                                    assert(0 <= u < before.len() && before[u].index() == index);
                                    assert(request_superset(before[u], mid2[u]));
                                    assert(mid2[u].index() == index);
                                    assert(staged(mid2, index));
                                }
                            }
                            assert forall|x: (u32, u32, u32)| out@.contains(x) implies !awaited(
                                before,
                            ).contains(x) && (old(source).may(x.0) || (!staged(before, x.0) && old(source).offers(
                    old(torrent),
                    x.0,
                ))) by {
                                if !out1.contains(x) {
                                    joined_contains(out1, seq![r], x);
                                    assert(x == r);
                                    assert(!awaited(mid3).contains(r));
                                }
                            }
                            if in_order {
                                let left = (room - out1.len()) as nat;
                                let after = filled(self.slots(), may, (left - 1) as nat);
                                assert(filled(mid3, may, left) == (after.0, seq![r] + after.1)) by {
                                    assert(may(index));
                                    search_from(mid3, may, 0, t as int);
                                    assert(next_open(mid3, may, 0) == Some((t as int, 0int)));
                                    assert(r == mid3[t as int].request(0));
                                }
                                assert(out1 + (seq![r] + after.1) =~= out@ + after.1);
                            }
                        }
                    },
                    None => {
                        assert(false);
                        break;
                    },
                }
            }
        }
        proof {
            let rest = (room - out@.len()) as nat;
            if rest > 0 {
                search_from(self.slots(), may, 0, self.slots().len() as int);
            }
            assert(filled(self.slots(), may, rest) == (
                self.slots(),
                Seq::<(u32, u32, u32)>::empty(),
            ));
            assert(out@ + filled(self.slots(), may, rest).1 =~= out@);
        }
        out
    }
}

/// Append `more` to `out`.
fn append_requests(out: &mut Vec<(u32, u32, u32)>, more: &Vec<(u32, u32, u32)>)
    ensures
        final(out)@ == old(out)@ + more@,
{
    let mut i: usize = 0;
    while i < more.len()
        invariant
            i <= more@.len(),
            out@ == old(out)@ + more@.subrange(0, i as int),
        decreases more@.len() - i,
    {
        out.push(more[i]);
        assert(more@.subrange(0, i + 1) =~= more@.subrange(0, i as int).push(more@[i as int]));
        i += 1;
    }
    assert(more@.subrange(0, i as int) =~= more@);
}

proof fn joined_contains(a: Seq<(u32, u32, u32)>, b: Seq<(u32, u32, u32)>, x: (u32, u32, u32))
    ensures
        (a + b).contains(x) <==> a.contains(x) || b.contains(x),
{
    if a.contains(x) {
        let j = choose|j: int| 0 <= j < a.len() && a[j] == x;
        assert((a + b)[j] == x);
    }
    if b.contains(x) {
        let j = choose|j: int| 0 <= j < b.len() && b[j] == x;
        assert((a + b)[a.len() + j] == x);
    }
    if (a + b).contains(x) {
        let j = choose|j: int| 0 <= j < (a + b).len() && (a + b)[j] == x;
        if j < a.len() {
            assert(a[j] == x);
        } else {
            assert(b[j - a.len()] == x);
        }
    }
}

/// Requests made in two steps, the second for what the first left unasked.
proof fn joined_requests(
    before: Seq<SlotView>,
    mid: Seq<SlotView>,
    first: Seq<(u32, u32, u32)>,
    second: Seq<(u32, u32, u32)>,
)
    requires
        first.no_duplicates(),
        second.no_duplicates(),
        awaited(mid) == awaited(before).union(first.to_set()),
        forall|x: (u32, u32, u32)| second.contains(x) ==> !awaited(mid).contains(x),
    ensures
        (first + second).no_duplicates(),
        awaited(mid).union(second.to_set()) == awaited(before).union((first + second).to_set()),
        forall|x: (u32, u32, u32)| second.contains(x) ==> !awaited(before).contains(x),
{
    let all = first + second;
    assert forall|i: int, j: int| 0 <= i < all.len() && 0 <= j < all.len() && i != j implies all[i]
        != all[j] by {
        if i < first.len() && j < first.len() {
            assert(first[i] != first[j]);
        } else if i >= first.len() && j >= first.len() {
            assert(second[i - first.len()] != second[j - first.len()]);
        } else {
            let f = if i < first.len() {
                i
            } else {
                j
            };
            let s = if i < first.len() {
                j
            } else {
                i
            };
            assert(first.contains(first[f]));
            assert(first.to_set().contains(first[f]));
            assert(second.contains(second[s - first.len()]));
        }
    }
    assert forall|x: (u32, u32, u32)| all.contains(x) <==> first.contains(x) || second.contains(
        x,
    ) by {
        joined_contains(first, second, x);
    }
    assert(awaited(mid).union(second.to_set()) =~= awaited(before).union(all.to_set()));
}

// ---------------------------------------------------------------------------
// Laws.
// ---------------------------------------------------------------------------

/// The blocks that are in hold the bytes of `data`.
pub open spec fn agrees(piece: PieceView, buf: Seq<u8>, data: Seq<u8>) -> bool {
    &&& data.len() == piece.length
    &&& buf.len() >= piece.length
    &&& forall|k: int, i: int|
        #![trigger piece.have[k], buf[i]]
        0 <= k < piece.have.len() && piece.have[k] && k * BLOCK_SIZE <= i < k * BLOCK_SIZE
            + block_size_at(piece.length as int, k) ==> buf[i] == data[i]
}

/// A started piece agrees with any content of its length.
pub proof fn a_fresh_piece_agrees(index: u32, buf: Seq<u8>, data: Seq<u8>)
    requires
        0 < data.len() <= u32::MAX,
        buf.len() >= data.len(),
    ensures
        agrees(PieceView::fresh(index, data.len() as u32), buf, data),
{
}

/// Taking a block of the piece's content, in whatever order blocks come and however often,
/// keeps the agreement.
pub proof fn taking_a_true_block_keeps_agreement(
    piece: PieceView,
    buf: Seq<u8>,
    data: Seq<u8>,
    begin: int,
    n: int,
)
    requires
        piece.wf(),
        agrees(piece, buf, data),
        0 <= begin,
        0 <= n,
        block_refusal(piece.length as int, buf.len() as int, begin, n) is None,
    ensures
        agrees(
            piece.with_range(begin, n),
            overwritten(buf, begin, data.subrange(begin, begin + n)),
            data,
        ),
{
    let p2 = piece.with_range(begin, n);
    let b2 = overwritten(buf, begin, data.subrange(begin, begin + n));
    assert forall|k: int, i: int|
        #![trigger p2.have[k], b2[i]]
        0 <= k < p2.have.len() && p2.have[k] && k * BLOCK_SIZE <= i < k * BLOCK_SIZE
            + block_size_at(p2.length as int, k) implies b2[i] == data[i] by {
        blocks_cover_the_piece(piece.length as int, k);
        if !(begin <= i < begin + n) {
            assert(piece.have[k]);
            assert(b2[i] == buf[i]);
        }
    }
}

/// A whole piece is its content: what is handed to hashing is what the peers sent.
pub proof fn a_complete_piece_is_the_data(piece: PieceView, buf: Seq<u8>, data: Seq<u8>)
    requires
        piece.wf(),
        agrees(piece, buf, data),
        piece.complete(),
    ensures
        buf.subrange(0, piece.length as int) == data,
{
    assert forall|i: int| 0 <= i < data.len() implies buf[i] == data[i] by {
        let k = i / (BLOCK_SIZE as int);
        blocks_cover_the_piece(piece.length as int, k);
        assert(piece.have[k]);
    }
    assert(buf.subrange(0, piece.length as int) =~= data);
}

/// Taking the blocks of a piece one after the other, each once, makes the piece whole.
pub proof fn the_last_block_completes_the_piece(piece: PieceView, k: int)
    requires
        piece.wf(),
        0 <= k < piece.have.len(),
        forall|j: int| 0 <= j < piece.have.len() && j != k ==> piece.have[j],
    ensures
        piece.with_range(
            k * BLOCK_SIZE,
            block_size_at(piece.length as int, k),
        ).complete(),
        block_refusal(
            piece.length as int,
            piece.length as int,
            k * BLOCK_SIZE,
            block_size_at(piece.length as int, k),
        ) is None,
{
    blocks_cover_the_piece(piece.length as int, k);
}

/// Forgetting a refused request and asking again asks for a block: the refusal loses
/// nothing.
pub proof fn a_refused_block_is_open_again(piece: PieceView, k: int)
    requires
        piece.wf(),
        piece.pending_block(k),
    ensures
        piece.without_request(k).open_block(k),
        forall|j: int| j != k ==> piece.without_request(k).open_block(j) == piece.open_block(j),
        piece.without_request(k).pending_count() == piece.pending_count() - 1,
{
    withdrawal_takes_one(piece, k, piece.have.len() as int);
}

/// The requests for a piece go through it block by block: 16 KiB each, the last one up to the
/// end of the piece.
pub proof fn requests_go_through_the_piece(length: u32, k: int)
    requires
        length > 0,
        0 <= k < blocks(length as int),
    ensures
        request_of(length as int, k).0 == 16_384 * k,
        request_of(length as int, k).0 + request_of(length as int, k).1 <= length,
        k + 1 < blocks(length as int) ==> request_of(length as int, k).1 == 16_384,
        k + 1 == blocks(length as int) ==> request_of(length as int, k).0 + request_of(
            length as int,
            k,
        ).1 == length,
        16_384 * (blocks(length as int) - 1) < length <= 16_384 * blocks(length as int),
{
    blocks_cover_the_piece(length as int, k);
    assert(0 <= k * BLOCK_SIZE <= length);
}

/// A piece that was just started misses every block, and none is asked for.
pub proof fn a_fresh_piece_misses_every_block(index: u32, length: u32, k: int)
    ensures
        PieceView::fresh(index, length).index == index,
        PieceView::fresh(index, length).length == length,
        0 <= k < blocks(length as int) ==> PieceView::fresh(index, length).open_block(k),
        blocks(length as int) > 0 ==> !PieceView::fresh(index, length).complete(),
{
    if blocks(length as int) > 0 {
        assert(!PieceView::fresh(index, length).have[0]);
    }
}

/// A block is open, awaited or had, and exactly one of them; asking for an open one makes it
/// awaited, and nothing else changes.
pub proof fn blocks_are_open_awaited_or_had(p: PieceView, k: int, j: int)
    requires
        p.wf(),
        0 <= k < p.have.len(),
        0 <= j < p.have.len(),
    ensures
        p.have[k] ==> !p.open_block(k) && !p.pending_block(k),
        !p.have[k] ==> p.open_block(k) != p.pending_block(k),
        p.open_block(k) ==> p.with_request(k).pending_block(k),
        j != k ==> p.with_request(k).pending_block(j) == p.pending_block(j),
        j != k ==> p.with_request(k).open_block(j) == p.open_block(j),
        p.with_request(k).have == p.have,
        // Asking anew opens what is awaited and keeps what is had.
        !p.requeued().pending_block(k),
        p.requeued().open_block(k) == !p.have[k],
        p.requeued().have == p.have,
        !p.have[k] ==> !p.complete(),
{
}

/// The first open block is asked for: it is open, and none before it is.
pub proof fn the_first_open_block_is_asked_for(p: PieceView, from: int, j: int)
    requires
        0 <= from <= j < p.have.len(),
    ensures
        match p.first_open(from) {
            Some(k) => from <= k < p.have.len() && p.open_block(k) && (j < k ==> !p.open_block(j)),
            None => !p.open_block(j),
        },
    decreases p.have.len() - from,
{
    reveal_with_fuel(PieceView::first_open, 2);
    if !p.open_block(from) && from + 1 < p.have.len() {
        the_first_open_block_is_asked_for(
            p,
            from + 1,
            if j > from {
                j
            } else {
                from + 1
            },
        );
    }
}

/// The awaited blocks of a piece are listed each once, in their order.
pub proof fn awaited_blocks_are_listed(p: PieceView, n: int)
    requires
        0 <= n < p.have.len(),
    ensures
        p.pending(0).len() == 0,
        p.pending_block(n) ==> p.pending(n + 1) == p.pending(n).push(
            request_of(p.length as int, n),
        ),
        !p.pending_block(n) ==> p.pending(n + 1) == p.pending(n),
{
}

/// A block is had once bytes that take in all of it have come, and not before.
pub proof fn a_block_is_had_once_all_of_it_came(p: PieceView, begin: int, n: int, k: int)
    requires
        p.wf(),
        0 <= k < p.have.len(),
        0 <= begin,
        0 <= n,
    ensures
        p.with_range(begin, n).have[k] <==> p.have[k] || (begin <= 16_384 * k && (16_384 * (k + 1)
            <= begin + n || (p.length <= 16_384 * (k + 1) && p.length <= begin + n))),
        p.with_range(begin, n).requested == p.requested,
        p.with_range(begin, n).index == p.index,
        p.with_range(begin, n).length == p.length,
{
    blocks_cover_the_piece(p.length as int, k);
    if k + 1 == blocks(p.length as int) {
        assert(p.length <= 16_384 * (k + 1));
    } else {
        assert(16_384 * (k + 1) < p.length);
    }
}

/// Bytes are put where they belong, and no other byte changes.
pub proof fn bytes_are_put_in_their_place(buf: Seq<u8>, begin: int, data: Seq<u8>, i: int)
    requires
        0 <= begin,
        begin + data.len() <= buf.len(),
        0 <= i < buf.len(),
    ensures
        overwritten(buf, begin, data).len() == buf.len(),
        overwritten(buf, begin, data).subrange(begin, begin + data.len()) == data,
        i < begin || i >= begin + data.len() ==> overwritten(buf, begin, data)[i] == buf[i],
{
    assert(overwritten(buf, begin, data).subrange(begin, begin + data.len()) =~= data);
}

/// Bytes are refused exactly where they go beyond the piece or its buffer, or begin inside a
/// block and end in another one before the end of the piece.
pub proof fn bytes_beyond_the_piece_are_refused(length: int, buf_len: int, begin: int, n: int)
    requires
        0 < length,
        0 <= begin,
        0 < n,
    ensures
        block_refusal(length, buf_len, begin, n) is None <==> begin + n <= length && begin + n
            <= buf_len && (begin % 16_384 == 0 || begin + n == length || begin / 16_384 == (begin
            + n - 1) / 16_384),
{
    if begin + n <= length {
        assert(begin / 16_384 < blocks(length));
    }
}

/// The slots of one state are those that are in it, in their order.
pub proof fn slots_are_told_by_their_state(slots: Seq<SlotView>, s: SlotView)
    ensures
        assembling(Seq::<SlotView>::empty()).len() == 0,
        hashing(Seq::<SlotView>::empty()).len() == 0,
        s is Assembling ==> assembling(slots.push(s)) == assembling(slots).push(s) && hashing(
            slots.push(s),
        ) == hashing(slots),
        s is Hashing ==> hashing(slots.push(s)) == hashing(slots).push(s) && assembling(
            slots.push(s),
        ) == assembling(slots),
        pending_total(slots.push(s)) == pending_total(slots) + s.pending_count(),
        pending_all(slots.push(s)) == pending_all(slots) + s.pending(),
        s is Hashing ==> s.pending_count() == 0 && s.pending().len() == 0,
        s matches SlotView::Assembling { piece, buf } ==> held_buffers(slots.push(s))
            == held_buffers(slots).push(buf),
        s is Hashing ==> held_buffers(slots.push(s)) == held_buffers(slots),
{
    assert(slots.push(s).drop_last() =~= slots);
}

/// As many requests are unanswered as are listed, and each listed one names its piece.
pub proof fn unanswered_requests_are_listed(slots: Seq<SlotView>)
    ensures
        pending_all(slots).len() == pending_total(slots),
    decreases slots.len(),
{
    if slots.len() > 0 {
        unanswered_requests_are_listed(slots.drop_last());
    }
}

/// A piece that is handed over is being hashed, every other one stays as it is.
pub proof fn a_piece_that_is_handed_over_is_hashed(slots: Seq<SlotView>, t: int, j: int)
    requires
        0 <= t < slots.len(),
        0 <= j < slots.len(),
        j != t,
    ensures
        handed_over(slots, t).len() == slots.len(),
        handed_over(slots, t).last() == (SlotView::Hashing { index: slots[t].index() }),
        handed_over(slots, t).contains(slots[j]),
{
    let after = handed_over(slots, t);
    if j == slots.len() - 1 {
        assert(after[t] == slots[j]);
    } else {
        assert(after[j] == slots[j]);
    }
}

/// A piece that was hashed leaves its slot, a piece under assembly keeps it, and so does every
/// other one.
pub proof fn a_hashed_piece_leaves_its_slot(
    slots: Seq<SlotView>,
    piece_length: u32,
    t: int,
    index: u32,
)
    requires
        slots_wf(slots, piece_length),
        0 <= t < slots.len(),
    ensures
        slots[t].index() == index && slots[t] is Hashing ==> !staged(forgotten(slots, index), index)
            && forgotten(slots, index).len() == slots.len() - 1,
        slots[t].index() == index && slots[t] is Assembling ==> forgotten(slots, index) == slots,
        slots[t].index() != index ==> forgotten(slots, index).contains(slots[t]),
        !staged(slots, index) ==> forgotten(slots, index) == slots,
{
    let after = forgotten(slots, index);
    if staged(slots, index) {
        let at = position(slots, index);
        assert(0 <= at < slots.len() && slots[at].index() == index);
        if slots[t].index() == index {
            position_is(slots, t, piece_length);
        }
        if slots[at] is Hashing {
            assert forall|u: int| 0 <= u < after.len() implies (#[trigger] after[u]).index()
                != index by {
                if u < at {
                    assert(after[u] == slots[u]);
                } else {
                    assert(after[u] == slots[u + 1]);
                }
            }
            if t < at {
                assert(after[t] == slots[t]);
            } else if t > at {
                assert(after[t - 1] == slots[t]);
            }
        } else {
            assert(after == slots);
        }
    }
}

/// Once more than half of the pipeline is outstanding nothing is asked for, outside the
/// endgame; else as much as fills it.
pub proof fn the_pipeline_is_filled_once_half_empty(
    slots: Seq<SlotView>,
    pipeline: usize,
    endgame: bool,
)
    requires
        pipeline >= 2,
    ensures
        depth(pipeline) == pipeline,
        depth(0) == 1,
        !endgame && 2 * pending_total(slots) > pipeline + 1 ==> refill(slots, pipeline, endgame)
            == 0,
        2 * pending_total(slots) <= pipeline && !endgame ==> refill(slots, pipeline, endgame)
            + pending_total(slots) == pipeline,
        endgame && pending_total(slots) <= pipeline ==> refill(slots, pipeline, endgame)
            + pending_total(slots) == pipeline,
        pending_total(slots) > pipeline ==> refill(slots, pipeline, endgame) == 0,
{
}

/// A peer assembles as many pieces as fill its pipeline, but no more than a sixteenth of the
/// buffers, and no more than two large ones.
pub proof fn pieces_are_assembled_as_the_pipeline_needs(
    pipeline: int,
    piece_length: int,
    capacity: int,
)
    requires
        0 < pipeline,
        0 < piece_length,
        0 < capacity,
    ensures
        ({
            let n = assembling_cap(pipeline, piece_length, capacity);
            &&& n >= 1
            &&& (n - 1) * blocks(piece_length) < pipeline
            &&& 16 * (n - 1) < capacity
            &&& blocks(piece_length) >= 256 ==> n <= 2
            &&& blocks(piece_length) < 256 ==> n * blocks(piece_length) >= pipeline || 16 * n
                >= capacity
        }),
        assembling_cap(pipeline, piece_length, 0) == 0,
{
    let per = blocks(piece_length);
    assert(per >= 1);
    let a = pipeline / per;
    assert(a * per <= pipeline < (a + 1) * per && (pipeline % per == 0 <==> a * per == pipeline))
        by (nonlinear_arith)
        requires
            a == pipeline / per,
            per >= 1,
    ;
    let p = ceil_div(pipeline, per);
    let n = assembling_cap(pipeline, piece_length, capacity);
    assert(p >= 1 && (p - 1) * per < pipeline <= p * per) by (nonlinear_arith)
        requires
            p == a && a * per == pipeline || p == a + 1 && pipeline % per != 0,
            a * per <= pipeline < (a + 1) * per,
            pipeline % per != 0 ==> a * per != pipeline,
            pipeline > 0,
            per >= 1,
    {
    }
    assert(n <= p ==> (n - 1) * per <= (p - 1) * per) by (nonlinear_arith)
        requires
            per >= 1,
    ;
}

/// Bytes that are refused are refused with the reason that holds: that they go beyond the end
/// of the piece, begin beyond it, or go over a block's edge without beginning at one.
pub proof fn refusals_tell_the_reason(length: int, buf_len: int, begin: int, n: int)
    requires
        0 < length,
        0 <= begin,
        0 < n,
    ensures
        range_refusal(length, buf_len, begin, n) is None <==> begin + n <= length && begin + n
            <= buf_len && (begin % 16_384 == 0 || begin + n == length || begin / 16_384 == (begin
            + n - 1) / 16_384),
        begin % 16_384 == 0 && begin >= length && begin / 16_384 >= blocks(length)
            ==> range_refusal(length, buf_len, begin, n) == Some("block begin past piece"@),
        begin % 16_384 == 0 && begin < length && begin + n > length ==> range_refusal(
            length,
            buf_len,
            begin,
            n,
        ) == Some("block past piece end"@),
        range_refusal(length, buf_len, begin, 0) is None,
{
    if begin < length {
        assert(begin / 16_384 < blocks(length));
    }
}

/// A range takes in a block where it begins no later and ends no sooner.
pub proof fn ranges_take_in_whole_blocks(length: int, begin: int, n: int, k: int)
    requires
        0 < length,
        0 <= k < blocks(length),
    ensures
        k + 1 < blocks(length) ==> (range_covers(length, begin, n, k) <==> begin <= 16_384 * k
            && 16_384 * (k + 1) <= begin + n),
        k + 1 == blocks(length) ==> (range_covers(length, begin, n, k) <==> begin <= 16_384 * k
            && length <= begin + n),
{
    blocks_cover_the_piece(length, k);
}

/// A request names the piece, the block's place and its length; it is awaited exactly where
/// its block was asked for and is missing.
pub proof fn slots_await_what_they_asked_for(piece: PieceView, buf: Seq<u8>, k: int)
    requires
        piece.wf(),
        0 <= k < piece.have.len(),
        piece.length > 0,
    ensures
        ({
            let s = SlotView::Assembling { piece, buf };
            &&& s.request(k).0 == piece.index
            &&& s.request(k).1 == 16_384 * k
            &&& s.request(k).1 + s.request(k).2 <= piece.length
            &&& piece.requested[k] && !piece.have[k] ==> s.awaits(s.request(k))
        }),
{
    requests_go_through_the_piece(piece.length, k);
    let s = SlotView::Assembling { piece, buf };
    if piece.requested[k] && !piece.have[k] {
        assert(piece.pending_block(k) && s.request(k) == s.request(k));
    }
}

/// A piece that is being hashed awaits nothing.
pub proof fn hashed_pieces_await_nothing(index: u32, r: (u32, u32, u32))
    ensures
        !(SlotView::Hashing { index }).awaits(r),
{
}

/// The next request is for the first slot that may be asked for and has an open block, and
/// there for its first one.
pub proof fn the_next_request_is_the_first_open_block(
    slots: Seq<SlotView>,
    may: spec_fn(u32) -> bool,
    t: int,
    j: int,
)
    requires
        0 <= t <= j < slots.len(),
    ensures
        match next_open(slots, may, t) {
            Some((u, k)) => t <= u < slots.len() && slots[u].first_open(may) == Some(k) && (j < u
                ==> slots[j].first_open(may) is None),
            None => slots[j].first_open(may) is None,
        },
    decreases slots.len() - t,
{
    if slots[t].first_open(may) is None {
        if t + 1 < slots.len() {
            the_next_request_is_the_first_open_block(
                slots,
                may,
                t + 1,
                if j > t {
                    j
                } else {
                    t + 1
                },
            );
        } else {
            reveal_with_fuel(next_open, 2);
        }
    }
}

/// A slot has an open block to ask for where its piece may be asked for and has one; a piece
/// that is being hashed has none.
pub proof fn slots_are_asked_where_that_is_allowed(
    piece: PieceView,
    buf: Seq<u8>,
    may: spec_fn(u32) -> bool,
    index: u32,
)
    ensures
        may(piece.index) ==> (SlotView::Assembling { piece, buf }).first_open(may)
            == piece.first_open(0),
        !may(piece.index) ==> (SlotView::Assembling { piece, buf }).first_open(may) is None,
        (SlotView::Hashing { index }).first_open(may) is None,
{
}

/// No more requests are made than there is room for. Fewer are made only where no open block
/// is left that may be asked for, and none changes what is had.
pub proof fn requests_fill_the_room(slots: Seq<SlotView>, may: spec_fn(u32) -> bool, room: nat)
    ensures
        filled(slots, may, room).1.len() <= room,
        filled(slots, may, room).1.len() < room ==> next_open(filled(slots, may, room).0, may, 0)
            is None,
        filled(slots, may, room).0.len() == slots.len(),
        room == 0 ==> filled(slots, may, room).0 == slots,
    decreases room,
{
    if room > 0 {
        if let Some((t, k)) = next_open(slots, may, 0) {
            the_next_request_is_the_first_open_block(slots, may, 0, 0);
            requests_fill_the_room(
                slots.update(t, slots[t].with_request(k)),
                may,
                (room - 1) as nat,
            );
        }
    }
}

/// Each request that is made is for the first block that was open, and is then awaited.
pub proof fn requests_are_made_in_order(
    slots: Seq<SlotView>,
    may: spec_fn(u32) -> bool,
    room: nat,
    t: int,
    k: int,
)
    requires
        room > 0,
        next_open(slots, may, 0) == Some((t, k)),
    ensures
        filled(slots, may, room).1[0] == slots[t].request(k),
        filled(slots, may, room).0 == filled(
            slots.update(t, slots[t].with_request(k)),
            may,
            (room - 1) as nat,
        ).0,
        filled(slots, may, room).1.drop_first() == filled(
            slots.update(t, slots[t].with_request(k)),
            may,
            (room - 1) as nat,
        ).1,
{
    let rest = filled(slots.update(t, slots[t].with_request(k)), may, (room - 1) as nat).1;
    assert((seq![slots[t].request(k)] + rest).drop_first() =~= rest);
}

/// A block that is taken is in its piece, in its place; the piece is whole with it where no
/// block is missing, and the other slots stay as they are.
pub proof fn taken_blocks_are_in_their_place(
    a: Seq<SlotView>,
    b: Seq<SlotView>,
    t: int,
    index: u32,
    begin: int,
    data: Seq<u8>,
    complete: bool,
    j: int,
)
    requires
        took_block(a, b, t, index, begin, data, complete),
        0 <= begin,
        begin + data.len() <= a[t]->buf.len(),
        0 <= j < a.len(),
    ensures
        b.len() == a.len(),
        j != t ==> b[j] == a[j],
        b[t].index() == index,
        b[t]->buf.subrange(begin, begin + data.len()) == data,
        b[t]->buf.len() == a[t]->buf.len(),
        complete <==> b[t]->piece.complete(),
{
    let buf = a[t]->buf;
    assert(overwritten(buf, begin, data).subrange(begin, begin + data.len()) =~= data);
}

/// Bytes that were read into their place are counted like bytes that were put there, and
/// nothing else changes.
pub proof fn bytes_in_place_are_counted(
    a: Seq<SlotView>,
    b: Seq<SlotView>,
    c: Seq<SlotView>,
    t: int,
    index: u32,
    begin: int,
    data: Seq<u8>,
    complete: bool,
    j: int,
)
    requires
        took_range(a, b, t, index, begin, data.len() as int, complete),
        took_block(a, c, t, index, begin, data, complete),
        0 <= j < a.len(),
    ensures
        b[t]->piece == c[t]->piece,
        b[t]->buf == a[t]->buf,
        j != t ==> b[j] == a[j],
        b.len() == a.len(),
        complete <==> b[t]->piece.complete(),
{
}

/// A block is refused only by the slot that assembles its piece, and for what is wrong with it.
pub proof fn blocks_are_refused_by_their_slot(
    a: Seq<SlotView>,
    t: int,
    index: u32,
    begin: int,
    n: int,
    why: Seq<char>,
)
    requires
        refused_block(a, t, index, begin, n, why),
    ensures
        0 <= t < a.len() && a[t].index() == index && a[t] is Assembling,
        block_refusal(a[t]->piece.length as int, a[t]->buf.len() as int, begin, n) == Some(why),
{
}

/// A pool keeps the first of the buffers that come back, as many as it has room for.
pub proof fn the_first_buffers_are_kept(a: Seq<Seq<u8>>, b: Seq<Seq<u8>>)
    ensures
        first_of(a + b, a.len()) == a,
        first_of(a, a.len() + b.len()) == a,
{
    assert((a + b).subrange(0, a.len() as int) =~= a);
    if b.len() == 0 {
        assert(a + b =~= a);
    }
}

/// Endgame is switched on for pieces under assembly, and nothing else about them changes.
pub proof fn endgame_changes_nothing_else(piece: PieceView, buf: Seq<u8>, index: u32)
    ensures
        in_endgame(SlotView::Assembling { piece, buf }) matches SlotView::Assembling {
            piece: p,
            buf: b,
        } && p.endgame && p.have == piece.have && p.requested == piece.requested && p.index
            == piece.index && p.length == piece.length && b == buf,
        in_endgame(SlotView::Hashing { index }) == (SlotView::Hashing { index }),
{
}

/// A quotient is rounded up.
pub proof fn quotients_are_rounded_up(a: int, b: int)
    requires
        0 < b,
    ensures
        (ceil_div(a, b) - 1) * b < a <= ceil_div(a, b) * b,
{
    let q = a / b;
    let r = a % b;
    assert(a == q * b + r && 0 <= r < b) by (nonlinear_arith)
        requires
            q == a / b,
            r == a % b,
            b > 0,
    ;
    assert((q - 1) * b == q * b - b && (q + 1) * b == q * b + b) by (nonlinear_arith);
}

/// The staged pieces are those of the slots.
pub proof fn staged_pieces_are_those_of_the_slots(slots: Seq<SlotView>, t: int, now: StagedView)
    requires
        0 <= t < slots.len(),
    ensures
        staged_pieces(slots).pieces.contains(slots[t].index()),
        now.covers(slots) ==> now.pieces.contains(slots[t].index()),
        staged_pieces(slots).covers(slots),
        staged_pieces(Seq::<SlotView>::empty()).pieces == Set::<u32>::empty(),
{
    assert(staged(slots, slots[t].index()));
    assert(staged_pieces(Seq::<SlotView>::empty()).pieces =~= Set::<u32>::empty());
}

/// Outside the endgame, blocks are held back while more than half of the pipeline, and more
/// than one block, is outstanding.
pub proof fn blocks_are_held_back_above_half(slots: Seq<SlotView>, pipeline: usize)
    ensures
        !holds_back(slots, pipeline, true),
        pending_total(slots) <= 1 ==> !holds_back(slots, pipeline, false),
        pipeline >= 2 && pending_total(slots) >= 1 ==> (holds_back(slots, pipeline, false)
            <==> pending_total(slots) > pipeline / 2),
{
}

/// A piece as it was when it was started has no block, and keeps its index, length and buffer;
/// the slots that were there stay in front.
pub proof fn pieces_start_without_blocks(
    a: Seq<SlotView>,
    b: Seq<SlotView>,
    t: int,
    k: int,
)
    requires
        0 <= t < b.len(),
    ensures
        with_started(a, b).len() == b.len(),
        t < a.len() ==> with_started(a, b)[t] == a[t],
        t >= a.len() ==> (b[t] matches SlotView::Assembling { piece, buf } ==> (with_started(
            a,
            b,
        )[t] matches SlotView::Assembling { piece: p, buf: c } && p.index == piece.index && p.length
            == piece.length && c == buf && !p.endgame && (0 <= k < p.have.len() ==> !p.have[k]
            && !p.requested[k]))),
        t >= a.len() ==> (b[t] is Hashing ==> with_started(a, b)[t] == b[t]),
{
}

/// Buffers are handed out from the end of the free list, and new ones are blank.
pub proof fn buffers_are_handed_out_from_the_end(bufs: &PieceBufferPool, k: int)
    requires
        0 <= k,
    ensures
        bufs.freelist().len() > 0 ==> nth_buffer(bufs, 0) == bufs.freelist().last(),
        k + 1 < bufs.freelist().len() ==> nth_buffer(bufs, k + 1) == bufs.freelist()[
            bufs.freelist().len() - 2 - k],
        k >= bufs.freelist().len() ==> nth_buffer(bufs, k).len() == bufs.spec_piece_length(),
        k >= bufs.freelist().len() ==> (forall|i: int|
            0 <= i < nth_buffer(bufs, k).len() ==> #[trigger] nth_buffer(bufs, k)[i] == 0),
{
}

/// Each piece that is started takes one buffer, and the free ones are fewer by as many.
pub proof fn each_started_piece_takes_a_buffer(
    a: Seq<SlotView>,
    b: Seq<SlotView>,
    before: &PieceBufferPool,
    after: &PieceBufferPool,
    t: int,
)
    requires
        drawn(a, b, before, after),
        a.len() <= t < b.len(),
    ensures
        after.outstanding() + a.len() == before.outstanding() + b.len(),
        b[t] matches SlotView::Assembling { buf, .. } && buf == nth_buffer(before, t - a.len()),
        b.len() - a.len() <= before.freelist().len() ==> after.freelist().len() + b.len()
            == before.freelist().len() + a.len(),
        b.len() - a.len() <= before.freelist().len() ==> after.freelist()
            == before.freelist().subrange(0, after.freelist().len() as int),
{
}

/// Where only requests are added, no block comes or goes, no request is forgotten, no piece
/// changes, and pieces that are new have no block.
pub proof fn adding_requests_changes_nothing_else(a: Seq<SlotView>, b: Seq<SlotView>, t: int, k: int)
    requires
        only_requests_added(a, b),
        0 <= t < b.len(),
    ensures
        a.len() <= b.len(),
        t < a.len() ==> (a[t] is Hashing ==> b[t] == a[t]),
        t < a.len() && a[t] is Assembling && b[t] is Assembling ==> b[t]->piece.have
            == a[t]->piece.have && b[t]->piece.index == a[t]->piece.index && b[t]->piece.length
            == a[t]->piece.length && b[t]->piece.endgame == a[t]->piece.endgame && b[t]->buf
            == a[t]->buf && (0 <= k < a[t]->piece.requested.len() && a[t]->piece.requested[k]
            ==> b[t]->piece.requested[k]),
        t < a.len() && a[t] is Assembling ==> b[t] is Assembling,
        t >= a.len() ==> b[t] is Assembling && (0 <= k < b[t]->piece.have.len()
            ==> !b[t]->piece.have[k]),
{
    if t < a.len() {
        assert(request_superset(a[t], b[t]));
    } else {
        assert(untouched_but_requested(b[t]));
    }
}

/// Of the slots those that are being hashed are left, each of them, and no other.
pub proof fn only_hashed_pieces_are_left(slots: Seq<SlotView>, s: SlotView)
    ensures
        hashing(slots).contains(s) <==> slots.contains(s) && s is Hashing,
    decreases slots.len(),
{
    if slots.len() > 0 {
        let d = slots.drop_last();
        let last = slots.last();
        only_hashed_pieces_are_left(d, s);
        assert(slots =~= d.push(last));
        slots_are_told_by_their_state(d, last);
        if slots.contains(s) {
            let k = choose|k: int| 0 <= k < slots.len() && slots[k] == s;
            if k < d.len() {
                assert(d[k] == s);
            }
        }
        if d.contains(s) {
            let k = choose|k: int| 0 <= k < d.len() && d[k] == s;
            assert(slots[k] == s);
        }
        if s == last {
            assert(slots[slots.len() - 1] == s);
        }
        let before = hashing(d);
        let after = hashing(slots);
        if before.contains(s) {
            let k = choose|k: int| 0 <= k < before.len() && before[k] == s;
            assert(after[k] == s);
        }
        if after.contains(s) {
            let k = choose|k: int| 0 <= k < after.len() && after[k] == s;
            if k < before.len() {
                assert(before[k] == s);
            }
        }
        if last is Hashing {
            assert(after[after.len() - 1] == last);
        }
    }
}

} // verus!
