//! Freelist of piece-sized buffers under a byte budget, one per torrent.
//!
//! Buffers are allocated on first use and recycled afterwards. Peers of a torrent
//! share one pool; the caller serialises access to it.
use vstd::prelude::*;

verus! {

/// Default staging memory per torrent: 256 MiB.
pub const DEFAULT_STAGING_MEM_LIMIT: u64 = 268_435_456;

/// Least number of buffers in a pool, so that one piece can assemble while another
/// is hashed.
pub const MIN_PIECE_BUFFERS: usize = 2;

/// Most buffers in a pool, whatever the piece length.
pub const MAX_PIECE_BUFFERS: usize = 4096;

/// Least number of seconds between two warnings that the budget is used up.
pub const BUDGET_FULL_WARN_SECS: u64 = 5;

/// The budget in bytes: a limit of zero stands for the default.
pub open spec fn effective_limit(limit_bytes: u64) -> int {
    if limit_bytes == 0 {
        DEFAULT_STAGING_MEM_LIMIT as int
    } else {
        limit_bytes as int
    }
}

/// How many buffers the budget gives: what fits, but at least
/// [`MIN_PIECE_BUFFERS`] and at most [`MAX_PIECE_BUFFERS`].
pub open spec fn buffer_count(piece_length: u32, limit_bytes: u64) -> int {
    let plen = if piece_length == 0 {
        1
    } else {
        piece_length as int
    };
    let fits = effective_limit(limit_bytes) / plen;
    if fits < MIN_PIECE_BUFFERS {
        MIN_PIECE_BUFFERS as int
    } else if fits > MAX_PIECE_BUFFERS {
        MAX_PIECE_BUFFERS as int
    } else {
        fits
    }
}

/// How many piece buffers fit in `limit_bytes`.
pub fn buffer_count_for_limit(piece_length: u32, limit_bytes: u64) -> (n: usize)
    ensures
        n == buffer_count(piece_length, limit_bytes),
{
    let plen: u64 = if piece_length == 0 {
        1
    } else {
        piece_length as u64
    };
    let limit: u64 = if limit_bytes == 0 {
        DEFAULT_STAGING_MEM_LIMIT
    } else {
        limit_bytes
    };
    let fits: u64 = limit / plen;
    if fits < MIN_PIECE_BUFFERS as u64 {
        MIN_PIECE_BUFFERS
    } else if fits > MAX_PIECE_BUFFERS as u64 {
        MAX_PIECE_BUFFERS
    } else {
        fits as usize
    }
}

/// The budget holds: a pool's buffers together take no more bytes than the limit, or
/// than the least number of buffers where the limit is below that.
pub proof fn buffers_stay_within_limit(piece_length: u32, limit_bytes: u64)
    requires
        piece_length > 0,
    ensures
        buffer_count(piece_length, limit_bytes) * piece_length <= effective_limit(limit_bytes)
            || buffer_count(piece_length, limit_bytes) == MIN_PIECE_BUFFERS,
{
    let limit = effective_limit(limit_bytes);
    let plen = piece_length as int;
    let n = buffer_count(piece_length, limit_bytes);
    vstd::arithmetic::div_mod::lemma_fundamental_div_mod(limit, plen);
    if n != MIN_PIECE_BUFFERS {
        assert(n * plen <= limit) by (nonlinear_arith)
            requires
                n <= limit / plen,
                plen > 0,
                limit == plen * (limit / plen) + limit % plen,
                limit % plen >= 0,
        ;
    }
}

/// Buffers for the pieces of one torrent.
#[derive(Debug)]
pub struct PieceBufferPool {
    torrent_id: i64,
    torrent_name: String,
    piece_length: u32,
    limit_bytes: u64,
    capacity: usize,
    /// Recycled buffers.
    free: Vec<Vec<u8>>,
    /// Buffers that are checked out.
    outstanding: usize,
    /// When the last warning about a full budget was due, in seconds.
    last_full_warn_secs: u64,
}

impl PieceBufferPool {
    /// Length of every buffer.
    pub closed spec fn spec_piece_length(&self) -> u32 {
        self.piece_length
    }

    /// Byte budget.
    pub closed spec fn spec_limit_bytes(&self) -> u64 {
        self.limit_bytes
    }

    /// Most buffers there may be.
    pub closed spec fn spec_capacity(&self) -> nat {
        self.capacity as nat
    }

    /// Number of buffers that are checked out.
    pub closed spec fn outstanding(&self) -> nat {
        self.outstanding as nat
    }

    /// The recycled buffers, the next to be handed out last.
    pub closed spec fn freelist(&self) -> Seq<Seq<u8>> {
        self.free@.map_values(|b: Vec<u8>| b@)
    }

    /// When the last warning about a full budget was due.
    pub closed spec fn last_warning(&self) -> u64 {
        self.last_full_warn_secs
    }

    /// Identity of the torrent, for messages.
    pub closed spec fn torrent(&self) -> (i64, Seq<char>) {
        (self.torrent_id, self.torrent_name@)
    }

    /// Parked and checked-out buffers together stay within the capacity, and every
    /// parked buffer has the piece length.
    pub open spec fn wf(&self) -> bool {
        &&& self.spec_piece_length() >= 1
        &&& MIN_PIECE_BUFFERS <= self.spec_capacity() <= MAX_PIECE_BUFFERS
        &&& self.freelist().len() + self.outstanding() <= self.spec_capacity()
        &&& forall|i: int|
            0 <= i < self.freelist().len() ==> (#[trigger] self.freelist()[i]).len()
                == self.spec_piece_length()
    }

    /// Number of buffers that can still be checked out.
    pub open spec fn room(&self) -> int {
        self.spec_capacity() - self.outstanding()
    }

    /// The parts of a pool that no operation changes.
    pub open spec fn same_pool(&self, other: &Self) -> bool {
        &&& self.torrent() == other.torrent()
        &&& self.spec_piece_length() == other.spec_piece_length()
        &&& self.spec_limit_bytes() == other.spec_limit_bytes()
        &&& self.spec_capacity() == other.spec_capacity()
        &&& self.last_warning() == other.last_warning()
    }

    /// A pool for pieces of `piece_length` bytes. Nothing is allocated yet.
    pub fn new(piece_length: u32, limit_bytes: u64) -> (pool: Self)
        ensures
            pool.wf(),
            pool.torrent() == (0i64, Seq::<char>::empty()),
            pool.spec_piece_length() == if piece_length == 0 { 1 } else { piece_length },
            pool.spec_limit_bytes() == effective_limit(limit_bytes),
            pool.spec_capacity() == buffer_count(piece_length, limit_bytes),
            pool.outstanding() == 0,
            pool.freelist() == Seq::<Seq<u8>>::empty(),
            pool.last_warning() == 0,
    {
        Self::with_torrent(0, String::new(), piece_length, limit_bytes)
    }

    /// Like [`Self::new`], with the torrent's identity for messages.
    pub fn with_torrent(
        torrent_id: i64,
        torrent_name: String,
        piece_length: u32,
        limit_bytes: u64,
    ) -> (pool: Self)
        ensures
            pool.wf(),
            pool.torrent() == (torrent_id, torrent_name@),
            pool.spec_piece_length() == if piece_length == 0 { 1 } else { piece_length },
            pool.spec_limit_bytes() == effective_limit(limit_bytes),
            pool.spec_capacity() == buffer_count(piece_length, limit_bytes),
            pool.outstanding() == 0,
            pool.freelist() == Seq::<Seq<u8>>::empty(),
            pool.last_warning() == 0,
    {
        let plen: u32 = if piece_length == 0 {
            1
        } else {
            piece_length
        };
        let limit: u64 = if limit_bytes == 0 {
            DEFAULT_STAGING_MEM_LIMIT
        } else {
            limit_bytes
        };
        let capacity: usize = buffer_count_for_limit(plen, limit);
        let pool = Self {
            torrent_id,
            torrent_name,
            piece_length: plen,
            limit_bytes: limit,
            capacity,
            free: Vec::new(),
            outstanding: 0,
            last_full_warn_secs: 0,
        };
        assert(pool.freelist() =~= Seq::<Seq<u8>>::empty());
        pool
    }

    /// Length of every buffer.
    pub fn piece_length(&self) -> (n: u32)
        ensures
            n == self.spec_piece_length(),
    {
        self.piece_length
    }

    /// Byte budget.
    pub fn limit_bytes(&self) -> (n: u64)
        ensures
            n == self.spec_limit_bytes(),
    {
        self.limit_bytes
    }

    /// Most buffers there may be.
    pub fn capacity(&self) -> (n: usize)
        ensures
            n == self.spec_capacity(),
    {
        self.capacity
    }

    /// How many more [`Self::try_acquire`] calls can succeed right now.
    pub fn available(&self) -> (n: usize)
        requires
            self.wf(),
        ensures
            n == self.room(),
    {
        self.capacity - self.outstanding
    }

    /// Buffers that are allocated but not in use.
    pub fn freelist_len(&self) -> (n: usize)
        ensures
            n == self.freelist().len(),
    {
        self.free.len()
    }

    /// Check out a buffer: a recycled one where there is one, a new one while the
    /// budget allows.
    pub fn try_acquire(&mut self) -> (r: Option<Vec<u8>>)
        requires
            old(self).wf(),
        ensures
            final(self).wf(),
            final(self).same_pool(old(self)),
            r is Some <==> old(self).room() > 0,
            match r {
                Some(buf) => {
                    &&& final(self).outstanding() == old(self).outstanding() + 1
                    &&& buf@.len() == old(self).spec_piece_length()
                    &&& if old(self).freelist().len() > 0 {
                        &&& buf@ == old(self).freelist().last()
                        &&& final(self).freelist() == old(self).freelist().drop_last()
                    } else {
                        &&& buf@ == Seq::new(old(self).spec_piece_length() as nat, |i: int| 0u8)
                        &&& final(self).freelist() == old(self).freelist()
                    }
                },
                None => {
                    &&& final(self).outstanding() == old(self).outstanding()
                    &&& final(self).freelist() == old(self).freelist()
                },
            },
    {
        let need: usize = self.piece_length as usize;
        match self.free.pop() {
            Some(buf) => {
                self.outstanding = self.outstanding + 1;
                assert(old(self).freelist().last() == buf@);
                assert(self.freelist() =~= old(self).freelist().drop_last());
                Some(buf)
            },
            None => {
                assert(self.freelist() =~= old(self).freelist());
                if self.outstanding >= self.capacity {
                    return None;
                }
                self.outstanding = self.outstanding + 1;
                let buf: Vec<u8> = vec![0u8; need];
                assert(buf@ =~= Seq::new(need as nat, |i: int| 0u8));
                assert(self.freelist() =~= old(self).freelist());
                Some(buf)
            },
        }
    }

    /// Whether to warn now that the budget is used up: at most once per
    /// [`BUDGET_FULL_WARN_SECS`].
    pub fn warn_budget_full(&mut self, now_secs: u64) -> (due: bool)
        requires
            old(self).wf(),
        ensures
            final(self).wf(),
            due == (now_secs - old(self).last_warning() >= BUDGET_FULL_WARN_SECS),
            final(self).last_warning() == if due { now_secs } else { old(self).last_warning() },
            final(self).freelist() == old(self).freelist(),
            final(self).outstanding() == old(self).outstanding(),
            final(self).torrent() == old(self).torrent(),
            final(self).spec_piece_length() == old(self).spec_piece_length(),
            final(self).spec_limit_bytes() == old(self).spec_limit_bytes(),
            final(self).spec_capacity() == old(self).spec_capacity(),
    {
        if now_secs < self.last_full_warn_secs || now_secs - self.last_full_warn_secs
            < BUDGET_FULL_WARN_SECS {
            return false;
        }
        self.last_full_warn_secs = now_secs;
        true
    }

    /// A checked-out buffer is gone and will not come back.
    pub fn discard(&mut self)
        requires
            old(self).wf(),
        ensures
            final(self).wf(),
            final(self).same_pool(old(self)),
            final(self).freelist() == old(self).freelist(),
            final(self).outstanding() == if old(self).outstanding() > 0 {
                (old(self).outstanding() - 1) as nat
            } else {
                0
            },
    {
        if self.outstanding > 0 {
            self.outstanding = self.outstanding - 1;
        }
    }

    /// A checked-out buffer leaves the budget while hashing and disk own it. It may
    /// come back with [`Self::donate`].
    pub fn detach(&mut self)
        requires
            old(self).wf(),
        ensures
            final(self).wf(),
            final(self).same_pool(old(self)),
            final(self).freelist() == old(self).freelist(),
            final(self).outstanding() == if old(self).outstanding() > 0 {
                (old(self).outstanding() - 1) as nat
            } else {
                0
            },
    {
        self.discard();
    }

    /// Park a buffer that is outside the budget, where there is room for it.
    pub fn donate(&mut self, buf: Vec<u8>)
        requires
            old(self).wf(),
        ensures
            final(self).wf(),
            final(self).same_pool(old(self)),
            final(self).outstanding() == old(self).outstanding(),
            final(self).freelist() == old(self).parked(buf@),
    {
        let buf = self.resized(buf);
        if self.free.len() + self.outstanding < self.capacity {
            self.free.push(buf);
            assert(self.freelist() =~= old(self).freelist().push(buf@));
        }
    }

    /// Return a checked-out buffer to the freelist. One of another length is resized.
    pub fn release(&mut self, buf: Vec<u8>)
        requires
            old(self).wf(),
        ensures
            final(self).wf(),
            final(self).same_pool(old(self)),
            final(self).outstanding() == if old(self).outstanding() > 0 {
                (old(self).outstanding() - 1) as nat
            } else {
                0
            },
            old(self).outstanding() > 0 ==> final(self).freelist() == old(self).freelist().push(
                old(self).fitted(buf@),
            ),
            old(self).outstanding() == 0 ==> final(self).freelist() == old(self).parked(buf@),
    {
        self.discard();
        self.donate(buf);
    }

    /// The bytes of `buf` cut or zero-padded to the piece length.
    pub open spec fn fitted(&self, buf: Seq<u8>) -> Seq<u8> {
        Seq::new(
            self.spec_piece_length() as nat,
            |i: int|
                if i < buf.len() {
                    buf[i]
                } else {
                    0u8
                },
        )
    }

    /// The freelist after parking `buf`, which is dropped where the capacity is used up.
    pub open spec fn parked(&self, buf: Seq<u8>) -> Seq<Seq<u8>> {
        if self.freelist().len() + self.outstanding() < self.spec_capacity() {
            self.freelist().push(self.fitted(buf))
        } else {
            self.freelist()
        }
    }

    /// `buf` cut or zero-padded to the piece length.
    fn resized(&self, buf: Vec<u8>) -> (r: Vec<u8>)
        ensures
            r@ == self.fitted(buf@),
    {
        let need: usize = self.piece_length as usize;
        let mut r = buf;
        if r.len() != need {
            r.resize(need, 0u8);
        }
        assert(r@ =~= self.fitted(buf@));
        r
    }
}

/// The budget is what is set, 256 MiB where nothing is; it gives as many buffers as fit, two
/// at least and 4096 at most.
pub proof fn the_budget_gives_the_buffers_that_fit(piece_length: u32, limit_bytes: u64)
    requires
        piece_length > 0,
    ensures
        effective_limit(0) == 268_435_456,
        limit_bytes > 0 ==> effective_limit(limit_bytes) == limit_bytes,
        2 <= buffer_count(piece_length, limit_bytes) <= 4096,
        buffer_count(piece_length, limit_bytes) > 2 ==> buffer_count(piece_length, limit_bytes)
            * piece_length <= effective_limit(limit_bytes),
        buffer_count(piece_length, limit_bytes) < 4096 ==> (buffer_count(piece_length, limit_bytes)
            + 1) * piece_length > effective_limit(limit_bytes),
{
    let total = effective_limit(limit_bytes);
    let plen = piece_length as int;
    let fits = total / plen;
    let n = buffer_count(piece_length, limit_bytes);
    assert(fits * plen <= total < (fits + 1) * plen) by (nonlinear_arith)
        requires
            fits == total / plen,
            plen > 0,
    ;
    assert(n <= fits ==> n * plen <= fits * plen) by (nonlinear_arith)
        requires
            plen > 0,
    ;
    assert(n >= fits ==> (n + 1) * plen >= (fits + 1) * plen) by (nonlinear_arith)
        requires
            plen > 0,
    ;
}

/// A buffer that comes back is kept with its bytes while there is room for it, and dropped
/// where there is none.
pub proof fn returned_buffers_are_kept_while_there_is_room(pool: &PieceBufferPool, buf: Seq<u8>)
    requires
        pool.wf(),
        buf.len() == pool.spec_piece_length(),
    ensures
        pool.fitted(buf) == buf,
        pool.freelist().len() + pool.outstanding() < pool.spec_capacity() ==> pool.parked(buf)
            == pool.freelist().push(buf),
        pool.freelist().len() + pool.outstanding() == pool.spec_capacity() ==> pool.parked(buf)
            == pool.freelist(),
        pool.room() + pool.outstanding() == pool.spec_capacity(),
{
    assert(pool.fitted(buf) =~= buf);
}

/// An operation keeps a pool's torrent, the length and number of its buffers, its budget and
/// its last warning.
pub proof fn a_pool_stays_the_same(a: &PieceBufferPool, b: &PieceBufferPool)
    requires
        a.same_pool(b),
    ensures
        a.torrent() == b.torrent(),
        a.spec_piece_length() == b.spec_piece_length(),
        a.spec_capacity() == b.spec_capacity(),
        a.spec_limit_bytes() == b.spec_limit_bytes(),
        a.last_warning() == b.last_warning(),
{
}

} // verus!
