//! Pieces whose writes are under way.
//!
//! A piece is handed to the system as one write per span. Its buffer must stay until the last
//! of them is over, so the piece stays in the table until then.
use crate::error::Error;
use crate::runtime::disk_worker::{complete_write_job, WriteOp};
use crate::runtime::hash_worker::{DiskWriteJob, HashOutcome};
use crate::text::{decimal, push_decimal};
use std::collections::HashMap;
use vstd::prelude::*;

verus! {

broadcast use vstd::std_specs::hash::group_hash_axioms;

/// Bits of a completion's number that tell the span.
pub const PIECE_KEY_SHIFT: u32 = 16;

/// Fewest writes that a ring holds.
pub const RING_ENTRIES_MIN: u32 = 16;

/// Most writes that a ring holds.
pub const RING_ENTRIES_MAX: u32 = 4096;

/// Writes that a ring holds for `depth` pieces: four spans each, within limits.
pub fn ring_entries(depth: usize) -> (n: u32)
    ensures
        n == if 4 * depth < RING_ENTRIES_MIN {
            RING_ENTRIES_MIN as int
        } else if 4 * depth > RING_ENTRIES_MAX {
            RING_ENTRIES_MAX as int
        } else {
            4 * depth
        },
{
    if depth < (RING_ENTRIES_MIN / 4) as usize {
        RING_ENTRIES_MIN
    } else if depth > (RING_ENTRIES_MAX / 4) as usize {
        RING_ENTRIES_MAX
    } else {
        (4 * depth) as u32
    }
}

/// The number of a completion: the piece's key above, the span below.
pub open spec fn packed(piece_key: u64, span_idx: u16) -> u64 {
    (piece_key << 16u64) | (span_idx as u64)
}

/// The number of a completion.
pub fn pack_user_data(piece_key: u64, span_idx: u16) -> (ud: u64)
    ensures
        ud == packed(piece_key, span_idx),
{
    (piece_key << 16u64) | (span_idx as u64)
}

/// The piece's key and the span of a completion.
pub open spec fn unpacked(ud: u64) -> (u64, u16) {
    (ud >> 16u64, (ud & 0xffff) as u16)
}

/// The piece's key and the span of a completion.
pub fn unpack_user_data(ud: u64) -> (r: (u64, u16))
    ensures
        r == unpacked(ud),
{
    (ud >> 16u64, (ud & 0xffff) as u16)
}

/// A completion tells its piece and span, for keys of up to forty-eight bits.
pub proof fn completions_find_their_piece(piece_key: u64, span_idx: u16)
    requires
        piece_key < 0x1_0000_0000_0000,
    ensures
        unpacked(packed(piece_key, span_idx)) == (piece_key, span_idx),
{
    assert(((piece_key << 16u64) | (span_idx as u64)) >> 16u64 == piece_key) by (bit_vector)
        requires
            piece_key < 0x1_0000_0000_0000,
    ;
    assert((((piece_key << 16u64) | (span_idx as u64)) & 0xffff) as u16 == span_idx)
        by (bit_vector);
}

/// A piece whose writes are under way.
#[derive(Debug)]
pub struct PieceInFlight {
    pub job: DiskWriteJob,
    /// Bytes that each span's write must take.
    pub expected: Vec<u32>,
    /// Writes that are not over.
    pub remaining: u32,
    /// What went wrong first or last, if anything did.
    pub failed: Option<Error>,
}

/// How the write of a span ended.
#[derive(Debug)]
pub enum SpanEnd {
    /// It took this many bytes.
    Wrote(u32),
    /// It failed, with this text.
    Failed(String),
}

/// What is wrong with a write that was to take `expected` bytes, if anything is.
pub open spec fn span_fault(
    label: Seq<char>,
    end: SpanEnd,
    span_idx: u16,
    expected: u32,
) -> Option<Seq<char>> {
    match end {
        SpanEnd::Failed(t) => Some(t@),
        SpanEnd::Wrote(n) => if n != expected {
            Some(
                label + " short write "@ + decimal(n as nat) + "/"@ + decimal(expected as nat)
                    + " span "@ + decimal(span_idx as nat),
            )
        } else {
            None
        },
    }
}

/// The end of a write in a ring, from the number that the kernel gives: bytes, or an error
/// below zero.
pub fn uring_end(res: i32) -> (r: SpanEnd)
    ensures
        match r {
            SpanEnd::Wrote(n) => res >= 0 && n == res,
            SpanEnd::Failed(t) => res < 0 && t@ == "io_uring write errno "@ + decimal(
                (-res) as nat,
            ),
        },
{
    if res < 0 {
        let mut t = String::new();
        t.append("io_uring write errno ");
        push_decimal(&mut t, (-(res as i64)) as u64);
        assert(t@ =~= "io_uring write errno "@ + decimal((-res) as nat));
        return SpanEnd::Failed(t);
    }
    SpanEnd::Wrote(res as u32)
}

/// The end of a write of POSIX AIO: `error` is the write's own error, zero for none, and
/// `returned` the bytes that it took, below zero where they could not be had. `why` tells of
/// either error.
pub fn aio_end(error: i32, returned: i64, why: &str) -> (r: SpanEnd)
    requires
        returned <= u32::MAX,
    ensures
        match r {
            SpanEnd::Wrote(n) => error == 0 && returned >= 0 && n == returned,
            SpanEnd::Failed(t) => if error != 0 {
                t@ == "aio_error: "@ + why@
            } else {
                returned < 0 && t@ == "aio_return: "@ + why@
            },
        },
{
    if error == 0 && returned >= 0 {
        return SpanEnd::Wrote(returned as u32);
    }
    let mut t = String::new();
    if error != 0 {
        t.append("aio_error: ");
    } else {
        t.append("aio_return: ");
    }
    t.append(why);
    assert(t@ =~= (if error != 0 {
        "aio_error: "@
    } else {
        "aio_return: "@
    }) + why@);
    SpanEnd::Failed(t)
}

impl PieceInFlight {
    /// Bytes that a span's write must take; none for a span that the piece does not have.
    pub open spec fn must_take(&self, span_idx: u16) -> u32 {
        if (span_idx as int) < self.expected@.len() {
            self.expected@[span_idx as int]
        } else {
            0
        }
    }

    /// The write of a span is over. Says whether it was the last.
    pub fn span_over(&mut self, label: &str, span_idx: u16, end: SpanEnd) -> (last: bool)
        ensures
            final(self).job == old(self).job,
            final(self).expected == old(self).expected,
            final(self).remaining == if old(self).remaining > 0 {
                (old(self).remaining - 1) as u32
            } else {
                0
            },
            last == (final(self).remaining == 0),
            match span_fault(label@, end, span_idx, old(self).must_take(span_idx)) {
                Some(why) => final(self).failed matches Some(e) && e is Msg && e.text() == why,
                None => final(self).failed == old(self).failed,
            },
    {
        let want: u32 = if (span_idx as usize) < self.expected.len() {
            self.expected[span_idx as usize]
        } else {
            0
        };
        match end {
            SpanEnd::Failed(t) => {
                self.failed = Some(Error::Msg(t));
            },
            SpanEnd::Wrote(n) => {
                if n != want {
                    let mut t = String::new();
                    t.append(label);
                    t.append(" short write ");
                    push_decimal(&mut t, n as u64);
                    t.append("/");
                    push_decimal(&mut t, want as u64);
                    t.append(" span ");
                    push_decimal(&mut t, span_idx as u64);
                    assert(t@ =~= label@ + " short write "@ + decimal(n as nat) + "/"@ + decimal(
                        want as nat,
                    ) + " span "@ + decimal(span_idx as nat));
                    self.failed = Some(Error::Msg(t));
                }
            },
        }
        if self.remaining > 0 {
            self.remaining = self.remaining - 1;
        }
        self.remaining == 0
    }

    /// The outcome of a piece whose writes are over.
    pub fn finish(self) -> (r: HashOutcome)
        ensures
            r == if self.failed is None {
                HashOutcome::Done {
                    index: self.job.index,
                    plen: self.job.plen,
                    data: self.job.data,
                }
            } else {
                HashOutcome::WriteFail {
                    index: self.job.index,
                    plen: self.job.plen,
                    data: self.job.data,
                }
            },
    {
        let good: bool = self.failed.is_none();
        complete_write_job(self.job, good)
    }
}

/// Bytes that the writes of a piece must take.
pub open spec fn span_lengths(ops: Seq<WriteOp>) -> Seq<u32> {
    Seq::new(ops.len(), |i: int| ops[i].span.length as u32)
}

/// What becomes of a piece of whose writes `queued` were handed over. Where none was, it
/// fails at once. Where some were, its buffer is still in use: the piece stays under way,
/// failed or not, until those are over.
pub fn begun(job: DiskWriteJob, ops: &Vec<WriteOp>, queued: u32, failed: Option<Error>) -> (r:
    std::result::Result<PieceInFlight, HashOutcome>)
    ensures
        match r {
            Ok(p) => {
                &&& queued > 0
                &&& p.job == job
                &&& p.remaining == queued
                &&& p.failed == failed
                &&& p.expected@ == span_lengths(ops@)
            },
            Err(o) => queued == 0 && o == (HashOutcome::WriteFail {
                index: job.index,
                plen: job.plen,
                data: job.data,
            }),
        },
{
    if queued == 0 {
        return Err(complete_write_job(job, false));
    }
    let mut expected: Vec<u32> = Vec::new();
    let mut i: usize = 0;
    while i < ops.len()
        invariant
            i <= ops@.len(),
            expected@ =~= span_lengths(ops@).take(i as int),
        decreases ops@.len() - i,
    {
        expected.push(ops[i].span.length as u32);
        i += 1;
    }
    assert(expected@ =~= span_lengths(ops@));
    Ok(PieceInFlight { job, expected, remaining: queued, failed })
}

/// The pieces whose writes are under way, each under its key.
#[derive(Debug)]
pub struct InFlightTable {
    pieces: HashMap<u64, PieceInFlight>,
    next_token: u64,
}

/// A piece that counts as failed, for this reason where it had none.
pub open spec fn failed_for(p: PieceInFlight, q: PieceInFlight, why: Seq<char>) -> bool {
    &&& q.job == p.job
    &&& q.expected == p.expected
    &&& q.remaining == p.remaining
    &&& match p.failed {
        Some(_) => q.failed == p.failed,
        None => q.failed matches Some(e) && e is Msg && e.text() == why,
    }
}

/// Whether a key stands before place `n` of a list.
pub open spec fn listed_before(keys: Seq<u64>, n: int, key: u64) -> bool {
    exists|i: int| 0 <= i < n && #[trigger] keys[i] == key
}

impl View for InFlightTable {
    type V = Map<u64, PieceInFlight>;

    closed spec fn view(&self) -> Map<u64, PieceInFlight> {
        self.pieces@
    }
}

impl InFlightTable {
    /// The key that the next piece gets.
    pub closed spec fn next_key(&self) -> u64 {
        self.next_token
    }

    /// No pieces.
    pub fn new() -> (t: InFlightTable)
        ensures
            t@ == Map::<u64, PieceInFlight>::empty(),
            t.next_key() == 1,
    {
        InFlightTable { pieces: HashMap::new(), next_token: 1 }
    }

    /// Number of pieces.
    pub fn len(&self) -> (n: usize)
        ensures
            n == self@.len(),
    {
        self.pieces.len()
    }

    /// Reserve a key. Zero is never one.
    pub fn take_key(&mut self) -> (key: u64)
        ensures
            key == old(self).next_key(),
            final(self).next_key() == if old(self).next_key() == u64::MAX {
                1
            } else {
                (old(self).next_key() + 1) as u64
            },
            final(self)@ == old(self)@,
    {
        let key: u64 = self.next_token;
        self.next_token = if key == u64::MAX {
            1
        } else {
            key + 1
        };
        key
    }

    /// The writes of a piece were handed over under a key that is free. Where some could not
    /// be, the piece has failed already, and only the others are awaited.
    pub fn insert(&mut self, key: u64, piece: PieceInFlight)
        requires
            !old(self)@.contains_key(key),
        ensures
            final(self)@ == old(self)@.insert(key, piece),
            final(self).next_key() == old(self).next_key(),
    {
        let _none: Option<PieceInFlight> = self.pieces.insert(key, piece);
    }

    /// The keys, each once.
    fn keys(&self) -> (r: Vec<u64>)
        ensures
            r@.no_duplicates(),
            r@.to_set() == self@.dom(),
    {
        let mut r: Vec<u64> = Vec::new();
        let ghost all: Seq<u64> = vstd::std_specs::iter::IteratorSpec::remaining(
            &self.pieces.keys(),
        ).unref();
        for k in it: self.pieces.keys()
            invariant
                all == it.seq().unref(),
                r@.len() == it.index(),
                forall|i: int| 0 <= i < r@.len() ==> #[trigger] r@[i] == *it.seq()[i],
        {
            r.push(*k);
        }
        assert(r@ =~= all);
        r
    }

    /// The ring is broken: no piece that is under way counts as written, whatever its writes
    /// still do.
    pub fn fail_all(&mut self, why: &str)
        ensures
            final(self).next_key() == old(self).next_key(),
            final(self)@.dom() == old(self)@.dom(),
            forall|k: u64| #[trigger]
                old(self)@.contains_key(k) ==> failed_for(old(self)@[k], final(self)@[k], why@),
    {
        let keys: Vec<u64> = self.keys();
        let ghost m = self@;
        let mut i: usize = 0;
        while i < keys.len()
            invariant
                i <= keys@.len(),
                m == old(self)@,
                keys@.no_duplicates(),
                keys@.to_set() == m.dom(),
                self.next_key() == old(self).next_key(),
                self@.dom() == m.dom(),
                forall|k: u64| #[trigger]
                    m.contains_key(k) ==> if listed_before(keys@, i as int, k) {
                        failed_for(m[k], self@[k], why@)
                    } else {
                        self@[k] == m[k]
                    },
            decreases keys@.len() - i,
        {
            let key: u64 = keys[i];
            let ghost before = self@;
            proof {
                assert(keys@.to_set().contains(key));
                assert(m.contains_key(key));
                assert(!listed_before(keys@, i as int, key));
            }
            if let Some(piece) = self.pieces.remove(&key) {
                let mut piece = piece;
                if piece.failed.is_none() {
                    piece.failed = Some(Error::msg(why));
                }
                let _none: Option<PieceInFlight> = self.pieces.insert(key, piece);
            }
            proof {
                assert(self@.dom() =~= m.dom());
                assert forall|k: u64| #[trigger] m.contains_key(k) implies if listed_before(
                    keys@,
                    i + 1,
                    k,
                ) {
                    failed_for(m[k], self@[k], why@)
                } else {
                    self@[k] == m[k]
                } by {
                    if k != key {
                        assert(listed_before(keys@, i + 1, k) == listed_before(keys@, i as int, k));
                    } else {
                        assert(keys@[i as int] == k);
                    }
                }
            }
            i += 1;
        }
        proof {
            assert forall|k: u64| #[trigger] m.contains_key(k) implies failed_for(
                m[k],
                self@[k],
                why@,
            ) by {
                assert(keys@.to_set().contains(k));
                let j = choose|j: int| 0 <= j < keys@.len() && keys@[j] == k;
                assert(keys@[j] == k);
            }
        }
    }

    /// A write is over. Its piece leaves the table with the last of its writes, and its
    /// outcome comes back. A completion of no piece in the table is ignored.
    pub fn harvest(&mut self, label: &str, piece_key: u64, span_idx: u16, end: SpanEnd) -> (r:
        Option<HashOutcome>)
        ensures
            final(self).next_key() == old(self).next_key(),
            ({
                let m = old(self)@;
                let p = m[piece_key];
                let q = final(self)@[piece_key];
                let fault = span_fault(label@, end, span_idx, p.must_take(span_idx));
                if !m.contains_key(piece_key) {
                    r is None && final(self)@ == m
                } else if p.remaining <= 1 {
                    &&& r == Some(
                        if p.failed is None && fault is None {
                            HashOutcome::Done {
                                index: p.job.index,
                                plen: p.job.plen,
                                data: p.job.data,
                            }
                        } else {
                            HashOutcome::WriteFail {
                                index: p.job.index,
                                plen: p.job.plen,
                                data: p.job.data,
                            }
                        },
                    )
                    &&& final(self)@ == m.remove(piece_key)
                } else {
                    &&& r is None
                    &&& final(self)@ == m.insert(piece_key, q)
                    &&& q.job == p.job
                    &&& q.expected == p.expected
                    &&& q.remaining == p.remaining - 1
                    &&& match fault {
                        Some(why) => q.failed matches Some(e) && e is Msg && e.text() == why,
                        None => q.failed == p.failed,
                    }
                }
            }),
    {
        match self.pieces.remove(&piece_key) {
            None => {
                assert(self@ =~= old(self)@);
                None
            },
            Some(piece) => {
                let mut piece = piece;
                if piece.span_over(label, span_idx, end) {
                    Some(piece.finish())
                } else {
                    let _none: Option<PieceInFlight> = self.pieces.insert(piece_key, piece);
                    assert(self@ =~= old(self)@.insert(piece_key, piece));
                    None
                }
            },
        }
    }
}

/// Waits in a row that may fail before a broken ring is given up.
pub const DRAIN_FAILURES: u32 = 8;

/// The end of a broken ring: its writes are waited for, but not for ever.
#[derive(Debug, Clone, Copy, PartialEq, Eq, Structural)]
pub struct Drain {
    /// Waits that have failed since one last did not.
    pub failures: u32,
}

impl Drain {
    /// Nothing was waited for yet.
    pub fn new() -> (d: Drain)
        ensures
            d.failures == 0,
    {
        Drain { failures: 0 }
    }

    /// Whether to wait again: `left` pieces are under way, and `in_time` says that the time
    /// for it is not over.
    pub fn goes_on(&self, left: usize, in_time: bool) -> (r: bool)
        ensures
            r == (left > 0 && in_time && self.failures < DRAIN_FAILURES),
    {
        left > 0 && in_time && self.failures < DRAIN_FAILURES
    }

    /// A wait is over.
    pub fn waited(&mut self, ok: bool)
        ensures
            final(self).failures == if ok {
                0
            } else if old(self).failures == u32::MAX {
                u32::MAX
            } else {
                (old(self).failures + 1) as u32
            },
    {
        if ok {
            self.failures = 0;
        } else if self.failures < u32::MAX {
            self.failures = self.failures + 1;
        }
    }
}

/// What the disk thread does next.
#[derive(Debug, Clone, Copy, PartialEq, Eq, Structural)]
pub enum LoopStep {
    /// Take a job from the channel, if one is there.
    TryReceive,
    /// Begin the writes of the job that has waited longest.
    Start,
    /// Nothing is under way: wait for a job.
    AwaitJob,
    /// Wait for a write to be over.
    AwaitCompletion,
    Exit,
}

/// What the disk thread does next: `channel_empty` says that the channel was found empty
/// since the last step that waited.
pub fn next_step(
    channel_open: bool,
    channel_empty: bool,
    waiting: usize,
    inflight: usize,
    depth: usize,
) -> (r: LoopStep)
    requires
        waiting + inflight <= usize::MAX,
        depth > 0,
    ensures
        r == if channel_open && !channel_empty && inflight + waiting < depth {
            LoopStep::TryReceive
        } else if waiting > 0 && inflight < depth {
            LoopStep::Start
        } else if inflight > 0 {
            LoopStep::AwaitCompletion
        } else if channel_open {
            LoopStep::AwaitJob
        } else {
            LoopStep::Exit
        },
        // The thread leaves no job behind.
        r == LoopStep::Exit ==> waiting == 0 && inflight == 0 && !channel_open,
        // No more pieces are under way than allowed.
        r == LoopStep::Start ==> inflight < depth,
{
    if channel_open && !channel_empty && inflight + waiting < depth {
        return LoopStep::TryReceive;
    }
    if waiting > 0 && inflight < depth {
        return LoopStep::Start;
    }
    if inflight > 0 {
        return LoopStep::AwaitCompletion;
    }
    if channel_open {
        LoopStep::AwaitJob
    } else {
        LoopStep::Exit
    }
}

/// The number of a completion holds the piece's key above its lowest sixteen bits, and the
/// span in them.
pub proof fn completions_are_numbered_by_piece_and_span(piece_key: u64, span_idx: u16)
    requires
        piece_key < 0x1_0000_0000_0000,
    ensures
        packed(piece_key, span_idx) == 65_536 * piece_key + span_idx,
{
    assert(((piece_key << 16u64) | (span_idx as u64)) == 65_536 * piece_key + span_idx)
        by (bit_vector)
        requires
            piece_key < 0x1_0000_0000_0000,
    ;
}

/// A write is in order where it took exactly the bytes of its span, which is so many as the
/// span is long.
pub proof fn a_write_must_take_its_span(
    p: PieceInFlight,
    ops: Seq<WriteOp>,
    label: Seq<char>,
    end: SpanEnd,
    span_idx: u16,
)
    requires
        p.expected@ == span_lengths(ops),
        (span_idx as int) < ops.len(),
        ops[span_idx as int].span.length <= u32::MAX,
    ensures
        span_fault(label, end, span_idx, p.must_take(span_idx)) is None <==> (end matches
            SpanEnd::Wrote(n) && n == ops[span_idx as int].span.length),
        end matches SpanEnd::Failed(t) ==> span_fault(
            label,
            end,
            span_idx,
            p.must_take(span_idx),
        ) == Some(t@),
{
}

/// A piece counts as failed once the ring is broken, keeps an earlier reason, and is still
/// awaited.
pub proof fn a_broken_ring_fails_its_pieces(p: PieceInFlight, q: PieceInFlight, why: Seq<char>)
    requires
        failed_for(p, q, why),
    ensures
        q.failed is Some,
        p.failed is Some ==> q.failed == p.failed,
        p.failed is None ==> q.failed->0.text() == why,
        q.job == p.job,
        q.expected == p.expected,
        q.remaining == p.remaining,
{
}

} // verus!
