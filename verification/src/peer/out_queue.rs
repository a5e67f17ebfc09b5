//! Ordered outbound queue of one peer: control frames and PIECE payloads.
//!
//! One message is on the wire at a time and is never interrupted. When it is done,
//! control frames go before the next PIECE. The cipher is applied when a message becomes
//! active, so that the order of encryption is the order of sending.
//!
//! Writing, reading payloads and rate limiting are the caller's: [`OutQueue::next_action`]
//! says what to do next, and the caller reports how it went.
use crate::bytes::push_all;
use crate::error::Error;
use crate::peer::ctrl_scratch::CtrlScratch;
use crate::text::{decimal, push_decimal};
use crate::upload::inflight::InFlightUpload;
use crate::upload::queue::{UploadBlock, MAX_REQUEST_LENGTH, MAX_UPLOAD_REQQ};
use crate::wire::messages::{encoded, MessageView};
use std::collections::VecDeque;
use vstd::prelude::*;

verus! {

/// Control frames are joined while they stay within this many bytes.
pub const COALESCE_MAX: usize = 65_536;

/// Outbound messages of a peer.
#[derive(Debug)]
pub struct OutQueue {
    pub ctrl: VecDeque<Vec<u8>>,
    pub pieces: VecDeque<UploadBlock>,
    /// The PIECE that is on the wire, framed in the scratch buffer.
    pub active: Option<InFlightUpload>,
    pub piece_max: usize,
    /// A keep-alive is queued or on the wire.
    pub keepalive_queued: bool,
}

/// What became of a round of sending.
#[derive(Debug, Clone, Copy, PartialEq, Eq, Structural)]
pub enum OutProgress {
    /// Nothing is left to send.
    Idle,
    /// Something was written; there may be more.
    Progress,
    /// The upload allowance is used up; try again after this many nanoseconds.
    RateLimited(u64),
}

/// Result of a round of sending.
#[derive(Debug, Clone, Copy, PartialEq, Eq, Structural)]
pub struct SendOutcome {
    pub kind: OutProgress,
    /// Whether any byte was written.
    pub wrote: bool,
}

impl SendOutcome {
    /// Nothing to do.
    pub fn idle() -> (r: Self)
        ensures
            r == (SendOutcome { kind: OutProgress::Idle, wrote: false }),
    {
        SendOutcome { kind: OutProgress::Idle, wrote: false }
    }
}

/// The queued control frames as byte strings.
pub open spec fn frames(ctrl: VecDeque<Vec<u8>>) -> Seq<Seq<u8>> {
    ctrl@.map_values(|v: Vec<u8>| v@)
}

/// The bytes of the frames, one after the other.
pub open spec fn flat(frames: Seq<Seq<u8>>) -> Seq<u8>
    decreases frames.len(),
{
    if frames.len() == 0 {
        Seq::empty()
    } else {
        flat(frames.drop_last()) + frames.last()
    }
}

/// The frames after queueing `plain`: joined to the last one where both fit, behind it
/// otherwise.
pub open spec fn with_frame(frames: Seq<Seq<u8>>, plain: Seq<u8>) -> Seq<Seq<u8>> {
    if plain.len() == 0 {
        frames
    } else if frames.len() > 0 && frames.last().len() + plain.len() <= COALESCE_MAX {
        frames.drop_last().push(frames.last() + plain)
    } else {
        frames.push(plain)
    }
}

/// Queueing appends to the byte stream, whether or not frames are joined.
pub proof fn queueing_appends_to_the_stream(frames: Seq<Seq<u8>>, plain: Seq<u8>)
    ensures
        flat(with_frame(frames, plain)) == flat(frames) + plain,
{
    if plain.len() == 0 {
        assert(flat(frames) + plain =~= flat(frames));
    } else if frames.len() > 0 && frames.last().len() + plain.len() <= COALESCE_MAX {
        let after = with_frame(frames, plain);
        assert(after.drop_last() =~= frames.drop_last());
        assert(flat(after) =~= flat(frames) + plain);
    } else {
        assert(frames.push(plain).drop_last() =~= frames);
    }
}

/// The block of the PIECE that is on the wire.
pub open spec fn active_block(active: Option<InFlightUpload>) -> Option<UploadBlock> {
    match active {
        Some(inf) => Some(inf.block),
        None => None,
    }
}

/// The queued blocks without one of them.
pub open spec fn without_block(pieces: Seq<UploadBlock>, block: UploadBlock) -> Seq<UploadBlock> {
    if pieces.contains(block) {
        pieces.remove(pieces.index_of(block))
    } else {
        pieces
    }
}

/// Whether the PIECE on the wire is that of a block and can still be dropped.
pub open spec fn drops_active(active: Option<InFlightUpload>, block: UploadBlock) -> bool {
    active matches Some(inf) && inf.block == block && inf.droppable()
}

impl OutQueue {
    /// Number of blocks that are queued or on the wire.
    pub open spec fn pending(&self) -> nat {
        self.pieces@.len() + if active_block(self.active) is Some {
            1nat
        } else {
            0nat
        }
    }

    /// No block is queued twice, none is queued while it is on the wire, and the number of
    /// blocks is bounded.
    pub open spec fn wf(&self) -> bool {
        &&& self.pieces@.no_duplicates()
        &&& (active_block(self.active) matches Some(b) ==> !self.pieces@.contains(b))
        &&& self.pending() <= self.piece_max
    }

    /// An empty queue.
    pub fn new() -> (q: Self)
        ensures
            q.wf(),
            frames(q.ctrl) == Seq::<Seq<u8>>::empty(),
            q.pieces@ == Seq::<UploadBlock>::empty(),
            q.active is None,
            q.piece_max == MAX_UPLOAD_REQQ,
            !q.keepalive_queued,
    {
        let q = OutQueue {
            ctrl: VecDeque::new(),
            pieces: VecDeque::new(),
            active: None,
            piece_max: MAX_UPLOAD_REQQ,
            keepalive_queued: false,
        };
        assert(frames(q.ctrl) =~= Seq::<Seq<u8>>::empty());
        q
    }

    /// Something is left to send.
    pub open spec fn work_left(&self) -> bool {
        self.active is Some || self.ctrl@.len() > 0 || self.pieces@.len() > 0
    }

    /// Whether anything is left to send.
    pub fn has_work(&self) -> (r: bool)
        ensures
            r == self.work_left(),
    {
        self.active.is_some() || self.ctrl.len() > 0 || self.pieces.len() > 0
    }

    /// Whether a round of sending can make progress.
    pub fn can_progress_write(&self) -> (r: bool)
        ensures
            r == self.work_left(),
    {
        self.has_work()
    }

    /// Number of blocks that are queued or on the wire.
    pub fn piece_pending_count(&self) -> (n: usize)
        requires
            self.wf(),
        ensures
            n == self.pending(),
    {
        match &self.active {
            Some(_) => self.pieces.len() + 1,
            None => self.pieces.len(),
        }
    }

    /// Queue the bytes of control messages.
    pub fn push_ctrl_owned(&mut self, plain: Vec<u8>)
        ensures
            frames(final(self).ctrl) == with_frame(frames(old(self).ctrl), plain@),
            flat(frames(final(self).ctrl)) == flat(frames(old(self).ctrl)) + plain@,
            final(self).pieces@ == old(self).pieces@,
            final(self).active == old(self).active,
            final(self).piece_max == old(self).piece_max,
            final(self).keepalive_queued == old(self).keepalive_queued,
    {
        let ghost before = frames(self.ctrl);
        proof {
            queueing_appends_to_the_stream(before, plain@);
        }
        if plain.len() == 0 {
            return;
        }
        match self.ctrl.pop_back() {
            Some(mut back) => {
                assert(before.last() == back@);
                if back.len() <= COALESCE_MAX && plain.len() <= COALESCE_MAX - back.len() {
                    push_all(&mut back, plain.as_slice());
                    self.ctrl.push_back(back);
                } else {
                    self.ctrl.push_back(back);
                    self.ctrl.push_back(plain);
                }
            },
            None => {
                self.ctrl.push_back(plain);
            },
        }
        assert(frames(self.ctrl) =~= with_frame(before, plain@));
    }

    /// Queue a keep-alive, unless one is queued or on the wire.
    pub fn push_keepalive(&mut self, ctrl: &mut CtrlScratch)
        ensures
            final(self).keepalive_queued,
            frames(final(self).ctrl) == if old(self).keepalive_queued {
                frames(old(self).ctrl)
            } else {
                with_frame(frames(old(self).ctrl), encoded(MessageView::KeepAlive))
            },
            final(self).pieces@ == old(self).pieces@,
            final(self).active == old(self).active,
            final(self).piece_max == old(self).piece_max,
            final(ctrl)@ == if old(self).keepalive_queued {
                old(ctrl)@
            } else {
                Seq::<u8>::empty()
            },
    {
        if self.keepalive_queued {
            return;
        }
        self.keepalive_queued = true;
        ctrl.clear();
        ctrl.append_keepalive();
        let plain = ctrl.take();
        assert(plain@ =~= encoded(MessageView::KeepAlive));
        self.push_ctrl_owned(plain);
    }

    /// Queue a block to serve. Refused where it is empty or too long, where the queue is
    /// full, and where the block is queued or on the wire already.
    pub fn try_push_piece(&mut self, block: UploadBlock) -> (r: bool)
        requires
            old(self).wf(),
        ensures
            final(self).wf(),
            r == (0 < block.length <= MAX_REQUEST_LENGTH && old(self).pending() < old(
                self,
            ).piece_max && !old(self).pieces@.contains(block) && active_block(old(self).active)
                != Some(block)),
            final(self).pieces@ == if r {
                old(self).pieces@.push(block)
            } else {
                old(self).pieces@
            },
            final(self).ctrl@ == old(self).ctrl@,
            final(self).active == old(self).active,
            final(self).piece_max == old(self).piece_max,
            final(self).keepalive_queued == old(self).keepalive_queued,
    {
        if block.length == 0 || block.length > MAX_REQUEST_LENGTH {
            return false;
        }
        if self.piece_pending_count() >= self.piece_max {
            return false;
        }
        if self.position(block).is_some() {
            return false;
        }
        if let Some(inf) = &self.active {
            if inf.block == block {
                return false;
            }
        }
        self.pieces.push_back(block);
        proof {
            let p = old(self).pieces@;
            assert forall|b: UploadBlock| p.push(block).contains(b) implies p.contains(b) || b
                == block by {
                let j = choose|j: int| 0 <= j < p.push(block).len() && p.push(block)[j] == b;
                if j < p.len() {
                    assert(p[j] == b);
                }
            }
        }
        true
    }

    /// Place of a block in the queue.
    fn position(&self, block: UploadBlock) -> (r: Option<usize>)
        ensures
            match r {
                Some(i) => i < self.pieces@.len() && self.pieces@[i as int] == block,
                None => !self.pieces@.contains(block),
            },
    {
        let mut i: usize = 0;
        while i < self.pieces.len()
            invariant
                i <= self.pieces@.len(),
                forall|j: int| 0 <= j < i ==> self.pieces@[j] != block,
            decreases self.pieces@.len() - i,
        {
            if self.pieces[i] == block {
                return Some(i);
            }
            i += 1;
        }
        None
    }

    /// Take back a request. A queued block is dropped. The block on the wire is dropped
    /// only where nothing of it has been sent or enciphered; otherwise it is finished.
    pub fn cancel_piece(&mut self, block: UploadBlock) -> (r: bool)
        requires
            old(self).wf(),
        ensures
            final(self).wf(),
            r == (old(self).pieces@.contains(block) || drops_active(old(self).active, block)),
            final(self).pieces@ == without_block(old(self).pieces@, block),
            !final(self).pieces@.contains(block),
            final(self).active == if drops_active(old(self).active, block) {
                None
            } else {
                old(self).active
            },
            final(self).ctrl@ == old(self).ctrl@,
            final(self).piece_max == old(self).piece_max,
            final(self).keepalive_queued == old(self).keepalive_queued,
    {
        let ghost p = self.pieces@;
        let removed: bool = match self.position(block) {
            Some(i) => {
                let _gone = self.pieces.remove(i);
                proof {
                    let q = self.pieces@;
                    assert(p.contains(p[i as int]));
                    let k = p.index_of(block);
                    assert(p[k] == p[i as int]);
                    assert(q =~= p.remove(i as int));
                    assert forall|b: UploadBlock| q.contains(b) implies p.contains(b) && b
                        != block by {
                        let j = choose|j: int| 0 <= j < q.len() && q[j] == b;
                        let k = if j < i {
                            j
                        } else {
                            j + 1
                        };
                        assert(p[k] == b);
                        assert(p[k] != p[i as int]);
                    }
                }
                true
            },
            None => false,
        };
        let drops: bool = match &self.active {
            Some(inf) => inf.block == block && inf.can_abort(),
            None => false,
        };
        if drops {
            self.active = None;
            return true;
        }
        removed
    }

    /// Drop the queued blocks, and the block on the wire where that is still possible.
    pub fn clear_pieces(&mut self)
        requires
            old(self).wf(),
        ensures
            final(self).wf(),
            final(self).pieces@ == Seq::<UploadBlock>::empty(),
            final(self).active == if old(self).active matches Some(inf)
                && inf.droppable() {
                None
            } else {
                old(self).active
            },
            final(self).ctrl@ == old(self).ctrl@,
            final(self).piece_max == old(self).piece_max,
            final(self).keepalive_queued == old(self).keepalive_queued,
    {
        self.pieces.clear();
        let drops: bool = match &self.active {
            Some(inf) => inf.can_abort(),
            None => false,
        };
        if drops {
            self.active = None;
        }
    }

    /// Whether a PIECE is on the wire that has to be finished.
    pub fn has_unabortable_piece(&self) -> (r: bool)
        ensures
            r == (self.active matches Some(inf) && !inf.droppable()),
    {
        match &self.active {
            Some(inf) => !inf.can_abort(),
            None => false,
        }
    }

    /// Queue a refusal of a block, where the peer knows refusals.
    pub fn push_reject(&mut self, block: UploadBlock, fast_enabled: bool, ctrl: &mut CtrlScratch)
        ensures
            frames(final(self).ctrl) == if fast_enabled {
                with_frame(
                    frames(old(self).ctrl),
                    encoded(
                        MessageView::RejectRequest {
                            index: block.index,
                            begin: block.begin,
                            length: block.length,
                        },
                    ),
                )
            } else {
                frames(old(self).ctrl)
            },
            final(self).pieces@ == old(self).pieces@,
            final(self).active == old(self).active,
            final(self).piece_max == old(self).piece_max,
            final(self).keepalive_queued == old(self).keepalive_queued,
            final(ctrl)@ == if fast_enabled {
                Seq::<u8>::empty()
            } else {
                old(ctrl)@
            },
    {
        if !fast_enabled {
            return;
        }
        ctrl.clear();
        ctrl.append_reject_request(block.index, block.begin, block.length);
        let plain = ctrl.take();
        assert(plain@ =~= encoded(
            MessageView::RejectRequest {
                index: block.index,
                begin: block.begin,
                length: block.length,
            },
        ));
        self.push_ctrl_owned(plain);
    }
}

impl Default for OutQueue {
    fn default() -> (q: Self)
        ensures
            q.wf(),
            frames(q.ctrl) == Seq::<Seq<u8>>::empty(),
            q.pieces@ == Seq::<UploadBlock>::empty(),
            q.active is None,
            q.piece_max == MAX_UPLOAD_REQQ,
            !q.keepalive_queued,
    {
        Self::new()
    }
}

// ---------------------------------------------------------------------------
// A round of sending.
// ---------------------------------------------------------------------------

/// Settings and progress of a round of sending.
#[derive(Debug, Clone, Copy, PartialEq, Eq, Structural)]
pub struct SendRound {
    /// Whether blocks may be served.
    pub allow_upload: bool,
    /// Whether the peer knows refusals.
    pub fast_enabled: bool,
    /// Whether any byte was written in this round.
    pub wrote: bool,
}

impl SendRound {
    /// How the round ends once there is nothing more to do.
    pub open spec fn spec_outcome(self) -> SendOutcome {
        SendOutcome {
            kind: if self.wrote {
                OutProgress::Progress
            } else {
                OutProgress::Idle
            },
            wrote: self.wrote,
        }
    }

    /// How the round ends once there is nothing more to do.
    pub fn outcome(self) -> (r: SendOutcome)
        ensures
            r == self.spec_outcome(),
    {
        if self.wrote {
            SendOutcome { kind: OutProgress::Progress, wrote: true }
        } else {
            SendOutcome::idle()
        }
    }
}

/// What to do next in a round of sending.
#[derive(Debug)]
pub enum SendAction {
    /// Encipher the frame, write it whole, and report [`OutQueue::ctrl_written`]. Where
    /// writing fails, the connection is lost.
    WriteCtrl(Vec<u8>),
    /// Frame the block in the scratch buffer and report [`OutQueue::piece_filled`] or
    /// [`OutQueue::fill_failed`].
    Fill(UploadBlock),
    /// Reserve the block's length, see [`OutQueue::reserved`], then write the frame whole
    /// and report [`OutQueue::piece_written`].
    WritePiece(InFlightUpload),
    /// The round is over.
    Finish(SendOutcome),
}

/// What to do after a block could not be read.
#[derive(Debug, Clone, Copy, PartialEq, Eq, Structural)]
pub enum AfterFill {
    /// Read it once more: the file may have been moved meanwhile.
    Retry,
    /// Go on with the round.
    Continue,
    /// The round is over.
    Finish(SendOutcome),
}

/// What to do after asking for upload allowance.
#[derive(Debug, Clone, Copy, PartialEq, Eq, Structural)]
pub enum AfterReserve {
    /// Write the frame.
    Write,
    /// Give back `refund` and end the round.
    Wait { refund: u64, outcome: SendOutcome },
}

/// Shortest wait for upload allowance, in nanoseconds.
pub const MIN_RATE_WAIT_NANOS: u64 = 1_000_000;

impl OutQueue {
    /// What is left to do, weighted so that every action of a round lowers it.
    pub open spec fn weight(&self) -> nat {
        2 * self.pieces@.len() + self.ctrl@.len() + if self.active is Some {
            1nat
        } else {
            0nat
        }
    }

    /// The PIECE on the wire once the round started: dropped where uploads are off and it
    /// can still be dropped.
    pub open spec fn kept_active(&self, allow_upload: bool) -> Option<InFlightUpload> {
        match self.active {
            Some(inf) => if !allow_upload && inf.droppable() {
                None
            } else {
                Some(inf)
            },
            None => None,
        }
    }

    /// The queued blocks once the round started: dropped where uploads are off.
    pub open spec fn kept_pieces(&self, allow_upload: bool) -> Seq<UploadBlock> {
        if allow_upload {
            self.pieces@
        } else {
            Seq::empty()
        }
    }

    /// Start a round of sending. Where uploads are off, queued blocks are dropped.
    pub fn begin_round(&mut self, allow_upload: bool, fast_enabled: bool) -> (r: SendRound)
        requires
            old(self).wf(),
        ensures
            final(self).wf(),
            r == (SendRound { allow_upload, fast_enabled, wrote: false }),
            final(self).pieces@ == old(self).kept_pieces(allow_upload),
            final(self).ctrl@ == old(self).ctrl@,
            final(self).active == old(self).active,
            final(self).piece_max == old(self).piece_max,
            final(self).keepalive_queued == old(self).keepalive_queued,
    {
        if !allow_upload {
            self.pieces.clear();
        }
        SendRound { allow_upload, fast_enabled, wrote: false }
    }

    /// The next thing to do: finish the PIECE on the wire, else write a control frame,
    /// else take up the next block. Where uploads are off, queued blocks are dropped. A round
    /// ends only when nothing is left to send.
    pub fn next_action(&mut self, round: &SendRound) -> (r: SendAction)
        requires
            old(self).wf(),
        ensures
            final(self).wf(),
            final(self).piece_max == old(self).piece_max,
            final(self).keepalive_queued == old(self).keepalive_queued,
            final(self).active == old(self).kept_active(round.allow_upload),
            match r {
                SendAction::WritePiece(inf) => {
                    &&& old(self).kept_active(round.allow_upload) == Some(inf)
                    &&& final(self).pieces@ == old(self).kept_pieces(round.allow_upload)
                    &&& final(self).ctrl@ == old(self).ctrl@
                },
                SendAction::WriteCtrl(plain) => {
                    &&& old(self).kept_active(round.allow_upload) is None
                    &&& old(self).ctrl@.len() > 0
                    &&& plain == old(self).ctrl@[0]
                    &&& final(self).ctrl@ == old(self).ctrl@.drop_first()
                    &&& final(self).pieces@ == old(self).kept_pieces(round.allow_upload)
                },
                SendAction::Fill(block) => {
                    &&& old(self).kept_active(round.allow_upload) is None
                    &&& old(self).ctrl@.len() == 0
                    &&& round.allow_upload
                    &&& old(self).pieces@.len() > 0
                    &&& block == old(self).pieces@[0]
                    &&& final(self).pieces@ == old(self).pieces@.drop_first()
                    &&& !final(self).pieces@.contains(block)
                    &&& final(self).pending() < final(self).piece_max
                    &&& final(self).ctrl@ == old(self).ctrl@
                },
                SendAction::Finish(outcome) => {
                    &&& old(self).kept_active(round.allow_upload) is None
                    &&& old(self).ctrl@.len() == 0
                    &&& !round.allow_upload || old(self).pieces@.len() == 0
                    &&& outcome == round.spec_outcome()
                    &&& final(self).pieces@.len() == 0
                    &&& final(self).ctrl@.len() == 0
                },
            },
            r is Finish ==> !final(self).work_left(),
            r is WriteCtrl ==> final(self).weight() < old(self).weight(),
            r is Fill ==> final(self).weight() + 2 <= old(self).weight(),
    {
        if !round.allow_upload {
            self.pieces.clear();
            let drops: bool = match &self.active {
                Some(inf) => inf.can_abort(),
                None => false,
            };
            if drops {
                self.active = None;
            }
        }
        if let Some(inf) = &self.active {
            return SendAction::WritePiece(*inf);
        }
        if let Some(plain) = self.ctrl.pop_front() {
            assert(self.ctrl@ =~= old(self).ctrl@.drop_first());
            return SendAction::WriteCtrl(plain);
        }
        if round.allow_upload {
            if let Some(block) = self.pieces.pop_front() {
                proof {
                    let p = old(self).pieces@;
                    let q = self.pieces@;
                    assert(q =~= p.drop_first());
                    if q.contains(block) {
                        let j = choose|j: int| 0 <= j < q.len() && q[j] == block;
                        assert(p[j + 1] == p[0]);
                    }
                    assert forall|i: int, j: int| 0 <= i < q.len() && 0 <= j < q.len() && i
                        != j implies q[i] != q[j] by {
                        assert(p[i + 1] != p[j + 1]);
                    }
                }
                return SendAction::Fill(block);
            }
        }
        SendAction::Finish(round.outcome())
    }

    /// A control frame is on the wire whole. A further keep-alive may be queued once no
    /// control frame is left.
    pub fn ctrl_written(&mut self, round: &mut SendRound)
        requires
            old(self).wf(),
        ensures
            final(self).wf(),
            *final(round) == (SendRound { wrote: true, ..*old(round) }),
            final(self).keepalive_queued == (old(self).keepalive_queued && old(self).ctrl@.len()
                > 0),
            final(self).ctrl@ == old(self).ctrl@,
            final(self).pieces@ == old(self).pieces@,
            final(self).active == old(self).active,
            final(self).piece_max == old(self).piece_max,
    {
        round.wrote = true;
        self.note_ctrl_fully_sent();
    }

    /// Let a further keep-alive be queued once no control frame is left.
    fn note_ctrl_fully_sent(&mut self)
        requires
            old(self).wf(),
        ensures
            final(self).wf(),
            final(self).keepalive_queued == (old(self).keepalive_queued && old(self).ctrl@.len()
                > 0),
            final(self).ctrl@ == old(self).ctrl@,
            final(self).pieces@ == old(self).pieces@,
            final(self).active == old(self).active,
            final(self).piece_max == old(self).piece_max,
    {
        if self.ctrl.len() == 0 {
            self.keepalive_queued = false;
        }
    }

    /// A block is framed in the scratch buffer and goes on the wire next.
    pub fn piece_filled(&mut self, inf: InFlightUpload)
        requires
            old(self).wf(),
            old(self).active is None,
            !old(self).pieces@.contains(inf.block),
            old(self).pending() < old(self).piece_max,
        ensures
            final(self).wf(),
            final(self).active == Some(inf),
            final(self).ctrl@ == old(self).ctrl@,
            final(self).pieces@ == old(self).pieces@,
            final(self).piece_max == old(self).piece_max,
            final(self).keepalive_queued == old(self).keepalive_queued,
            final(self).weight() == old(self).weight() + 1,
    {
        self.active = Some(inf);
    }

    /// A block could not be read. It is tried once more where its file was not found;
    /// otherwise it is refused and the peer is kept. The round goes on while anything is left
    /// to send: a queued refusal goes out before further blocks are read.
    pub fn fill_failed(
        &mut self,
        block: UploadBlock,
        not_found: bool,
        first_try: bool,
        round: &SendRound,
        ctrl: &mut CtrlScratch,
    ) -> (r: AfterFill)
        requires
            old(self).wf(),
            old(self).active is None,
        ensures
            final(self).wf(),
            r == if not_found && first_try {
                AfterFill::Retry
            } else if round.fast_enabled || old(self).work_left() {
                AfterFill::Continue
            } else {
                AfterFill::Finish(round.spec_outcome())
            },
            frames(final(self).ctrl) == if round.fast_enabled && !(not_found && first_try) {
                with_frame(
                    frames(old(self).ctrl),
                    encoded(
                        MessageView::RejectRequest {
                            index: block.index,
                            begin: block.begin,
                            length: block.length,
                        },
                    ),
                )
            } else {
                frames(old(self).ctrl)
            },
            final(self).pieces@ == old(self).pieces@,
            final(self).active is None,
            final(self).piece_max == old(self).piece_max,
            final(self).keepalive_queued == old(self).keepalive_queued,
            r is Finish ==> !final(self).work_left(),
            r is Continue ==> final(self).work_left(),
            final(self).weight() <= old(self).weight() + 1,
    {
        if not_found && first_try {
            return AfterFill::Retry;
        }
        let ghost before = frames(self.ctrl);
        self.push_reject(block, round.fast_enabled, ctrl);
        assert(frames(self.ctrl).len() == self.ctrl@.len());
        assert(before.len() == old(self).ctrl@.len());
        if self.has_work() {
            AfterFill::Continue
        } else {
            AfterFill::Finish(round.outcome())
        }
    }

    /// `got` bytes of the block's length were granted by the upload limit, which would
    /// grant the rest after `wait_nanos`. The block goes out only where all was granted.
    pub fn reserved(&mut self, got: u64, wait_nanos: u64, round: &SendRound) -> (r: AfterReserve)
        requires
            old(self).wf(),
            old(self).active is Some,
            !old(self).active->0.on_wire(),
        ensures
            final(self).wf(),
            ({
                let inf = old(self).active->0;
                if got < inf.block.length {
                    &&& r == (AfterReserve::Wait {
                        refund: got,
                        outcome: SendOutcome {
                            kind: OutProgress::RateLimited(
                                if wait_nanos == 0 {
                                    MIN_RATE_WAIT_NANOS
                                } else {
                                    wait_nanos
                                },
                            ),
                            wrote: round.wrote,
                        },
                    })
                    &&& final(self).active == old(self).active
                } else {
                    &&& r is Write
                    &&& final(self).active == Some(
                        InFlightUpload { rate_reserved: inf.block.length as u64, ..inf },
                    )
                }
            }),
            final(self).ctrl@ == old(self).ctrl@,
            final(self).pieces@ == old(self).pieces@,
            final(self).piece_max == old(self).piece_max,
            final(self).keepalive_queued == old(self).keepalive_queued,
    {
        match self.active {
            Some(inf) => {
                let need: u64 = inf.block.length as u64;
                if got < need {
                    return AfterReserve::Wait {
                        refund: got,
                        outcome: SendOutcome {
                            kind: OutProgress::RateLimited(
                                if wait_nanos == 0 {
                                    MIN_RATE_WAIT_NANOS
                                } else {
                                    wait_nanos
                                },
                            ),
                            wrote: round.wrote,
                        },
                    };
                }
                self.active = Some(InFlightUpload { rate_reserved: need, ..inf });
                AfterReserve::Write
            },
            None => AfterReserve::Write,
        }
    }

    /// The PIECE is on the wire whole, with `payload` bytes of block. Gives the allowance
    /// that was reserved and not used.
    pub fn piece_written(&mut self, payload: u64, round: &mut SendRound) -> (refund: u64)
        requires
            old(self).wf(),
            old(self).active is Some,
        ensures
            final(self).wf(),
            *final(round) == (SendRound { wrote: true, ..*old(round) }),
            refund == if old(self).active->0.rate_reserved > payload {
                old(self).active->0.rate_reserved - payload
            } else {
                0
            },
            final(self).active is None,
            final(self).ctrl@ == old(self).ctrl@,
            final(self).pieces@ == old(self).pieces@,
            final(self).piece_max == old(self).piece_max,
            final(self).keepalive_queued == old(self).keepalive_queued,
            final(self).weight() < old(self).weight(),
    {
        let reserved: u64 = match self.active {
            Some(inf) => inf.rate_reserved,
            None => 0,
        };
        self.active = None;
        round.wrote = true;
        if reserved > payload {
            reserved - payload
        } else {
            0
        }
    }
}

/// The error that ends a connection when a PIECE could not be written. Bytes may be on the
/// wire, so the frame is not taken back.
pub fn upload_write_error(block: UploadBlock, cause: &str) -> (e: Error)
    ensures
        e is Msg,
        e.text() == "upload write failed piece="@ + decimal(block.index as nat) + " begin="@
            + decimal(block.begin as nat) + ": "@ + cause@,
{
    let mut m = String::new();
    m.append("upload write failed piece=");
    push_decimal(&mut m, block.index as u64);
    m.append(" begin=");
    push_decimal(&mut m, block.begin as u64);
    m.append(": ");
    m.append(cause);
    assert(m@ =~= "upload write failed piece="@ + decimal(block.index as nat) + " begin="@
        + decimal(block.begin as nat) + ": "@ + cause@);
    Error::Msg(m)
}

/// The bytes of frames follow one another, and small frames are joined up to 64 KiB.
pub proof fn frames_follow_one_another(a: Seq<Seq<u8>>, b: Seq<Seq<u8>>, plain: Seq<u8>)
    ensures
        flat(Seq::<Seq<u8>>::empty()) == Seq::<u8>::empty(),
        forall|f: Seq<u8>| #[trigger] flat(seq![f]) == f,
        flat(a + b) == flat(a) + flat(b),
        with_frame(a, plain).len() <= a.len() + 1,
        a.len() > 0 && plain.len() > 0 && a.last().len() + plain.len() <= 65_536 ==> with_frame(
            a,
            plain,
        ).len() == a.len(),
        a.len() > 0 && plain.len() > 0 && a.last().len() + plain.len() > 65_536 ==> with_frame(
            a,
            plain,
        ) == a.push(plain),
    decreases b.len(),
{
    assert forall|f: Seq<u8>| #[trigger] flat(seq![f]) == f by {
        assert(seq![f].drop_last() =~= Seq::<Seq<u8>>::empty());
        assert(flat(seq![f].drop_last()) =~= Seq::<u8>::empty());
        assert(flat(seq![f]) =~= f);
    }
    if b.len() == 0 {
        assert(a + b =~= a);
        assert(flat(a) + flat(b) =~= flat(a));
    } else {
        frames_follow_one_another(a, b.drop_last(), plain);
        assert((a + b).drop_last() =~= a + b.drop_last());
        assert(flat(a + b) =~= flat(a) + flat(b));
    }
}

/// A block that is withdrawn is no longer queued, and the others stay in their order.
pub proof fn a_withdrawn_block_is_gone(
    pieces: Seq<UploadBlock>,
    block: UploadBlock,
    other: UploadBlock,
)
    requires
        pieces.no_duplicates(),
    ensures
        !without_block(pieces, block).contains(block),
        other != block ==> without_block(pieces, block).contains(other) == pieces.contains(other),
        !pieces.contains(block) ==> without_block(pieces, block) == pieces,
        pieces.contains(block) ==> without_block(pieces, block).len() == pieces.len() - 1 && {
            let at = pieces.index_of(block);
            &&& without_block(pieces, block).subrange(0, at) == pieces.subrange(0, at)
            &&& without_block(pieces, block).subrange(at, pieces.len() - 1) == pieces.subrange(
                at + 1,
                pieces.len() as int,
            )
        },
{
    let r = without_block(pieces, block);
    if pieces.contains(block) {
        let at = pieces.index_of(block);
        assert(pieces[at] == block);
        assert(r =~= pieces.subrange(0, at) + pieces.subrange(at + 1, pieces.len() as int));
        assert(r.subrange(0, at) =~= pieces.subrange(0, at));
        assert(r.subrange(at, pieces.len() - 1) =~= pieces.subrange(at + 1, pieces.len() as int));
        if r.contains(block) {
            let j = choose|j: int| 0 <= j < r.len() && r[j] == block;
            if j < at {
                assert(pieces[j] == block);
            } else {
                assert(pieces[j + 1] == block);
            }
        }
        if other != block {
            if pieces.contains(other) {
                let j = choose|j: int| 0 <= j < pieces.len() && pieces[j] == other;
                if j < at {
                    assert(r[j] == other);
                } else {
                    assert(r[j - 1] == other);
                }
            }
            if r.contains(other) {
                let j = choose|j: int| 0 <= j < r.len() && r[j] == other;
                if j < at {
                    assert(pieces[j] == other);
                } else {
                    assert(pieces[j + 1] == other);
                }
            }
        }
    }
}

/// A block that has begun to go out is finished, whatever happens; before that it is dropped
/// where it is withdrawn and where nothing is served any more. Nothing queued is served then.
pub proof fn a_begun_block_is_finished(q: &OutQueue, inf: InFlightUpload, block: UploadBlock)
    requires
        q.active == Some(inf),
    ensures
        inf.state->sent > 0 || inf.cipher_applied ==> q.kept_active(false) == Some(inf)
            && !drops_active(q.active, block),
        inf.state->sent == 0 && !inf.cipher_applied ==> q.kept_active(false) is None && (
        drops_active(q.active, block) <==> inf.block == block),
        q.kept_active(true) == Some(inf),
        q.kept_pieces(true) == q.pieces@,
        q.kept_pieces(false).len() == 0,
        q.work_left(),
        q.pending() == q.pieces@.len() + 1,
        active_block(q.active) == Some(inf.block),
{
}

/// There is work exactly while a block is on the wire or something is queued, and a round that
/// wrote nothing was idle.
pub proof fn work_is_what_is_queued(q: &OutQueue, round: SendRound)
    ensures
        q.ctrl@.len() > 0 ==> q.work_left(),
        q.pieces@.len() > 0 ==> q.work_left(),
        q.active is None && q.ctrl@.len() == 0 && q.pieces@.len() == 0 ==> !q.work_left(),
        q.active is None ==> q.pending() == q.pieces@.len() && q.kept_active(true) is None,
        round.wrote ==> round.spec_outcome() == (SendOutcome {
            kind: OutProgress::Progress,
            wrote: true,
        }),
        !round.wrote ==> round.spec_outcome() == (SendOutcome {
            kind: OutProgress::Idle,
            wrote: false,
        }),
{
}

} // verus!
