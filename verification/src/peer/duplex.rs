//! The two halves of a connection: what the reading half hands to the writing half, and
//! what each does next.
//!
//! Times are in nanoseconds.
use crate::bitfield::{bit, bitfield_get, bytes_for, empty_bitfield};
use crate::bytes::be32;
use crate::hot::{recounted, HotTorrent, PeerAvailability};
use crate::peer::config::PeerConfig;
use crate::peer::ctrl_scratch::CtrlScratch;
use crate::peer::download::{cancel_messages, PeerDownload, PeerPicks};
use crate::peer::established::{
    encode_our_pieces, our_pieces, PeerSession,
};
use crate::peer::helpers::{
    enqueue_have_messages_from, haves, with_first, KEEPALIVE_INTERVAL,
    REQUEST_STALL, REQUEST_STALL_ENDGAME, SECOND,
};
use crate::peer::out_queue::{
    a_withdrawn_block_is_gone, active_block, drops_active, flat, frames,
    queueing_appends_to_the_stream, with_frame, without_block, OutProgress, OutQueue,
};
use crate::runtime::pipeline::{
    adapt_pipeline, adapted, clamp_initial_pipeline, clamped, PipelineAdaptOutcome,
    PipelineAdaptState, PipelineTuning, MIN_PIPELINE,
};
use crate::staging::piece_pool::PieceBufferPool;
use crate::staging::pool::{
    cleared, hashing, in_endgame, only_hashed_pieces_are_left, pending_all, requeued, SlotView,
    StagingPool,
};
use crate::upload::queue::{UploadBlock, MAX_REQUEST_LENGTH};
use crate::wire::fast::FastSession;
use crate::wire::messages::{
    encoded, encoded_all, fixed_messages_have_the_bytes_of_the_protocol, MessageView,
};
use vstd::prelude::*;

verus! {

/// Command from the reading half to the writing half.
#[derive(Debug)]
pub enum WriterMsg {
    /// Bytes of control frames, before encryption.
    Ctrl(Vec<u8>),
    /// A block that the peer asked for.
    Upload(UploadBlock),
    /// A block that the peer no longer wants.
    Cancel(UploadBlock),
    /// The peer wants no block any longer.
    ClearPieces,
    /// The reading half is done.
    ReaderDone,
}

/// A [`WriterMsg`] with its bytes as a sequence.
pub enum WriterView {
    Ctrl(Seq<u8>),
    Upload(UploadBlock),
    Cancel(UploadBlock),
    ClearPieces,
    ReaderDone,
}

impl View for WriterMsg {
    type V = WriterView;

    open spec fn view(&self) -> WriterView {
        match self {
            WriterMsg::Ctrl(b) => WriterView::Ctrl(b@),
            WriterMsg::Upload(b) => WriterView::Upload(*b),
            WriterMsg::Cancel(b) => WriterView::Cancel(*b),
            WriterMsg::ClearPieces => WriterView::ClearPieces,
            WriterMsg::ReaderDone => WriterView::ReaderDone,
        }
    }
}

/// Commands with control bytes behind them; no bytes make no command.
pub open spec fn with_ctrl(msgs: Seq<WriterView>, plain: Seq<u8>) -> Seq<WriterView> {
    if plain.len() == 0 {
        msgs
    } else {
        msgs.push(WriterView::Ctrl(plain))
    }
}

/// Commands for the writing half, in the order in which they are to be carried out.
#[derive(Debug)]
pub struct OutCmd {
    msgs: Vec<WriterMsg>,
    ctrl: CtrlScratch,
}

impl View for OutCmd {
    type V = Seq<WriterView>;

    closed spec fn view(&self) -> Seq<WriterView> {
        self.msgs@.map_values(|m: WriterMsg| m@)
    }
}

impl OutCmd {
    /// No commands.
    pub fn new() -> (o: OutCmd)
        ensures
            o@ == Seq::<WriterView>::empty(),
    {
        let o = OutCmd { msgs: Vec::new(), ctrl: CtrlScratch::new() };
        assert(o@ =~= Seq::<WriterView>::empty());
        o
    }

    fn push(&mut self, m: WriterMsg)
        ensures
            final(self)@ == old(self)@.push(m@),
    {
        self.msgs.push(m);
        assert(self@ =~= old(self)@.push(m@));
    }

    /// Hand the commands out.
    pub fn take_msgs(&mut self) -> (r: Vec<WriterMsg>)
        ensures
            r@.map_values(|m: WriterMsg| m@) == old(self)@,
            final(self)@ == Seq::<WriterView>::empty(),
    {
        let mut r: Vec<WriterMsg> = Vec::new();
        std::mem::swap(&mut r, &mut self.msgs);
        assert(self@ =~= Seq::<WriterView>::empty());
        r
    }

    /// The reading half is done.
    pub fn reader_done(&mut self)
        ensures
            final(self)@ == old(self)@.push(WriterView::ReaderDone),
    {
        self.push(WriterMsg::ReaderDone);
    }

    /// Send control bytes.
    pub fn push_ctrl_owned(&mut self, plain: Vec<u8>)
        ensures
            final(self)@ == with_ctrl(old(self)@, plain@),
    {
        if plain.len() == 0 {
            return;
        }
        self.push(WriterMsg::Ctrl(plain));
    }

    /// Tell the peer that we want its pieces.
    pub fn push_interested(&mut self)
        ensures
            final(self)@ == old(self)@.push(WriterView::Ctrl(encoded(MessageView::Interested))),
    {
        self.ctrl.clear();
        self.ctrl.append_interested();
        let frame = self.ctrl.take();
        assert(frame@ =~= encoded(MessageView::Interested));
        self.push_ctrl_owned(frame);
    }

    /// Tell the peer that we want none of its pieces.
    pub fn push_not_interested(&mut self)
        ensures
            final(self)@ == old(self)@.push(WriterView::Ctrl(encoded(MessageView::NotInterested))),
    {
        self.ctrl.clear();
        self.ctrl.append_not_interested();
        let frame = self.ctrl.take();
        assert(frame@ =~= encoded(MessageView::NotInterested));
        self.push_ctrl_owned(frame);
    }

    /// Refuse a request.
    pub fn push_reject(&mut self, index: u32, begin: u32, length: u32)
        ensures
            final(self)@ == old(self)@.push(
                WriterView::Ctrl(encoded(MessageView::RejectRequest { index, begin, length })),
            ),
    {
        self.ctrl.clear();
        self.ctrl.append_reject_request(index, begin, length);
        let frame = self.ctrl.take();
        assert(frame@ =~= encoded(MessageView::RejectRequest { index, begin, length }));
        self.push_ctrl_owned(frame);
    }

    /// Serve a block.
    pub fn try_push_piece(&mut self, block: UploadBlock)
        ensures
            final(self)@ == old(self)@.push(WriterView::Upload(block)),
    {
        self.push(WriterMsg::Upload(block));
    }

    /// Do not serve a block after all.
    pub fn cancel_piece(&mut self, block: UploadBlock)
        ensures
            final(self)@ == old(self)@.push(WriterView::Cancel(block)),
    {
        self.push(WriterMsg::Cancel(block));
    }

    /// Serve none of the blocks that were asked for.
    pub fn clear_pieces(&mut self)
        ensures
            final(self)@ == old(self)@.push(WriterView::ClearPieces),
    {
        self.push(WriterMsg::ClearPieces);
    }
}

// ---------------------------------------------------------------------------
// The reading half.
// ---------------------------------------------------------------------------

/// Time after which a choked peer is told again that we want its pieces.
pub const INTERESTED_AGAIN: u64 = 45 * SECOND;

/// Time to wait for a hashed piece where nothing else can come.
pub const HASH_WAIT: u64 = 5 * SECOND;

/// Time that the last commands may take to be sent.
pub const FINAL_FLUSH: u64 = 2 * SECOND;

/// Most bytes that are read at a time.
pub const WIRE_READ_CHUNK: usize = 65_536;

/// The reading half of a connection.
#[derive(Debug)]
pub struct ReaderState {
    pub session: PeerSession,
    /// Whether the peer was told that we want its pieces.
    pub am_interested: bool,
    /// Whether the peer was told that we no longer do.
    pub sent_not_interested: bool,
    /// When the peer was last told that we want its pieces.
    pub last_interested: u64,
    /// Depth of the pipeline at first.
    pub pipe_initial: usize,
    pub pipe: PipelineAdaptState,
    pub tuning: PipelineTuning,
    /// Whether the peer knows the Fast extension.
    pub peer_fast: bool,
}

/// How a turn of the reading half begins.
#[derive(Debug, Clone, Copy, PartialEq, Eq, Structural)]
pub enum TurnStart {
    /// Go on; first ask for blocks where `issue` is set.
    Go { issue: bool },
    /// Wait a while for the pieces that are being hashed, then leave.
    DrainThenExit,
    /// Take the hashed pieces that are there, then leave.
    Exit,
}

/// What the reading half waits for.
#[derive(Debug, Clone, Copy, PartialEq, Eq, Structural)]
pub enum ReaderNext {
    /// Whole messages are there: carry them out.
    Parse,
    /// Nothing can come but a hashed piece: wait for one, at most [`HASH_WAIT`].
    AwaitHash,
    /// Read from the peer, at most until the given time.
    Read { stall_deadline: Option<u64> },
}

/// Length of the buffers for a torrent's pieces.
pub open spec fn pool_piece_length(t: &HotTorrent) -> u32 {
    if t.spec_piece_length() == 0 {
        1
    } else {
        t.spec_piece_length()
    }
}

/// Commands that withdraw every unanswered request.
pub open spec fn with_cancels(out: Seq<WriterView>, slots: Seq<SlotView>) -> Seq<WriterView> {
    with_ctrl(out, encoded_all(cancel_messages(pending_all(slots))))
}

/// Time without a block after which requests are asked anew.
pub open spec fn stall_time(endgame: bool) -> u64 {
    if endgame {
        REQUEST_STALL_ENDGAME
    } else {
        REQUEST_STALL
    }
}

/// Whether a time of `wait` has passed since `since`.
pub open spec fn passed(since: u64, now: u64, wait: u64) -> bool {
    now - since >= wait
}

fn has_passed(since: u64, now: u64, wait: u64) -> (r: bool)
    ensures
        r == passed(since, now, wait),
{
    if now >= since {
        now - since >= wait
    } else {
        false
    }
}

/// The connection fetches again: it starts as at first, and the peer is told.
pub open spec fn reopened(
    r0: ReaderState,
    t0: HotTorrent,
    r1: ReaderState,
    t1: HotTorrent,
    now: u64,
) -> bool {
    let s0 = r0.session;
    let s1 = r1.session;
    &&& r1.am_interested
    &&& !r1.sent_not_interested
    &&& r1.last_interested == now
    &&& r1.pipe_initial == r0.pipe_initial
    &&& r1.tuning == r0.tuning
    &&& r1.peer_fast == r0.peer_fast
    &&& r1.pipe == PipelineAdaptState::fresh(r0.pipe_initial, &r0.tuning, now)
    &&& s1.out@ == s0.out@.push(WriterView::Ctrl(encoded(MessageView::Interested)))
    &&& s1.dl.pipeline == r0.pipe_initial
    &&& s1.dl.picks == (PeerPicks { endgame: false, ..s0.dl.picks })
    &&& s1.dl.staging == s0.dl.staging
    &&& s1.last_piece_at == now
    &&& s1.last_useful_at == s0.last_useful_at
    &&& s1.fast == s0.fast
    &&& s1.peer_interested == s0.peer_interested
    &&& s1.wire_down == s0.wire_down
    &&& s1.client_label == s0.client_label
    &&& s1.jobs == s0.jobs
    &&& match s0.dl.peer_avail {
        Some(_) => s1.dl.peer_avail == s0.dl.peer_avail && t1 == t0,
        None => s1.dl.peer_avail matches Some(a) && t1.same_but_avail(&t0) && (forall|i: u32|
            #[trigger] a.counts(i) == (i < t0.piece_count && crate::bitfield::bit(
                s0.dl.picks.peer_bf@,
                i as int,
            ))) && (forall|i: u32| #[trigger]
            t1.availability(i) == recounted(
                t0.availability(i),
                false,
                i < t0.piece_count && crate::bitfield::bit(s0.dl.picks.peer_bf@, i as int),
            )),
    }
}

/// The connection fetches no longer: requests are withdrawn, pieces under assembly are
/// dropped, and the peer is told. A peer that we serve is told of our pieces anew.
pub open spec fn closed_download(
    r0: ReaderState,
    r1: ReaderState,
    t: &HotTorrent,
    allow_upload: bool,
) -> bool {
    let s0 = r0.session;
    let s1 = r1.session;
    let told = with_cancels(s0.out@, s0.dl.staging.slots()).push(
        WriterView::Ctrl(encoded(MessageView::NotInterested)),
    );
    &&& !r1.am_interested
    &&& r1.sent_not_interested
    &&& r1.last_interested == r0.last_interested
    &&& r1.pipe_initial == r0.pipe_initial
    &&& r1.pipe == r0.pipe
    &&& r1.tuning == r0.tuning
    &&& r1.peer_fast == r0.peer_fast
    &&& s1.same_flags(&s0)
    &&& s1.dl.picks == s0.dl.picks
    &&& s1.dl.pipeline == s0.dl.pipeline
    &&& s1.dl.peer_avail == s0.dl.peer_avail
    &&& s1.dl.staging.same_peer(&s0.dl.staging)
    &&& s1.dl.staging.slots() == hashing(s0.dl.staging.slots())
    &&& s1.out@ == if allow_upload {
        with_ctrl(told, encoded(our_pieces(t, r0.peer_fast)))
    } else {
        told
    }
}

impl ReaderState {
    /// Validity together with the torrent and its buffers.
    pub open spec fn wf(&self, t: &HotTorrent, bufs: &PieceBufferPool) -> bool {
        self.session.wf(t, bufs)
    }

    /// Both sides have every piece.
    pub open spec fn both_complete(&self, t: &HotTorrent) -> bool {
        forall|i: u32|
            i < t.piece_count ==> #[trigger] t.has(i) && bit(
                self.session.dl.picks.peer_bf@,
                i as int,
            )
    }

    /// When something was last transferred, either way.
    pub open spec fn last_transfer(&self, last_sent: u64) -> u64 {
        if self.session.last_useful_at > last_sent {
            self.session.last_useful_at
        } else {
            last_sent
        }
    }

    /// When the peer is left if nothing is transferred till then. Bytes were last sent to it
    /// at `last_sent`.
    pub fn idle_deadline(&self, t: &HotTorrent, cfg: &PeerConfig, last_sent: u64) -> (r: Option<
        u64,
    >)
        requires
            t.wf(),
        ensures
            r == cfg.left_at(self.both_complete(t), self.last_transfer(last_sent)),
    {
        let mut both: bool = true;
        let mut i: u32 = 0;
        while both && i < t.piece_count
            invariant
                t.wf(),
                i <= t.piece_count,
                both ==> forall|j: u32|
                    j < i ==> #[trigger] t.has(j) && bit(
                        self.session.dl.picks.peer_bf@,
                        j as int,
                    ),
                !both ==> !self.both_complete(t),
            decreases t.piece_count - i,
        {
            both = t.has_piece(i) && bitfield_get(self.session.dl.picks.peer_bf.as_slice(), i);
            i += 1;
        }
        let last: u64 = if self.session.last_useful_at > last_sent {
            self.session.last_useful_at
        } else {
            last_sent
        };
        cfg.idle_deadline(both, last)
    }

    /// Whether the peer is to be left because nothing was transferred for long enough.
    pub fn is_idle(&self, t: &HotTorrent, cfg: &PeerConfig, last_sent: u64, now: u64) -> (r: bool)
        requires
            t.wf(),
        ensures
            r == match cfg.left_at(self.both_complete(t), self.last_transfer(last_sent)) {
                Some(at) => now >= at,
                None => false,
            },
    {
        match self.idle_deadline(t, cfg, last_sent) {
            Some(at) => now >= at,
            None => false,
        }
    }

    /// The same but for the session.
    pub open spec fn same_but_session(&self, r: &ReaderState) -> bool {
        &&& self.am_interested == r.am_interested
        &&& self.sent_not_interested == r.sent_not_interested
        &&& self.last_interested == r.last_interested
        &&& self.pipe_initial == r.pipe_initial
        &&& self.pipe == r.pipe
        &&& self.tuning == r.tuning
        &&& self.peer_fast == r.peer_fast
    }

    /// The reading half after the handshake. Says whether to ask for blocks at once.
    /// `want_download` says that we fetch from the peer.
    pub fn new(
        t: &HotTorrent,
        bufs: &PieceBufferPool,
        cfg: &PeerConfig,
        want_download: bool,
        fast: FastSession,
        client_label: String,
        now: u64,
    ) -> (r: (ReaderState, bool))
        requires
            t.wf(),
            bufs.wf(),
            bufs.spec_piece_length() == pool_piece_length(t),
        ensures
            r.0.wf(t, bufs),
            ({
                let s = r.0.session;
                &&& s.out@ == Seq::<WriterView>::empty()
                &&& s.jobs@.len() == 0
                &&& s.fast == fast
                &&& !s.peer_interested
                &&& s.last_piece_at == now
                &&& s.last_useful_at == now
                &&& s.wire_down == 0
                &&& s.client_label == client_label
                &&& s.dl.picks.peer_bf@ == Seq::new(
                    bytes_for(t.piece_count as int) as nat,
                    |i: int| 0u8,
                )
                &&& s.dl.picks.suggested@.len() == 0
                &&& s.dl.picks.hashing@.is_empty()
                &&& forall|i: u32| !(#[trigger] s.dl.picks.claims.holds(i))
                &&& s.dl.picks.peer_choking
                &&& s.dl.picks.allowed_fast@.is_empty()
                &&& !s.dl.picks.endgame
                &&& s.dl.staging.slots().len() == 0
                &&& s.dl.staging.leeches() == want_download
                &&& s.dl.pipeline == if want_download {
                    r.0.pipe_initial
                } else {
                    0
                }
                &&& s.dl.peer_avail is Some == want_download
                &&& s.dl.peer_avail matches Some(a) ==> forall|i: u32| !(#[trigger] a.counts(i))
            }),
            r.0.am_interested == want_download,
            !r.0.sent_not_interested,
            r.0.last_interested == now,
            r.0.pipe_initial == clamped(
                cfg.pipeline as int,
                MIN_PIPELINE as int,
                r.0.tuning.max as int,
            ),
            r.0.pipe == PipelineAdaptState::fresh(r.0.pipe_initial, &r.0.tuning, now),
            r.0.tuning == PipelineTuning::usual(cfg.pipeline_max),
            r.0.peer_fast == fast.enabled,
            r.1 == (want_download && r.0.session.dl.may_request()),
    {
        let tuning = PipelineTuning::with_max(cfg.pipeline_max);
        let pipe_initial: usize = clamp_initial_pipeline(cfg.pipeline, tuning.max);
        let staging: StagingPool = if want_download {
            StagingPool::from_pool(bufs)
        } else {
            StagingPool::empty(t.layout().piece_length)
        };
        let depth: usize = if want_download {
            pipe_initial
        } else {
            0
        };
        let avail: Option<PeerAvailability> = if want_download {
            Some(PeerAvailability::new(t))
        } else {
            None
        };
        let dl = PeerDownload::new(empty_bitfield(t.piece_count), staging, depth, avail);
        let issue: bool = want_download && dl.can_request();
        let peer_fast: bool = fast.enabled;
        let session = PeerSession::new(dl, fast, client_label, now);
        (
            ReaderState {
                session,
                am_interested: want_download,
                sent_not_interested: false,
                last_interested: now,
                pipe_initial,
                pipe: PipelineAdaptState::new(pipe_initial, &tuning, now),
                tuning,
                peer_fast,
            },
            issue,
        )
    }

    fn reopen(&mut self, t: &mut HotTorrent, bufs: &PieceBufferPool, now: u64)
        requires
            old(self).wf(old(t), bufs),
        ensures
            final(self).wf(final(t), bufs),
            reopened(*old(self), *old(t), *final(self), *final(t), now),
    {
        let ghost t0 = *t;
        proof {
            t0.same_but_avail_facts(&t0, &t0);
        }
        match &self.session.dl.peer_avail {
            Some(_) => {},
            None => {
                let mut a = PeerAvailability::new(&*t);
                a.on_bitfield(t, self.session.dl.picks.peer_bf.as_slice());
                self.session.dl.peer_avail = Some(a);
            },
        }
        self.session.dl.pipeline = self.pipe_initial;
        self.pipe = PipelineAdaptState::new(self.pipe_initial, &self.tuning, now);
        self.session.out.push_interested();
        self.last_interested = now;
        self.session.last_piece_at = now;
        self.am_interested = true;
        self.sent_not_interested = false;
        self.session.dl.picks.endgame = false;
    }

    fn close_download(&mut self, t: &HotTorrent, bufs: &mut PieceBufferPool, allow_upload: bool)
        requires
            old(self).wf(t, old(bufs)),
        ensures
            final(self).wf(t, final(bufs)),
            cleared(
                &old(self).session.dl.staging,
                old(bufs),
                &final(self).session.dl.staging,
                final(bufs),
            ),
            closed_download(*old(self), *final(self), t, allow_upload),
            forall|others: nat| #[trigger]
                old(self).session.dl.staging.covered(old(bufs), others)
                    ==> final(self).session.dl.staging.covered(final(bufs), others),
    {
        let any: bool = self.session.dl.cancel_outstanding(&mut self.session.out);
        self.session.dl.staging.clear(bufs);
        self.session.out.push_not_interested();
        self.am_interested = false;
        self.sent_not_interested = true;
        if allow_upload {
            let frame = encode_our_pieces(t, self.peer_fast);
            self.session.out.push_ctrl_owned(frame);
        }
    }

    /// Begin a turn: take up or give up fetching where the torrent's state asks for it, and
    /// leave where neither side has anything to fetch.
    pub fn begin_turn(
        &mut self,
        t: &mut HotTorrent,
        bufs: &mut PieceBufferPool,
        cfg: &PeerConfig,
        downloading: bool,
        now: u64,
    ) -> (r: TurnStart)
        requires
            old(self).wf(old(t), old(bufs)),
        ensures
            final(self).wf(final(t), final(bufs)),
            final(bufs).same_pool(old(bufs)),
            ({
                let opens = downloading && !old(self).am_interested;
                let closes = !downloading && old(self).am_interested && !old(
                    self,
                ).sent_not_interested;
                &&& r == if opens {
                    TurnStart::Go { issue: true }
                } else if !downloading && !cfg.allow_upload {
                    if closes {
                        TurnStart::DrainThenExit
                    } else {
                        TurnStart::Exit
                    }
                } else {
                    TurnStart::Go { issue: false }
                }
                &&& opens ==> reopened(*old(self), *old(t), *final(self), *final(t), now)
                &&& closes ==> closed_download(*old(self), *final(self), old(t), cfg.allow_upload)
                    && *final(t) == *old(t)
                &&& !opens && !closes ==> *final(self) == *old(self) && *final(t) == *old(t)
                // Buffers go back only where fetching is given up.
                &&& closes ==> cleared(
                    &old(self).session.dl.staging,
                    old(bufs),
                    &final(self).session.dl.staging,
                    final(bufs),
                )
                &&& !closes ==> *final(bufs) == *old(bufs)
            }),
            // The buffers out still cover the assembling pieces.
            forall|others: nat| #[trigger]
                old(self).session.dl.staging.covered(old(bufs), others)
                    ==> final(self).session.dl.staging.covered(final(bufs), others),
    {
        if downloading && !self.am_interested {
            self.reopen(t, &*bufs, now);
            return TurnStart::Go { issue: true };
        }
        if self.am_interested && !downloading && !self.sent_not_interested {
            self.close_download(&*t, bufs, cfg.allow_upload);
            if !cfg.allow_upload {
                return TurnStart::DrainThenExit;
            }
        }
        if !downloading && !cfg.allow_upload {
            return TurnStart::Exit;
        }
        TurnStart::Go { issue: false }
    }

    /// Fit the pipeline to the rate at which the peer sends. Says whether to ask for more
    /// blocks.
    pub fn adapt(&mut self, now: u64) -> (fill: bool)
        ensures
            ({
                let r = old(self);
                let (pipe, outcome) = adapted(r.pipe, r.session.wire_down, now, &r.tuning);
                &&& fill == (outcome is Grew)
                &&& *final(self) == (ReaderState {
                    session: PeerSession {
                        dl: PeerDownload {
                            pipeline: match outcome {
                                PipelineAdaptOutcome::Grew { pipeline } => pipeline,
                                PipelineAdaptOutcome::Shrank { pipeline } => pipeline,
                                PipelineAdaptOutcome::Unchanged => r.session.dl.pipeline,
                            },
                            ..r.session.dl
                        },
                        ..r.session
                    },
                    pipe,
                    ..*r
                })
            }),
    {
        let wire_down: u64 = self.session.wire_down;
        match adapt_pipeline(&mut self.pipe, wire_down, now, &self.tuning) {
            PipelineAdaptOutcome::Grew { pipeline } => {
                self.session.dl.pipeline = pipeline;
                true
            },
            PipelineAdaptOutcome::Shrank { pipeline } => {
                self.session.dl.pipeline = pipeline;
                false
            },
            PipelineAdaptOutcome::Unchanged => false,
        }
    }

    /// Forget every unanswered request, after withdrawing it.
    fn ask_anew(&mut self, t: &HotTorrent, bufs: &PieceBufferPool)
        requires
            old(self).wf(t, bufs),
        ensures
            final(self).wf(t, bufs),
            final(self).same_but_session(old(self)),
            final(self).session.same_flags(&old(self).session),
            final(self).session.dl.same_but_staging(&old(self).session.dl),
            final(self).session.out@ == with_cancels(
                old(self).session.out@,
                old(self).session.dl.staging.slots(),
            ),
            final(self).session.dl.staging.slots() == old(
                self,
            ).session.dl.staging.slots().map_values(|s: SlotView| requeued(s)),
            final(self).session.dl.pending() == 0,
    {
        let any: bool = self.session.dl.cancel_outstanding(&mut self.session.out);
        self.session.dl.staging.requeue_timed_out();
    }

    /// Begin the endgame, where the torrent has come to it: blocks that other peers are
    /// fetching are asked for too. Says whether to ask for more blocks.
    pub fn try_endgame(
        &mut self,
        t: &HotTorrent,
        bufs: &PieceBufferPool,
        should_endgame: bool,
    ) -> (fill: bool)
        requires
            old(self).wf(t, bufs),
        ensures
            final(self).wf(t, bufs),
            fill == (should_endgame && !old(self).session.dl.picks.endgame),
            !fill ==> *final(self) == *old(self),
            fill ==> {
                let slots = old(self).session.dl.staging.slots().map_values(
                    |s: SlotView| in_endgame(s),
                );
                &&& final(self).same_but_session(old(self))
                &&& final(self).session.same_flags(&old(self).session)
                &&& final(self).session.dl.picks == (PeerPicks {
                    endgame: true,
                    ..old(self).session.dl.picks
                })
                &&& final(self).session.dl.pipeline == old(self).session.dl.pipeline
                &&& final(self).session.dl.peer_avail == old(self).session.dl.peer_avail
                &&& final(self).session.out@ == with_cancels(old(self).session.out@, slots)
                &&& final(self).session.dl.staging.slots() == slots.map_values(
                    |s: SlotView| requeued(s),
                )
            },
    {
        if self.session.dl.picks.endgame || !should_endgame {
            return false;
        }
        self.session.dl.picks.endgame = true;
        self.session.dl.staging.enable_endgame();
        self.ask_anew(t, bufs);
        true
    }

    /// Tell a peer that chokes us again that we want its pieces, from time to time.
    pub fn renew_interest(&mut self, now: u64) -> (told: bool)
        ensures
            told == (old(self).am_interested && old(self).session.dl.picks.peer_choking && now - old(
                self,
            ).last_interested > INTERESTED_AGAIN),
            !told ==> *final(self) == *old(self),
            told ==> {
                &&& final(self).session.out@ == old(self).session.out@.push(
                    WriterView::Ctrl(encoded(MessageView::Interested)),
                )
                &&& *final(self) == (ReaderState {
                    last_interested: now,
                    session: PeerSession {
                        out: final(self).session.out,
                        ..old(self).session
                    },
                    ..*old(self)
                })
            },
    {
        if self.am_interested && self.session.dl.picks.peer_choking && now > self.last_interested
            && now - self.last_interested > INTERESTED_AGAIN {
            self.session.out.push_interested();
            self.last_interested = now;
            return true;
        }
        false
    }

    /// Whether requests have gone unanswered for too long.
    pub open spec fn stalled(&self, now: u64) -> bool {
        self.session.dl.may_request() && passed(
            self.session.last_piece_at,
            now,
            stall_time(self.session.dl.picks.endgame),
        )
    }

    /// Decide whether to ask for more blocks, given that `need_fill` says so already. Where
    /// no block came for too long, unanswered requests are withdrawn and asked anew.
    pub fn check_stall(
        &mut self,
        t: &HotTorrent,
        bufs: &PieceBufferPool,
        need_fill: bool,
        now: u64,
    ) -> (fill: bool)
        requires
            old(self).wf(t, bufs),
        ensures
            final(self).wf(t, bufs),
            final(self).same_but_session(old(self)),
            ({
                let s = old(self).session;
                let pending = s.dl.pending();
                let idle = s.dl.picks.hashing@.is_empty();
                if old(self).stalled(now) {
                    &&& fill == (pending > 0 || idle)
                    &&& final(self).session.same_flags(&(PeerSession { last_piece_at: now, ..s }))
                    &&& final(self).session.dl.same_but_staging(&s.dl)
                    &&& if pending > 0 || idle {
                        &&& final(self).session.out@ == if pending > 0 {
                            with_cancels(s.out@, s.dl.staging.slots())
                        } else {
                            s.out@
                        }
                        &&& final(self).session.dl.staging.slots()
                            == s.dl.staging.slots().map_values(|s: SlotView| requeued(s))
                    } else {
                        &&& final(self).session.out@ == s.out@
                        &&& final(self).session.dl.staging.slots() == s.dl.staging.slots()
                    }
                } else {
                    &&& *final(self) == *old(self)
                    &&& fill == (need_fill || (s.dl.may_request() && pending < s.dl.pipeline))
                }
            }),
    {
        let stall: u64 = if self.session.dl.picks.endgame {
            REQUEST_STALL_ENDGAME
        } else {
            REQUEST_STALL
        };
        let can: bool = self.session.dl.can_request();
        if can && has_passed(self.session.last_piece_at, now, stall) {
            let outstanding: u64 = self.session.dl.outstanding();
            let idle: bool = self.session.dl.picks.hashing.is_empty();
            if outstanding > 0 {
                self.ask_anew(t, bufs);
            } else if idle {
                self.session.dl.staging.requeue_timed_out();
            }
            self.session.last_piece_at = now;
            return outstanding > 0 || idle;
        }
        if need_fill {
            return true;
        }
        can && self.session.dl.outstanding() < self.session.dl.pipeline as u64
    }

    /// Whether only the download limit keeps us from asking.
    pub open spec fn short_of_budget(&self, has_complete_frame: bool, downloading: bool) -> bool {
        downloading && self.session.dl.may_request() && self.session.dl.pending() == 0
            && self.session.dl.picks.hashing@.is_empty() && !has_complete_frame
    }

    /// Whether only the download limit keeps us from asking, so that nothing would wake a
    /// read.
    pub fn waits_for_budget(&self, has_complete_frame: bool, downloading: bool) -> (r: bool)
        requires
            self.session.dl.staging.wf(),
        ensures
            r == self.short_of_budget(has_complete_frame, downloading),
    {
        downloading && self.session.dl.can_request() && self.session.dl.outstanding() == 0
            && self.session.dl.picks.hashing.is_empty() && !has_complete_frame
    }

    /// What to wait for: the messages that are there go first, then pieces that are being
    /// hashed where nothing else can come.
    pub open spec fn waits_for(&self, has_complete_frame: bool, downloading: bool) -> ReaderNext {
        if has_complete_frame {
            ReaderNext::Parse
        } else if self.session.dl.pending() == 0 && !self.session.dl.picks.hashing@.is_empty() {
            ReaderNext::AwaitHash
        } else {
            ReaderNext::Read {
                stall_deadline: if downloading && self.session.dl.may_request()
                    && self.session.dl.pending() > 0 {
                    Some(
                        (self.session.last_piece_at + stall_time(
                            self.session.dl.picks.endgame,
                        )) as u64,
                    )
                } else {
                    None
                },
            }
        }
    }

    /// What to wait for.
    pub fn next_wait(&self, has_complete_frame: bool, downloading: bool) -> (r: ReaderNext)
        requires
            self.session.dl.staging.wf(),
            self.session.last_piece_at <= u64::MAX - REQUEST_STALL,
        ensures
            r == self.waits_for(has_complete_frame, downloading),
    {
        if has_complete_frame {
            return ReaderNext::Parse;
        }
        let outstanding: u64 = self.session.dl.outstanding();
        if outstanding == 0 && !self.session.dl.picks.hashing.is_empty() {
            return ReaderNext::AwaitHash;
        }
        if downloading && self.session.dl.can_request() && outstanding > 0 {
            let stall: u64 = if self.session.dl.picks.endgame {
                REQUEST_STALL_ENDGAME
            } else {
                REQUEST_STALL
            };
            return ReaderNext::Read { stall_deadline: Some(self.session.last_piece_at + stall) };
        }
        ReaderNext::Read { stall_deadline: None }
    }

    /// A read took too long: unanswered requests are withdrawn and asked anew.
    pub fn on_read_stall(&mut self, t: &HotTorrent, bufs: &PieceBufferPool, now: u64)
        requires
            old(self).wf(t, bufs),
        ensures
            final(self).wf(t, bufs),
            final(self).same_but_session(old(self)),
            final(self).session.same_flags(
                &(PeerSession { last_piece_at: now, ..old(self).session }),
            ),
            final(self).session.dl.same_but_staging(&old(self).session.dl),
            final(self).session.dl.pending() == 0,
            if old(self).session.dl.pending() > 0 {
                &&& final(self).session.out@ == with_cancels(
                    old(self).session.out@,
                    old(self).session.dl.staging.slots(),
                )
                &&& final(self).session.dl.staging.slots() == old(
                    self,
                ).session.dl.staging.slots().map_values(|s: SlotView| requeued(s))
            } else {
                &&& final(self).session.out@ == old(self).session.out@
                &&& final(self).session.dl.staging.slots() == old(
                    self,
                ).session.dl.staging.slots()
            },
    {
        if self.session.dl.outstanding() > 0 {
            self.ask_anew(t, bufs);
        }
        self.session.last_piece_at = now;
    }
}

// ---------------------------------------------------------------------------
// The writing half.
// ---------------------------------------------------------------------------

/// The writing half of a connection.
#[derive(Debug)]
pub struct PeerSend {
    pub out: OutQueue,
    pub ctrl: CtrlScratch,
    /// When anything was last written.
    pub last_send_at: u64,
}

/// What became of the queue after a command.
pub open spec fn applied(m: WriterView, fast_enabled: bool, q0: OutQueue, q1: OutQueue) -> bool {
    &&& q1.piece_max == q0.piece_max
    &&& q1.keepalive_queued == q0.keepalive_queued
    &&& match m {
        WriterView::Ctrl(b) => {
            &&& frames(q1.ctrl) == with_frame(frames(q0.ctrl), b)
            &&& q1.pieces@ == q0.pieces@
            &&& q1.active == q0.active
        },
        WriterView::Upload(block) => {
            let takes = 0 < block.length <= MAX_REQUEST_LENGTH && q0.pending() < q0.piece_max
                && !q0.pieces@.contains(block) && active_block(q0.active) != Some(block);
            &&& q1.active == q0.active
            &&& q1.pieces@ == if takes {
                q0.pieces@.push(block)
            } else {
                q0.pieces@
            }
            &&& frames(q1.ctrl) == if !takes && fast_enabled {
                with_frame(
                    frames(q0.ctrl),
                    encoded(
                        MessageView::RejectRequest {
                            index: block.index,
                            begin: block.begin,
                            length: block.length,
                        },
                    ),
                )
            } else {
                frames(q0.ctrl)
            }
        },
        WriterView::Cancel(block) => {
            &&& q1.ctrl@ == q0.ctrl@
            &&& q1.pieces@ == without_block(q0.pieces@, block)
            &&& q1.active == if drops_active(q0.active, block) {
                None
            } else {
                q0.active
            }
        },
        WriterView::ClearPieces => {
            &&& q1.ctrl@ == q0.ctrl@
            &&& q1.pieces@ == Seq::<UploadBlock>::empty()
            &&& q1.active == if q0.active is Some && q0.active->0.droppable() {
                None
            } else {
                q0.active
            }
        },
        WriterView::ReaderDone => q1 == q0,
    }
}

/// Carry out a command of the reading half. Says whether that half is done, and how many
/// blocks wait to be served where that may have changed.
pub fn apply_writer_msg(send: &mut PeerSend, fast_enabled: bool, msg: WriterMsg) -> (r: (
    bool,
    Option<usize>,
))
    requires
        old(send).out.wf(),
    ensures
        final(send).out.wf(),
        final(send).last_send_at == old(send).last_send_at,
        r.0 == (msg is ReaderDone),
        r.1 matches Some(n) ==> n == final(send).out.pending(),
        msg is Upload || msg is ClearPieces ==> r.1 is Some,
        msg matches WriterMsg::Cancel(block) ==> r.1 is Some == (old(send).out.pieces@.contains(
            block,
        ) || drops_active(old(send).out.active, block)),
        msg is Ctrl || msg is ReaderDone ==> r.1 is None,
        applied(msg@, fast_enabled, old(send).out, final(send).out),
{
    match msg {
        WriterMsg::Ctrl(b) => {
            send.out.push_ctrl_owned(b);
            (false, None)
        },
        WriterMsg::Upload(block) => {
            if !send.out.try_push_piece(block) {
                send.out.push_reject(block, fast_enabled, &mut send.ctrl);
            }
            (false, Some(send.out.piece_pending_count()))
        },
        WriterMsg::Cancel(block) => {
            if send.out.cancel_piece(block) {
                (false, Some(send.out.piece_pending_count()))
            } else {
                (false, None)
            }
        },
        WriterMsg::ClearPieces => {
            send.out.clear_pieces();
            (false, Some(send.out.piece_pending_count()))
        },
        WriterMsg::ReaderDone => (true, None),
    }
}

/// What the writing half does next.
#[derive(Debug, Clone, Copy, PartialEq, Eq, Structural)]
pub enum WriterNext {
    /// Send a round; blocks may be served where `allow_upload` is set.
    Pump { allow_upload: bool },
    /// Wait for a command, a new piece of ours, or the time for a keep-alive.
    Idle { keepalive_at: u64 },
    /// Send what control is left, and leave.
    Finish,
}

impl PeerSend {
    /// Nothing queued.
    pub fn new(now: u64) -> (s: PeerSend)
        ensures
            s.out.wf(),
            frames(s.out.ctrl) == Seq::<Seq<u8>>::empty(),
            s.out.pieces@ == Seq::<UploadBlock>::empty(),
            s.out.active is None,
            !s.out.keepalive_queued,
            s.last_send_at == now,
    {
        PeerSend { out: OutQueue::new(), ctrl: CtrlScratch::new(), last_send_at: now }
    }

    /// Whether anything is left to send.
    pub open spec fn has_work(&self) -> bool {
        self.out.work_left()
    }

    /// What to do next, once the commands that are there are carried out.
    pub fn next(&self, stop: bool, reader_done: bool) -> (r: WriterNext)
        requires
            self.last_send_at <= u64::MAX - KEEPALIVE_INTERVAL,
        ensures
            r == if stop {
                WriterNext::Finish
            } else if self.has_work() {
                WriterNext::Pump { allow_upload: true }
            } else if reader_done {
                WriterNext::Finish
            } else {
                WriterNext::Idle {
                    keepalive_at: (self.last_send_at + KEEPALIVE_INTERVAL) as u64,
                }
            },
    {
        if stop {
            return WriterNext::Finish;
        }
        if self.out.can_progress_write() {
            return WriterNext::Pump { allow_upload: true };
        }
        if reader_done {
            return WriterNext::Finish;
        }
        WriterNext::Idle { keepalive_at: self.last_send_at + KEEPALIVE_INTERVAL }
    }

    /// The time for a keep-alive has come: queue one where nothing was written meanwhile.
    pub fn on_keepalive_time(&mut self, now: u64)
        requires
            old(self).out.wf(),
        ensures
            final(self).out.wf(),
            final(self).last_send_at == old(self).last_send_at,
            final(self).out.pieces@ == old(self).out.pieces@,
            final(self).out.active == old(self).out.active,
            final(self).out.piece_max == old(self).out.piece_max,
            ({
                let due = passed(old(self).last_send_at, now, KEEPALIVE_INTERVAL);
                &&& final(self).out.keepalive_queued == (due || old(self).out.keepalive_queued)
                &&& frames(final(self).out.ctrl) == if due && !old(self).out.keepalive_queued {
                    with_frame(frames(old(self).out.ctrl), encoded(MessageView::KeepAlive))
                } else {
                    frames(old(self).out.ctrl)
                }
            }),
    {
        if has_passed(self.last_send_at, now, KEEPALIVE_INTERVAL) {
            self.out.push_keepalive(&mut self.ctrl);
        }
    }

    /// New pieces of ours: tell the peer.
    pub fn on_haves(&mut self, first: Option<u32>, queued: &[u32]) -> (any: bool)
        requires
            old(self).out.wf(),
        ensures
            final(self).out.wf(),
            any == (with_first(first, queued@).len() > 0),
            frames(final(self).out.ctrl) == with_frame(
                frames(old(self).out.ctrl),
                encoded_all(haves(with_first(first, queued@))),
            ),
            final(self).out.pieces@ == old(self).out.pieces@,
            final(self).out.active == old(self).out.active,
            final(self).out.piece_max == old(self).out.piece_max,
            final(self).out.keepalive_queued == old(self).out.keepalive_queued,
            final(self).last_send_at == old(self).last_send_at,
    {
        enqueue_have_messages_from(&mut self.out, &mut self.ctrl, queued, first)
    }

    /// Whether the last round of sending is to be followed by another before leaving.
    pub fn flush_again(&self, last: OutProgress, now: u64, deadline: u64) -> (r: bool)
        ensures
            r == (self.has_work() && now < deadline && last is Progress),
    {
        let more: bool = match last {
            OutProgress::Progress => true,
            _ => false,
        };
        self.out.has_work() && now < deadline && more
    }

    /// A round of sending wrote something.
    pub fn wrote(&mut self, progressed: bool, now: u64)
        ensures
            final(self).out == old(self).out,
            final(self).last_send_at == if progressed {
                now
            } else {
                old(self).last_send_at
            },
    {
        if progressed {
            self.last_send_at = now;
        }
    }
}

/// Bytes for the writing half go behind what it has to do already.
pub proof fn commands_keep_their_order(msgs: Seq<WriterView>, plain: Seq<u8>)
    ensures
        plain.len() > 0 ==> with_ctrl(msgs, plain) == msgs.push(WriterView::Ctrl(plain)),
        plain.len() == 0 ==> with_ctrl(msgs, plain) == msgs,
{
}

/// Requests are asked anew where no block came for twenty seconds, or for four in the endgame,
/// and not before.
pub proof fn requests_stall_after_a_while(r: &ReaderState, now: u64)
    ensures
        r.stalled(now) ==> r.session.dl.may_request() && now >= r.session.last_piece_at
            + 4_000_000_000,
        r.stalled(now) && !r.session.dl.picks.endgame ==> now >= r.session.last_piece_at
            + 20_000_000_000,
        r.session.dl.may_request() && now >= r.session.last_piece_at + 20_000_000_000 ==> r.stalled(
            now,
        ),
        r.session.dl.may_request() && r.session.dl.picks.endgame && now >= r.session.last_piece_at
            + 4_000_000_000 ==> r.stalled(now),
        r.session.dl.picks.peer_choking && r.session.dl.picks.allowed_fast@.is_empty()
            ==> !r.stalled(now) && !r.session.dl.may_request(),
        !r.session.dl.picks.peer_choking ==> r.session.dl.may_request(),
{
}

/// A message that is there whole is read before anything is waited for, hashed pieces are
/// waited for only where no block is, and a read that blocks are due from ends in time to ask
/// for them anew.
pub proof fn nothing_is_waited_for_in_vain(r: &ReaderState, downloading: bool)
    requires
        r.session.last_piece_at <= u64::MAX - 20_000_000_000,
    ensures
        r.waits_for(true, downloading) is Parse,
        r.waits_for(false, downloading) is AwaitHash <==> r.session.dl.pending() == 0
            && !r.session.dl.picks.hashing@.is_empty(),
        r.session.dl.pending() > 0 && r.session.dl.may_request() && downloading ==> (r.waits_for(
            false,
            downloading,
        ) matches ReaderNext::Read { stall_deadline: Some(at) } && r.stalled(at)),
        !downloading && r.session.dl.picks.hashing@.is_empty() ==> r.waits_for(false, downloading)
            == (ReaderNext::Read { stall_deadline: None }),
        r.short_of_budget(false, downloading) ==> downloading && r.session.dl.pending() == 0
            && r.session.dl.may_request(),
        !r.short_of_budget(true, downloading),
        downloading && r.session.dl.pending() == 0 && r.session.dl.may_request()
            && r.session.dl.picks.hashing@.is_empty() ==> r.short_of_budget(false, downloading),
{
}

/// Both sides are complete exactly where neither misses a piece, and the later of two
/// transfers is the last one.
pub proof fn a_missing_piece_keeps_seeds_together(
    r: &ReaderState,
    t: &HotTorrent,
    i: u32,
    last_sent: u64,
)
    ensures
        i < t.piece_count && (!t.has(i) || !bit(r.session.dl.picks.peer_bf@, i as int))
            ==> !r.both_complete(t),
        r.last_transfer(last_sent) >= last_sent,
        r.last_transfer(last_sent) >= r.session.last_useful_at,
        r.last_transfer(last_sent) == last_sent || r.last_transfer(last_sent)
            == r.session.last_useful_at,
{
}

/// Once nothing is fetched any more, every request is withdrawn, and the peer is told that we
/// want nothing; once something is, that we do.
pub proof fn the_peer_is_told_whether_we_fetch(
    r0: ReaderState,
    r1: ReaderState,
    t0: HotTorrent,
    t1: HotTorrent,
    now: u64,
)
    ensures
        closed_download(r0, r1, &t0, false) ==> {
            &&& r1.session.out@.last() == WriterView::Ctrl(seq![0u8, 0, 0, 1, 3])
            &&& r1.session.out@.drop_last() == with_ctrl(
                r0.session.out@,
                encoded_all(cancel_messages(pending_all(r0.session.dl.staging.slots()))),
            )
            &&& !r1.am_interested
        },
        closed_download(r0, r1, &t0, true) ==> {
            let told = with_ctrl(
                r0.session.out@,
                encoded_all(cancel_messages(pending_all(r0.session.dl.staging.slots()))),
            ).push(WriterView::Ctrl(seq![0u8, 0, 0, 1, 3]));
            &&& r1.session.out@ == told.push(
                WriterView::Ctrl(encoded(our_pieces(&t0, r0.peer_fast))),
            )
            &&& !r1.am_interested
        },
        reopened(r0, t0, r1, t1, now) ==> {
            &&& r1.am_interested
            &&& r1.session.out@ == r0.session.out@.push(
                WriterView::Ctrl(seq![0u8, 0, 0, 1, 2]),
            )
            &&& !r1.session.dl.picks.endgame
        },
{
    fixed_messages_have_the_bytes_of_the_protocol(0, 0, 0);
    let told = with_cancels(r0.session.out@, r0.session.dl.staging.slots());
    let no = WriterView::Ctrl(seq![0u8, 0, 0, 1, 3]);
    assert(told.push(no).drop_last() =~= told);
    assert(encoded(our_pieces(&t0, r0.peer_fast)).len() > 0);
}

/// What the writing half is told is carried out: bytes go behind the others, a block is
/// queued where it may be and refused by name where it may not, a withdrawn block is served
/// no more, and nothing is once the peer wants nothing.
pub proof fn commands_are_carried_out(
    m: WriterView,
    fast_enabled: bool,
    q0: OutQueue,
    q1: OutQueue,
)
    requires
        applied(m, fast_enabled, q0, q1),
        q0.wf(),
    ensures
        m matches WriterView::Ctrl(b) ==> flat(frames(q1.ctrl)) == flat(frames(q0.ctrl)) + b
            && q1.pieces@ == q0.pieces@,
        m matches WriterView::Upload(block) ==> {
            let may = 1 <= block.length <= 131_072 && q0.pending() < q0.piece_max
                && !q0.pieces@.contains(block) && active_block(q0.active) != Some(block);
            &&& may ==> q1.pieces@ == q0.pieces@.push(block) && flat(frames(q1.ctrl)) == flat(
                frames(q0.ctrl),
            )
            &&& !may ==> q1.pieces@ == q0.pieces@
            &&& !may && fast_enabled ==> flat(frames(q1.ctrl)) == flat(frames(q0.ctrl)) + (
            seq![0u8, 0, 0, 13, 16] + be32(block.index) + be32(block.begin) + be32(block.length))
            &&& !may && !fast_enabled ==> flat(frames(q1.ctrl)) == flat(frames(q0.ctrl))
        },
        m matches WriterView::Cancel(block) ==> !q1.pieces@.contains(block) && flat(frames(q1.ctrl))
            == flat(frames(q0.ctrl)),
        m is ClearPieces ==> q1.pieces@.len() == 0,
        m is ReaderDone ==> q1 == q0,
{
    match m {
        WriterView::Ctrl(b) => {
            queueing_appends_to_the_stream(frames(q0.ctrl), b);
        },
        WriterView::Upload(block) => {
            fixed_messages_have_the_bytes_of_the_protocol(block.index, block.begin, block.length);
            queueing_appends_to_the_stream(
                frames(q0.ctrl),
                encoded(
                    MessageView::RejectRequest {
                        index: block.index,
                        begin: block.begin,
                        length: block.length,
                    },
                ),
            );
        },
        WriterView::Cancel(block) => {
            a_withdrawn_block_is_gone(q0.pieces@, block, block);
        },
        _ => {},
    }
}

/// Requests are asked anew after twenty seconds without a block, and after four near the end.
pub proof fn stalls_are_shorter_near_the_end()
    ensures
        stall_time(true) == 4_000_000_000,
        stall_time(false) == 20_000_000_000,
{
}

/// A time has passed once as much lies between.
pub proof fn times_pass(since: u64, now: u64, wait: u64)
    ensures
        now >= since + wait ==> passed(since, now, wait),
        now < since + wait ==> !passed(since, now, wait),
{
}

/// Buffers are as long as the torrent's pieces, and never empty.
pub proof fn buffers_are_as_long_as_pieces(t: &HotTorrent)
    ensures
        t.spec_piece_length() > 0 ==> pool_piece_length(t) == t.spec_piece_length(),
        pool_piece_length(t) > 0,
{
}

/// The commands of the writing half stand for their bytes and blocks as they are.
pub proof fn commands_are_seen_as_they_are(b: Vec<u8>, u: UploadBlock)
    ensures
        WriterMsg::Ctrl(b)@ == WriterView::Ctrl(b@),
        WriterMsg::Upload(u)@ == WriterView::Upload(u),
        WriterMsg::Cancel(u)@ == WriterView::Cancel(u),
        WriterMsg::ClearPieces@ == WriterView::ClearPieces,
        WriterMsg::ReaderDone@ == WriterView::ReaderDone,
{
}

/// What a turn keeps but for the session: our interest and its time, the pipeline and whether
/// the peer knows the Fast extension.
pub proof fn the_rest_of_a_reader_is_kept(a: &ReaderState, b: &ReaderState)
    requires
        a.same_but_session(b),
    ensures
        a.am_interested == b.am_interested && a.sent_not_interested == b.sent_not_interested
            && a.last_interested == b.last_interested,
        a.pipe == b.pipe && a.pipe_initial == b.pipe_initial && a.tuning == b.tuning,
        a.peer_fast == b.peer_fast,
{
}

/// A connection that fetches again asks as much as at first, outside the endgame, and keeps
/// what it had. The peer is counted for the pieces that it has where it was not counted.
pub proof fn fetching_starts_anew(
    r0: ReaderState,
    t0: HotTorrent,
    r1: ReaderState,
    t1: HotTorrent,
    now: u64,
    i: u32,
)
    requires
        reopened(r0, t0, r1, t1, now),
        i < t0.piece_count,
        t0.availability(i) < u32::MAX,
    ensures
        r1.am_interested && r1.last_interested == now && r1.session.last_piece_at == now,
        r1.session.dl.pipeline == r0.pipe_initial,
        !r1.session.dl.picks.endgame,
        r1.session.dl.picks.peer_bf == r0.session.dl.picks.peer_bf,
        r1.session.dl.picks.peer_choking == r0.session.dl.picks.peer_choking,
        r1.session.dl.staging == r0.session.dl.staging,
        r0.session.dl.peer_avail is Some ==> t1 == t0,
        r0.session.dl.peer_avail is None ==> t1.availability(i) == t0.availability(i) + (
        if crate::bitfield::bit(r0.session.dl.picks.peer_bf@, i as int) {
            1int
        } else {
            0
        }) && (r1.session.dl.peer_avail matches Some(a) && a.counts(i) == crate::bitfield::bit(
            r0.session.dl.picks.peer_bf@,
            i as int,
        )),
{
}

/// A connection that fetches no longer keeps the pieces that are being hashed, and no other.
pub proof fn fetching_ends_without_pieces(
    r0: ReaderState,
    r1: ReaderState,
    t: &HotTorrent,
    allow_upload: bool,
    s: SlotView,
)
    requires
        closed_download(r0, r1, t, allow_upload),
    ensures
        !r1.am_interested && r1.sent_not_interested,
        r1.session.dl.staging.slots().contains(s) <==> r0.session.dl.staging.slots().contains(s)
            && s is Hashing,
        r1.session.dl.picks == r0.session.dl.picks,
        r1.session.jobs == r0.session.jobs,
{
    only_hashed_pieces_are_left(r0.session.dl.staging.slots(), s);
}

} // verus!
