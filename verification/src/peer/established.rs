//! An established connection: what is said first, and what each message of the peer does.
//!
//! Times are in nanoseconds.
use crate::bitfield::{
    all_or_none, all_or_none_bits, apply_have_all_none, bit, bitfield_set, bytes_for, count_bits,
    counts_tell_all_and_none, mask, setting_a_bit,
};
use crate::bytes::{be32, push_all};
use crate::error::{Error, Result};
use crate::hot::{counted_up, recounted, HotTorrent, PeerAvailability};
use crate::net::{PeerAddr, ReadCursor};
use crate::peer::config::PeerConfig;
use crate::peer::download::{
    ignores, stored_block, took_slots, PeerDownload, PeerPicks,
};
use crate::peer::duplex::{OutCmd, WriterView};
use crate::peer::helpers::{the_newest_suggestion_is_first, with_suggestion, SECOND};
use crate::runtime::hash_worker::HashJob;
use crate::staging::piece_pool::PieceBufferPool;
use crate::staging::pool::{assembling, awaited, handed_over, position, BLOCK_SIZE};
use crate::upload::queue::{
    classify_upload_request, request_fits, UploadBlock, UploadRequestStatus,
};
use crate::wire::fast::{
    allowed_fast, allowed_fast_for_addr, encode_allowed_fast_messages, encode_possession_fast,
    possession, FastSession, ALLOWED_FAST_K,
};
use crate::wire::messages::{
    encode_extended_handshake, encode_message, encoded, encoded_all,
    fixed_messages_have_the_bytes_of_the_protocol, front,
    handshake_supports_extensions,
    handshake_supports_fast, ltep_text, opens_handshake, parse_handshake, parse_message, Front,
    Message, MessageView, ParsedMessage, EXT_HANDSHAKE, HANDSHAKE_LEN, HS_EXT_BIT,
    HS_EXT_BYTE, HS_FAST_BIT, HS_FAST_BYTE,
};
use crate::wire::peer_id::{
    identify_peer_id, ltep_client_version, ltep_version, peer_label, prefer_client_label,
    preferred_label,
};
use vstd::prelude::*;

verus! {

broadcast use vstd::std_specs::hash::group_hash_axioms;

/// Time that a peer which only fetched may take to finish.
pub const PURE_LEECH_EXIT_TIMEOUT: u64 = 5 * SECOND;

/// A connection as the reading half sees it.
#[derive(Debug)]
pub struct PeerSession {
    pub dl: PeerDownload,
    /// Commands for the writing half.
    pub out: OutCmd,
    /// Whole pieces to be hashed.
    pub jobs: Vec<HashJob>,
    pub fast: FastSession,
    /// Whether the peer wants our pieces.
    pub peer_interested: bool,
    /// When a block was last stored.
    pub last_piece_at: u64,
    /// When the peer was last of use.
    pub last_useful_at: u64,
    /// Bytes of blocks that were stored.
    pub wire_down: u64,
    /// Name of the peer's client.
    pub client_label: String,
}

/// Nothing was counted differently, or the peer has one more piece.
pub open spec fn counted_have(
    a0: Option<PeerAvailability>,
    t0: HotTorrent,
    a1: Option<PeerAvailability>,
    t1: HotTorrent,
    index: u32,
) -> bool {
    match (a0, a1) {
        (None, None) => t1 == t0,
        (Some(x), Some(y)) => {
            &&& t1.same_but_avail(&t0)
            &&& forall|i: u32| #[trigger]
                y.counts(i) == (x.counts(i) || (i == index && i < t0.piece_count))
            &&& forall|i: u32| #[trigger]
                t1.availability(i) == counted_up(
                    t0.availability(i),
                    i == index && i < t0.piece_count && !x.counts(i),
                )
        },
        _ => false,
    }
}

/// Nothing was counted differently, or the peer has exactly the pieces of `bf`.
pub open spec fn counted_bitfield(
    a0: Option<PeerAvailability>,
    t0: HotTorrent,
    a1: Option<PeerAvailability>,
    t1: HotTorrent,
    bf: Seq<u8>,
) -> bool {
    match (a0, a1) {
        (None, None) => t1 == t0,
        (Some(x), Some(y)) => {
            &&& t1.same_but_avail(&t0)
            &&& forall|i: u32| #[trigger]
                y.counts(i) == (i < t0.piece_count && bit(bf, i as int))
            &&& forall|i: u32| #[trigger]
                t1.availability(i) == recounted(
                    t0.availability(i),
                    i < t0.piece_count && x.counts(i),
                    i < t0.piece_count && bit(bf, i as int),
                )
        },
        _ => false,
    }
}

/// `bf` with the bytes of `news` in front, as far as they fit.
pub open spec fn overlaid(bf: Seq<u8>, news: Seq<u8>) -> Seq<u8> {
    Seq::new(
        bf.len(),
        |i: int|
            if i < news.len() {
                news[i]
            } else {
                bf[i]
            },
    )
}

/// What the peer is answered to a request.
pub open spec fn answer(
    out: Seq<WriterView>,
    t: &HotTorrent,
    peer_interested: bool,
    fast_enabled: bool,
    block: UploadBlock,
) -> Seq<WriterView> {
    let plen = if block.index < t.piece_count {
        t.piece_len(block.index) as u32
    } else {
        0
    };
    if request_fits(t.piece_count, plen, block.index, block.begin, block.length) && t.has(
        block.index,
    ) && peer_interested {
        out.push(WriterView::Upload(block))
    } else if fast_enabled {
        out.push(
            WriterView::Ctrl(
                encoded(
                    MessageView::RejectRequest {
                        index: block.index,
                        begin: block.begin,
                        length: block.length,
                    },
                ),
            ),
        )
    } else {
        out
    }
}

impl PeerSession {
    /// Validity together with the torrent and its buffers.
    pub open spec fn wf(&self, t: &HotTorrent, bufs: &PieceBufferPool) -> bool {
        self.dl.wf(t, bufs)
    }

    /// The same but for the download and the commands.
    pub open spec fn same_flags(&self, s: &PeerSession) -> bool {
        &&& self.fast == s.fast
        &&& self.peer_interested == s.peer_interested
        &&& self.last_piece_at == s.last_piece_at
        &&& self.last_useful_at == s.last_useful_at
        &&& self.wire_down == s.wire_down
        &&& self.client_label == s.client_label
        &&& self.jobs == s.jobs
    }

    /// The same download but for what decides which pieces are started.
    pub open spec fn same_fetching(&self, s: &PeerSession) -> bool {
        &&& self.dl.staging == s.dl.staging
        &&& self.dl.pipeline == s.dl.pipeline
    }

    /// The same but for the peer's pieces.
    pub open spec fn same_but_pieces(&self, s: &PeerSession) -> bool {
        &&& self.same_flags(s)
        &&& self.same_fetching(s)
        &&& self.out == s.out
        &&& self.dl.picks == (PeerPicks { peer_bf: self.dl.picks.peer_bf, ..s.dl.picks })
    }

    /// A connection of which nothing is known yet.
    pub fn new(dl: PeerDownload, fast: FastSession, client_label: String, now: u64) -> (s: Self)
        ensures
            s.dl == dl,
            s.out@ == Seq::<WriterView>::empty(),
            s.jobs@ == Seq::<HashJob>::empty(),
            s.fast == fast,
            !s.peer_interested,
            s.last_piece_at == now,
            s.last_useful_at == now,
            s.wire_down == 0,
            s.client_label == client_label,
    {
        PeerSession {
            dl,
            out: OutCmd::new(),
            jobs: Vec::new(),
            fast,
            peer_interested: false,
            last_piece_at: now,
            last_useful_at: now,
            wire_down: 0,
            client_label,
        }
    }
}

/// What a block does that is to be stored.
pub open spec fn block_stored(
    s0: PeerSession,
    s1: PeerSession,
    t: HotTorrent,
    now: u64,
    index: u32,
    begin: u32,
    block: Seq<u8>,
) -> bool {
    let stored = !ignores(&s0.dl, &t, index);
    &&& s1.dl.same_but_hashing(&s0.dl)
    &&& s1.out == s0.out
    &&& s1.fast == s0.fast
    &&& s1.peer_interested == s0.peer_interested
    &&& s1.client_label == s0.client_label
    &&& if stored {
        &&& s1.last_piece_at == now
        &&& s1.last_useful_at == now
        &&& s1.wire_down == s0.wire_down.wrapping_add(block.len() as u64)
        &&& s0.jobs@.len() <= s1.jobs@.len() <= s0.jobs@.len() + 1
        &&& s0.jobs@ == s1.jobs@.subrange(0, s0.jobs@.len() as int)
        &&& stored_block(
            &s0.dl,
            &t,
            index,
            begin,
            block,
            &s1.dl,
            if s1.jobs@.len() > s0.jobs@.len() {
                Some(s1.jobs@.last())
            } else {
                None
            },
        )
    } else {
        &&& s1.same_flags(&s0)
        &&& s1.dl.staging.slots() == s0.dl.staging.slots()
        &&& s1.dl.picks.hashing@ == s0.dl.picks.hashing@
    }
}

/// What a message of the peer does, where it is not refused: `s0` and `t0` become `s1` and
/// `t1`, and `fill` says whether more is to be asked for.
pub open spec fn handled(
    m: MessageView,
    cfg: &PeerConfig,
    downloading: bool,
    now: u64,
    s0: PeerSession,
    t0: HotTorrent,
    s1: PeerSession,
    t1: HotTorrent,
    fill: bool,
) -> bool {
    match m {
        MessageView::Piece { index, begin, block } => if block.len() > 0 && downloading && !t0.has(
            index,
        ) {
            fill && t1 == t0 && block_stored(s0, s1, t0, now, index, begin, block)
        } else {
            !fill && s1 == s0 && t1 == t0
        },
        MessageView::Choke => !fill && t1 == t0 && s1 == (PeerSession {
            dl: PeerDownload {
                picks: PeerPicks { peer_choking: true, ..s0.dl.picks },
                ..s0.dl
            },
            ..s0
        }),
        MessageView::Unchoke => fill == downloading && t1 == t0 && s1 == (PeerSession {
            dl: PeerDownload {
                picks: PeerPicks { peer_choking: false, ..s0.dl.picks },
                ..s0.dl
            },
            last_piece_at: if downloading {
                now
            } else {
                s0.last_piece_at
            },
            ..s0
        }),
        MessageView::Interested => !fill && t1 == t0 && s1 == (PeerSession {
            peer_interested: true,
            ..s0
        }),
        MessageView::NotInterested => {
            &&& !fill
            &&& t1 == t0
            &&& s1 == (PeerSession { peer_interested: false, out: s1.out, ..s0 })
            &&& s1.out@ == s0.out@.push(WriterView::ClearPieces)
        },
        MessageView::Have(i) => if (i as int) / 8 < s0.dl.picks.peer_bf@.len() {
            &&& fill == downloading
            &&& s1.same_but_pieces(&s0)
            &&& s1.dl.picks.peer_bf@ == s0.dl.picks.peer_bf@.update(
                i as int / 8,
                s0.dl.picks.peer_bf@[i as int / 8] | mask(i as int),
            )
            &&& counted_have(s0.dl.peer_avail, t0, s1.dl.peer_avail, t1, i)
        } else {
            !fill && s1 == s0 && t1 == t0
        },
        MessageView::HaveAll => {
            &&& fill == downloading
            &&& s1.same_but_pieces(&s0)
            &&& s1.dl.picks.peer_bf@ == all_or_none(
                s0.dl.picks.peer_bf@.len(),
                t0.piece_count,
                true,
            )
            &&& counted_bitfield(
                s0.dl.peer_avail,
                t0,
                s1.dl.peer_avail,
                t1,
                s1.dl.picks.peer_bf@,
            )
        },
        MessageView::HaveNone => {
            &&& !fill
            &&& s1.same_but_pieces(&s0)
            &&& s1.dl.picks.peer_bf@ == all_or_none(
                s0.dl.picks.peer_bf@.len(),
                t0.piece_count,
                false,
            )
            &&& counted_bitfield(
                s0.dl.peer_avail,
                t0,
                s1.dl.peer_avail,
                t1,
                s1.dl.picks.peer_bf@,
            )
        },
        MessageView::Bitfield(bf) => {
            &&& fill == downloading
            &&& s1.same_but_pieces(&s0)
            &&& s1.dl.picks.peer_bf@ == overlaid(s0.dl.picks.peer_bf@, bf)
            &&& counted_bitfield(
                s0.dl.peer_avail,
                t0,
                s1.dl.peer_avail,
                t1,
                s1.dl.picks.peer_bf@,
            )
        },
        MessageView::SuggestPiece(i) => if downloading {
            &&& fill == s0.dl.may_request()
            &&& t1 == t0
            &&& s1.same_flags(&s0)
            &&& s1.same_fetching(&s0)
            &&& s1.out == s0.out
            &&& s1.dl.peer_avail == s0.dl.peer_avail
            &&& s1.dl.picks.same_but_queue(&s0.dl.picks)
            &&& s1.dl.picks.claims == s0.dl.picks.claims
            &&& s1.dl.picks.suggested@ == with_suggestion(
                s0.dl.picks.suggested@,
                i,
                t0.piece_count,
            )
        } else {
            !fill && s1 == s0 && t1 == t0
        },
        MessageView::AllowedFast(i) => if downloading {
            &&& fill
            &&& t1 == t0
            &&& s1 == (PeerSession {
                fast: s1.fast,
                dl: PeerDownload {
                    picks: PeerPicks {
                        allowed_fast: s1.dl.picks.allowed_fast,
                        ..s0.dl.picks
                    },
                    ..s0.dl
                },
                ..s0
            })
            &&& s1.fast.enabled == s0.fast.enabled
            &&& s1.fast.allowed_from_peer@ == s0.fast.allowed_from_peer@.insert(i)
            &&& s1.fast.allowed_to_peer@ == s0.fast.allowed_to_peer@
            &&& s1.dl.picks.allowed_fast@ == s0.dl.picks.allowed_fast@.insert(i)
        } else {
            !fill && s1 == s0 && t1 == t0
        },
        MessageView::RejectRequest { index, begin, length } => if downloading {
            let slots = s0.dl.staging.slots();
            let at = position(slots, index);
            &&& fill
            &&& t1 == t0
            &&& s1 == (PeerSession {
                dl: PeerDownload { staging: s1.dl.staging, ..s0.dl },
                ..s0
            })
            &&& s1.dl.staging.same_peer(&s0.dl.staging)
            &&& s1.dl.staging.slots() == if awaited(slots).contains((index, begin, length)) {
                slots.update(at, slots[at].without_request((begin / BLOCK_SIZE) as int))
            } else {
                slots
            }
        } else {
            !fill && s1 == s0 && t1 == t0
        },
        MessageView::Request { index, begin, length } => if cfg.allow_upload {
            &&& !fill
            &&& t1 == t0
            &&& s1 == (PeerSession { out: s1.out, ..s0 })
            &&& s1.out@ == answer(
                s0.out@,
                &t0,
                s0.peer_interested,
                s0.fast.enabled,
                UploadBlock { index, begin, length },
            )
        } else {
            !fill && s1 == s0 && t1 == t0
        },
        MessageView::Cancel { index, begin, length } => if cfg.allow_upload {
            &&& !fill
            &&& t1 == t0
            &&& s1 == (PeerSession { out: s1.out, ..s0 })
            &&& s1.out@ == s0.out@.push(
                WriterView::Cancel(UploadBlock { index, begin, length }),
            )
        } else {
            !fill && s1 == s0 && t1 == t0
        },
        MessageView::Extended { ext_id, payload } => if ext_id == EXT_HANDSHAKE && ltep_version(
            payload,
        ) is Some {
            &&& !fill
            &&& t1 == t0
            &&& s1 == (PeerSession { client_label: s1.client_label, ..s0 })
            &&& s1.client_label@ == preferred_label(s0.client_label@, ltep_version(payload))
        } else {
            !fill && s1 == s0 && t1 == t0
        },
        _ => !fill && s1 == s0 && t1 == t0,
    }
}

/// Whether a message ends the connection: a block comes that cannot be hashed, or that does
/// not fit its piece, or that makes a piece whole which has no hash.
pub open spec fn ends_session(
    m: MessageView,
    cfg: &PeerConfig,
    downloading: bool,
    s: PeerSession,
    t: HotTorrent,
) -> bool {
    m matches MessageView::Piece { index, begin, block } && block.len() > 0 && downloading
        && !t.has(index) && (!cfg.can_hash || (!ignores(&s.dl, &t, index) && block_error(
        s,
        t,
        index,
        begin,
        block,
    ) is Some))
}

/// Why a block that is to be stored ends the connection, if it does.
pub open spec fn block_error(
    s: PeerSession,
    t: HotTorrent,
    index: u32,
    begin: u32,
    block: Seq<u8>,
) -> Option<Seq<char>> {
    let slot = s.dl.staging.slots()[position(s.dl.staging.slots(), index)];
    let refusal = crate::staging::pool::block_refusal(
        slot->piece.length as int,
        slot->buf.len() as int,
        begin as int,
        block.len() as int,
    );
    if refusal is Some {
        refusal
    } else if slot->piece.with_range(begin as int, block.len() as int).complete()
        && t.expected_hash(index) is None {
        Some("piece index out of range"@)
    } else {
        None
    }
}

/// What a message makes of the buffers: a block that makes its piece whole takes the piece's
/// buffer along.
pub open spec fn bufs_after(
    m: MessageView,
    cfg: &PeerConfig,
    downloading: bool,
    s: PeerSession,
    t: HotTorrent,
    before: PieceBufferPool,
    after: PieceBufferPool,
) -> bool {
    match m {
        MessageView::Piece { index, begin, block } => if block.len() > 0 && downloading && !t.has(
            index,
        ) && cfg.can_hash && completes(s, t, index, begin, block) {
            let took = took_slots(s.dl.staging.slots(), index, begin, block);
            s.dl.handed_bufs(
                t.expected_hash(index) is Some,
                took[position(s.dl.staging.slots(), index)]->buf,
                &before,
                &after,
            )
        } else {
            after == before
        },
        _ => after == before,
    }
}

/// Whether a block is stored and makes its piece whole.
pub open spec fn completes(
    s: PeerSession,
    t: HotTorrent,
    index: u32,
    begin: u32,
    block: Seq<u8>,
) -> bool {
    let slot = s.dl.staging.slots()[position(s.dl.staging.slots(), index)];
    &&& !ignores(&s.dl, &t, index)
    &&& crate::staging::pool::block_refusal(
        slot->piece.length as int,
        slot->buf.len() as int,
        begin as int,
        block.len() as int,
    ) is None
    &&& slot->piece.with_range(begin as int, block.len() as int).complete()
}

/// What is left of a connection after the message that ends it: a block that does not fit
/// changes nothing, and a whole piece without a hash is dropped.
pub open spec fn ended(
    m: MessageView,
    cfg: &PeerConfig,
    s0: PeerSession,
    t: HotTorrent,
    s1: PeerSession,
) -> bool {
    let before = s0.dl.staging.slots();
    &&& m matches MessageView::Piece { index, begin, block }
    &&& s1 == (PeerSession { dl: s1.dl, ..s0 })
    &&& if !cfg.can_hash {
        s1 == s0
    } else {
        &&& s1.dl.same_but_hashing(&s0.dl)
        &&& s1.dl.picks.hashing@ == s0.dl.picks.hashing@
        &&& s1.dl.staging.slots() == if completes(s0, t, index, begin, block) {
            handed_over(
                took_slots(before, index, begin, block),
                position(before, index),
            ).drop_last()
        } else {
            before
        }
    }
}

/// The error that ends the connection.
pub open spec fn end_text(
    m: MessageView,
    cfg: &PeerConfig,
    s: PeerSession,
    t: HotTorrent,
) -> Seq<char> {
    if !cfg.can_hash {
        "hash thread not configured"@
    } else {
        block_error(s, t, m->Piece_index, m->Piece_begin, m->block)->0
    }
}

impl PeerSession {
    /// A block came.
    fn on_piece(
        &mut self,
        t: &HotTorrent,
        bufs: &mut PieceBufferPool,
        cfg: &PeerConfig,
        index: u32,
        begin: u32,
        block: &[u8],
        downloading: bool,
        now: u64,
    ) -> (r: Result<bool>)
        requires
            old(self).wf(t, old(bufs)),
        ensures
            final(self).wf(t, final(bufs)),
            final(bufs).same_pool(old(bufs)),
            ({
                let m = MessageView::Piece { index, begin, block: block@ };
                &&& r is Err <==> ends_session(m, cfg, downloading, *old(self), *t)
                &&& r matches Ok(fill) ==> handled(
                    m,
                    cfg,
                    downloading,
                    now,
                    *old(self),
                    *t,
                    *final(self),
                    *t,
                    fill,
                )
                &&& r matches Err(e) ==> e is Msg && e.text() == end_text(m, cfg, *old(self), *t)
                &&& r is Err ==> ended(m, cfg, *old(self), *t, *final(self))
                &&& bufs_after(
                    m,
                    cfg,
                    downloading,
                    *old(self),
                    *t,
                    *old(bufs),
                    *final(bufs),
                )
            }),
            // The buffers out still cover the assembling pieces.
            forall|others: nat| #[trigger]
                old(self).dl.staging.covered(old(bufs), others)
                    ==> final(self).dl.staging.covered(final(bufs), others),
    {
        if block.len() == 0 || !downloading || t.has_piece(index) {
            return Ok(false);
        }
        if !cfg.can_hash {
            return Err(Error::msg("hash thread not configured"));
        }
        match self.dl.handle_piece(t, bufs, index, begin, block) {
            Ok((stored, job)) => {
                if stored {
                    self.last_piece_at = now;
                    self.last_useful_at = now;
                    self.wire_down = self.wire_down.wrapping_add(block.len() as u64);
                }
                if let Some(j) = job {
                    self.jobs.push(j);
                }
                assert(self.jobs@.subrange(0, old(self).jobs@.len() as int) =~= old(self).jobs@);
                Ok(true)
            },
            Err(e) => Err(e),
        }
    }

    fn count_bitfield(&mut self, t: &mut HotTorrent, bufs: &PieceBufferPool)
        requires
            old(self).wf(old(t), bufs),
        ensures
            final(self).wf(final(t), bufs),
            *final(self) == (PeerSession {
                dl: PeerDownload { peer_avail: final(self).dl.peer_avail, ..old(self).dl },
                ..*old(self)
            }),
            counted_bitfield(
                old(self).dl.peer_avail,
                *old(t),
                final(self).dl.peer_avail,
                *final(t),
                old(self).dl.picks.peer_bf@,
            ),
    {
        match &mut self.dl.peer_avail {
            Some(a) => {
                a.on_bitfield(t, self.dl.picks.peer_bf.as_slice());
            },
            None => {},
        }
    }

    /// The peer has a piece.
    fn on_have(&mut self, t: &mut HotTorrent, bufs: &PieceBufferPool, i: u32, downloading: bool) -> (
    fill: bool)
        requires
            old(self).wf(old(t), bufs),
        ensures
            final(self).wf(final(t), bufs),
            if (i as int) / 8 < old(self).dl.picks.peer_bf@.len() {
                &&& fill == downloading
                &&& final(self).same_but_pieces(old(self))
                &&& final(self).dl.picks.peer_bf@ == old(self).dl.picks.peer_bf@.update(
                    i as int / 8,
                    old(self).dl.picks.peer_bf@[i as int / 8] | mask(i as int),
                )
                &&& counted_have(
                    old(self).dl.peer_avail,
                    *old(t),
                    final(self).dl.peer_avail,
                    *final(t),
                    i,
                )
            } else {
                !fill && *final(self) == *old(self) && *final(t) == *old(t)
            },
    {
        if (i / 8) as usize >= self.dl.picks.peer_bf.len() {
            return false;
        }
        match &mut self.dl.peer_avail {
            Some(a) => {
                a.on_have(t, i);
            },
            None => {},
        }
        let set: bool = bitfield_set(&mut self.dl.picks.peer_bf, i);
        assert(set);
        downloading
    }

    /// The peer says which pieces it has.
    fn on_bitfield(
        &mut self,
        t: &mut HotTorrent,
        bufs: &PieceBufferPool,
        bf: &Vec<u8>,
    )
        requires
            old(self).wf(old(t), bufs),
        ensures
            final(self).wf(final(t), bufs),
            final(self).same_but_pieces(old(self)),
            final(self).dl.picks.peer_bf@ == overlaid(old(self).dl.picks.peer_bf@, bf@),
            counted_bitfield(
                old(self).dl.peer_avail,
                *old(t),
                final(self).dl.peer_avail,
                *final(t),
                final(self).dl.picks.peer_bf@,
            ),
    {
        let n: usize = if self.dl.picks.peer_bf.len() < bf.len() {
            self.dl.picks.peer_bf.len()
        } else {
            bf.len()
        };
        let mut i: usize = 0;
        while i < n
            invariant
                i <= n,
                n <= bf@.len(),
                n <= self.dl.picks.peer_bf@.len(),
                *t == *old(t),
                self.wf(&*t, bufs),
                self.same_but_pieces(old(self)),
                self.dl.peer_avail == old(self).dl.peer_avail,
                self.dl.picks.peer_bf@.len() == old(self).dl.picks.peer_bf@.len(),
                forall|j: int|
                    0 <= j < self.dl.picks.peer_bf@.len() ==> #[trigger] self.dl.picks.peer_bf@[j]
                        == if j < i {
                        bf@[j]
                    } else {
                        old(self).dl.picks.peer_bf@[j]
                    },
            decreases n - i,
        {
            self.dl.picks.peer_bf.set(i, bf[i]);
            i += 1;
        }
        assert(self.dl.picks.peer_bf@ =~= overlaid(old(self).dl.picks.peer_bf@, bf@));
        self.count_bitfield(t, bufs);
    }

    /// The peer has every piece, or none.
    fn on_have_all_none(&mut self, t: &mut HotTorrent, bufs: &PieceBufferPool, all: bool)
        requires
            old(self).wf(old(t), bufs),
        ensures
            final(self).wf(final(t), bufs),
            final(self).same_but_pieces(old(self)),
            final(self).dl.picks.peer_bf@ == all_or_none(
                old(self).dl.picks.peer_bf@.len(),
                old(t).piece_count,
                all,
            ),
            counted_bitfield(
                old(self).dl.peer_avail,
                *old(t),
                final(self).dl.peer_avail,
                *final(t),
                final(self).dl.picks.peer_bf@,
            ),
    {
        apply_have_all_none(&mut self.dl.picks.peer_bf, t.piece_count, all);
        self.count_bitfield(t, bufs);
    }

    /// The peer asks for a block.
    fn on_request(&mut self, t: &HotTorrent, block: UploadBlock)
        requires
            t.wf(),
        ensures
            *final(self) == (PeerSession { out: final(self).out, ..*old(self) }),
            final(self).out@ == answer(
                old(self).out@,
                t,
                old(self).peer_interested,
                old(self).fast.enabled,
                block,
            ),
    {
        let plen: u32 = if block.index < t.piece_count {
            t.piece_len_of(block.index)
        } else {
            0
        };
        let status = classify_upload_request(
            t.piece_count,
            plen,
            t.has_piece(block.index),
            self.peer_interested,
            block.index,
            block.begin,
            block.length,
        );
        match status {
            UploadRequestStatus::Accept => {
                self.out.try_push_piece(block);
            },
            UploadRequestStatus::Reject => {
                if self.fast.enabled {
                    self.out.push_reject(block.index, block.begin, block.length);
                }
            },
        }
    }

    /// Carry out one message of the peer. Says whether more blocks are to be asked for.
    pub fn handle_message<'a>(
        &mut self,
        t: &mut HotTorrent,
        bufs: &mut PieceBufferPool,
        cfg: &PeerConfig,
        m: ParsedMessage<'a>,
        downloading: bool,
        now: u64,
    ) -> (r: Result<bool>)
        requires
            old(self).wf(old(t), old(bufs)),
            m is Piece <==> m@ is Piece,
        ensures
            final(self).wf(final(t), final(bufs)),
            final(bufs).same_pool(old(bufs)),
            r is Err <==> ends_session(m@, cfg, downloading, *old(self), *old(t)),
            r matches Ok(fill) ==> handled(
                m@,
                cfg,
                downloading,
                now,
                *old(self),
                *old(t),
                *final(self),
                *final(t),
                fill,
            ),
            r matches Err(e) ==> e is Msg && e.text() == end_text(m@, cfg, *old(self), *old(t)),
            r is Err ==> *final(t) == *old(t) && ended(
                m@,
                cfg,
                *old(self),
                *old(t),
                *final(self),
            ),
            bufs_after(
                m@,
                cfg,
                downloading,
                *old(self),
                *old(t),
                *old(bufs),
                *final(bufs),
            ),
            // The buffers out still cover the assembling pieces.
            forall|others: nat| #[trigger]
                old(self).dl.staging.covered(old(bufs), others)
                    ==> final(self).dl.staging.covered(final(bufs), others),
    {
        match m {
            ParsedMessage::Piece { index, begin, block } => self.on_piece(
                &*t,
                bufs,
                cfg,
                index,
                begin,
                block,
                downloading,
                now,
            ),
            ParsedMessage::Msg(msg) => Ok(self.handle_plain(t, &*bufs, cfg, msg, downloading, now)),
        }
    }

    fn handle_plain(
        &mut self,
        t: &mut HotTorrent,
        bufs: &PieceBufferPool,
        cfg: &PeerConfig,
        msg: Message,
        downloading: bool,
        now: u64,
    ) -> (fill: bool)
        requires
            old(self).wf(old(t), bufs),
            !(msg@ is Piece),
        ensures
            final(self).wf(final(t), bufs),
            handled(
                msg@,
                cfg,
                downloading,
                now,
                *old(self),
                *old(t),
                *final(self),
                *final(t),
                fill,
            ),
            assembling(final(self).dl.staging.slots()).len() == assembling(
                old(self).dl.staging.slots(),
            ).len(),
            final(self).dl.staging.same_peer(&old(self).dl.staging),
    {
        match msg {
            Message::KeepAlive => false,
            Message::Choke => {
                self.dl.picks.peer_choking = true;
                false
            },
            Message::Unchoke => {
                self.dl.picks.peer_choking = false;
                if downloading {
                    self.last_piece_at = now;
                }
                downloading
            },
            Message::Interested => {
                self.peer_interested = true;
                false
            },
            Message::NotInterested => {
                self.peer_interested = false;
                self.out.clear_pieces();
                false
            },
            Message::Have(i) => self.on_have(t, bufs, i, downloading),
            Message::HaveAll => {
                self.on_have_all_none(t, bufs, true);
                downloading
            },
            Message::HaveNone => {
                self.on_have_all_none(t, bufs, false);
                false
            },
            Message::SuggestPiece(i) => {
                if downloading {
                    self.dl.push_suggest(i, t.piece_count);
                    self.dl.can_request()
                } else {
                    false
                }
            },
            Message::AllowedFast(i) => {
                if downloading {
                    self.fast.on_allowed_fast(i);
                    self.dl.picks.allowed_fast.insert(i);
                }
                downloading
            },
            Message::RejectRequest { index, begin, length } => {
                if downloading {
                    let known: bool = self.dl.staging.clear_request(index, begin, length);
                }
                downloading
            },
            Message::Bitfield(bf) => {
                self.on_bitfield(t, bufs, &bf);
                downloading
            },
            Message::Request { index, begin, length } => {
                if cfg.allow_upload {
                    self.on_request(&*t, UploadBlock { index, begin, length });
                }
                false
            },
            Message::Cancel { index, begin, length } => {
                if cfg.allow_upload {
                    self.out.cancel_piece(UploadBlock { index, begin, length });
                }
                false
            },
            Message::Extended { ext_id, payload } => {
                if ext_id == EXT_HANDSHAKE {
                    if let Some(v) = ltep_client_version(payload.as_slice()) {
                        let label = prefer_client_label(
                            self.client_label.as_str(),
                            Some(v.as_str()),
                        );
                        self.client_label = label;
                    }
                }
                false
            },
            Message::Piece { .. } => false,
            Message::Unknown(_, _) => false,
        }
    }
}

/// What is left of read bytes after `k` messages at their front.
pub open spec fn rest_after(buf: Seq<u8>, k: nat) -> Seq<u8>
    decreases k,
{
    if k == 0 {
        buf
    } else {
        let b = rest_after(buf, (k - 1) as nat);
        match front(b) {
            Front::Frame(_, n) => b.subrange(n, b.len() as int),
            _ => b,
        }
    }
}

/// The messages at the front of `buf` were carried out in turn: state `k` is the one before
/// message `k`.
pub open spec fn in_turn(
    buf: Seq<u8>,
    states: Seq<(PeerSession, HotTorrent, PieceBufferPool)>,
    fills: Seq<bool>,
    cfg: &PeerConfig,
    downloading: bool,
    now: u64,
) -> bool {
    &&& states.len() == fills.len() + 1
    &&& forall|k: int|
        0 <= k < fills.len() ==> #[trigger] turn(buf, k, states, fills, cfg, downloading, now)
}

/// Message `k` was carried out.
pub open spec fn turn(
    buf: Seq<u8>,
    k: int,
    states: Seq<(PeerSession, HotTorrent, PieceBufferPool)>,
    fills: Seq<bool>,
    cfg: &PeerConfig,
    downloading: bool,
    now: u64,
) -> bool {
    front(rest_after(buf, k as nat)) matches Front::Frame(m, _) && handled(
        m,
        cfg,
        downloading,
        now,
        states[k].0,
        states[k].1,
        states[k + 1].0,
        states[k + 1].1,
        fills[k],
    ) && bufs_after(
        m,
        cfg,
        downloading,
        states[k].0,
        states[k].1,
        states[k].2,
        states[k + 1].2,
    )
}

/// What is left once messages were carried out and `states` is their trace: the last state,
/// but for what the message did that ended the connection.
pub open spec fn left_after(
    buf: Seq<u8>,
    states: Seq<(PeerSession, HotTorrent, PieceBufferPool)>,
    fills: Seq<bool>,
    cfg: &PeerConfig,
    downloading: bool,
    s: PeerSession,
    t: HotTorrent,
    bufs: PieceBufferPool,
) -> bool {
    let (s0, t0, bufs0) = states.last();
    &&& t == t0
    &&& match front(rest_after(buf, fills.len())) {
        Front::Frame(m, _) => ended(m, cfg, s0, t0, s) && bufs_after(
            m,
            cfg,
            downloading,
            s0,
            t0,
            bufs0,
            bufs,
        ),
        _ => s == s0 && bufs == bufs0,
    }
}

/// The outcome of carrying out what was read: every whole message was carried out, or the
/// stream was refused, or a message ended the connection.
pub open spec fn outcome_is(
    buf: Seq<u8>,
    states: Seq<(PeerSession, HotTorrent, PieceBufferPool)>,
    fills: Seq<bool>,
    cfg: &PeerConfig,
    downloading: bool,
    r: Result<bool>,
) -> bool {
    let left = front(rest_after(buf, fills.len()));
    match r {
        Ok(fill) => left is More && fill == fills.contains(true),
        Err(e) => e is Msg && match left {
            Front::More => false,
            Front::Bad(why) => e.text() == why,
            Front::Frame(m, _) => ends_session(
                m,
                cfg,
                downloading,
                states.last().0,
                states.last().1,
            ) && e.text() == end_text(m, cfg, states.last().0, states.last().1),
        },
    }
}

/// Carry out every whole message that was read. Says whether more blocks are to be asked
/// for.
pub fn parse_available_messages(
    s: &mut PeerSession,
    read_buf: &mut ReadCursor,
    t: &mut HotTorrent,
    bufs: &mut PieceBufferPool,
    cfg: &PeerConfig,
    downloading: bool,
    now: u64,
) -> (r: Result<bool>)
    requires
        old(read_buf).wf(),
        old(s).wf(old(t), old(bufs)),
    ensures
        final(read_buf).wf(),
        final(s).wf(final(t), final(bufs)),
        final(bufs).same_pool(old(bufs)),
        exists|states: Seq<(PeerSession, HotTorrent, PieceBufferPool)>, fills: Seq<bool>|
            {
                &&& #[trigger] in_turn(old(read_buf)@, states, fills, cfg, downloading, now)
                &&& states[0] == (*old(s), *old(t), *old(bufs))
                &&& left_after(
                    old(read_buf)@,
                    states,
                    fills,
                    cfg,
                    downloading,
                    *final(s),
                    *final(t),
                    *final(bufs),
                )
                &&& final(read_buf)@ == rest_after(old(read_buf)@, fills.len())
                &&& outcome_is(old(read_buf)@, states, fills, cfg, downloading, r)
            },
        // The buffers out still cover the assembling pieces.
        forall|others: nat| #[trigger]
            old(s).dl.staging.covered(old(bufs), others) ==> final(s).dl.staging.covered(
                final(bufs),
                others,
            ),
{
    let ghost buf = read_buf@;
    let ghost mut states: Seq<(PeerSession, HotTorrent, PieceBufferPool)> = seq![(*s, *t, *bufs)];
    let ghost mut fills: Seq<bool> = Seq::empty();
    let mut need_fill: bool = false;
    assert(in_turn(buf, states, fills, cfg, downloading, now));
    loop
        invariant
            buf == old(read_buf)@,
            read_buf.wf(),
            s.wf(&*t, &*bufs),
            bufs.same_pool(old(bufs)),
            in_turn(buf, states, fills, cfg, downloading, now),
            states[0] == (*old(s), *old(t), *old(bufs)),
            states.last() == (*s, *t, *bufs),
            read_buf@ == rest_after(buf, fills.len()),
            need_fill == fills.contains(true),
            forall|others: nat| #[trigger]
                old(s).dl.staging.covered(old(bufs), others) ==> s.dl.staging.covered(
                    bufs,
                    others,
                ),
        decreases read_buf@.len(),
    {
        let ghost b = read_buf@;
        let ghost s0 = *s;
        let ghost t0 = *t;
        let ghost bufs0 = *bufs;
        let parsed = parse_message(read_buf.unparsed());
        let (frame, used) = match parsed {
            Err(e) => {
                assert(outcome_is(buf, states, fills, cfg, downloading, Err::<bool, Error>(e)));
                return Err(e);
            },
            Ok(None) => {
                assert(outcome_is(
                    buf,
                    states,
                    fills,
                    cfg,
                    downloading,
                    Ok::<bool, Error>(need_fill),
                ));
                return Ok(need_fill);
            },
            Ok(Some(p)) => p,
        };
        let ghost m = frame@;
        match s.handle_message(t, bufs, cfg, frame, downloading, now) {
            Err(e) => {
                assert(outcome_is(buf, states, fills, cfg, downloading, Err::<bool, Error>(e)));
                return Err(e);
            },
            Ok(fill) => {
                if fill {
                    need_fill = true;
                }
                read_buf.advance(used);
                proof {
                    let states1 = states.push((*s, *t, *bufs));
                    let fills1 = fills.push(fill);
                    assert(handled(m, cfg, downloading, now, s0, t0, *s, *t, fill));
                    assert(bufs_after(m, cfg, downloading, s0, t0, bufs0, *bufs));
                    assert forall|k: int| 0 <= k < fills1.len() implies #[trigger] turn(
                        buf,
                        k,
                        states1,
                        fills1,
                        cfg,
                        downloading,
                        now,
                    ) by {
                        if k < fills.len() {
                            assert(turn(buf, k, states, fills, cfg, downloading, now));
                            assert(fills1[k] == fills[k]);
                            assert(states1[k] == states[k]);
                            assert(states1[k + 1] == states[k + 1]);
                        } else {
                            assert(states1[k] == states.last());
                        }
                    }
                    assert(fills1.contains(true) == (fills.contains(true) || fill)) by {
                        if fills.contains(true) {
                            let j = choose|j: int| 0 <= j < fills.len() && fills[j] == true;
                            assert(fills1[j] == true);
                        }
                        if fill {
                            assert(fills1[fills.len() as int] == true);
                        }
                        if fills1.contains(true) && !fill {
                            let j = choose|j: int| 0 <= j < fills1.len() && fills1[j] == true;
                            assert(fills[j] == true);
                        }
                    }
                    states = states1;
                    fills = fills1;
                }
            },
        }
    }
}

/// What a handshake says of the peer.
#[derive(Debug)]
pub struct Negotiated {
    /// The peer knows the extension protocol.
    pub ext: bool,
    /// The peer knows the Fast extension.
    pub fast: bool,
    /// Name of the peer's client, where it can be told.
    pub label: Option<String>,
}

/// Read what a handshake says of the peer.
pub fn negotiated(peer_hs: &[u8]) -> (r: Negotiated)
    ensures
        r.ext == (peer_hs@.len() >= HANDSHAKE_LEN && peer_hs@[HS_EXT_BYTE as int] & HS_EXT_BIT
            != 0),
        r.fast == (peer_hs@.len() >= HANDSHAKE_LEN && peer_hs@[HS_FAST_BYTE as int] & HS_FAST_BIT
            != 0),
        match r.label {
            Some(l) => peer_hs@.len() >= HANDSHAKE_LEN && opens_handshake(peer_hs@) && l@
                == peer_label(peer_hs@.subrange(48, 68)),
            None => !(peer_hs@.len() >= HANDSHAKE_LEN && opens_handshake(peer_hs@)),
        },
{
    if peer_hs.len() < HANDSHAKE_LEN {
        return Negotiated { ext: false, fast: false, label: None };
    }
    let label: Option<String> = match parse_handshake(peer_hs) {
        Ok((_, pid)) => Some(identify_peer_id(&pid)),
        Err(_) => None,
    };
    Negotiated {
        ext: handshake_supports_extensions(peer_hs),
        fast: handshake_supports_fast(peer_hs),
        label,
    }
}

/// What the peer is told of our pieces.
pub open spec fn our_pieces(t: &HotTorrent, peer_fast: bool) -> MessageView {
    if peer_fast {
        possession(
            count_bits(t.bits(), t.piece_count as int) as u32,
            t.piece_count,
            t.bits(),
        )
    } else {
        MessageView::Bitfield(t.bits())
    }
}

/// Tell the peer of our pieces.
pub fn encode_our_pieces(t: &HotTorrent, peer_fast: bool) -> (out: Vec<u8>)
    requires
        t.wf(),
    ensures
        out@ == encoded(our_pieces(t, peer_fast)),
{
    let bf = t.bitfield_snapshot();
    if peer_fast {
        encode_possession_fast(t.have_count(), t.piece_count, bf)
    } else {
        encode_message(&Message::Bitfield(bf))
    }
}

/// The pieces that a peer may ask for while choked.
pub open spec fn pieces_allowed(t: &HotTorrent, addr: Option<PeerAddr>, peer_fast: bool) -> Seq<
    u32,
> {
    match addr {
        Some(PeerAddr::V4 { ip, .. }) => if peer_fast {
            allowed_fast(ALLOWED_FAST_K, t.piece_count, t.infohash@, ip)
        } else {
            Seq::empty()
        },
        _ => Seq::empty(),
    }
}

/// What is sent first on a connection, after the handshake.
pub open spec fn hello(
    t: &HotTorrent,
    cfg: &PeerConfig,
    peer_fast: bool,
    peer_ext: bool,
    addr: Option<PeerAddr>,
    ltep_e: Option<u8>,
    want_download: bool,
) -> Seq<u8> {
    encoded(our_pieces(t, peer_fast)) + (if want_download {
        encoded(MessageView::Interested)
    } else {
        Seq::empty()
    }) + (if cfg.allow_upload {
        encoded(MessageView::Unchoke)
    } else {
        Seq::empty()
    }) + encoded_all(
        pieces_allowed(t, addr, peer_fast).map_values(|i: u32| MessageView::AllowedFast(i)),
    ) + (if peer_ext {
        encoded(
            MessageView::Extended {
                ext_id: EXT_HANDSHAKE,
                payload: vstd::utf8::encode_utf8(
                    ltep_text(cfg.ltep_client@, cfg.listen_port, ltep_e),
                ),
            },
        )
    } else {
        Seq::empty()
    })
}

/// What is sent first on a connection, and the pieces that the peer may ask for while
/// choked.
pub fn build_hello(
    t: &HotTorrent,
    cfg: &PeerConfig,
    peer_fast: bool,
    peer_ext: bool,
    addr: Option<PeerAddr>,
    ltep_e: Option<u8>,
    want_download: bool,
) -> (r: (Vec<u8>, Vec<u32>))
    requires
        t.wf(),
    ensures
        r.0@ == hello(t, cfg, peer_fast, peer_ext, addr, ltep_e, want_download),
        r.1@ == pieces_allowed(t, addr, peer_fast),
{
    let mut out: Vec<u8> = encode_our_pieces(t, peer_fast);
    if want_download {
        let m = encode_message(&Message::Interested);
        push_all(&mut out, m.as_slice());
    }
    if cfg.allow_upload {
        let m = encode_message(&Message::Unchoke);
        push_all(&mut out, m.as_slice());
    }
    let mut allowed: Vec<u32> = Vec::new();
    if peer_fast {
        if let Some(a) = addr {
            allowed = allowed_fast_for_addr(ALLOWED_FAST_K, t.piece_count, &t.infohash, a);
        }
    }
    assert(allowed@ =~= pieces_allowed(t, addr, peer_fast));
    let ms = encode_allowed_fast_messages(allowed.as_slice());
    push_all(&mut out, ms.as_slice());
    if peer_ext {
        let m = encode_extended_handshake(cfg.ltep_client.as_str(), cfg.listen_port, ltep_e);
        push_all(&mut out, m.as_slice());
    }
    assert(out@ =~= hello(t, cfg, peer_fast, peer_ext, addr, ltep_e, want_download));
    (out, allowed)
}

/// A peer that was told of our pieces knows exactly which ones we have.
pub proof fn the_peer_learns_our_pieces(t: &HotTorrent, peer_fast: bool, i: u32)
    requires
        t.wf(),
        i < t.piece_count,
    ensures
        match our_pieces(t, peer_fast) {
            MessageView::HaveAll => peer_fast && t.has(i),
            MessageView::HaveNone => peer_fast && !t.has(i),
            MessageView::Bitfield(b) => bit(b, i as int) == t.has(i),
            _ => false,
        },
        !peer_fast ==> our_pieces(t, peer_fast) is Bitfield,
{
    counts_tell_all_and_none(t.bits(), t.piece_count as int);
}

/// The first words on a connection are, in order, our pieces, that we want some, that the peer
/// may ask, the pieces that it may ask for while choked, and the extension handshake, each only
/// where it is to be said.
pub proof fn the_first_words_are_those_of_the_protocol(
    t: &HotTorrent,
    cfg: &PeerConfig,
    peer_fast: bool,
    peer_ext: bool,
    addr: Option<PeerAddr>,
    ltep_e: Option<u8>,
    want_download: bool,
)
    ensures
        ({
            let all = hello(t, cfg, peer_fast, peer_ext, addr, ltep_e, want_download);
            let pieces = encoded(our_pieces(t, peer_fast));
            let interested = if want_download {
                seq![0u8, 0, 0, 1, 2]
            } else {
                Seq::empty()
            };
            let unchoke = if cfg.allow_upload {
                seq![0u8, 0, 0, 1, 1]
            } else {
                Seq::empty()
            };
            let allowed = encoded_all(
                pieces_allowed(t, addr, peer_fast).map_values(
                    |i: u32| MessageView::AllowedFast(i),
                ),
            );
            let extension = if peer_ext {
                encoded(
                    MessageView::Extended {
                        ext_id: 0,
                        payload: vstd::utf8::encode_utf8(
                            ltep_text(cfg.ltep_client@, cfg.listen_port, ltep_e),
                        ),
                    },
                )
            } else {
                Seq::empty()
            };
            all == pieces + interested + unchoke + allowed + extension
        }),
{
    fixed_messages_have_the_bytes_of_the_protocol(0, 0, 0);
    assert(encoded(MessageView::Interested) == seq![0u8, 0, 0, 1, 2]);
    assert(encoded(MessageView::Unchoke) == seq![0u8, 0, 0, 1, 1]);
}

/// A peer may ask for ten pieces while choked where it knows the Fast extension and has an
/// address of version four, and for none elsewhere.
pub proof fn choked_peers_may_ask_for_ten_pieces(
    t: &HotTorrent,
    peer_fast: bool,
    ip: u32,
    port: u16,
    ip6: u128,
)
    ensures
        peer_fast ==> pieces_allowed(t, Some(PeerAddr::V4 { ip, port }), peer_fast) == allowed_fast(
            10,
            t.piece_count,
            t.infohash@,
            ip,
        ),
        pieces_allowed(t, Some(PeerAddr::V4 { ip, port }), false).len() == 0,
        pieces_allowed(t, Some(PeerAddr::V6 { ip6, port }), peer_fast).len() == 0,
        pieces_allowed(t, None, peer_fast).len() == 0,
{
}

/// The peer's word is taken on whether it chokes us and whether it wants our pieces, from the
/// messages that say so and from no others.
pub proof fn choking_and_interest_are_as_the_peer_says(
    m: MessageView,
    cfg: &PeerConfig,
    downloading: bool,
    now: u64,
    s0: PeerSession,
    t0: HotTorrent,
    s1: PeerSession,
    t1: HotTorrent,
    fill: bool,
)
    requires
        handled(m, cfg, downloading, now, s0, t0, s1, t1, fill),
    ensures
        m is Choke ==> s1.dl.picks.peer_choking,
        m is Unchoke ==> !s1.dl.picks.peer_choking,
        !(m is Choke) && !(m is Unchoke) ==> s1.dl.picks.peer_choking == s0.dl.picks.peer_choking,
        m is Interested ==> s1.peer_interested,
        m is NotInterested ==> !s1.peer_interested,
        !(m is Interested) && !(m is NotInterested) ==> s1.peer_interested == s0.peer_interested,
        // Once it wants nothing any more, what is queued for it is dropped.
        m is NotInterested ==> s1.out@ == s0.out@.push(WriterView::ClearPieces),
        // More is asked for once the peer stops choking us, and never where nothing is fetched.
        m is Unchoke && downloading ==> fill,
        m is Choke || m is HaveNone || m is KeepAlive ==> !fill,
        !downloading ==> !fill,
{
}

/// A peer has exactly the pieces that it says it has.
pub proof fn the_peer_has_what_it_says(
    m: MessageView,
    cfg: &PeerConfig,
    downloading: bool,
    now: u64,
    s0: PeerSession,
    t0: HotTorrent,
    s1: PeerSession,
    t1: HotTorrent,
    fill: bool,
    i: u32,
)
    requires
        handled(m, cfg, downloading, now, s0, t0, s1, t1, fill),
        s0.dl.picks.peer_bf@.len() == bytes_for(t0.piece_count as int),
        i < t0.piece_count,
    ensures
        ({
            let before = bit(s0.dl.picks.peer_bf@, i as int);
            let after = bit(s1.dl.picks.peer_bf@, i as int);
            match m {
                MessageView::Have(k) => after == (before || k == i),
                MessageView::HaveAll => after,
                MessageView::HaveNone => !after,
                MessageView::Bitfield(bf) => bf.len() == s0.dl.picks.peer_bf@.len() ==> after
                    == bit(bf, i as int),
                _ => after == before,
            }
        }),
        // It is counted for a piece exactly where it has it.
        (m is HaveAll || m is HaveNone || m is Bitfield) ==> (s1.dl.peer_avail matches Some(a)
            ==> a.counts(i) == bit(s1.dl.picks.peer_bf@, i as int)),
        m matches MessageView::Have(k) ==> (s0.dl.peer_avail matches Some(a0) ==> (
        s1.dl.peer_avail matches Some(a1) && a1.counts(i) == (a0.counts(i) || k == i))),
{
    match m {
        MessageView::Have(k) => {
            if (k as int) / 8 < s0.dl.picks.peer_bf@.len() {
                setting_a_bit(s0.dl.picks.peer_bf@, k as int, i as int);
            }
        },
        MessageView::HaveAll => {
            all_or_none_bits(t0.piece_count, true, i as int);
        },
        MessageView::HaveNone => {
            all_or_none_bits(t0.piece_count, false, i as int);
        },
        _ => {},
    }
}

/// Each peer is counted once for each piece that it has: where it says that it has a piece
/// for which it was not counted, one more peer has it, and no other piece is had by more.
pub proof fn availability_follows_what_the_peer_says(
    m: MessageView,
    cfg: &PeerConfig,
    downloading: bool,
    now: u64,
    s0: PeerSession,
    t0: HotTorrent,
    s1: PeerSession,
    t1: HotTorrent,
    fill: bool,
    i: u32,
)
    requires
        handled(m, cfg, downloading, now, s0, t0, s1, t1, fill),
        s0.dl.peer_avail is Some,
        s1.dl.peer_avail is Some,
        i < t0.piece_count,
        0 < t0.availability(i) < u32::MAX,
    ensures
        m is Have || m is HaveAll || m is HaveNone || m is Bitfield ==> t1.availability(i)
            == t0.availability(i) + (if (s1.dl.peer_avail->0).counts(i) {
            1int
        } else {
            0
        }) - (if (s0.dl.peer_avail->0).counts(i) {
            1int
        } else {
            0
        }),
        !(m is Have || m is HaveAll || m is HaveNone || m is Bitfield) ==> t1 == t0,
{
    assert((s1.dl.peer_avail->0).counts(i) == (s1.dl.peer_avail->0).counts(i));
}

/// A request is queued for upload as it came, exactly where we have the piece, the peer wants
/// it and the block lies inside it. Any other is refused by name where the peer knows
/// refusals, and dropped where it does not.
pub proof fn requests_are_answered(
    out: Seq<WriterView>,
    t: &HotTorrent,
    peer_interested: bool,
    fast_enabled: bool,
    block: UploadBlock,
)
    ensures
        ({
            let a = answer(out, t, peer_interested, fast_enabled, block);
            let served = block.index < t.piece_count && t.has(block.index) && peer_interested && 1
                <= block.length <= 131_072 && block.begin + block.length <= t.piece_len(
                block.index,
            );
            &&& served ==> a == out.push(WriterView::Upload(block))
            &&& !served && fast_enabled ==> a.len() == out.len() + 1 && a.last()
                == WriterView::Ctrl(
                seq![0u8, 0, 0, 13, 16] + be32(block.index) + be32(block.begin) + be32(
                    block.length,
                ),
            )
            &&& !served && !fast_enabled ==> a == out
        }),
{
    fixed_messages_have_the_bytes_of_the_protocol(block.index, block.begin, block.length);
    t.wanted_is_in_range(block.index);
}

/// Uploads and withdrawals go to the writing half as the peer named them, and a piece that it
/// allows may be asked for from then on.
pub proof fn the_peers_requests_are_passed_on(
    m: MessageView,
    cfg: &PeerConfig,
    downloading: bool,
    now: u64,
    s0: PeerSession,
    t0: HotTorrent,
    s1: PeerSession,
    t1: HotTorrent,
    fill: bool,
)
    requires
        handled(m, cfg, downloading, now, s0, t0, s1, t1, fill),
    ensures
        m matches MessageView::Cancel { index, begin, length } ==> s1.out@ == if cfg.allow_upload {
            s0.out@.push(WriterView::Cancel(UploadBlock { index, begin, length }))
        } else {
            s0.out@
        },
        m matches MessageView::Request { index, begin, length } ==> s1.out@ == if cfg.allow_upload {
            answer(
                s0.out@,
                &t0,
                s0.peer_interested,
                s0.fast.enabled,
                UploadBlock { index, begin, length },
            )
        } else {
            s0.out@
        },
        m matches MessageView::AllowedFast(i) ==> (downloading ==> fill
            && s1.dl.picks.allowed_fast@.contains(i) && s1.dl.picks.may_ask(i)),
        m matches MessageView::SuggestPiece(i) ==> (downloading && i < t0.piece_count
            ==> s1.dl.picks.suggested@.len() > 0 && s1.dl.picks.suggested@[0] == i),
        !(m is Cancel) && !(m is Request) && !(m is NotInterested) ==> s1.out@ == s0.out@,
{
    if let MessageView::SuggestPiece(i) = m {
        the_newest_suggestion_is_first(s0.dl.picks.suggested@, i, t0.piece_count, 0);
    }
}

/// A block that is stored counts: when it came, and its bytes.
pub proof fn stored_blocks_count(
    s0: PeerSession,
    s1: PeerSession,
    t: HotTorrent,
    now: u64,
    index: u32,
    begin: u32,
    block: Seq<u8>,
)
    requires
        block_stored(s0, s1, t, now, index, begin, block),
    ensures
        !ignores(&s0.dl, &t, index) ==> s1.last_piece_at == now && s1.last_useful_at == now,
        !ignores(&s0.dl, &t, index) && s0.wire_down + block.len() <= u64::MAX ==> s1.wire_down
            == s0.wire_down + block.len(),
        ignores(&s0.dl, &t, index) ==> s1.wire_down == s0.wire_down && s1.jobs == s0.jobs
            && s1.last_useful_at == s0.last_useful_at,
{
}

/// The connection ends with a block that cannot be hashed, or is refused, and with nothing
/// else that the peer says.
pub proof fn only_bad_blocks_end_a_connection(
    m: MessageView,
    cfg: &PeerConfig,
    downloading: bool,
    s: PeerSession,
    t: HotTorrent,
)
    ensures
        !(m is Piece) ==> !ends_session(m, cfg, downloading, s, t),
        !downloading ==> !ends_session(m, cfg, downloading, s, t),
        m matches MessageView::Piece { index, begin, block } ==> (t.has(index) || block.len() == 0
            ==> !ends_session(m, cfg, downloading, s, t)),
        m matches MessageView::Piece { index, begin, block } ==> (downloading && !t.has(index)
            && block.len() > 0 && !cfg.can_hash ==> ends_session(m, cfg, downloading, s, t)),
{
}

/// A bitfield says of each piece that it reaches whether the peer has it; of the others it says
/// nothing.
pub proof fn bitfields_say_it_of_each_piece(bf: Seq<u8>, news: Seq<u8>, i: int)
    requires
        0 <= i,
        i / 8 < bf.len(),
    ensures
        overlaid(bf, news).len() == bf.len(),
        i / 8 < news.len() ==> bit(overlaid(bf, news), i) == bit(news, i),
        i / 8 >= news.len() ==> bit(overlaid(bf, news), i) == bit(bf, i),
        news.len() == bf.len() ==> overlaid(bf, news) == news,
{
    if news.len() == bf.len() {
        assert(overlaid(bf, news) =~= news);
    }
}

/// A refused request is open again, in the slot of its piece alone; nothing happens where it
/// was not awaited.
pub proof fn refused_requests_are_asked_anew(
    index: u32,
    begin: u32,
    length: u32,
    cfg: &PeerConfig,
    now: u64,
    s0: PeerSession,
    t0: HotTorrent,
    s1: PeerSession,
    t1: HotTorrent,
    fill: bool,
    j: int,
)
    requires
        handled(
            MessageView::RejectRequest { index, begin, length },
            cfg,
            true,
            now,
            s0,
            t0,
            s1,
            t1,
            fill,
        ),
        0 <= j < s0.dl.staging.slots().len(),
        j != position(s0.dl.staging.slots(), index),
    ensures
        ({
            let slots = s0.dl.staging.slots();
            let at = position(slots, index);
            &&& fill && t1 == t0
            &&& !awaited(slots).contains((index, begin, length)) ==> s1.dl.staging.slots() == slots
            &&& awaited(slots).contains((index, begin, length)) ==> s1.dl.staging.slots()[j]
                == slots[j] && s1.dl.staging.slots()[at] == slots[at].without_request(
                begin as int / 16_384,
            )
        }),
{
    assert((begin / BLOCK_SIZE) as int == begin as int / 16_384);
    let slots = s0.dl.staging.slots();
    let at = position(slots, index);
    if awaited(slots).contains((index, begin, length)) {
        let t = choose|t: int|
            0 <= t < slots.len() && (#[trigger] slots[t]).awaits((index, begin, length));
        assert(slots[t].index() == index);
        assert(0 <= at < slots.len());
    }
}

/// A client is called by the name that its extension handshake gives, where it gives one, and
/// by the one it had where not.
pub proof fn extension_handshakes_name_the_client(
    ext_id: u8,
    payload: Seq<u8>,
    cfg: &PeerConfig,
    downloading: bool,
    now: u64,
    s0: PeerSession,
    t0: HotTorrent,
    s1: PeerSession,
    t1: HotTorrent,
    fill: bool,
)
    requires
        handled(
            MessageView::Extended { ext_id, payload },
            cfg,
            downloading,
            now,
            s0,
            t0,
            s1,
            t1,
            fill,
        ),
    ensures
        ext_id == 0 ==> (ltep_version(payload) matches Some(v) ==> s1.client_label@
            == preferred_label(s0.client_label@, Some(v))),
        ext_id != 0 || ltep_version(payload) is None ==> s1.client_label == s0.client_label,
{
}

/// A message changes what it is about and nothing else: only blocks are stored and counted,
/// only pieces are counted, only the extension handshake renames a client.
pub proof fn messages_change_what_they_are_about(
    m: MessageView,
    cfg: &PeerConfig,
    downloading: bool,
    now: u64,
    s0: PeerSession,
    t0: HotTorrent,
    s1: PeerSession,
    t1: HotTorrent,
    fill: bool,
)
    requires
        handled(m, cfg, downloading, now, s0, t0, s1, t1, fill),
    ensures
        !(m is Piece) ==> s1.jobs == s0.jobs && s1.wire_down == s0.wire_down && s1.last_useful_at
            == s0.last_useful_at,
        !(m is Piece) && !(m is Unchoke) ==> s1.last_piece_at == s0.last_piece_at,
        m is Unchoke && downloading ==> s1.last_piece_at == now,
        !(m is Piece) && !(m is RejectRequest) ==> s1.dl.staging == s0.dl.staging,
        !(m is Piece) ==> s1.dl.picks.hashing == s0.dl.picks.hashing,
        !(m is AllowedFast) ==> s1.fast == s0.fast && s1.dl.picks.allowed_fast
            == s0.dl.picks.allowed_fast,
        !(m is SuggestPiece) ==> s1.dl.picks.suggested == s0.dl.picks.suggested,
        s1.dl.picks.claims == s0.dl.picks.claims,
        s1.dl.picks.endgame == s0.dl.picks.endgame,
        s1.dl.pipeline == s0.dl.pipeline,
        !(m is Extended) ==> s1.client_label == s0.client_label,
        m is KeepAlive || m is Unknown ==> s1 == s0 && t1 == t0,
        s1.fast.allowed_to_peer@ == s0.fast.allowed_to_peer@,
        s1.fast.enabled == s0.fast.enabled,
{
}

/// A block that is stored lies in its place in its piece; the piece is hashed, once it is whole
/// with the block, against the torrent's hash.
pub proof fn stored_blocks_are_put_and_hashed(
    s0: PeerSession,
    s1: PeerSession,
    t: HotTorrent,
    now: u64,
    index: u32,
    begin: u32,
    block: Seq<u8>,
)
    requires
        block_stored(s0, s1, t, now, index, begin, block),
        !ignores(&s0.dl, &t, index),
        0 <= position(s0.dl.staging.slots(), index) < s0.dl.staging.slots().len(),
        begin + block.len() <= s0.dl.staging.slots()[position(
            s0.dl.staging.slots(),
            index,
        )]->buf.len(),
    ensures
        ({
            let before = s0.dl.staging.slots();
            let at = position(before, index);
            let piece = before[at]->piece.with_range(begin as int, block.len() as int);
            &&& !piece.complete() ==> s1.jobs@ == s0.jobs@ && s1.dl.staging.slots().len()
                == before.len() && s1.dl.staging.slots()[at]->piece == piece
                && s1.dl.staging.slots()[at]->buf.subrange(
                begin as int,
                begin + block.len(),
            ) == block
            &&& piece.complete() && t.expected_hash(index) is Some ==> s1.jobs@.len()
                == s0.jobs@.len() + 1 && s1.dl.picks.hashing@.contains(index)
        }),
{
    let before = s0.dl.staging.slots();
    let at = position(before, index);
    let buf = before[at]->buf;
    assert(crate::staging::pool::overwritten(buf, begin as int, block).subrange(
        begin as int,
        begin + block.len(),
    ) =~= block);
    if s1.jobs@.len() == s0.jobs@.len() {
        assert(s1.jobs@.subrange(0, s0.jobs@.len() as int) =~= s1.jobs@);
    }
}

/// What was read is carried out message by message: each takes its own bytes from the front,
/// and what does not make up a message stays.
pub proof fn messages_take_their_own_bytes(buf: Seq<u8>, k: nat)
    ensures
        rest_after(buf, 0) == buf,
        front(rest_after(buf, k)) matches Front::Frame(_, n) ==> (0 <= n <= rest_after(buf, k).len()
            ==> rest_after(buf, k) == rest_after(buf, k).subrange(0, n) + rest_after(buf, k + 1)
            && rest_after(buf, k + 1).len() + n == rest_after(buf, k).len()),
        !(front(rest_after(buf, k)) is Frame) ==> rest_after(buf, k + 1) == rest_after(buf, k),
{
    let b = rest_after(buf, k);
    if let Front::Frame(_, n) = front(b) {
        if 0 <= n <= b.len() {
            assert(b =~= b.subrange(0, n) + b.subrange(n, b.len() as int));
        }
    }
}

/// Every message that was read is carried out, in its turn, and none twice. What came is taken
/// in full where nothing is wrong, and a connection ends with the error that says what is.
pub proof fn reading_goes_on_until_nothing_is_left(
    buf: Seq<u8>,
    states: Seq<(PeerSession, HotTorrent, PieceBufferPool)>,
    fills: Seq<bool>,
    cfg: &PeerConfig,
    downloading: bool,
    now: u64,
    r: Result<bool>,
    k: int,
)
    requires
        in_turn(buf, states, fills, cfg, downloading, now),
        outcome_is(buf, states, fills, cfg, downloading, r),
        0 <= k < fills.len(),
    ensures
        states.len() == fills.len() + 1,
        front(rest_after(buf, k as nat)) is Frame,
        handled(
            front(rest_after(buf, k as nat))->Frame_0,
            cfg,
            downloading,
            now,
            states[k].0,
            states[k].1,
            states[k + 1].0,
            states[k + 1].1,
            fills[k],
        ),
        r is Ok ==> front(rest_after(buf, fills.len())) is More,
        r matches Ok(fill) ==> (fills[k] ==> fill),
        front(rest_after(buf, fills.len())) matches Front::Bad(why) ==> (r matches Err(e) && e.text()
            == why),
        r is Err ==> !(front(rest_after(buf, fills.len())) is More),
{
    assert(turn(buf, k, states, fills, cfg, downloading, now));
    if fills[k] {
        assert(fills.contains(true));
    }
}

/// A block that ends a connection leaves everything but the download as it was, and the error
/// says what is wrong with it.
pub proof fn a_bad_block_changes_nothing_else(
    m: MessageView,
    cfg: &PeerConfig,
    s0: PeerSession,
    t: HotTorrent,
    s1: PeerSession,
)
    requires
        ended(m, cfg, s0, t, s1),
    ensures
        m is Piece,
        s1.out == s0.out && s1.jobs == s0.jobs && s1.fast == s0.fast && s1.wire_down
            == s0.wire_down && s1.peer_interested == s0.peer_interested && s1.client_label
            == s0.client_label && s1.last_piece_at == s0.last_piece_at && s1.last_useful_at
            == s0.last_useful_at,
        !cfg.can_hash ==> s1 == s0 && end_text(m, cfg, s0, t) == "hash thread not configured"@,
        m matches MessageView::Piece { index, begin, block } ==> (cfg.can_hash && !completes(
            s0,
            t,
            index,
            begin,
            block,
        ) ==> s1.dl.staging.slots() == s0.dl.staging.slots()),
        m matches MessageView::Piece { index, begin, block } ==> (cfg.can_hash ==> (block_error(
            s0,
            t,
            index,
            begin,
            block,
        ) matches Some(why) ==> end_text(m, cfg, s0, t) == why)),
{
}

/// A block is wrong where its piece refuses it, or where it makes a piece whole that has no
/// hash; it makes its piece whole where nothing is missing with it.
pub proof fn blocks_are_wrong_for_a_reason(
    s: PeerSession,
    t: HotTorrent,
    index: u32,
    begin: u32,
    block: Seq<u8>,
)
    ensures
        ({
            let slot = s.dl.staging.slots()[position(s.dl.staging.slots(), index)];
            let refusal = crate::staging::pool::block_refusal(
                slot->piece.length as int,
                slot->buf.len() as int,
                begin as int,
                block.len() as int,
            );
            let whole = slot->piece.with_range(begin as int, block.len() as int).complete();
            &&& refusal is Some ==> block_error(s, t, index, begin, block) == refusal
            &&& refusal is None && !whole ==> block_error(s, t, index, begin, block) is None
            &&& refusal is None && t.expected_hash(index) is Some ==> block_error(
                s,
                t,
                index,
                begin,
                block,
            ) is None
            &&& refusal is None && whole && t.expected_hash(index) is None ==> block_error(
                s,
                t,
                index,
                begin,
                block,
            ) == Some("piece index out of range"@)
            &&& completes(s, t, index, begin, block) <==> refusal is None && whole && !ignores(
                &s.dl,
                &t,
                index,
            )
        }),
{
}

} // verus!
