//! Helpers that the halves of a peer session share.
use crate::peer::ctrl_scratch::CtrlScratch;
use crate::peer::out_queue::{frames, with_frame, OutQueue};
use crate::session::snapshot::PeerCrypto;
use crate::wire::messages::{encoded_all, MessageView};
use std::collections::{HashSet, VecDeque};
use vstd::prelude::*;

verus! {

broadcast use vstd::std_specs::hash::group_hash_axioms;

/// Nanoseconds in a second.
pub const SECOND: u64 = 1_000_000_000;

/// Time without a block after which requests are cancelled and asked anew.
pub const REQUEST_STALL: u64 = 20 * SECOND;

/// The same in endgame.
pub const REQUEST_STALL_ENDGAME: u64 = 4 * SECOND;

/// Time without a write after which a keep-alive is sent.
pub const KEEPALIVE_INTERVAL: u64 = 120 * SECOND;

/// Most suggested pieces that are kept.
pub const MAX_SUGGESTED: usize = 32;

/// Whether requests may be sent at all: unchoked, or with some piece allowed fast.
pub fn can_request_from(peer_choking: bool, allowed_fast: &HashSet<u32>) -> (r: bool)
    ensures
        r == (!peer_choking || !allowed_fast@.is_empty()),
{
    !peer_choking || !allowed_fast.is_empty()
}

/// The suggestions with a new one in front, the oldest dropped past the limit. A piece that
/// the torrent does not have is not kept.
pub open spec fn with_suggestion(q: Seq<u32>, index: u32, piece_count: u32) -> Seq<u32> {
    if index >= piece_count {
        q
    } else {
        let all = seq![index] + q;
        if all.len() > MAX_SUGGESTED {
            all.subrange(0, MAX_SUGGESTED as int)
        } else {
            all
        }
    }
}

/// Keep a suggestion, newest first.
pub fn push_suggest(suggested: &mut VecDeque<u32>, index: u32, piece_count: u32)
    ensures
        final(suggested)@ == with_suggestion(old(suggested)@, index, piece_count),
{
    if index >= piece_count {
        return;
    }
    suggested.push_front(index);
    assert(suggested@ =~= seq![index] + old(suggested)@);
    suggested.truncate(MAX_SUGGESTED);
}

/// The HAVE messages for a row of pieces.
pub open spec fn haves(pieces: Seq<u32>) -> Seq<MessageView> {
    Seq::new(pieces.len(), |i: int| MessageView::Have(pieces[i]))
}

/// `first`, where it is there, and the pieces behind it.
pub open spec fn with_first(first: Option<u32>, queued: Seq<u32>) -> Seq<u32> {
    match first {
        Some(i) => seq![i] + queued,
        None => queued,
    }
}

/// Queue one frame with a HAVE for each piece. False where there is none.
pub fn enqueue_have_messages_from(
    out: &mut OutQueue,
    scratch: &mut CtrlScratch,
    queued: &[u32],
    first: Option<u32>,
) -> (r: bool)
    requires
        old(out).wf(),
    ensures
        final(out).wf(),
        r == (with_first(first, queued@).len() > 0),
        frames(final(out).ctrl) == with_frame(
            frames(old(out).ctrl),
            encoded_all(haves(with_first(first, queued@))),
        ),
        final(out).pieces@ == old(out).pieces@,
        final(out).active == old(out).active,
        final(out).piece_max == old(out).piece_max,
        final(out).keepalive_queued == old(out).keepalive_queued,
{
    scratch.clear();
    let ghost all = with_first(first, queued@);
    let ghost skip: int = 0;
    if let Some(index) = first {
        scratch.reserve_haves(1);
        scratch.append_have(index);
        proof {
            skip = 1;
            assert(haves(all.subrange(0, 1)).drop_last() =~= Seq::<MessageView>::empty());
            assert(encoded_all(haves(all.subrange(0, 0))) =~= Seq::<u8>::empty());
            reveal_with_fuel(encoded_all, 2);
            assert(haves(all.subrange(0, 1)).last() == MessageView::Have(index));
            assert(scratch@ =~= encoded_all(haves(all.subrange(0, 1))));
        }
    } else {
        assert(haves(all.subrange(0, 0)) =~= Seq::<MessageView>::empty());
        assert(scratch@ =~= encoded_all(haves(all.subrange(0, 0))));
    }
    let mut i: usize = 0;
    while i < queued.len()
        invariant
            i <= queued@.len(),
            all == with_first(first, queued@),
            skip == if first is Some {
                1int
            } else {
                0
            },
            scratch@ == encoded_all(haves(all.subrange(0, skip + i))),
        decreases queued@.len() - i,
    {
        scratch.append_have(queued[i]);
        proof {
            let next = haves(all.subrange(0, skip + i + 1));
            assert(next.drop_last() =~= haves(all.subrange(0, skip + i)));
            assert(next.last() == MessageView::Have(queued@[i as int]));
        }
        i += 1;
    }
    proof {
        assert(all.subrange(0, skip + i) =~= all);
        have_bytes(all);
    }
    if scratch.is_empty() {
        assert(with_frame(frames(out.ctrl), encoded_all(haves(all))) =~= frames(out.ctrl));
        return false;
    }
    let frame = scratch.take();
    out.push_ctrl_owned(frame);
    true
}

proof fn have_bytes(pieces: Seq<u32>)
    ensures
        encoded_all(haves(pieces)).len() == 9 * pieces.len(),
    decreases pieces.len(),
{
    if pieces.len() > 0 {
        have_bytes(pieces.drop_last());
        assert(haves(pieces).drop_last() =~= haves(pieces.drop_last()));
    }
}

/// Queue one frame with a HAVE for each piece that is waiting.
pub fn enqueue_have_messages(
    out: &mut OutQueue,
    scratch: &mut CtrlScratch,
    queued: &[u32],
) -> (r: bool)
    requires
        old(out).wf(),
    ensures
        final(out).wf(),
        r == (queued@.len() > 0),
        frames(final(out).ctrl) == with_frame(
            frames(old(out).ctrl),
            encoded_all(haves(queued@)),
        ),
        final(out).pieces@ == old(out).pieces@,
        final(out).active == old(out).active,
        final(out).piece_max == old(out).piece_max,
        final(out).keepalive_queued == old(out).keepalive_queued,
{
    enqueue_have_messages_from(out, scratch, queued, None)
}

/// What an encrypted handshake agreed on: whether the stream is enciphered, and how the
/// connection is shown.
pub fn mse_to_wire(rc4: bool) -> (r: (bool, PeerCrypto))
    ensures
        r == if rc4 {
            (true, PeerCrypto::Rc4)
        } else {
            (false, PeerCrypto::PePlain)
        },
{
    if rc4 {
        (true, PeerCrypto::Rc4)
    } else {
        (false, PeerCrypto::PePlain)
    }
}

/// A suggestion is the first to be tried, those from before follow in their order, and none
/// of a piece that the torrent lacks is kept.
pub proof fn the_newest_suggestion_is_first(q: Seq<u32>, index: u32, piece_count: u32, i: int)
    ensures
        index < piece_count ==> with_suggestion(q, index, piece_count).len() > 0 && with_suggestion(
            q,
            index,
            piece_count,
        )[0] == index,
        index < piece_count && 0 <= i < with_suggestion(q, index, piece_count).len() - 1
            ==> with_suggestion(q, index, piece_count)[i + 1] == q[i],
        index >= piece_count ==> with_suggestion(q, index, piece_count) == q,
        index < piece_count && q.len() < 32 ==> with_suggestion(q, index, piece_count).len()
            == q.len() + 1,
        index < piece_count && q.len() >= 32 ==> with_suggestion(q, index, piece_count).len()
            == 32,
{
}

/// Each piece that came is told of, in its order.
pub proof fn every_piece_is_told_of(pieces: Seq<u32>, first: Option<u32>, i: int)
    ensures
        haves(pieces).len() == pieces.len(),
        0 <= i < pieces.len() ==> haves(pieces)[i] == MessageView::Have(pieces[i]),
        first is None ==> with_first(first, pieces) == pieces,
        first matches Some(f) ==> with_first(first, pieces) == seq![f] + pieces,
{
}

} // verus!
