//! What we fetch from one peer: which pieces to start, which blocks to ask for, and what
//! becomes of the blocks that come.
use crate::bitfield::{bit, bitfield_get};
use crate::error::Result;
use crate::hot::{HotTorrent, PeerAvailability};
use crate::peer::ctrl_scratch::CtrlScratch;
use crate::peer::duplex::{with_ctrl, OutCmd};
use crate::peer::helpers::{can_request_from, push_suggest, with_suggestion};
use crate::runtime::hash_worker::{HashJob, HashOutcome};
use crate::staging::piece_pool::PieceBufferPool;
use crate::staging::pool::{
    asked, assembles, block_refusal, chosen_from, clipped, depth, drawn,
    filled, forgotten, handed_over, holds_back, overwritten, pending_all, pending_total, position,
    position_is, refill, slots_wf, staged, staged_pieces, started_from, starts_no_more,
    with_started, PieceSource, SlotView, StagedView, StagingPool, BLOCK_SIZE,
};
use crate::wire::messages::{encoded_all, MessageView, PieceHeader};
use std::collections::{HashSet, VecDeque};
use vstd::prelude::*;

verus! {

broadcast use vstd::std_specs::hash::group_hash_axioms;

/// The pieces that one peer has claimed.
#[derive(Debug)]
pub struct PeerPieceClaims {
    held: Vec<u32>,
}

impl PeerPieceClaims {
    /// Whether the peer has claimed a piece.
    pub closed spec fn holds(&self, i: u32) -> bool {
        self.held@.contains(i)
    }

    /// No claims.
    pub fn new() -> (c: PeerPieceClaims)
        ensures
            forall|i: u32| !(#[trigger] c.holds(i)),
    {
        PeerPieceClaims { held: Vec::new() }
    }

    /// Whether the peer has claimed a piece.
    pub fn contains(&self, index: u32) -> (r: bool)
        ensures
            r == self.holds(index),
    {
        let mut i: usize = 0;
        while i < self.held.len()
            invariant
                i <= self.held@.len(),
                forall|j: int| 0 <= j < i ==> self.held@[j] != index,
            decreases self.held@.len() - i,
        {
            if self.held[i] == index {
                return true;
            }
            i += 1;
        }
        false
    }

    /// Claim a piece of the torrent for the peer.
    pub fn try_claim(&mut self, t: &mut HotTorrent, index: u32, endgame: bool) -> (r: bool)
        requires
            old(t).wf(),
        ensures
            final(t).wf(),
            final(t).same_but_claims(old(t)),
            r == (index < old(t).piece_count && (endgame || !old(t).is_claimed(index))),
            forall|i: u32| #[trigger]
                final(t).is_claimed(i) == (old(t).is_claimed(i) || (r && i == index)),
            forall|i: u32| #[trigger]
                final(self).holds(i) == (old(self).holds(i) || (r && i == index)),
    {
        if !t.try_claim_piece(index, endgame) {
            return false;
        }
        if !self.contains(index) {
            let ghost before = self.held@;
            self.held.push(index);
            proof {
                assert forall|i: u32| #[trigger]
                    self.holds(i) == (old(self).holds(i) || i == index) by {
                    if before.contains(i) {
                        let k = choose|k: int| 0 <= k < before.len() && before[k] == i;
                        assert(self.held@[k] == i);
                    }
                    if i == index {
                        assert(self.held@[before.len() as int] == i);
                    }
                }
            }
        }
        true
    }

    /// Give the claim on a piece back.
    pub fn release(&mut self, t: &mut HotTorrent, index: u32)
        requires
            old(t).wf(),
        ensures
            final(t).wf(),
            final(t).same_but_claims(old(t)),
            forall|i: u32| #[trigger]
                final(t).is_claimed(i) == (old(t).is_claimed(i) && i != index),
            forall|i: u32| #[trigger] final(self).holds(i) == (old(self).holds(i) && i != index),
    {
        t.release_piece_claim(index);
        let mut rest: Vec<u32> = Vec::new();
        let mut i: usize = 0;
        while i < self.held.len()
            invariant
                i <= self.held@.len(),
                self.held@ == old(self).held@,
                forall|k: u32| #[trigger]
                    rest@.contains(k) == (self.held@.subrange(0, i as int).contains(k) && k
                        != index),
            decreases self.held@.len() - i,
        {
            let x: u32 = self.held[i];
            let ghost before = rest@;
            if x != index {
                rest.push(x);
            }
            proof {
                let a = self.held@.subrange(0, i as int);
                let b = self.held@.subrange(0, i + 1);
                assert(b =~= a.push(x));
                assert forall|k: u32| #[trigger]
                    rest@.contains(k) == (b.contains(k) && k != index) by {
                    pushed_contains(a, x, k);
                    pushed_contains(before, x, k);
                }
            }
            i += 1;
        }
        assert(self.held@.subrange(0, i as int) =~= self.held@);
        self.held = rest;
    }

    /// The peer is gone: its claims on pieces that are not on disk are given back.
    pub fn release_all(&mut self, t: &mut HotTorrent)
        requires
            old(t).wf(),
        ensures
            final(t).wf(),
            final(t).same_but_claims(old(t)),
            forall|i: u32| !(#[trigger] final(self).holds(i)),
            forall|i: u32| #[trigger]
                final(t).is_claimed(i) == (old(t).is_claimed(i) && !(old(self).holds(i) && !old(
                    t,
                ).has(i))),
    {
        let ghost t0 = *t;
        proof {
            t0.same_in_steps(&t0, &t0);
        }
        let mut i: usize = 0;
        while i < self.held.len()
            invariant
                i <= self.held@.len(),
                self.held@ == old(self).held@,
                t0 == *old(t),
                t.wf(),
                t.same_but_claims(&t0),
                forall|k: u32| #[trigger]
                    t.is_claimed(k) == (t0.is_claimed(k) && !(self.held@.subrange(
                        0,
                        i as int,
                    ).contains(k) && !t0.has(k))),
            decreases self.held@.len() - i,
        {
            let x: u32 = self.held[i];
            let ghost t1 = *t;
            proof {
                t1.same_in_steps(&t0, &t0);
                t1.same_torrent_facts(&t0);
                assert(t1.has(x) == t0.has(x));
                let a = self.held@.subrange(0, i as int);
                let b = self.held@.subrange(0, i + 1);
                assert(b =~= a.push(x));
                assert forall|k: u32| #[trigger] b.contains(k) == (a.contains(k) || k == x) by {
                    pushed_contains(a, x, k);
                }
            }
            if !t.has_piece(x) {
                t.release_piece_claim(x);
            }
            proof {
                t.same_in_steps(&t1, &t0);
                t1.same_in_steps(&t1, &t0);
            }
            i += 1;
        }
        assert(self.held@.subrange(0, i as int) =~= self.held@);
        self.held = Vec::new();
    }
}

/// Two peers have claimed different pieces, all of which the torrent knows as claimed.
pub open spec fn apart(a: &PeerPieceClaims, b: &PeerPieceClaims, t: &HotTorrent) -> bool {
    forall|i: u32|
        #![trigger t.is_claimed(i)]
        #![trigger a.holds(i)]
        #![trigger b.holds(i)]
        !(a.holds(i) && b.holds(i)) && (a.holds(i) || b.holds(i) ==> t.is_claimed(i))
}

/// Outside the endgame no piece is fetched from two peers: where one of two peers claims a
/// piece with [`PeerPieceClaims::try_claim`], their claims stay apart.
pub proof fn no_piece_is_claimed_by_two_peers(
    a: &PeerPieceClaims,
    b: &PeerPieceClaims,
    t: &HotTorrent,
    index: u32,
    r: bool,
    a1: &PeerPieceClaims,
    t1: &HotTorrent,
)
    requires
        apart(a, b, t),
        r == (index < t.piece_count && !t.is_claimed(index)),
        forall|i: u32| #[trigger] t1.is_claimed(i) == (t.is_claimed(i) || (r && i == index)),
        forall|i: u32| #[trigger] a1.holds(i) == (a.holds(i) || (r && i == index)),
    ensures
        apart(a1, b, t1),
{
    assert forall|i: u32|
        #![trigger t1.is_claimed(i)]
        #![trigger a1.holds(i)]
        #![trigger b.holds(i)]
        !(a1.holds(i) && b.holds(i)) && (a1.holds(i) || b.holds(i) ==> t1.is_claimed(i)) by {
        assert(a1.holds(i) == (a.holds(i) || (r && i == index)));
        assert(t1.is_claimed(i) == (t.is_claimed(i) || (r && i == index)));
        assert(!(a.holds(i) && b.holds(i)));
    }
}

proof fn pushed_contains(s: Seq<u32>, x: u32, k: u32)
    ensures
        s.push(x).contains(k) == (s.contains(k) || k == x),
{
    if s.contains(k) {
        let j = choose|j: int| 0 <= j < s.len() && s[j] == k;
        assert(s.push(x)[j] == k);
    }
    if k == x {
        assert(s.push(x)[s.len() as int] == k);
    }
    if s.push(x).contains(k) {
        let j = choose|j: int| 0 <= j < s.push(x).len() && s.push(x)[j] == k;
        if j < s.len() {
            assert(s[j] == k);
        }
    }
}

/// What decides which pieces are started from a peer.
#[derive(Debug)]
pub struct PeerPicks {
    /// The pieces that the peer has.
    pub peer_bf: Vec<u8>,
    /// Pieces that the peer suggests, newest first.
    pub suggested: VecDeque<u32>,
    /// Pieces that are being hashed.
    pub hashing: HashSet<u32>,
    /// The peer's claims.
    pub claims: PeerPieceClaims,
    /// Whether the peer is choking us.
    pub peer_choking: bool,
    /// Pieces that may be asked for while choked.
    pub allowed_fast: HashSet<u32>,
    pub endgame: bool,
}

/// Whether `b` is what is left of `a` after items left its front.
pub open spec fn rest_of(a: Seq<u32>, b: Seq<u32>) -> bool {
    b.len() <= a.len() && b == a.subrange(a.len() - b.len(), a.len() as int)
}

/// The first place from `k` on whose piece is eligible.
pub open spec fn first_eligible(q: Seq<u32>, eligible: spec_fn(u32) -> bool, k: int) -> Option<int>
    decreases q.len() - k,
{
    if k < 0 || k >= q.len() {
        None
    } else if eligible(q[k]) {
        Some(k)
    } else {
        first_eligible(q, eligible, k + 1)
    }
}

/// Whether piece `i` is the rarest of the eligible ones: among equally rare ones the first.
pub open spec fn is_rarest(t: &HotTorrent, eligible: spec_fn(u32) -> bool, i: u32) -> bool {
    &&& eligible(i)
    &&& forall|j: u32| #[trigger]
        eligible(j) ==> t.availability(i) < t.availability(j) || (t.availability(i)
            == t.availability(j) && i <= j)
}

impl PeerPicks {
    /// Whether blocks of a piece may be asked for now.
    pub open spec fn may_ask(&self, i: u32) -> bool {
        !self.peer_choking || self.allowed_fast@.contains(i)
    }

    /// Whether a piece could be started: wanted, missing, at the peer, not being hashed,
    /// open to requests, and not claimed.
    pub open spec fn would_take(&self, t: &HotTorrent, i: u32) -> bool {
        &&& t.wants(i)
        &&& !t.has(i)
        &&& bit(self.peer_bf@, i as int)
        &&& !self.hashing@.contains(i)
        &&& self.may_ask(i)
        &&& (self.endgame || !t.is_claimed(i))
    }

    /// Whether a piece could be started that is not staged.
    pub open spec fn eligible(&self, t: &HotTorrent, slots: Seq<SlotView>, i: u32) -> bool {
        self.would_take(t, i) && !staged(slots, i)
    }

    /// Nothing is known of the peer yet.
    pub fn new(peer_bf: Vec<u8>) -> (p: PeerPicks)
        ensures
            p.peer_bf == peer_bf,
            p.suggested@ == Seq::<u32>::empty(),
            p.hashing@ == Set::<u32>::empty(),
            forall|i: u32| !(#[trigger] p.claims.holds(i)),
            p.peer_choking,
            p.allowed_fast@ == Set::<u32>::empty(),
            !p.endgame,
    {
        PeerPicks {
            peer_bf,
            suggested: VecDeque::new(),
            hashing: HashSet::new(),
            claims: PeerPieceClaims::new(),
            peer_choking: true,
            allowed_fast: HashSet::new(),
            endgame: false,
        }
    }

    fn is_eligible(&self, t: &HotTorrent, staging: &StagingPool, i: u32) -> (r: bool)
        requires
            t.wf(),
        ensures
            r == (t.wants(i) && !t.has(i) && bit(self.peer_bf@, i as int) && !staged(
                staging.slots(),
                i,
            ) && !self.hashing@.contains(i) && self.may_ask(i)),
    {
        t.wants_piece(i) && !t.has_piece(i) && bitfield_get(self.peer_bf.as_slice(), i)
            && !staging.contains(i) && !self.hashing.contains(&i) && (!self.peer_choking
            || self.allowed_fast.contains(&i))
    }

    /// The first suggested piece that is eligible, claimed. Suggestions before it are
    /// dropped, and so is itself.
    pub fn take_suggested(&mut self, t: &mut HotTorrent, staging: &StagingPool) -> (r: Option<u32>)
        requires
            old(t).wf(),
        ensures
            final(t).wf(),
            final(t).same_but_claims(old(t)),
            final(self).same_but_queue(old(self)),
            ({
                let e = |i: u32| old(self).eligible(old(t), staging.slots(), i);
                match first_eligible(old(self).suggested@, e, 0) {
                    Some(k) => r == Some(old(self).suggested@[k]) && final(self).suggested@ == old(
                        self,
                    ).suggested@.subrange(k + 1, old(self).suggested@.len() as int),
                    None => r is None && final(self).suggested@ == Seq::<u32>::empty(),
                }
            }),
            forall|i: u32| #[trigger]
                final(t).is_claimed(i) == (old(t).is_claimed(i) || r == Some(i)),
            forall|i: u32| #[trigger]
                final(self).claims.holds(i) == (old(self).claims.holds(i) || r == Some(i)),
            r matches Some(i) ==> old(self).eligible(old(t), staging.slots(), i),
    {
        let ghost e = |i: u32| old(self).eligible(old(t), staging.slots(), i);
        let ghost q = self.suggested@;
        let ghost mut k: int = 0;
        let ghost t0 = *t;
        proof {
            t0.same_in_steps(&t0, &t0);
            assert(q.subrange(0, q.len() as int) =~= q);
        }
        while self.suggested.len() > 0
            invariant
                0 <= k <= q.len(),
                t0 == *old(t),
                *t == t0,
                t.wf(),
                t0.same_but_claims(&t0),
                q == old(self).suggested@,
                self.same_but_queue(old(self)),
                self.claims == old(self).claims,
                self.suggested@ == q.subrange(k, q.len() as int),
                e == |i: u32| old(self).eligible(old(t), staging.slots(), i),
                first_eligible(q, e, 0) == first_eligible(q, e, k),
            decreases q.len() - k,
        {
            let i: u32 = match self.suggested.pop_front() {
                Some(i) => i,
                None => {
                    return None;
                },
            };
            assert(i == q[k]);
            assert(self.suggested@ =~= q.subrange(k + 1, q.len() as int));
            let free: bool = self.endgame || !t.piece_is_claimed(i);
            if self.is_eligible(&*t, staging, i) && free {
                assert(e(q[k]));
                proof {
                    t.wanted_is_in_range(i);
                }
                let ok: bool = self.claims.try_claim(t, i, self.endgame);
                assert(ok);
                return Some(i);
            }
            proof {
                assert(!e(q[k]));
                k = k + 1;
            }
        }
        assert(self.suggested@ =~= Seq::<u32>::empty());
        None
    }

    /// The rarest eligible piece, claimed.
    pub fn pick_rarest_piece(&mut self, t: &mut HotTorrent, staging: &StagingPool) -> (r: Option<
        u32,
    >)
        requires
            old(t).wf(),
        ensures
            final(t).wf(),
            final(t).same_but_claims(old(t)),
            final(self).same_but_queue(old(self)),
            final(self).suggested@ == old(self).suggested@,
            ({
                let e = |i: u32| old(self).eligible(old(t), staging.slots(), i);
                match r {
                    Some(i) => is_rarest(old(t), e, i),
                    None => forall|i: u32| !(#[trigger] e(i)),
                }
            }),
            forall|i: u32| #[trigger]
                final(t).is_claimed(i) == (old(t).is_claimed(i) || r == Some(i)),
            forall|i: u32| #[trigger]
                final(self).claims.holds(i) == (old(self).claims.holds(i) || r == Some(i)),
    {
        let ghost e = |i: u32| old(self).eligible(old(t), staging.slots(), i);
        let mut best: Option<u32> = None;
        let mut i: u32 = 0;
        proof {
            t.same_in_steps(&*t, &*t);
        }
        while i < t.piece_count
            invariant
                i <= t.piece_count,
                *t == *old(t),
                *self == *old(self),
                t.wf(),
                e == |i: u32| old(self).eligible(old(t), staging.slots(), i),
                best matches Some(b) ==> b < i && e(b),
                best matches Some(b) ==> forall|j: u32|
                    j < i && #[trigger] e(j) ==> t.availability(b) < t.availability(j) || (
                    t.availability(b) == t.availability(j) && b <= j),
                best is None ==> forall|j: u32| j < i ==> !(#[trigger] e(j)),
            decreases t.piece_count - i,
        {
            let free: bool = self.endgame || !t.piece_is_claimed(i);
            if self.is_eligible(&*t, staging, i) && free {
                assert(e(i));
                match best {
                    Some(b) => {
                        if t.piece_availability(i) < t.piece_availability(b) {
                            best = Some(i);
                        }
                    },
                    None => {
                        best = Some(i);
                    },
                }
            } else {
                assert(!e(i));
            }
            i += 1;
        }
        proof {
            assert forall|j: u32| #[trigger] e(j) implies j < t.piece_count by {
                t.wanted_is_in_range(j);
            }
        }
        if let Some(b) = best {
            let ok: bool = self.claims.try_claim(t, b, self.endgame);
            assert(ok);
        }
        best
    }

    /// The same but for the suggestions and the claims.
    pub open spec fn same_but_queue(&self, other: &PeerPicks) -> bool {
        &&& self.peer_bf == other.peer_bf
        &&& self.hashing == other.hashing
        &&& self.peer_choking == other.peer_choking
        &&& self.allowed_fast == other.allowed_fast
        &&& self.endgame == other.endgame
    }
}

/// Claim a piece to start: the first eligible suggestion, else the rarest eligible piece.
/// Gives its index and length.
pub fn start_piece(picks: &mut PeerPicks, t: &mut HotTorrent, staging: &StagingPool) -> (r: Option<
    (u32, u32),
>)
    requires
        old(t).wf(),
    ensures
        final(t).wf(),
        final(t).same_but_claims(old(t)),
        final(picks).same_but_queue(old(picks)),
        ({
            let q = old(picks).suggested@;
            let e = |i: u32| old(picks).eligible(old(t), staging.slots(), i);
            match first_eligible(q, e, 0) {
                Some(k) => {
                    &&& r == Some((q[k], old(t).piece_len(q[k]) as u32))
                    &&& final(picks).suggested@ == q.subrange(k + 1, q.len() as int)
                },
                None => {
                    &&& final(picks).suggested@ == Seq::<u32>::empty()
                    &&& match r {
                        Some((i, n)) => is_rarest(old(t), e, i) && n == old(t).piece_len(i),
                        None => forall|i: u32| !(#[trigger] e(i)),
                    }
                },
            }
        }),
        r matches Some(p) ==> old(picks).eligible(old(t), staging.slots(), p.0) && p.1 == old(
            t,
        ).piece_len(p.0),
        forall|i: u32| #[trigger]
            final(t).is_claimed(i) == (old(t).is_claimed(i) || (r is Some && (r->0).0 == i)),
        forall|i: u32| #[trigger]
            final(picks).claims.holds(i) == (old(picks).claims.holds(i) || (r is Some && (r->0).0
                == i)),
{
    let ghost t0 = *t;
    if let Some(i) = picks.take_suggested(t, staging) {
        proof {
            t.same_torrent_facts(&t0);
            t0.wanted_is_in_range(i);
        }
        let n: u32 = t.piece_len_of(i);
        return Some((i, n));
    }
    let ghost t1 = *t;
    let ghost p1 = *picks;
    proof {
        t1.same_torrent_facts(&t0);
        assert forall|i: u32| #[trigger] p1.eligible(&t1, staging.slots(), i) == old(picks).eligible(
            old(t),
            staging.slots(),
            i,
        ) by {
            assert(t1.wants(i) == t0.wants(i));
            assert(t1.has(i) == t0.has(i));
            assert(t1.is_claimed(i) == t0.is_claimed(i));
        }
    }
    match picks.pick_rarest_piece(t, staging) {
        Some(i) => {
            proof {
                t.same_in_steps(&t1, &t0);
                t.same_torrent_facts(&t0);
                let e1 = |i: u32| p1.eligible(&t1, staging.slots(), i);
                let e = |i: u32| old(picks).eligible(old(t), staging.slots(), i);
                assert(e1(i));
                assert(e(i));
                t0.wanted_is_in_range(i);
                assert forall|j: u32| #[trigger] e(j) implies t0.availability(i)
                    < t0.availability(j) || (t0.availability(i) == t0.availability(j) && i <= j) by {
                    assert(p1.eligible(&t1, staging.slots(), j));
                    assert(e1(j));
                    assert(t1.availability(i) == t0.availability(i));
                    assert(t1.availability(j) == t0.availability(j));
                }
                assert(is_rarest(old(t), e, i));
            }
            let n: u32 = t.piece_len_of(i);
            Some((i, n))
        },
        None => {
            proof {
                t.same_in_steps(&t1, &t0);
                let e1 = |i: u32| p1.eligible(&t1, staging.slots(), i);
                let e = |i: u32| old(picks).eligible(old(t), staging.slots(), i);
                assert forall|j: u32| !(#[trigger] e(j)) by {
                    assert(!e1(j));
                    assert(p1.eligible(&t1, staging.slots(), j) == e(j));
                }
            }
            None
        },
    }
}

proof fn first_eligible_is(q: Seq<u32>, eligible: spec_fn(u32) -> bool, k: int)
    requires
        0 <= k,
    ensures
        first_eligible(q, eligible, k) matches Some(j) ==> k <= j < q.len() && eligible(q[j]),
    decreases q.len() - k,
{
    if k < q.len() && !eligible(q[k]) {
        first_eligible_is(q, eligible, k + 1);
    }
}

/// Places before `k` hold nothing that is eligible, or the one piece that no longer is.
proof fn first_eligible_skips(
    q: Seq<u32>,
    e: spec_fn(u32) -> bool,
    f: spec_fn(u32) -> bool,
    gone: u32,
    from: int,
    k: int,
)
    requires
        0 <= from <= k <= q.len(),
        forall|i: u32| #[trigger] f(i) ==> e(i) && i != gone,
        match first_eligible(q, e, from) {
            Some(j) => k <= j + 1 && (k == j + 1 ==> q[j] == gone),
            None => true,
        },
    ensures
        first_eligible(q, f, from) == first_eligible(q, f, k),
    decreases k - from,
{
    if from < k {
        if e(q[from]) {
            assert(k == from + 1);
            assert(!f(q[from]));
        } else {
            assert(!f(q[from]));
            first_eligible_skips(q, e, f, gone, from + 1, k);
        }
    }
}

/// The first eligible place of what is left of a queue.
proof fn first_eligible_shifts(q: Seq<u32>, f: spec_fn(u32) -> bool, k: int, from: int)
    requires
        0 <= k <= q.len(),
        0 <= from,
    ensures
        ({
            let left = q.subrange(k, q.len() as int);
            match first_eligible(left, f, from) {
                Some(j) => first_eligible(q, f, k + from) == Some(k + j),
                None => first_eligible(q, f, k + from) is None,
            }
        }),
    decreases q.len() - from,
{
    let left = q.subrange(k, q.len() as int);
    if from < left.len() {
        assert(left[from] == q[k + from]);
        if !f(left[from]) {
            first_eligible_shifts(q, f, k, from + 1);
        }
    }
}

impl PieceSource<HotTorrent> for PeerPicks {
    open spec fn ready(&self, torrent: &HotTorrent) -> bool {
        torrent.wf()
    }

    open spec fn may(&self, index: u32) -> bool {
        self.may_ask(index)
    }

    open spec fn offers(&self, torrent: &HotTorrent, index: u32) -> bool {
        self.would_take(torrent, index)
    }

    open spec fn holds(&self, index: u32) -> bool {
        self.claims.holds(index)
    }

    open spec fn size(&self, torrent: &HotTorrent, index: u32) -> u32 {
        torrent.piece_len(index) as u32
    }

    /// The first suggestion that could be started, else the rarest such piece.
    open spec fn chooses(&self, torrent: &HotTorrent, now: StagedView, index: u32) -> bool {
        let e = |i: u32| self.would_take(torrent, i) && !now.pieces.contains(i);
        match first_eligible(self.suggested@, e, 0) {
            Some(k) => index == self.suggested@[k],
            None => is_rarest(torrent, e, index),
        }
    }

    /// The torrent keeps all but its claims; claims change only together with the peer's
    /// own; suggestions only leave.
    open spec fn kept(
        &self,
        torrent: &HotTorrent,
        before: &Self,
        torrent_before: &HotTorrent,
    ) -> bool {
        &&& torrent.same_but_claims(torrent_before)
        &&& self.same_but_queue(before)
        &&& rest_of(before.suggested@, self.suggested@)
        &&& forall|i: u32|
            #![trigger torrent.is_claimed(i)]
            #![trigger self.claims.holds(i)]
            (torrent.is_claimed(i) == torrent_before.is_claimed(i) && self.claims.holds(i)
                == before.claims.holds(i)) || (torrent.is_claimed(i) == self.claims.holds(i))
    }

    proof fn kept_at_first(&self, torrent: &HotTorrent) {
        torrent.same_in_steps(torrent, torrent);
        assert(self.suggested@.subrange(0, self.suggested@.len() as int) =~= self.suggested@);
    }

    proof fn kept_in_steps(
        &self,
        torrent: &HotTorrent,
        mid: &Self,
        torrent_mid: &HotTorrent,
        before: &Self,
        torrent_before: &HotTorrent,
    ) {
        torrent.same_in_steps(torrent_mid, torrent_before);
        let a = before.suggested@;
        let b = mid.suggested@;
        let c = self.suggested@;
        assert(c =~= a.subrange(a.len() - c.len(), a.len() as int));
        assert forall|i: u32|
            #![trigger torrent.is_claimed(i)]
            #![trigger self.claims.holds(i)]
            (torrent.is_claimed(i) == torrent_before.is_claimed(i) && self.claims.holds(i)
                == before.claims.holds(i)) || (torrent.is_claimed(i) == self.claims.holds(i)) by {
            assert(torrent_mid.is_claimed(i) == torrent_mid.is_claimed(i));
        }
    }

    fn may_request_piece(&self, index: u32) -> (r: bool) {
        !self.peer_choking || self.allowed_fast.contains(&index)
    }

    fn start_piece(&mut self, torrent: &mut HotTorrent, staging: &StagingPool) -> (r: Option<
        (u32, u32),
    >) {
        let ghost t0 = *torrent;
        let ghost p0 = *self;
        let r: Option<(u32, u32)> = start_piece(self, torrent, staging);
        proof {
            torrent.same_torrent_facts(&t0);
            let q = p0.suggested@;
            let e = |i: u32| p0.eligible(&t0, staging.slots(), i);
            first_eligible_is(q, e, 0);
            assert(self.suggested@ =~= q.subrange(q.len() - self.suggested@.len(), q.len() as int));
            assert forall|i: u32| #[trigger] self.offers(torrent, i) implies p0.offers(&t0, i) by {
                assert(torrent.wants(i) == t0.wants(i));
                assert(torrent.has(i) == t0.has(i));
            }
            let now0 = staged_pieces(staging.slots());
            assert(e =~= (|i: u32| p0.would_take(&t0, i) && !now0.pieces.contains(i)));
            match r {
                Some(p) => {
                    t0.wanted_is_in_range(p.0);
                    assert forall|now: StagedView, i: u32| #[trigger]
                        self.chooses(torrent, now, i) && now.covers(staging.slots())
                            && now.pieces.contains(p.0) implies p0.chooses(&t0, now, i) by {
                        let f0 = |j: u32| p0.would_take(&t0, j) && !now.pieces.contains(j);
                        let f1 = |j: u32| self.would_take(torrent, j) && !now.pieces.contains(j);
                        assert forall|j: u32| #[trigger] f0(j) == f1(j) by {
                            assert(torrent.wants(j) == t0.wants(j));
                            assert(torrent.has(j) == t0.has(j));
                            assert(torrent.is_claimed(j) == (t0.is_claimed(j) || p.0 == j));
                        }
                        assert(f0 =~= f1);
                        assert forall|j: u32| #[trigger] f0(j) implies e(j) && j != p.0 by {}
                        let left = self.suggested@;
                        let gone = q.len() - left.len();
                        first_eligible_skips(q, e, f0, p.0, 0, gone);
                        first_eligible_shifts(q, f0, gone, 0);
                        assert(q.subrange(gone, q.len() as int) =~= left);
                        if first_eligible(left, f0, 0) is None {
                            assert forall|j: u32| #[trigger] f0(j) implies t0.availability(i)
                                < t0.availability(j) || (t0.availability(i) == t0.availability(j)
                                && i <= j) by {
                                assert(f1(j));
                                assert(torrent.availability(j) == t0.availability(j));
                                assert(torrent.availability(i) == t0.availability(i));
                            }
                        } else {
                            first_eligible_is(left, f0, 0);
                        }
                    }
                },
                None => {
                    assert forall|i: u32| !(#[trigger] self.chooses(torrent, now0, i)) by {
                        let f = |j: u32| self.would_take(torrent, j) && !now0.pieces.contains(j);
                        if f(i) {
                            assert(torrent.wants(i) == t0.wants(i));
                            assert(torrent.has(i) == t0.has(i));
                            assert(torrent.is_claimed(i) == t0.is_claimed(i));
                            assert(e(i));
                        }
                    }
                },
            }
        }
        r
    }

    fn abort_start(&mut self, torrent: &mut HotTorrent, index: u32) {
        self.claims.release(torrent, index);
        assert(self.suggested@.subrange(0, self.suggested@.len() as int) =~= self.suggested@);
    }
}

/// The rarest of the eligible pieces below `n`.
proof fn rarest_below(t: &HotTorrent, eligible: spec_fn(u32) -> bool, n: u32, i: u32) -> (r: u32)
    requires
        i < n,
        eligible(i),
    ensures
        eligible(r),
        forall|j: u32| j < n && #[trigger] eligible(j) ==> t.availability(r) < t.availability(j) || (
        t.availability(r) == t.availability(j) && r <= j),
    decreases n,
{
    let last = (n - 1) as u32;
    if exists|j: u32| j < last && #[trigger] eligible(j) {
        let first = choose|j: u32| j < last && #[trigger] eligible(j);
        let r = rarest_below(t, eligible, last, first);
        if eligible(last) && (t.availability(last) < t.availability(r) || (t.availability(last)
            == t.availability(r) && last < r)) {
            last
        } else {
            r
        }
    } else {
        i
    }
}

/// While some piece could be started that is not staged, exactly one is the piece to start,
/// and it is such a piece.
pub proof fn one_piece_is_chosen(picks: &PeerPicks, t: &HotTorrent, now: StagedView, i: u32)
    requires
        picks.would_take(t, i),
        !now.pieces.contains(i),
    ensures
        exists|j: u32| #[trigger]
            picks.chooses(t, now, j) && picks.would_take(t, j) && !now.pieces.contains(j),
        forall|j: u32, k: u32| #[trigger]
            picks.chooses(t, now, j) && #[trigger] picks.chooses(t, now, k) ==> j == k,
{
    let e = |j: u32| picks.would_take(t, j) && !now.pieces.contains(j);
    first_eligible_is(picks.suggested@, e, 0);
    match first_eligible(picks.suggested@, e, 0) {
        Some(k) => {
            assert(e(picks.suggested@[k]));
            assert(picks.chooses(t, now, picks.suggested@[k]));
        },
        None => {
            t.wanted_is_in_range(i);
            assert(e(i));
            let r = rarest_below(t, e, t.piece_count, i);
            assert forall|j: u32| #[trigger] e(j) implies j < t.piece_count by {
                t.wanted_is_in_range(j);
            }
            assert(is_rarest(t, e, r));
            assert(picks.chooses(t, now, r));
        },
    }
}

/// The requests for blocks as messages.
pub open spec fn request_messages(reqs: Seq<(u32, u32, u32)>) -> Seq<MessageView> {
    Seq::new(
        reqs.len(),
        |k: int|
            MessageView::Request { index: reqs[k].0, begin: reqs[k].1, length: reqs[k].2 },
    )
}

/// The withdrawals of requests as messages.
pub open spec fn cancel_messages(reqs: Seq<(u32, u32, u32)>) -> Seq<MessageView> {
    Seq::new(
        reqs.len(),
        |k: int| MessageView::Cancel { index: reqs[k].0, begin: reqs[k].1, length: reqs[k].2 },
    )
}

/// Bytes that requests ask for.
pub open spec fn bytes_asked(reqs: Seq<(u32, u32, u32)>) -> nat
    decreases reqs.len(),
{
    if reqs.len() == 0 {
        0
    } else {
        bytes_asked(reqs.drop_last()) + reqs.last().2 as nat
    }
}

/// How many blocks may be asked for: as many as the pipeline is deep where no limit is in
/// force, else as many as were granted. None where the grant is below one block.
pub open spec fn block_budget(granted: Option<u64>, pipeline: usize) -> Option<int> {
    match granted {
        None => Some(pipeline as int),
        Some(g) => if g < BLOCK_SIZE {
            None
        } else {
            Some(g as int / BLOCK_SIZE as int)
        },
    }
}

/// Requests that were sent, and how much of the granted bytes goes back.
#[derive(Debug)]
pub struct Issued {
    pub reqs: Vec<(u32, u32, u32)>,
    pub refund: u64,
}

/// What we fetch from one peer.
#[derive(Debug)]
pub struct PeerDownload {
    pub picks: PeerPicks,
    pub staging: StagingPool,
    /// Blocks to keep outstanding.
    pub pipeline: usize,
    /// The peer's share of the torrent's availability.
    pub peer_avail: Option<PeerAvailability>,
    pub ctrl: CtrlScratch,
}

impl PeerDownload {
    /// Validity together with the torrent and its buffers.
    pub open spec fn wf(&self, t: &HotTorrent, bufs: &PieceBufferPool) -> bool {
        &&& t.wf()
        &&& self.staging.wf()
        &&& self.staging.fits(bufs)
        &&& self.peer_avail matches Some(a) ==> a.wf(t)
    }

    /// The free buffers once a buffer of ours has come back.
    pub open spec fn given_back(&self, bufs: &PieceBufferPool, data: Seq<u8>) -> Seq<Seq<u8>> {
        if self.staging.leeches() {
            bufs.parked(data)
        } else {
            bufs.freelist()
        }
    }

    /// The buffers in use once one has gone to hashing.
    pub open spec fn in_use_after(&self, bufs: &PieceBufferPool) -> nat {
        if self.staging.leeches() && bufs.outstanding() > 0 {
            (bufs.outstanding() - 1) as nat
        } else {
            bufs.outstanding()
        }
    }

    /// The buffers once a whole piece has left its slot: its buffer went with it to hashing,
    /// or back to the pool where the piece has no hash.
    pub open spec fn handed_bufs(
        &self,
        has_hash: bool,
        buf: Seq<u8>,
        before: &PieceBufferPool,
        after: &PieceBufferPool,
    ) -> bool {
        &&& after.same_pool(before)
        &&& after.outstanding() == self.in_use_after(before)
        &&& after.freelist() == if !has_hash && self.staging.leeches() && before.freelist().len()
            + self.in_use_after(before) < before.spec_capacity() {
            before.freelist().push(buf)
        } else {
            before.freelist()
        }
    }

    /// The same but for what is staged.
    pub open spec fn same_but_staging(&self, other: &PeerDownload) -> bool {
        &&& self.picks == other.picks
        &&& self.pipeline == other.pipeline
        &&& self.peer_avail == other.peer_avail
        &&& self.staging.same_peer(&other.staging)
    }

    /// The same but for what is staged and what is being hashed.
    pub open spec fn same_but_hashing(&self, other: &PeerDownload) -> bool {
        &&& self.picks.peer_bf == other.picks.peer_bf
        &&& self.picks.suggested == other.picks.suggested
        &&& self.picks.claims == other.picks.claims
        &&& self.picks.peer_choking == other.picks.peer_choking
        &&& self.picks.allowed_fast == other.picks.allowed_fast
        &&& self.picks.endgame == other.picks.endgame
        &&& self.pipeline == other.pipeline
        &&& self.peer_avail == other.peer_avail
        &&& self.staging.same_peer(&other.staging)
    }

    /// Nothing asked for yet.
    pub fn new(
        peer_bf: Vec<u8>,
        staging: StagingPool,
        pipeline: usize,
        peer_avail: Option<PeerAvailability>,
    ) -> (d: PeerDownload)
        ensures
            d.picks.peer_bf == peer_bf,
            d.picks.suggested@ == Seq::<u32>::empty(),
            d.picks.hashing@ == Set::<u32>::empty(),
            forall|i: u32| !(#[trigger] d.picks.claims.holds(i)),
            d.picks.peer_choking,
            d.picks.allowed_fast@ == Set::<u32>::empty(),
            !d.picks.endgame,
            d.staging == staging,
            d.pipeline == pipeline,
            d.peer_avail == peer_avail,
    {
        PeerDownload {
            picks: PeerPicks::new(peer_bf),
            staging,
            pipeline,
            peer_avail,
            ctrl: CtrlScratch::new(),
        }
    }

    /// Whether requests may be sent at all.
    pub open spec fn may_request(&self) -> bool {
        !self.picks.peer_choking || !self.picks.allowed_fast@.is_empty()
    }

    /// Whether requests may be sent at all.
    pub fn can_request(&self) -> (r: bool)
        ensures
            r == self.may_request(),
    {
        can_request_from(self.picks.peer_choking, &self.picks.allowed_fast)
    }

    /// Keep a suggestion of the peer.
    pub fn push_suggest(&mut self, index: u32, piece_count: u32)
        ensures
            final(self).picks.suggested@ == with_suggestion(
                old(self).picks.suggested@,
                index,
                piece_count,
            ),
            final(self).picks.same_but_queue(&old(self).picks),
            final(self).picks.claims == old(self).picks.claims,
            final(self).staging == old(self).staging,
            final(self).pipeline == old(self).pipeline,
            final(self).peer_avail == old(self).peer_avail,
    {
        push_suggest(&mut self.picks.suggested, index, piece_count);
    }

    /// Blocks that are requested and missing.
    pub open spec fn pending(&self) -> nat {
        pending_total(self.staging.slots())
    }

    /// Blocks that are requested and missing.
    pub fn outstanding(&self) -> (n: u64)
        requires
            self.staging.wf(),
        ensures
            n == clipped(self.pending()),
    {
        self.staging.total_outstanding() as u64
    }

    /// Whether a block may come next: we are fetching, and requests are unanswered.
    pub fn expect_piece_header(&self, downloading: bool) -> (r: bool)
        requires
            self.staging.wf(),
        ensures
            r == (downloading && self.pending() > 0),
    {
        downloading && self.outstanding() > 0
    }

    /// Whether a block with this header is to be stored.
    pub fn want_direct_piece(&self, t: &HotTorrent, h: &PieceHeader) -> (r: bool)
        ensures
            r == (h.block_len > 0 && !t.has(h.index) && !self.picks.hashing@.contains(h.index)
                && staged(self.staging.slots(), h.index)),
    {
        h.block_len > 0 && !t.has_piece(h.index) && !self.picks.hashing.contains(&h.index)
            && self.staging.contains(h.index)
    }

    /// Withdraw every unanswered request. False where there is none.
    pub fn cancel_outstanding(&mut self, out: &mut OutCmd) -> (r: bool)
        requires
            old(self).staging.wf(),
        ensures
            final(self).picks == old(self).picks,
            final(self).staging == old(self).staging,
            final(self).pipeline == old(self).pipeline,
            final(self).peer_avail == old(self).peer_avail,
            r == (pending_all(old(self).staging.slots()).len() > 0),
            final(out)@ == with_ctrl(
                old(out)@,
                encoded_all(cancel_messages(pending_all(old(self).staging.slots()))),
            ),
    {
        let list: Vec<(u32, u32, u32)> = self.staging.outstanding_list();
        let ghost all = list@;
        if list.len() == 0 {
            assert(cancel_messages(all) =~= Seq::<MessageView>::empty());
            return false;
        }
        self.ctrl.clear();
        assert(cancel_messages(all.subrange(0, 0)) =~= Seq::<MessageView>::empty());
        let mut k: usize = 0;
        while k < list.len()
            invariant
                k <= list@.len(),
                all == list@,
                self.picks == old(self).picks,
                self.staging == old(self).staging,
                self.pipeline == old(self).pipeline,
                self.peer_avail == old(self).peer_avail,
                self.ctrl@ == encoded_all(cancel_messages(all.subrange(0, k as int))),
            decreases list@.len() - k,
        {
            let (index, begin, length) = list[k];
            self.ctrl.append_cancel(index, begin, length);
            proof {
                let next = cancel_messages(all.subrange(0, k + 1));
                assert(next.drop_last() =~= cancel_messages(all.subrange(0, k as int)));
                assert(next.last() == (MessageView::Cancel { index, begin, length }));
            }
            k += 1;
        }
        assert(all.subrange(0, k as int) =~= all);
        let frame = self.ctrl.take();
        out.push_ctrl_owned(frame);
        true
    }

    /// Bytes to be granted before requests are sent, where a limit is in force.
    pub fn request_want(&self) -> (n: u64)
        requires
            self.pipeline * BLOCK_SIZE <= u64::MAX,
        ensures
            n == self.pipeline * BLOCK_SIZE,
    {
        self.pipeline as u64 * BLOCK_SIZE as u64
    }

    /// Ask the peer for blocks. Where a limit is in force, `granted` bytes were taken from
    /// it beforehand; what is not used goes back.
    pub fn issue_requests(
        &mut self,
        t: &mut HotTorrent,
        bufs: &mut PieceBufferPool,
        out: &mut OutCmd,
        granted: Option<u64>,
    ) -> (r: Issued)
        requires
            old(self).wf(old(t), old(bufs)),
            old(self).pipeline * BLOCK_SIZE <= u64::MAX,
            granted matches Some(g) ==> g <= old(self).pipeline * BLOCK_SIZE,
        ensures
            final(self).wf(final(t), final(bufs)),
            final(bufs).same_pool(old(bufs)),
            final(self).pipeline == old(self).pipeline,
            final(self).peer_avail == old(self).peer_avail,
            final(self).staging.same_peer(&old(self).staging),
            final(self).picks.kept(final(t), &old(self).picks, old(t)),
            match block_budget(granted, old(self).pipeline) {
                None => {
                    &&& r.reqs@.len() == 0
                    &&& r.refund == granted->0
                    &&& *final(self) == *old(self)
                    &&& *final(t) == *old(t)
                    &&& *final(bufs) == *old(bufs)
                    &&& final(out)@ == old(out)@
                },
                Some(n) => {
                    &&& asked(
                        old(self).staging.slots(),
                        final(self).staging.slots(),
                        r.reqs@,
                        n as usize,
                        old(self).picks.endgame,
                        |i: u32| old(self).picks.may(i),
                    )
                    &&& started_from(
                        old(self).staging.slots().len() as int,
                        final(self).staging.slots(),
                        &old(self).picks,
                        old(t),
                        &final(self).picks,
                    )
                    // Each started piece takes one buffer.
                    &&& drawn(
                        old(self).staging.slots(),
                        final(self).staging.slots(),
                        old(bufs),
                        final(bufs),
                    )
                    // The first fitting suggestion is started, else the rarest piece.
                    &&& chosen_from(
                        old(self).staging.slots().len() as int,
                        final(self).staging.slots(),
                        &old(self).picks,
                        old(t),
                    )
                    // Blocks are asked for piece by piece, in order.
                    &&& (final(self).staging.slots(), r.reqs@) == filled(
                        with_started(old(self).staging.slots(), final(self).staging.slots()),
                        |i: u32| old(self).picks.may(i),
                        refill(old(self).staging.slots(), n as usize, old(self).picks.endgame),
                    )
                    // The pipeline is full, or there is nothing more to start.
                    &&& holds_back(
                        old(self).staging.slots(),
                        n as usize,
                        old(self).picks.endgame,
                    ) || final(self).pending() >= depth(n as usize) || starts_no_more(
                        &final(self).staging,
                        final(bufs),
                        n as usize,
                        &old(self).picks,
                        old(t),
                        &final(self).picks,
                        final(t),
                    )
                    &&& final(out)@ == with_ctrl(
                        old(out)@,
                        encoded_all(request_messages(r.reqs@)),
                    )
                    &&& r.refund == match granted {
                        None => 0,
                        Some(_) => if n * BLOCK_SIZE > bytes_asked(r.reqs@) {
                            n * BLOCK_SIZE - bytes_asked(r.reqs@)
                        } else {
                            0
                        },
                    }
                },
            },
            // Only blocks that the peer may be asked for are asked for.
            forall|x: (u32, u32, u32)| r.reqs@.contains(x) ==> old(self).picks.may_ask(x.0),
            // The buffers out still cover the assembling pieces.
            forall|others: nat| #[trigger]
                old(self).staging.covered(old(bufs), others) ==> final(self).staging.covered(
                    final(bufs),
                    others,
                ),
    {
        proof {
            self.picks.kept_at_first(&*t);
            assert(request_messages(Seq::<(u32, u32, u32)>::empty()) =~= Seq::<
                MessageView,
            >::empty());
        }
        let pipe: usize = self.pipeline;
        let max_blocks: usize = match granted {
            None => self.pipeline,
            Some(g) => {
                if g < BLOCK_SIZE as u64 {
                    return Issued { reqs: Vec::new(), refund: g };
                }
                assert(g / BLOCK_SIZE as u64 <= pipe) by (nonlinear_arith)
                    requires
                        g <= pipe * BLOCK_SIZE,
                        BLOCK_SIZE == 16384,
                ;
                (g / BLOCK_SIZE as u64) as usize
            },
        };
        let ghost before = self.staging.slots();
        let ghost t0 = *t;
        let endgame: bool = self.picks.endgame;
        let reqs: Vec<(u32, u32, u32)> = self.staging.take_requests::<HotTorrent, PeerPicks>(
            bufs,
            max_blocks,
            endgame,
            &mut self.picks,
            t,
        );
        proof {
            t.same_torrent_facts(&t0);
            if let Some(a) = &self.peer_avail {
                a.wf_of_same(&t0, &*t);
            }
            assert(max_blocks * BLOCK_SIZE <= u64::MAX) by (nonlinear_arith)
                requires
                    max_blocks <= pipe,
                    pipe * BLOCK_SIZE <= u64::MAX,
                    BLOCK_SIZE == 16384,
            ;
            requests_are_small(self.staging.slots(), self.staging.spec_piece_length(), reqs@);
            bytes_asked_bound(reqs@);
        }
        if reqs.len() == 0 {
            assert(reqs@ =~= Seq::<(u32, u32, u32)>::empty());
            let refund: u64 = match granted {
                None => 0,
                Some(_) => max_blocks as u64 * BLOCK_SIZE as u64,
            };
            return Issued { reqs, refund };
        }
        let ghost all = reqs@;
        self.ctrl.clear();
        assert(request_messages(all.subrange(0, 0)) =~= Seq::<MessageView>::empty());
        assert(all.subrange(0, 0) =~= Seq::<(u32, u32, u32)>::empty());
        let mut actual: u64 = 0;
        let mut k: usize = 0;
        let ghost mid = *self;
        proof {
            assert(all.len() * BLOCK_SIZE <= u64::MAX) by (nonlinear_arith)
                requires
                    all.len() <= max_blocks || all.len() <= 1,
                    max_blocks * BLOCK_SIZE <= u64::MAX,
                    BLOCK_SIZE == 16384,
            ;
        }
        while k < reqs.len()
            invariant
                k <= reqs@.len(),
                all == reqs@,
                self.picks == mid.picks,
                self.staging == mid.staging,
                self.pipeline == mid.pipeline,
                self.peer_avail == mid.peer_avail,
                forall|j: int| 0 <= j < all.len() ==> (#[trigger] all[j]).2 <= BLOCK_SIZE,
                all.len() * BLOCK_SIZE <= u64::MAX,
                actual == bytes_asked(all.subrange(0, k as int)),
                actual <= k * BLOCK_SIZE,
                self.ctrl@ == encoded_all(request_messages(all.subrange(0, k as int))),
            decreases reqs@.len() - k,
        {
            let (index, begin, length) = reqs[k];
            assert(length == all[k as int].2);
            assert(k * BLOCK_SIZE + BLOCK_SIZE <= all.len() * BLOCK_SIZE) by (nonlinear_arith)
                requires
                    k + 1 <= all.len(),
                    BLOCK_SIZE == 16384,
            ;
            actual = actual + length as u64;
            self.ctrl.append_request(index, begin, length);
            proof {
                assert(all.subrange(0, k + 1).drop_last() =~= all.subrange(0, k as int));
                let next = request_messages(all.subrange(0, k + 1));
                assert(next.drop_last() =~= request_messages(all.subrange(0, k as int)));
                assert(next.last() == (MessageView::Request { index, begin, length }));
            }
            k += 1;
        }
        assert(all.subrange(0, k as int) =~= all);
        let frame = self.ctrl.take();
        out.push_ctrl_owned(frame);
        let refund: u64 = match granted {
            None => 0,
            Some(_) => {
                let reserved: u64 = max_blocks as u64 * BLOCK_SIZE as u64;
                if reserved > actual {
                    reserved - actual
                } else {
                    0
                }
            },
        };
        Issued { reqs, refund }
    }
}

/// What handing a whole piece to hashing does: its slot is noted as being hashed and the job
/// names the hash that the piece must have. A piece without a hash is dropped.
pub open spec fn hand_over_result(
    before: Seq<SlotView>,
    after: Seq<SlotView>,
    hashing_before: Set<u32>,
    hashing_after: Set<u32>,
    expected: Option<Seq<u8>>,
    index: u32,
    r: Result<Option<HashJob>>,
) -> bool {
    let at = position(before, index);
    match expected {
        Some(h) => {
            &&& r matches Ok(Some(job))
            &&& job.index == index
            &&& job.plen == before[at]->piece.length
            &&& job.data@ == before[at]->buf
            &&& job.expected@ == h
            &&& after == handed_over(before, at)
            &&& hashing_after == hashing_before.insert(index)
        },
        None => {
            &&& r matches Err(e)
            &&& e is Msg
            &&& e.text() == "piece index out of range"@
            &&& after == handed_over(before, at).drop_last()
            &&& hashing_after == hashing_before
        },
    }
}

/// Whether blocks of a piece are ignored: it is on disk, being hashed, or not assembling.
pub open spec fn ignores(d: &PeerDownload, t: &HotTorrent, index: u32) -> bool {
    t.has(index) || d.picks.hashing@.contains(index) || !assembles(d.staging.slots(), index)
}

/// The slots with a block in.
pub open spec fn took_slots(slots: Seq<SlotView>, index: u32, begin: u32, block: Seq<u8>) -> Seq<
    SlotView,
> {
    let at = position(slots, index);
    slots.update(
        at,
        SlotView::Assembling {
            piece: slots[at]->piece.with_range(begin as int, block.len() as int),
            buf: overwritten(slots[at]->buf, begin as int, block),
        },
    )
}

/// What storing a block does: it is in its piece, and a piece that is whole with it is
/// handed over as `job`.
pub open spec fn stored_block(
    d0: &PeerDownload,
    t: &HotTorrent,
    index: u32,
    begin: u32,
    block: Seq<u8>,
    d1: &PeerDownload,
    job: Option<HashJob>,
) -> bool {
    let took = took_slots(d0.staging.slots(), index, begin, block);
    if took[position(d0.staging.slots(), index)]->piece.complete() {
        hand_over_result(
            took,
            d1.staging.slots(),
            d0.picks.hashing@,
            d1.picks.hashing@,
            t.expected_hash(index),
            index,
            Ok(job),
        )
    } else {
        &&& job is None
        &&& d1.staging.slots() == took
        &&& d1.picks.hashing@ == d0.picks.hashing@
    }
}

impl PeerDownload {
    /// Hand a whole piece to hashing.
    fn hand_over(&mut self, t: &HotTorrent, bufs: &mut PieceBufferPool, index: u32) -> (r: Result<
        Option<HashJob>,
    >)
        requires
            old(self).wf(t, old(bufs)),
            assembles(old(self).staging.slots(), index),
        ensures
            final(self).wf(t, final(bufs)),
            final(self).same_but_hashing(old(self)),
            final(bufs).same_pool(old(bufs)),
            hand_over_result(
                old(self).staging.slots(),
                final(self).staging.slots(),
                old(self).picks.hashing@,
                final(self).picks.hashing@,
                t.expected_hash(index),
                index,
                r,
            ),
            old(self).handed_bufs(
                t.expected_hash(index) is Some,
                old(self).staging.slots()[position(old(self).staging.slots(), index)]->buf,
                old(bufs),
                final(bufs),
            ),
            // The buffers out still cover the assembling pieces.
            forall|others: nat| #[trigger]
                old(self).staging.covered(old(bufs), others) ==> final(self).staging.covered(
                    final(bufs),
                    others,
                ),
    {
        let ghost before = self.staging.slots();
        let ghost at = position(before, index);
        match self.staging.take_for_hash(bufs, index) {
            None => Ok(None),
            Some((plen, data)) => {
                let ghost mid = self.staging.slots();
                match t.piece_hash(index) {
                    Ok(expected) => {
                        self.picks.hashing.insert(index);
                        Ok(Some(HashJob { index, plen, data, expected }))
                    },
                    Err(e) => {
                        proof {
                            assert(before[at].wf(self.staging.spec_piece_length()));
                            assert(bufs.fitted(data@) =~= data@);
                        }
                        self.staging.reclaim(bufs, index, data);
                        proof {
                            let last = mid.len() - 1;
                            assert(mid[last] == (SlotView::Hashing { index }));
                            position_is(mid, last, self.staging.spec_piece_length());
                            assert(staged(mid, index));
                            assert(mid.remove(last) =~= mid.drop_last());
                        }
                        Err(e)
                    },
                }
            },
        }
    }

    /// A block came. Says whether it was stored; a piece that is whole with it goes to
    /// hashing.
    pub fn handle_piece(
        &mut self,
        t: &HotTorrent,
        bufs: &mut PieceBufferPool,
        index: u32,
        begin: u32,
        block: &[u8],
    ) -> (r: Result<(bool, Option<HashJob>)>)
        requires
            old(self).wf(t, old(bufs)),
        ensures
            final(self).wf(t, final(bufs)),
            final(self).same_but_hashing(old(self)),
            final(bufs).same_pool(old(bufs)),
            ({
                let before = old(self).staging.slots();
                let at = position(before, index);
                let slot = before[at];
                let refusal = block_refusal(
                    slot->piece.length as int,
                    slot->buf.len() as int,
                    begin as int,
                    block@.len() as int,
                );
                let took = took_slots(before, index, begin, block@);
                if ignores(old(self), t, index) {
                    &&& r matches Ok(p) && !p.0 && p.1 is None
                    &&& *final(bufs) == *old(bufs)
                    &&& final(self).staging.slots() == before
                    &&& final(self).picks.hashing@ == old(self).picks.hashing@
                } else if refusal is Some {
                    &&& r matches Err(e) && e is Msg && Some(e.text()) == refusal
                    &&& *final(bufs) == *old(bufs)
                    &&& final(self).staging.slots() == before
                    &&& final(self).picks.hashing@ == old(self).picks.hashing@
                } else if !took[at]->piece.complete() {
                    &&& r matches Ok(p) && p.0 && p.1 is None
                    &&& *final(bufs) == *old(bufs)
                    &&& final(self).staging.slots() == took
                    &&& final(self).picks.hashing@ == old(self).picks.hashing@
                } else {
                    &&& r matches Ok(p) ==> p.0
                    &&& old(self).handed_bufs(
                        t.expected_hash(index) is Some,
                        took[at]->buf,
                        old(bufs),
                        final(bufs),
                    )
                    &&& hand_over_result(
                        took,
                        final(self).staging.slots(),
                        old(self).picks.hashing@,
                        final(self).picks.hashing@,
                        t.expected_hash(index),
                        index,
                        job_of(r),
                    )
                }
            }),
            // The buffers out still cover the assembling pieces.
            forall|others: nat| #[trigger]
                old(self).staging.covered(old(bufs), others) ==> final(self).staging.covered(
                    final(bufs),
                    others,
                ),
    {
        if t.has_piece(index) || self.picks.hashing.contains(&index) {
            return Ok((false, None));
        }
        let ghost before = self.staging.slots();
        let ghost at = position(before, index);
        match self.staging.ingest_if_staged(index, begin, block) {
            Err(e) => {
                proof {
                    assert(assembles(before, index)) by {
                        assert(before[at] is Assembling);
                    }
                }
                Err(e)
            },
            Ok(None) => Ok((false, None)),
            Ok(Some(complete)) => {
                let ghost took = self.staging.slots();
                proof {
                    assert(before[at] is Assembling);
                    assert(assembles(before, index));
                    assert(took[at].index() == index);
                    assert(assembles(took, index));
                    position_is(took, at, self.staging.spec_piece_length());
                    assert forall|others: nat| #[trigger]
                        old(self).staging.covered(old(bufs), others) implies self.staging.covered(
                        bufs,
                        others,
                    ) by {}
                }
                if !complete {
                    return Ok((true, None));
                }
                match self.hand_over(t, bufs, index) {
                    Ok(job) => Ok((true, job)),
                    Err(e) => Err(e),
                }
            },
        }
    }

    /// The bytes of a block are in their piece's buffer already. Says whether more may be
    /// asked for; a piece that is whole with it goes to hashing.
    pub fn finish_direct_piece_body(
        &mut self,
        t: &HotTorrent,
        bufs: &mut PieceBufferPool,
        index: u32,
        begin: u32,
        total: u32,
    ) -> (r: Result<(bool, Option<HashJob>)>)
        requires
            old(self).wf(t, old(bufs)),
        ensures
            final(self).wf(t, final(bufs)),
            final(self).same_but_hashing(old(self)),
            final(bufs).same_pool(old(bufs)),
            ({
                let before = old(self).staging.slots();
                let at = position(before, index);
                let slot = before[at];
                let refusal = block_refusal(
                    slot->piece.length as int,
                    slot->buf.len() as int,
                    begin as int,
                    total as int,
                );
                let took = before.update(
                    at,
                    SlotView::Assembling {
                        piece: slot->piece.with_range(begin as int, total as int),
                        buf: slot->buf,
                    },
                );
                if ignores(old(self), t, index) {
                    &&& r matches Ok(p) && p.0 == (t.has(index) || old(
                        self,
                    ).picks.hashing@.contains(index)) && p.1 is None
                    &&& *final(bufs) == *old(bufs)
                    &&& final(self).staging.slots() == before
                    &&& final(self).picks.hashing@ == old(self).picks.hashing@
                } else if refusal is Some {
                    &&& r matches Err(e) && e is Msg && Some(e.text()) == refusal
                    &&& *final(bufs) == *old(bufs)
                    &&& final(self).staging.slots() == before
                    &&& final(self).picks.hashing@ == old(self).picks.hashing@
                } else if !took[at]->piece.complete() {
                    &&& r matches Ok(p) && p.0 && p.1 is None
                    &&& *final(bufs) == *old(bufs)
                    &&& final(self).staging.slots() == took
                    &&& final(self).picks.hashing@ == old(self).picks.hashing@
                } else {
                    &&& r matches Ok(p) ==> p.0
                    &&& old(self).handed_bufs(
                        t.expected_hash(index) is Some,
                        took[at]->buf,
                        old(bufs),
                        final(bufs),
                    )
                    &&& hand_over_result(
                        took,
                        final(self).staging.slots(),
                        old(self).picks.hashing@,
                        final(self).picks.hashing@,
                        t.expected_hash(index),
                        index,
                        job_of(r),
                    )
                }
            }),
            // The buffers out still cover the assembling pieces.
            forall|others: nat| #[trigger]
                old(self).staging.covered(old(bufs), others) ==> final(self).staging.covered(
                    final(bufs),
                    others,
                ),
    {
        if t.has_piece(index) || self.picks.hashing.contains(&index) {
            return Ok((true, None));
        }
        let ghost before = self.staging.slots();
        let ghost at = position(before, index);
        match self.staging.finish_block_range(index, begin, total) {
            Err(e) => {
                proof {
                    assert(assembles(before, index)) by {
                        assert(before[at] is Assembling);
                    }
                }
                Err(e)
            },
            Ok(None) => Ok((false, None)),
            Ok(Some(complete)) => {
                let ghost took = self.staging.slots();
                proof {
                    assert(before[at] is Assembling);
                    assert(assembles(before, index));
                    assert(took[at].index() == index);
                    assert(assembles(took, index));
                    position_is(took, at, self.staging.spec_piece_length());
                    assert forall|others: nat| #[trigger]
                        old(self).staging.covered(old(bufs), others) implies self.staging.covered(
                        bufs,
                        others,
                    ) by {}
                }
                if !complete {
                    return Ok((true, None));
                }
                match self.hand_over(t, bufs, index) {
                    Ok(job) => Ok((true, job)),
                    Err(e) => Err(e),
                }
            },
        }
    }

    /// The hash workers are gone: the piece of a job is no longer being hashed, and its
    /// buffer goes back.
    pub fn submit_failed(&mut self, t: &HotTorrent, bufs: &mut PieceBufferPool, job: HashJob)
        requires
            old(self).wf(t, old(bufs)),
        ensures
            final(self).wf(t, final(bufs)),
            final(self).same_but_hashing(old(self)),
            final(bufs).same_pool(old(bufs)),
            final(self).picks.hashing@ == old(self).picks.hashing@.remove(job.index),
            final(self).staging.slots() == forgotten(old(self).staging.slots(), job.index),
            final(bufs).outstanding() == old(bufs).outstanding(),
            final(bufs).freelist() == old(self).given_back(old(bufs), job.data@),
            // The buffers out still cover the assembling pieces.
            forall|others: nat| #[trigger]
                old(self).staging.covered(old(bufs), others) ==> final(self).staging.covered(
                    final(bufs),
                    others,
                ),
    {
        self.picks.hashing.remove(&job.index);
        self.staging.reclaim(bufs, job.index, job.data);
    }

    /// A hashed piece came back: a right one is on disk now, a wrong one may be fetched
    /// again. Gives the torrent, piece and length to tell of, where the piece is new.
    pub fn apply_hash_outcome(
        &mut self,
        t: &mut HotTorrent,
        bufs: &mut PieceBufferPool,
        outcome: HashOutcome,
    ) -> (r: Option<(i64, u32, u32)>)
        requires
            old(self).wf(old(t), old(bufs)),
        ensures
            final(self).wf(final(t), final(bufs)),
            final(self).same_but_hashing(old(self)),
            final(bufs).same_pool(old(bufs)),
            final(t).same_torrent(old(t)),
            ({
                let index = outcome.piece();
                let done = outcome is Done;
                &&& final(self).picks.hashing@ == old(self).picks.hashing@.remove(index)
                &&& final(self).staging.slots() == forgotten(old(self).staging.slots(), index)
                &&& final(bufs).outstanding() == old(bufs).outstanding()
                &&& final(bufs).freelist() == old(self).given_back(old(bufs), outcome.buffer())
                &&& forall|i: u32| #[trigger]
                    final(t).availability(i) == old(t).availability(i)
                &&& forall|i: u32| #[trigger]
                    final(t).has(i) == (old(t).has(i) || (done && i == index && i
                        < old(t).piece_count))
                &&& !(done && old(t).has(index)) ==> forall|i: u32| #[trigger]
                    final(t).is_claimed(i) == (old(t).is_claimed(i) && i != index)
                &&& done && old(t).has(index) ==> *final(t) == *old(t)
                &&& r == if done && !old(t).has(index) {
                    Some((old(t).id, index, outcome.length()))
                } else {
                    None
                }
            }),
            // The buffers out still cover the assembling pieces.
            forall|others: nat| #[trigger]
                old(self).staging.covered(old(bufs), others) ==> final(self).staging.covered(
                    final(bufs),
                    others,
                ),
    {
        let ghost t0 = *t;
        proof {
            t0.same_in_steps(&t0, &t0);
        }
        let told: Option<(i64, u32, u32)> = match outcome {
            HashOutcome::Done { index, plen, data } => {
                self.picks.hashing.remove(&index);
                self.staging.reclaim(bufs, index, data);
                if !t.has_piece(index) {
                    t.mark_have(index);
                    Some((t.id, index, plen))
                } else {
                    None
                }
            },
            HashOutcome::HashFail { index, plen: _, data } => {
                self.picks.hashing.remove(&index);
                self.staging.reclaim(bufs, index, data);
                t.release_piece_claim(index);
                None
            },
            HashOutcome::WriteFail { index, plen: _, data } => {
                self.picks.hashing.remove(&index);
                self.staging.reclaim(bufs, index, data);
                t.release_piece_claim(index);
                None
            },
        };
        proof {
            if t.same_but_claims(&t0) {
                t.same_torrent_facts(&t0);
            } else {
                t.same_torrent_facts(&t0);
            }
            if let Some(a) = &self.peer_avail {
                a.wf_of_same(&t0, &*t);
            }
        }
        told
    }

    /// Whether requests are to be sent now.
    pub fn should_issue(&self, downloading: bool, need_fill: bool) -> (r: bool)
        ensures
            r == (need_fill && downloading && self.may_request()),
    {
        need_fill && downloading && self.can_request()
    }

    /// The numbers to show while fetching: unanswered requests, and how many to keep.
    pub fn queue_counters(&self, downloading: bool) -> (r: Option<(u64, u64)>)
        requires
            self.staging.wf(),
        ensures
            r == if downloading {
                Some((clipped(self.pending()) as u64, self.pipeline as u64))
            } else {
                None
            },
    {
        if downloading {
            Some((self.outstanding(), self.pipeline as u64))
        } else {
            None
        }
    }
}

/// The job that a stored block led to, where it did.
pub open spec fn job_of(r: Result<(bool, Option<HashJob>)>) -> Result<Option<HashJob>> {
    match r {
        Ok(p) => Ok(p.1),
        Err(e) => Err(e),
    }
}

/// No request is for more than a block.
proof fn requests_are_small(slots: Seq<SlotView>, piece_length: u32, reqs: Seq<(u32, u32, u32)>)
    requires
        slots_wf(slots, piece_length),
        forall|x: (u32, u32, u32)|
            reqs.to_set().contains(x) ==> crate::staging::pool::awaited(slots).contains(x),
    ensures
        forall|j: int| 0 <= j < reqs.len() ==> (#[trigger] reqs[j]).2 <= BLOCK_SIZE,
{
    assert forall|j: int| 0 <= j < reqs.len() implies (#[trigger] reqs[j]).2 <= BLOCK_SIZE by {
        assert(reqs.to_set().contains(reqs[j]));
        assert(crate::staging::pool::awaited(slots).contains(reqs[j]));
        let u = choose|u: int| 0 <= u < slots.len() && (#[trigger] slots[u]).awaits(reqs[j]);
        assert(slots[u].wf(piece_length));
    }
}

proof fn bytes_asked_bound(reqs: Seq<(u32, u32, u32)>)
    requires
        forall|j: int| 0 <= j < reqs.len() ==> (#[trigger] reqs[j]).2 <= BLOCK_SIZE,
    ensures
        bytes_asked(reqs) <= reqs.len() * BLOCK_SIZE,
    decreases reqs.len(),
{
    if reqs.len() > 0 {
        assert forall|j: int| 0 <= j < reqs.len() - 1 implies (#[trigger] reqs.drop_last()[j]).2
            <= BLOCK_SIZE by {
            assert(reqs.drop_last()[j] == reqs[j]);
        }
        bytes_asked_bound(reqs.drop_last());
        assert(reqs[reqs.len() - 1].2 <= BLOCK_SIZE);
    }
}

/// A piece is started from a peer exactly where that helps and is allowed: it is wanted and
/// missing, the peer has it, it is neither being hashed nor staged, the peer lets us ask for
/// it, and no peer is fetching it, but for the endgame.
pub proof fn pieces_are_started_where_that_helps(
    p: &PeerPicks,
    t: &HotTorrent,
    slots: Seq<SlotView>,
    i: u32,
)
    ensures
        p.eligible(t, slots, i) ==> t.wants(i) && !t.has(i),
        p.eligible(t, slots, i) ==> bit(p.peer_bf@, i as int),
        p.eligible(t, slots, i) ==> !p.hashing@.contains(i) && !staged(slots, i),
        p.eligible(t, slots, i) && p.peer_choking ==> p.allowed_fast@.contains(i),
        p.eligible(t, slots, i) && t.is_claimed(i) ==> p.endgame,
        t.wants(i) && !t.has(i) && bit(p.peer_bf@, i as int) && !p.hashing@.contains(i) && !staged(
            slots,
            i,
        ) && (!p.peer_choking || p.allowed_fast@.contains(i)) && (p.endgame || !t.is_claimed(i))
            ==> p.eligible(t, slots, i),
        p.peer_choking && !p.allowed_fast@.contains(i) ==> !p.may_ask(i),
        !p.peer_choking ==> p.may_ask(i),
        p.allowed_fast@.contains(i) ==> p.may_ask(i),
{
}

/// The piece that is chosen is had by no more peers than any other that could be.
pub proof fn the_rarest_is_had_by_fewest(
    t: &HotTorrent,
    eligible: spec_fn(u32) -> bool,
    i: u32,
    j: u32,
)
    requires
        is_rarest(t, eligible, i),
        eligible(j),
    ensures
        eligible(i),
        t.availability(i) <= t.availability(j),
        t.availability(i) == t.availability(j) ==> i <= j,
{
}

/// Suggestions are tried in their order.
pub proof fn suggestions_are_tried_in_order(
    q: Seq<u32>,
    eligible: spec_fn(u32) -> bool,
    k: int,
    j: int,
)
    requires
        0 <= k <= j < q.len(),
    ensures
        match first_eligible(q, eligible, k) {
            Some(n) => k <= n < q.len() && eligible(q[n]) && (j < n ==> !eligible(q[j])),
            None => !eligible(q[j]),
        },
    decreases q.len() - k,
{
    reveal_with_fuel(first_eligible, 2);
    if !eligible(q[k]) && k + 1 < q.len() {
        suggestions_are_tried_in_order(
            q,
            eligible,
            k + 1,
            if j > k {
                j
            } else {
                k + 1
            },
        );
    }
}

/// Each request and each withdrawal names its piece, its place and its length.
pub proof fn requests_name_their_blocks(reqs: Seq<(u32, u32, u32)>, k: int)
    requires
        0 <= k < reqs.len(),
    ensures
        request_messages(reqs).len() == reqs.len(),
        cancel_messages(reqs).len() == reqs.len(),
        request_messages(reqs)[k] matches MessageView::Request { index, begin, length } && (
        index, begin, length) == reqs[k],
        cancel_messages(reqs)[k] matches MessageView::Cancel { index, begin, length } && (
        index, begin, length) == reqs[k],
{
}

/// What requests ask for adds up.
pub proof fn asked_bytes_add_up(a: Seq<(u32, u32, u32)>, x: (u32, u32, u32))
    ensures
        bytes_asked(Seq::<(u32, u32, u32)>::empty()) == 0,
        bytes_asked(a.push(x)) == bytes_asked(a) + x.2,
{
    assert(a.push(x).drop_last() =~= a);
}

/// Under a limit no more blocks are asked for than the granted bytes pay for, and all that
/// they pay for; without one, as many as the pipeline is deep.
pub proof fn the_grant_pays_for_the_blocks(granted: Option<u64>, pipeline: usize)
    ensures
        granted is None ==> block_budget(granted, pipeline) == Some(pipeline as int),
        granted matches Some(g) ==> match block_budget(granted, pipeline) {
            Some(n) => n >= 1 && n * 16384 <= g < (n + 1) * 16384,
            None => g < 16384,
        },
{
}

/// Blocks of pieces that are on disk, being hashed or not being assembled are ignored, and no
/// others are.
pub proof fn only_blocks_of_no_use_are_ignored(d: &PeerDownload, t: &HotTorrent, index: u32)
    ensures
        t.has(index) ==> ignores(d, t, index),
        d.picks.hashing@.contains(index) ==> ignores(d, t, index),
        !assembles(d.staging.slots(), index) ==> ignores(d, t, index),
        !t.has(index) && !d.picks.hashing@.contains(index) && assembles(d.staging.slots(), index)
            ==> !ignores(d, t, index),
{
}

/// A whole piece goes to hashing with all of its bytes and the hash that the torrent names
/// for it.
pub proof fn whole_pieces_are_hashed_against_the_torrent(
    before: Seq<SlotView>,
    after: Seq<SlotView>,
    hashing_before: Set<u32>,
    hashing_after: Set<u32>,
    t: &HotTorrent,
    index: u32,
    r: Result<Option<HashJob>>,
)
    requires
        hand_over_result(
            before,
            after,
            hashing_before,
            hashing_after,
            t.expected_hash(index),
            index,
            r,
        ),
        index < t.hash_bytes().len() / 20,
    ensures
        r matches Ok(Some(job)) && job.index == index && job.data@ == before[position(
            before,
            index,
        )]->buf && job.plen == before[position(before, index)]->piece.length && job.expected@
            == t.hash_bytes().subrange(20 * index as int, 20 * index + 20),
        hashing_after.contains(index),
{
    t.hashes_stand_in_the_order_of_pieces(index, 0);
}

/// What is left of a queue is its end.
pub proof fn what_is_left_is_the_end(a: Seq<u32>, b: Seq<u32>)
    ensures
        rest_of(a + b, b),
        rest_of(b, a) ==> b == b.subrange(0, b.len() - a.len()) + a,
{
    assert((a + b).subrange(a.len() as int, (a + b).len() as int) =~= b);
    if rest_of(b, a) {
        assert(b =~= b.subrange(0, b.len() - a.len()) + a);
    }
}

/// A buffer goes back to the pool where the peer is fetched from, and is in use no more once it
/// went to hashing.
pub proof fn buffers_go_back_to_the_pool(d: &PeerDownload, bufs: &PieceBufferPool, data: Seq<u8>)
    ensures
        d.staging.leeches() ==> d.given_back(bufs, data) == bufs.parked(data),
        !d.staging.leeches() ==> d.given_back(bufs, data) == bufs.freelist()
            && d.in_use_after(bufs) == bufs.outstanding(),
        d.staging.leeches() && bufs.outstanding() > 0 ==> d.in_use_after(bufs) + 1
            == bufs.outstanding(),
        bufs.outstanding() == 0 ==> d.in_use_after(bufs) == 0,
{
}

/// A buffer that went with its piece to hashing is not free; that of a piece without a hash is,
/// where there is room for it.
pub proof fn buffers_go_with_their_piece(
    d: &PeerDownload,
    has_hash: bool,
    buf: Seq<u8>,
    before: &PieceBufferPool,
    after: &PieceBufferPool,
)
    requires
        d.handed_bufs(has_hash, buf, before, after),
        d.staging.leeches(),
        before.outstanding() > 0,
    ensures
        after.outstanding() + 1 == before.outstanding(),
        after.spec_capacity() == before.spec_capacity(),
        has_hash ==> after.freelist() == before.freelist(),
        !has_hash && before.freelist().len() + after.outstanding() < before.spec_capacity()
            ==> after.freelist() == before.freelist().push(buf),
        !has_hash && before.freelist().len() + after.outstanding() >= before.spec_capacity()
            ==> after.freelist() == before.freelist(),
{
}

/// What stays the same stays the same: the peer's pieces, what it allows, and how much is asked
/// for.
pub proof fn what_is_kept_is_kept(a: &PeerDownload, b: &PeerDownload, p: &PeerPicks, q: &PeerPicks)
    ensures
        a.same_but_staging(b) ==> a.picks == b.picks && a.pipeline == b.pipeline && a.peer_avail
            == b.peer_avail && a.staging.leeches() == b.staging.leeches()
            && a.staging.spec_piece_length() == b.staging.spec_piece_length(),
        a.same_but_hashing(b) ==> a.picks.peer_bf == b.picks.peer_bf && a.picks.suggested
            == b.picks.suggested && a.picks.claims == b.picks.claims && a.picks.peer_choking
            == b.picks.peer_choking && a.picks.allowed_fast == b.picks.allowed_fast
            && a.picks.endgame == b.picks.endgame && a.pipeline == b.pipeline && a.peer_avail
            == b.peer_avail && a.staging.leeches() == b.staging.leeches(),
        p.same_but_queue(q) ==> p.peer_bf == q.peer_bf && p.hashing == q.hashing && p.peer_choking
            == q.peer_choking && p.allowed_fast == q.allowed_fast && p.endgame == q.endgame,
{
}

/// A block goes into the slot of its piece, with its bytes in their place; the other slots stay
/// as they are.
pub proof fn blocks_go_into_their_slot(
    slots: Seq<SlotView>,
    index: u32,
    begin: u32,
    block: Seq<u8>,
    j: int,
)
    requires
        0 <= position(slots, index) < slots.len(),
        0 <= j < slots.len(),
        begin + block.len() <= slots[position(slots, index)]->buf.len(),
    ensures
        ({
            let after = took_slots(slots, index, begin, block);
            let at = position(slots, index);
            &&& after.len() == slots.len()
            &&& j != at ==> after[j] == slots[j]
            &&& after[at]->buf.subrange(begin as int, begin + block.len()) == block
            &&& after[at]->piece == slots[at]->piece.with_range(begin as int, block.len() as int)
        }),
{
    let buf = slots[position(slots, index)]->buf;
    assert(overwritten(buf, begin as int, block).subrange(begin as int, begin + block.len())
        =~= block);
}

} // verus!
