//! What is stored from time to time: pieces that were verified, and bytes that were sent.
//!
//! Times are in nanoseconds.
use crate::session::announce::AnnounceBaseline;
use vstd::multiset::Multiset;
use std::collections::HashMap;
use vstd::prelude::*;

verus! {

broadcast use {vstd::seq_lib::group_to_multiset_ensures, vstd::std_specs::hash::group_hash_axioms};

/// Time between two stores of verified pieces.
pub const PIECE_HAVE_FLUSH_INTERVAL: u64 = 10_000_000_000;

/// A piece that was verified and is not stored yet.
#[derive(Debug, Clone, Copy, PartialEq, Eq, Structural)]
pub struct PieceHave {
    pub torrent_id: i64,
    pub index: u32,
    pub len: u32,
}

/// Pieces that were verified and are not stored yet.
#[derive(Debug)]
pub struct PieceHaveBuffer {
    pub pending: Vec<PieceHave>,
    /// When pieces were last stored.
    pub last_flush: Option<u64>,
}

/// Those of the first `n` pieces that are of a torrent.
pub open spec fn only(s: Seq<PieceHave>, n: int, id: i64) -> Seq<PieceHave>
    decreases n,
{
    if n <= 0 {
        Seq::empty()
    } else if s[n - 1].torrent_id == id {
        only(s, n - 1, id).push(s[n - 1])
    } else {
        only(s, n - 1, id)
    }
}

/// Those of the first `n` pieces that are of other torrents.
pub open spec fn others(s: Seq<PieceHave>, n: int, id: i64) -> Seq<PieceHave>
    decreases n,
{
    if n <= 0 {
        Seq::empty()
    } else if s[n - 1].torrent_id == id {
        others(s, n - 1, id)
    } else {
        others(s, n - 1, id).push(s[n - 1])
    }
}

/// The pieces that are stored: all, or those of one torrent.
pub open spec fn taken(s: Seq<PieceHave>, only_id: Option<i64>) -> Seq<PieceHave> {
    match only_id {
        Some(id) => only(s, s.len() as int, id),
        None => s,
    }
}

/// The pieces that wait on.
pub open spec fn left(s: Seq<PieceHave>, only_id: Option<i64>) -> Seq<PieceHave> {
    match only_id {
        Some(id) => others(s, s.len() as int, id),
        None => Seq::empty(),
    }
}

proof fn split_is_all(s: Seq<PieceHave>, n: int, id: i64)
    requires
        0 <= n <= s.len(),
    ensures
        others(s, n, id).to_multiset().add(only(s, n, id).to_multiset()) =~= s.subrange(
            0,
            n,
        ).to_multiset(),
    decreases n,
{
    if n > 0 {
        split_is_all(s, n - 1, id);
        assert(s.subrange(0, n) =~= s.subrange(0, n - 1).push(s[n - 1]));
    }
}

/// A piece is stored or waits on: none is lost, and none is stored twice. Where storing fails,
/// what was taken is put back.
pub proof fn no_piece_is_lost(s: Seq<PieceHave>, only_id: Option<i64>)
    ensures
        left(s, only_id).to_multiset().add(taken(s, only_id).to_multiset()) == s.to_multiset(),
        (left(s, only_id) + taken(s, only_id)).to_multiset() == s.to_multiset(),
{
    let l = left(s, only_id);
    let t = taken(s, only_id);
    match only_id {
        Some(id) => {
            split_is_all(s, s.len() as int, id);
            assert(s.subrange(0, s.len() as int) =~= s);
        },
        None => {
            assert(l.to_multiset() =~= Multiset::empty());
            assert(l.to_multiset().add(t.to_multiset()) =~= s.to_multiset());
        },
    }
    vstd::seq_lib::lemma_multiset_commutative(l, t);
}

impl PieceHaveBuffer {
    /// Nothing waits, and nothing was stored.
    pub fn new() -> (b: PieceHaveBuffer)
        ensures
            b.pending@ == Seq::<PieceHave>::empty(),
            b.last_flush is None,
    {
        PieceHaveBuffer { pending: Vec::new(), last_flush: None }
    }

    /// A piece was verified.
    pub fn queue_piece_have(&mut self, torrent_id: i64, index: u32, len: u32)
        ensures
            final(self).pending@ == old(self).pending@.push(PieceHave { torrent_id, index, len }),
            final(self).last_flush == old(self).last_flush,
    {
        self.pending.push(PieceHave { torrent_id, index, len });
    }

    /// Pieces are to be stored now: it is demanded, a torrent is complete, or the last time
    /// is long enough ago.
    pub open spec fn due(&self, force: bool, any_complete: bool, now: u64) -> bool {
        ||| force
        ||| any_complete
        ||| self.last_flush is None
        ||| now >= self.last_flush->0 + PIECE_HAVE_FLUSH_INTERVAL
    }

    /// Take the pieces to store now. `any_complete` says that a torrent with waiting pieces
    /// has all of them.
    pub fn flush_piece_haves(
        &mut self,
        only_id: Option<i64>,
        force: bool,
        any_complete: bool,
        now: u64,
    ) -> (batch: Vec<PieceHave>)
        ensures
            final(self).last_flush == old(self).last_flush,
            old(self).due(force, any_complete, now) ==> batch@ == taken(old(self).pending@, only_id)
                && final(self).pending@ == left(old(self).pending@, only_id),
            !old(self).due(force, any_complete, now) ==> batch@ == Seq::<PieceHave>::empty()
                && final(self).pending@ == old(self).pending@,
    {
        let time_due: bool = match self.last_flush {
            None => true,
            Some(t) => now >= t && now - t >= PIECE_HAVE_FLUSH_INTERVAL,
        };
        if !force && !any_complete && !time_due {
            return Vec::new();
        }
        let mut take: Vec<PieceHave> = Vec::new();
        let mut keep: Vec<PieceHave> = Vec::new();
        let ghost s = self.pending@;
        let mut i: usize = 0;
        while i < self.pending.len()
            invariant
                i <= self.pending@.len(),
                self.pending@ == s,
                self.last_flush == old(self).last_flush,
                match only_id {
                    Some(id) => take@ == only(s, i as int, id) && keep@ == others(s, i as int, id),
                    None => take@ == s.subrange(0, i as int) && keep@.len() == 0,
                },
            decreases self.pending@.len() - i,
        {
            let ev: PieceHave = self.pending[i];
            match only_id {
                Some(id) => {
                    if ev.torrent_id == id {
                        take.push(ev);
                    } else {
                        keep.push(ev);
                    }
                },
                None => {
                    take.push(ev);
                    assert(take@ =~= s.subrange(0, i + 1));
                },
            }
            i += 1;
        }
        proof {
            if only_id is None {
                assert(take@ =~= s);
                assert(keep@ =~= Seq::empty());
            }
        }
        self.pending = keep;
        take
    }

    /// What was taken is stored.
    pub fn stored(&mut self, now: u64)
        ensures
            final(self).pending == old(self).pending,
            final(self).last_flush == Some(now),
    {
        self.last_flush = Some(now);
    }

    /// What was taken could not be stored: it waits on, behind what came meanwhile.
    pub fn put_back(&mut self, batch: Vec<PieceHave>)
        ensures
            final(self).pending@ == old(self).pending@ + batch@,
            final(self).last_flush == old(self).last_flush,
    {
        let mut i: usize = 0;
        assert(self.pending@ =~= old(self).pending@ + batch@.subrange(0, 0));
        while i < batch.len()
            invariant
                i <= batch@.len(),
                self.pending@ == old(self).pending@ + batch@.subrange(0, i as int),
                self.last_flush == old(self).last_flush,
            decreases batch@.len() - i,
        {
            self.pending.push(batch[i]);
            assert(batch@.subrange(0, i + 1) =~= batch@.subrange(0, i as int).push(
                batch@[i as int],
            ));
            i += 1;
        }
        assert(batch@.subrange(0, i as int) =~= batch@);
    }
}

/// Bytes that were sent of each torrent since it was added.
#[derive(Debug)]
pub struct ByteCounters {
    pub up: HashMap<i64, u64>,
}

/// What a torrent's counter stands at.
pub open spec fn sent(m: Map<i64, u64>, id: i64) -> u64 {
    if m.dom().contains(id) {
        m[id]
    } else {
        0
    }
}

impl ByteCounters {
    /// No torrents.
    pub fn new() -> (c: ByteCounters)
        ensures
            c.up@ == Map::<i64, u64>::empty(),
    {
        ByteCounters { up: HashMap::new() }
    }

    /// A torrent has a counter.
    pub fn ensure_byte_counters(&mut self, id: i64)
        ensures
            final(self).up@ == old(self).up@.insert(id, sent(old(self).up@, id)),
    {
        let n: u64 = self.raw_uploaded(id);
        self.up.insert(id, n);
    }

    /// A torrent starts with what is stored of it. A counter never goes down.
    pub fn seed_byte_counters(&mut self, id: i64, stored: u64)
        ensures
            final(self).up@ == old(self).up@.insert(
                id,
                if stored > sent(old(self).up@, id) {
                    stored
                } else {
                    sent(old(self).up@, id)
                },
            ),
    {
        let n: u64 = self.raw_uploaded(id);
        self.up.insert(
            id,
            if stored > n {
                stored
            } else {
                n
            },
        );
    }

    /// Bytes were sent. The counter starts over at its end.
    pub fn on_upload(&mut self, id: i64, n: u64)
        ensures
            final(self).up@ == old(self).up@.insert(
                id,
                if sent(old(self).up@, id) + n > u64::MAX {
                    (sent(old(self).up@, id) + n - 0x1_0000_0000_0000_0000) as u64
                } else {
                    (sent(old(self).up@, id) + n) as u64
                },
            ),
    {
        let now: u64 = self.raw_uploaded(id).wrapping_add(n);
        self.up.insert(id, now);
    }

    /// What a torrent's counter stands at.
    pub fn raw_uploaded(&self, id: i64) -> (n: u64)
        ensures
            n == sent(self.up@, id),
    {
        match self.up.get(&id) {
            Some(n) => *n,
            None => 0,
        }
    }

    /// The counters to store: each that is above zero, once.
    pub fn flush_uploaded(&self) -> (r: Vec<(i64, u64)>)
        ensures
            forall|i: int, j: int|
                0 <= i < j < r@.len() ==> (#[trigger] r@[i]).0 != (#[trigger] r@[j]).0,
            forall|x: (i64, u64)| #[trigger]
                r@.contains(x) <==> x.1 > 0 && self.up@.contains_key(x.0) && self.up@[x.0] == x.1,
    {
        let mut r: Vec<(i64, u64)> = Vec::new();
        let ghost m = self.up@;
        let ghost all: Seq<i64> = vstd::std_specs::iter::IteratorSpec::remaining(
            &self.up.keys(),
        ).unref();
        for k in it: self.up.keys()
            invariant
                m == self.up@,
                all == it.seq().unref(),
                forall|i: int|
                    0 <= i < r@.len() ==> (#[trigger] r@[i]).1 > 0 && m.contains_key(r@[i].0)
                        && m[r@[i].0] == r@[i].1 && all.subrange(0, it.index() as int).contains(
                        r@[i].0,
                    ),
                forall|i: int|
                    0 <= i < it.index() && m[#[trigger] all[i]] > 0 ==> r@.contains(
                        (all[i], m[all[i]]),
                    ),
                forall|i: int, j: int|
                    0 <= i < j < r@.len() ==> (#[trigger] r@[i]).0 != (#[trigger] r@[j]).0,
        {
            let ghost before = r@;
            let ghost n = it.index() as int;
            let id: i64 = *k;
            proof {
                assert(all[n] == id);
                assert(all.to_set().contains(id));
                assert(all.subrange(0, n + 1) =~= all.subrange(0, n).push(id));
                assert(!all.subrange(0, n).contains(id)) by {
                    if all.subrange(0, n).contains(id) {
                        let q = all.subrange(0, n).index_of(id);
                        assert(all[q] == all[n]);
                    }
                }
                assert forall|x: i64| all.subrange(0, n).contains(x) implies #[trigger] all.subrange(
                    0,
                    n + 1,
                ).contains(x) by {
                    let q = all.subrange(0, n).index_of(x);
                    assert(all.subrange(0, n + 1)[q] == x);
                }
                assert(all.subrange(0, n + 1)[n] == id);
            }
            let sent: u64 = self.raw_uploaded(id);
            if sent > 0 {
                r.push((id, sent));
            }
            proof {
                assert forall|i: int|
                    0 <= i < n + 1 && m[#[trigger] all[i]] > 0 implies r@.contains(
                    (all[i], m[all[i]]),
                ) by {
                    if i < n {
                        let q = before.index_of((all[i], m[all[i]]));
                        assert(r@[q] == before[q]);
                    } else {
                        assert(r@[r@.len() - 1] == (id, sent));
                    }
                }
            }
        }
        proof {
            assert forall|x: (i64, u64)| #[trigger]
                r@.contains(x) <==> x.1 > 0 && m.contains_key(x.0) && m[x.0] == x.1 by {
                if x.1 > 0 && m.contains_key(x.0) && m[x.0] == x.1 {
                    assert(all.to_set().contains(x.0));
                    let q = all.index_of(x.0);
                    assert(all[q] == x.0);
                }
            }
        }
        r
    }

    /// A torrent is stopped. Returns what its counter stood at.
    pub fn remove(&mut self, id: i64) -> (n: u64)
        ensures
            n == sent(old(self).up@, id),
            final(self).up@ == old(self).up@.remove(id),
    {
        let n: u64 = self.raw_uploaded(id);
        self.up.remove(&id);
        n
    }
}

/// Bytes and pieces of an active torrent.
#[derive(Debug, Clone, Copy, PartialEq, Eq, Structural)]
pub struct Progress {
    /// Bytes of the pieces that it has.
    pub completed: u64,
    /// It has all pieces, wanted or not.
    pub complete: bool,
}

/// The totals that a start is counted from. A torrent that is not active counts as complete.
pub fn reset_announce_baseline(uploaded: u64, hot: Option<Progress>) -> (b: AnnounceBaseline)
    ensures
        b.uploaded == uploaded,
        b.completed == match hot {
            Some(p) => p.completed,
            None => 0,
        },
        b.incomplete_at_start == (hot is Some && !hot->0.complete),
{
    AnnounceBaseline {
        uploaded,
        completed: match hot {
            Some(p) => p.completed,
            None => 0,
        },
        incomplete_at_start: match hot {
            Some(p) => !p.complete,
            None => false,
        },
    }
}

/// What a tracker is told was sent and completed since the start. Right after a start that is
/// nothing, and it never goes down while the counters do not.
pub proof fn totals_start_at_zero(
    b: AnnounceBaseline,
    uploaded: u64,
    completed: u64,
    more_up: u64,
    more_done: u64,
)
    requires
        b.uploaded == uploaded,
        b.completed == completed,
        uploaded <= more_up,
        completed <= more_done,
    ensures
        b.spec_since(uploaded, completed) == (0u64, 0u64),
        b.spec_since(more_up, more_done).0 == more_up - uploaded,
        b.spec_since(more_up, more_done).1 == more_done - completed,
{
}

/// Where one torrent is stored, its pieces are taken and those of others wait on, each in
/// their order.
pub proof fn one_torrent_is_stored_alone(s: Seq<PieceHave>, p: PieceHave, id: i64)
    ensures
        p.torrent_id == id ==> taken(s.push(p), Some(id)) == taken(s, Some(id)).push(p) && left(
            s.push(p),
            Some(id),
        ) == left(s, Some(id)),
        p.torrent_id != id ==> taken(s.push(p), Some(id)) == taken(s, Some(id)) && left(
            s.push(p),
            Some(id),
        ) == left(s, Some(id)).push(p),
        taken(Seq::<PieceHave>::empty(), Some(id)).len() == 0,
        left(Seq::<PieceHave>::empty(), Some(id)).len() == 0,
        taken(s, None) == s,
        left(s, None).len() == 0,
{
    prefixes_split_alike(s, s.push(p), s.len() as int, id);
}

proof fn prefixes_split_alike(a: Seq<PieceHave>, b: Seq<PieceHave>, n: int, id: i64)
    requires
        0 <= n <= a.len(),
        a.len() <= b.len(),
        forall|i: int| 0 <= i < n ==> a[i] == b[i],
    ensures
        only(a, n, id) == only(b, n, id),
        others(a, n, id) == others(b, n, id),
    decreases n,
{
    if n > 0 {
        prefixes_split_alike(a, b, n - 1, id);
        assert(a[n - 1] == b[n - 1]);
    }
}

/// Pieces are stored ten seconds after they last were, or at once where it is demanded, a
/// torrent is complete or none was stored before.
pub proof fn pieces_are_stored_in_time(
    b: PieceHaveBuffer,
    force: bool,
    any_complete: bool,
    now: u64,
)
    ensures
        force || any_complete || b.last_flush is None ==> b.due(force, any_complete, now),
        b.last_flush matches Some(t) ==> (b.due(false, false, now) <==> now - t >= 10_000_000_000),
{
}

/// A counter stands at what it was set to, and at zero where it never was.
pub proof fn counters_stand_at_what_was_sent(m: Map<i64, u64>, id: i64, other: i64, n: u64)
    ensures
        sent(m.insert(id, n), id) == n,
        other != id ==> sent(m.insert(id, n), other) == sent(m, other),
        sent(Map::<i64, u64>::empty(), id) == 0,
        sent(m.remove(id), id) == 0,
{
}

} // verus!
