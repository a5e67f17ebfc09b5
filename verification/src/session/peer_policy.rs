//! Which peers a session has, dials and admits.
//!
//! Times are in nanoseconds.
use crate::net::PeerAddr;
use crate::session::announce::TIME_MAX;
use crate::session::dial::{dial_list, merge_outbound_peers};
use crate::session::dial_policy::{
    backoff_is_bounded, clear_dial_fail, cooling, dial_data, failed_once_more, is_cooled_down,
    light_disconnect_cooldown, quiet_for_now, record_dial_fail, record_dial_soft_fail,
    record_idle_close, DialData, Dials,
};
use crate::session::limits::PeerBounds;
use crate::session::snapshot::{PeerCrypto, PeerDirection};
use crate::session::table::{PeerKey, Table};
use std::collections::HashMap;
use vstd::prelude::*;

verus! {

broadcast use vstd::std_specs::hash::group_hash_axioms;

/// A session shorter than this counts as a failure.
pub const SHORT_SESSION: u64 = 5_000_000_000;

/// A session of this length makes up for earlier failures.
pub const LONG_SESSION: u64 = 30_000_000_000;

/// What a peer was last seen to have and to do.
#[derive(Debug, Clone, Copy, PartialEq, Eq, Structural)]
pub struct PeerGauges {
    /// Bytes sent to the peer.
    pub up: u64,
    /// Bytes that came from the peer.
    pub down: u64,
    /// Blocks that we are waiting for.
    pub queue_outstanding: u64,
    /// Blocks that we want to be waiting for.
    pub queue_target: u64,
    /// The peer wants our pieces.
    pub peer_interested: bool,
    /// The peer does not serve us.
    pub peer_choking: bool,
    /// We want the peer's pieces.
    pub am_interested: bool,
    /// Blocks that the peer waits for.
    pub upload_pending: u64,
    /// Pieces that the peer has.
    pub peer_have: u32,
    /// Pieces of the torrent, zero where it is not known yet.
    pub piece_count: u32,
    pub crypto: PeerCrypto,
}

impl PeerGauges {
    /// Before anything was exchanged.
    pub open spec fn spec_at_start(am_interested: bool, piece_count: u32) -> PeerGauges {
        PeerGauges {
            up: 0,
            down: 0,
            queue_outstanding: 0,
            queue_target: 0,
            peer_interested: false,
            peer_choking: true,
            am_interested,
            upload_pending: 0,
            peer_have: 0,
            piece_count,
            crypto: PeerCrypto::Unknown,
        }
    }

    /// Before anything was exchanged.
    pub fn at_start(am_interested: bool, piece_count: u32) -> (g: PeerGauges)
        ensures
            g == PeerGauges::spec_at_start(am_interested, piece_count),
    {
        PeerGauges {
            up: 0,
            down: 0,
            queue_outstanding: 0,
            queue_target: 0,
            peer_interested: false,
            peer_choking: true,
            am_interested,
            upload_pending: 0,
            peer_have: 0,
            piece_count,
            crypto: PeerCrypto::Unknown,
        }
    }
}

/// A connected peer.
#[derive(Debug, Clone, Copy, PartialEq, Eq, Structural)]
pub struct LivePeer {
    /// Zero until the peer has named a torrent.
    pub torrent_id: i64,
    pub addr: PeerAddr,
    pub direction: PeerDirection,
    pub connected_at: u64,
    /// Port that the peer listens on, where it is known.
    pub listen_port: Option<u16>,
    pub gauges: PeerGauges,
}

impl LivePeer {
    /// The peer helps with a torrent: it serves us, or it takes from us.
    pub open spec fn useful(&self, we_need_download: bool) -> bool {
        &&& self.gauges.piece_count != 0
        &&& self.gauges.peer_have != 0
        &&& if we_need_download {
            !self.gauges.peer_choking
        } else {
            self.gauges.peer_have < self.gauges.piece_count && self.gauges.peer_interested
        }
    }

    /// The peer helps with a torrent.
    pub fn is_useful(&self, we_need_download: bool) -> (r: bool)
        ensures
            r == self.useful(we_need_download),
    {
        if self.gauges.piece_count == 0 || self.gauges.peer_have == 0 {
            return false;
        }
        if we_need_download {
            !self.gauges.peer_choking
        } else {
            self.gauges.peer_have < self.gauges.piece_count && self.gauges.peer_interested
        }
    }

    /// The peer can be reached at an address.
    pub open spec fn listens_at(&self, listen_addr: PeerAddr) -> bool {
        ||| self.addr == listen_addr
        ||| self.listen_port is Some && self.addr.spec_with_port(self.listen_port->0)
            == listen_addr
    }

    /// The peer can be reached at an address.
    pub fn is_at(&self, listen_addr: PeerAddr) -> (r: bool)
        ensures
            r == self.listens_at(listen_addr),
    {
        if self.addr == listen_addr {
            return true;
        }
        match self.listen_port {
            Some(lp) => self.addr.with_port(lp) == listen_addr,
            None => false,
        }
    }
}

/// The peers of a session.
pub type Peers = Map<u64, LivePeer>;

/// Number of peers among `ids` with this torrent.
pub open spec fn peers_of(m: Peers, ids: Seq<u64>, torrent_id: i64) -> nat
    decreases ids.len(),
{
    if ids.len() == 0 {
        0
    } else {
        peers_of(m, ids.drop_last(), torrent_id) + if m[ids.last()].torrent_id == torrent_id {
            1nat
        } else {
            0
        }
    }
}

/// Number of peers among `ids` that help with this torrent.
pub open spec fn useful_of(m: Peers, ids: Seq<u64>, torrent_id: i64, need: bool) -> nat
    decreases ids.len(),
{
    if ids.len() == 0 {
        0
    } else {
        useful_of(m, ids.drop_last(), torrent_id, need) + if m[ids.last()].torrent_id == torrent_id
            && m[ids.last()].useful(need) {
            1nat
        } else {
            0
        }
    }
}

proof fn peers_of_frame(a: Peers, b: Peers, ids: Seq<u64>, torrent_id: i64)
    requires
        forall|i: int| 0 <= i < ids.len() ==> a[#[trigger] ids[i]] == b[ids[i]],
    ensures
        peers_of(a, ids, torrent_id) == peers_of(b, ids, torrent_id),
    decreases ids.len(),
{
    if ids.len() > 0 {
        assert(ids.last() == ids[ids.len() - 1]);
        peers_of_frame(a, b, ids.drop_last(), torrent_id);
    }
}

/// Why more peers are dialed for a torrent.
#[derive(Debug, Clone, Copy, PartialEq, Eq, Structural)]
pub struct RefillPlan {
    /// Peers that there should be.
    pub min_peers: usize,
    /// Peers that help now.
    pub useful: usize,
    /// Peers that may be added.
    pub slots: usize,
}

/// How a session that we opened ended.
#[derive(Debug, Clone, Copy, PartialEq, Eq, Structural)]
pub enum SessionEnd {
    /// It was closed because nothing happened.
    Idle,
    /// It could not be opened, or broke off.
    Failed,
    /// It ended in order.
    Closed,
}

/// What is remembered of dialing after a session that we opened.
pub open spec fn after_session(m: Dials, key: PeerKey, end: SessionEnd, lived: int, now: u64) -> Dials {
    let d = dial_data(m, key, now);
    match end {
        SessionEnd::Idle => m.insert(key, quiet_for_now(d, now)),
        SessionEnd::Failed => m.insert(key, failed_once_more(d, now)),
        SessionEnd::Closed => if lived < SHORT_SESSION {
            m.insert(key, failed_once_more(d, now))
        } else if lived >= LONG_SESSION {
            m.remove(key)
        } else {
            m.insert(key, quiet_for_now(d, now))
        },
    }
}

/// The peers of a session, and what is remembered of addresses.
#[derive(Debug)]
pub struct PeerBook {
    pub peers: Table<u64, LivePeer>,
    /// Addresses that we are connected to, or connecting to.
    pub connected_out: Table<PeerKey, bool>,
    pub cooldown: Table<PeerKey, DialData>,
    /// Torrents that were started, and whether they were stopped since.
    pub cancelled: HashMap<i64, bool>,
    pub next_peer_id: u64,
    pub bounds: PeerBounds,
    /// Peers are dialed also for torrents that are complete.
    pub seed_dial_peers: bool,
    /// Most connections, over all torrents.
    pub max_connections: usize,
    /// Sessions begun since they were last counted.
    pub connects: u64,
    /// Sessions ended since they were last counted.
    pub disconnects: u64,
}

impl PeerBook {
    pub open spec fn wf(&self) -> bool {
        &&& self.peers.wf()
        &&& self.connected_out.wf()
        &&& self.cooldown.wf()
        &&& 1 <= self.bounds.min_peers <= self.bounds.max_peers
        &&& forall|id: u64| #[trigger]
            self.peers@.dom().contains(id) ==> id < self.next_peer_id
    }

    /// Number of peers of a torrent.
    pub open spec fn count(&self, torrent_id: i64) -> nat {
        peers_of(self.peers@, self.peers.order(), torrent_id)
    }

    /// Number of peers that help with a torrent.
    pub open spec fn useful(&self, torrent_id: i64, need: bool) -> nat {
        useful_of(self.peers@, self.peers.order(), torrent_id, need)
    }

    /// Number of peers that may be added to a torrent.
    pub open spec fn slots(&self, torrent_id: i64) -> int {
        if self.count(torrent_id) >= self.bounds.max_peers {
            0
        } else {
            self.bounds.max_peers - self.count(torrent_id)
        }
    }

    /// A peer of this torrent can be reached at an address, or is being connected to.
    pub open spec fn knows(&self, torrent_id: i64, addr: PeerAddr) -> bool {
        ||| self.connected_out@.dom().contains(PeerKey { torrent_id, addr })
        ||| exists|id: u64| #[trigger]
            self.peers@.dom().contains(id) && self.peers@[id].torrent_id == torrent_id
                && self.peers@[id].listens_at(addr)
    }

    /// An address may be dialed now.
    pub open spec fn dialable(&self, torrent_id: i64, addr: PeerAddr, now: u64) -> bool {
        &&& !self.knows(torrent_id, addr)
        &&& !cooling(self.cooldown@, PeerKey { torrent_id, addr }, now)
    }

    /// No peers.
    pub fn new(bounds: PeerBounds, seed_dial_peers: bool, max_connections: usize) -> (b: PeerBook)
        requires
            1 <= bounds.min_peers <= bounds.max_peers,
        ensures
            b.wf(),
            b.peers@ == Map::<u64, LivePeer>::empty(),
            b.peers.order() == Seq::<u64>::empty(),
            b.connected_out@ == Map::<PeerKey, bool>::empty(),
            b.cooldown@ == Map::<PeerKey, DialData>::empty(),
            b.cancelled@ == Map::<i64, bool>::empty(),
            b.next_peer_id == 1,
            b.bounds == bounds,
            b.seed_dial_peers == seed_dial_peers,
            b.max_connections == max_connections,
            b.connects == 0,
            b.disconnects == 0,
    {
        PeerBook {
            peers: Table::new(),
            connected_out: Table::new(),
            cooldown: Table::new(),
            cancelled: HashMap::new(),
            next_peer_id: 1,
            bounds,
            seed_dial_peers,
            max_connections,
            connects: 0,
            disconnects: 0,
        }
    }

    /// Number of peers of a torrent, inbound and outbound.
    pub fn peer_count_for_torrent(&self, torrent_id: i64) -> (n: usize)
        requires
            self.wf(),
        ensures
            n == self.count(torrent_id),
    {
        let len: usize = self.peers.len();
        let ghost ids = self.peers.order();
        let mut n: usize = 0;
        let mut i: usize = 0;
        while i < len
            invariant
                i <= len,
                len == ids.len(),
                self.wf(),
                ids == self.peers.order(),
                n <= i,
                n == peers_of(self.peers@, ids.subrange(0, i as int), torrent_id),
            decreases len - i,
        {
            proof {
                let next = ids.subrange(0, i + 1);
                assert(next.drop_last() =~= ids.subrange(0, i as int));
                assert(next.last() == ids[i as int]);
            }
            if self.peers.value(i).torrent_id == torrent_id {
                n += 1;
            }
            i += 1;
        }
        assert(ids.subrange(0, i as int) =~= ids);
        n
    }

    /// Number of peers that may be added to a torrent.
    pub fn peer_slots_remaining(&self, torrent_id: i64) -> (n: usize)
        requires
            self.wf(),
        ensures
            n == self.slots(torrent_id),
    {
        let n: usize = self.peer_count_for_torrent(torrent_id);
        if n >= self.bounds.max_peers {
            0
        } else {
            self.bounds.max_peers - n
        }
    }

    /// Number of peers that help with a torrent.
    pub fn useful_peer_count(&self, torrent_id: i64, we_need_download: bool) -> (n: usize)
        requires
            self.wf(),
        ensures
            n == self.useful(torrent_id, we_need_download),
    {
        let len: usize = self.peers.len();
        let ghost ids = self.peers.order();
        let mut n: usize = 0;
        let mut i: usize = 0;
        while i < len
            invariant
                i <= len,
                len == ids.len(),
                self.wf(),
                ids == self.peers.order(),
                n <= i,
                n == useful_of(
                    self.peers@,
                    ids.subrange(0, i as int),
                    torrent_id,
                    we_need_download,
                ),
            decreases len - i,
        {
            proof {
                let next = ids.subrange(0, i + 1);
                assert(next.drop_last() =~= ids.subrange(0, i as int));
                assert(next.last() == ids[i as int]);
            }
            let p = self.peers.value(i);
            if p.torrent_id == torrent_id && p.is_useful(we_need_download) {
                n += 1;
            }
            i += 1;
        }
        assert(ids.subrange(0, i as int) =~= ids);
        n
    }

    /// Whether peers are dialed for a torrent that lacks wanted pieces, or lacks none.
    pub fn may_dial_out(&self, we_need_download: bool) -> (r: bool)
        ensures
            r == (we_need_download || self.seed_dial_peers),
    {
        we_need_download || self.seed_dial_peers
    }

    /// Whether a peer of this torrent can be reached at an address, or is being connected to.
    pub fn already_have_peer(&self, torrent_id: i64, listen_addr: PeerAddr) -> (r: bool)
        requires
            self.wf(),
        ensures
            r == self.knows(torrent_id, listen_addr),
    {
        if self.connected_out.contains_key(PeerKey { torrent_id, addr: listen_addr }) {
            return true;
        }
        let len: usize = self.peers.len();
        let ghost ids = self.peers.order();
        proof {
            self.peers.order_is_domain();
        }
        let mut i: usize = 0;
        while i < len
            invariant
                i <= len,
                len == ids.len(),
                self.wf(),
                ids == self.peers.order(),
                forall|j: int|
                    0 <= j < i ==> !(self.peers@[#[trigger] ids[j]].torrent_id == torrent_id
                        && self.peers@[ids[j]].listens_at(listen_addr)),
            decreases len - i,
        {
            let p = self.peers.value(i);
            if p.torrent_id == torrent_id && p.is_at(listen_addr) {
                return true;
            }
            i += 1;
        }
        proof {
            assert forall|id: u64| #[trigger] self.peers@.dom().contains(id) implies !(
            self.peers@[id].torrent_id == torrent_id && self.peers@[id].listens_at(listen_addr)) by {
                assert(ids.contains(id));
                let j = ids.index_of(id);
                assert(ids[j] == id);
            }
        }
        false
    }

    /// Peers are to be dialed for an active torrent: dialing is allowed, there is room, and
    /// fewer than the wanted number help.
    pub open spec fn refill(&self, id: i64, we_need: bool) -> bool {
        &&& we_need || self.seed_dial_peers
        &&& self.slots(id) > 0
        &&& self.useful(id, we_need) < self.bounds.min_peers
    }

    /// Whether, and how many, peers are to be dialed for an active torrent.
    pub fn peer_refill_plan(&self, id: i64, we_need: bool) -> (r: Option<RefillPlan>)
        requires
            self.wf(),
        ensures
            r is Some == self.refill(id, we_need),
            r matches Some(p) ==> p.min_peers == self.bounds.min_peers && p.useful == self.useful(
                id,
                we_need,
            ) && p.slots == self.slots(id),
    {
        if !self.may_dial_out(we_need) {
            return None;
        }
        let slots: usize = self.peer_slots_remaining(id);
        if slots == 0 {
            return None;
        }
        let useful: usize = self.useful_peer_count(id, we_need);
        if useful >= self.bounds.min_peers {
            return None;
        }
        Some(RefillPlan { min_peers: self.bounds.min_peers, useful, slots })
    }

    /// Whether peers are to be dialed for an active torrent.
    pub fn needs_peer_refill(&self, id: i64, we_need: bool) -> (r: bool)
        requires
            self.wf(),
        ensures
            r == self.refill(id, we_need),
    {
        self.peer_refill_plan(id, we_need).is_some()
    }

    /// Those of the first `n` addresses that may be dialed now.
    pub open spec fn kept(&self, id: i64, list: Seq<PeerAddr>, n: int, now: u64) -> Seq<PeerAddr>
        decreases n,
    {
        if n <= 0 {
            Seq::empty()
        } else if self.dialable(id, list[n - 1], now) {
            self.kept(id, list, n - 1, now).push(list[n - 1])
        } else {
            self.kept(id, list, n - 1, now)
        }
    }

    /// Those addresses of a list that may be dialed now.
    pub fn dial_now(&self, id: i64, list: &Vec<PeerAddr>, now: u64) -> (out: Vec<PeerAddr>)
        requires
            self.wf(),
        ensures
            out@ == self.kept(id, list@, list@.len() as int, now),
    {
        let mut out: Vec<PeerAddr> = Vec::new();
        let mut i: usize = 0;
        while i < list.len()
            invariant
                i <= list@.len(),
                self.wf(),
                out@ == self.kept(id, list@, i as int, now),
            decreases list@.len() - i,
        {
            let addr: PeerAddr = list[i];
            if !self.already_have_peer(id, addr) && !is_cooled_down(
                &self.cooldown,
                id,
                addr,
                now,
            ) {
                out.push(addr);
            }
            i += 1;
        }
        out
    }

    /// The addresses to dial for an active torrent, from those given by hand, those of the
    /// last announce, and those kept from earlier. None where no peers are wanted.
    pub fn refill_peers_with_cache(
        &self,
        id: i64,
        we_need: bool,
        manual: &[PeerAddr],
        tracker: Vec<PeerAddr>,
        cached: Vec<PeerAddr>,
        now: u64,
    ) -> (out: Vec<PeerAddr>)
        requires
            self.wf(),
        ensures
            !self.refill(id, we_need) ==> out@ == Seq::<PeerAddr>::empty(),
            self.refill(id, we_need) ==> exists|c: Seq<PeerAddr>, t: Seq<PeerAddr>|
                c.to_multiset() == cached@.to_multiset() && t.to_multiset()
                    == tracker@.to_multiset() && out@ == self.kept(
                    id,
                    #[trigger] dial_list(manual@, c, t, self.slots(id) as usize),
                    dial_list(manual@, c, t, self.slots(id) as usize).len() as int,
                    now,
                ),
    {
        match self.peer_refill_plan(id, we_need) {
            None => Vec::new(),
            Some(plan) => {
                let list = merge_outbound_peers(manual, tracker, cached, plan.slots);
                assert(plan.slots == self.slots(id) as usize);
                self.dial_now(id, &list, now)
            },
        }
    }

    /// Whether an active torrent is short of peers that could be had.
    pub fn starves(&self, id: i64, we_need: bool) -> (r: bool)
        requires
            self.wf(),
        ensures
            r == self.refill(id, we_need),
    {
        self.needs_peer_refill(id, we_need)
    }

    /// A torrent runs and was not stopped.
    pub open spec fn running(&self, torrent_id: i64) -> bool {
        self.cancelled@.dom().contains(torrent_id) && !self.cancelled@[torrent_id]
    }

    /// The peer that is added when an address is dialed.
    pub open spec fn outbound_peer(torrent_id: i64, piece_count: u32, addr: PeerAddr, now: u64) -> LivePeer {
        LivePeer {
            torrent_id,
            addr,
            direction: PeerDirection::Outbound,
            connected_at: now,
            listen_port: Some(addr.spec_port()),
            gauges: PeerGauges::spec_at_start(true, piece_count),
        }
    }

    /// Take a place for a peer that we dial. None where the address may not be dialed, the
    /// torrent was stopped, or has as many peers as it may have.
    pub fn spawn_outbound(
        &mut self,
        torrent_id: i64,
        piece_count: u32,
        addr: PeerAddr,
        now: u64,
    ) -> (r: Option<u64>)
        requires
            old(self).wf(),
            old(self).next_peer_id < u64::MAX,
        ensures
            final(self).wf(),
            r is Some == (old(self).dialable(torrent_id, addr, now) && old(self).running(torrent_id)
                && old(self).count(torrent_id) < old(self).bounds.max_peers),
            final(self).same_policy(old(self)),
            final(self).cooldown == old(self).cooldown,
            final(self).cancelled == old(self).cancelled,
            r matches Some(pid) ==> {
                &&& pid == old(self).next_peer_id
                &&& final(self).next_peer_id == pid + 1
                &&& final(self).peers@ == old(self).peers@.insert(
                    pid,
                    PeerBook::outbound_peer(torrent_id, piece_count, addr, now),
                )
                &&& final(self).peers.order() == old(self).peers.order().push(pid)
                &&& final(self).connected_out@ == old(self).connected_out@.insert(
                    PeerKey { torrent_id, addr },
                    true,
                )
            },
            r is None ==> *final(self) == *old(self),
    {
        if self.already_have_peer(torrent_id, addr) {
            return None;
        }
        if is_cooled_down(&self.cooldown, torrent_id, addr, now) {
            return None;
        }
        let stopped: bool = match self.cancelled.get(&torrent_id) {
            Some(c) => *c,
            None => true,
        };
        if stopped {
            return None;
        }
        if self.peer_count_for_torrent(torrent_id) >= self.bounds.max_peers {
            return None;
        }
        let pid: u64 = self.next_peer_id;
        self.connected_out.insert(PeerKey { torrent_id, addr }, true);
        self.next_peer_id = pid + 1;
        let p = LivePeer {
            torrent_id,
            addr,
            direction: PeerDirection::Outbound,
            connected_at: now,
            listen_port: Some(addr.port()),
            gauges: PeerGauges::at_start(true, piece_count),
        };
        self.peers.insert(pid, p);
        Some(pid)
    }

    /// The limits are those of another book.
    pub open spec fn same_policy(&self, other: &PeerBook) -> bool {
        &&& self.bounds == other.bounds
        &&& self.seed_dial_peers == other.seed_dial_peers
        &&& self.max_connections == other.max_connections
        &&& self.connects == other.connects
        &&& self.disconnects == other.disconnects
    }

    /// Whether a session whose place was taken is to begin. Where the session or the torrent
    /// was stopped meanwhile, its place is given back.
    pub fn begin_outbound(&mut self, pid: u64, torrent_id: i64, addr: PeerAddr, stop: bool) -> (go: bool)
        requires
            old(self).wf(),
        ensures
            final(self).wf(),
            go == (!stop && old(self).running(torrent_id)),
            final(self).cooldown == old(self).cooldown,
            final(self).cancelled == old(self).cancelled,
            final(self).next_peer_id == old(self).next_peer_id,
            final(self).bounds == old(self).bounds,
            final(self).seed_dial_peers == old(self).seed_dial_peers,
            final(self).max_connections == old(self).max_connections,
            final(self).disconnects == old(self).disconnects,
            go ==> final(self).peers == old(self).peers && final(self).connected_out == old(
                self,
            ).connected_out && final(self).connects == next_count(old(self).connects),
            !go ==> final(self).peers@ == old(self).peers@.remove(pid)
                && final(self).connected_out@ == old(self).connected_out@.remove(
                PeerKey { torrent_id, addr },
            )
                && final(self).connects == old(self).connects,
    {
        let stopped: bool = stop || match self.cancelled.get(&torrent_id) {
            Some(c) => *c,
            None => true,
        };
        if stopped {
            self.peers.remove(pid);
            self.connected_out.remove(PeerKey { torrent_id, addr });
            return false;
        }
        self.connects = self.connects.wrapping_add(1);
        true
    }

    /// A session that we opened is over: its place is free, and its end decides when the
    /// address may be dialed again.
    pub fn end_outbound(
        &mut self,
        pid: u64,
        torrent_id: i64,
        addr: PeerAddr,
        end: SessionEnd,
        connected_at: u64,
        now: u64,
    )
        requires
            old(self).wf(),
            now <= TIME_MAX,
        ensures
            final(self).wf(),
            final(self).peers@ == old(self).peers@.remove(pid),
            final(self).connected_out@ == old(self).connected_out@.remove(
                PeerKey { torrent_id, addr },
            ),
            final(self).cooldown@ == after_session(
                old(self).cooldown@,
                PeerKey { torrent_id, addr },
                end,
                if now < connected_at {
                    0
                } else {
                    now - connected_at
                },
                now,
            ),
            final(self).cancelled == old(self).cancelled,
            final(self).next_peer_id == old(self).next_peer_id,
            final(self).bounds == old(self).bounds,
            final(self).seed_dial_peers == old(self).seed_dial_peers,
            final(self).max_connections == old(self).max_connections,
            final(self).connects == old(self).connects,
            final(self).disconnects == next_count(old(self).disconnects),
    {
        let lived: u64 = if now < connected_at {
            0
        } else {
            now - connected_at
        };
        match end {
            SessionEnd::Idle => record_idle_close(&mut self.cooldown, torrent_id, addr, now),
            SessionEnd::Failed => record_dial_fail(&mut self.cooldown, torrent_id, addr, now),
            SessionEnd::Closed => {
                if lived < SHORT_SESSION {
                    record_dial_soft_fail(&mut self.cooldown, torrent_id, addr, now);
                } else if lived >= LONG_SESSION {
                    clear_dial_fail(&mut self.cooldown, torrent_id, addr);
                } else {
                    light_disconnect_cooldown(&mut self.cooldown, torrent_id, addr, now);
                }
            },
        }
        self.disconnects = self.disconnects.wrapping_add(1);
        self.peers.remove(pid);
        self.connected_out.remove(PeerKey { torrent_id, addr });
    }

    /// There is room for another connection.
    pub open spec fn has_room(&self) -> bool {
        self.peers.order().len() < if self.max_connections == 0 {
            1
        } else {
            self.max_connections
        }
    }

    /// Whether an incoming connection is taken.
    pub fn admits_inbound(&self) -> (r: bool)
        requires
            self.wf(),
        ensures
            r == self.has_room(),
    {
        let max: usize = if self.max_connections == 0 {
            1
        } else {
            self.max_connections
        };
        self.peers.len() < max
    }

    /// Add a peer that connected to us. Its torrent is not known yet.
    pub fn begin_inbound(&mut self, addr: PeerAddr, now: u64) -> (pid: u64)
        requires
            old(self).wf(),
            old(self).next_peer_id < u64::MAX,
        ensures
            final(self).wf(),
            pid == old(self).next_peer_id,
            final(self).next_peer_id == pid + 1,
            final(self).peers@ == old(self).peers@.insert(
                pid,
                (LivePeer {
                    torrent_id: 0,
                    addr,
                    direction: PeerDirection::Inbound,
                    connected_at: now,
                    listen_port: None,
                    gauges: PeerGauges::spec_at_start(false, 0),
                }),
            ),
            final(self).peers.order() == old(self).peers.order().push(pid),
            final(self).connected_out == old(self).connected_out,
            final(self).cooldown == old(self).cooldown,
            final(self).cancelled == old(self).cancelled,
            final(self).bounds == old(self).bounds,
            final(self).seed_dial_peers == old(self).seed_dial_peers,
            final(self).max_connections == old(self).max_connections,
            final(self).connects == next_count(old(self).connects),
            final(self).disconnects == old(self).disconnects,
    {
        let pid: u64 = self.next_peer_id;
        self.next_peer_id = pid + 1;
        self.peers.insert(
            pid,
            LivePeer {
                torrent_id: 0,
                addr,
                direction: PeerDirection::Inbound,
                connected_at: now,
                listen_port: None,
                gauges: PeerGauges::at_start(false, 0),
            },
        );
        self.connects = self.connects.wrapping_add(1);
        pid
    }

    /// A peer that connected to us has named its torrent. False where the torrent has as many
    /// peers as it may have; the peer is then to go.
    pub fn on_bound(&mut self, pid: u64, torrent_id: i64) -> (r: bool)
        requires
            old(self).wf(),
        ensures
            final(self).wf(),
            r == (old(self).count(torrent_id) < old(self).bounds.max_peers),
            final(self).same_policy(old(self)),
            final(self).connected_out == old(self).connected_out,
            final(self).cooldown == old(self).cooldown,
            final(self).cancelled == old(self).cancelled,
            final(self).next_peer_id == old(self).next_peer_id,
            final(self).peers@ == if r && old(self).peers@.dom().contains(pid) {
                old(self).peers@.insert(
                    pid,
                    LivePeer { torrent_id, ..old(self).peers@[pid] },
                )
            } else {
                old(self).peers@
            },
            final(self).peers.order() == old(self).peers.order(),
    {
        if self.peer_count_for_torrent(torrent_id) >= self.bounds.max_peers {
            return false;
        }
        let mut p: LivePeer = match self.peers.get(pid) {
            Some(p) => *p,
            None => {
                return true;
            },
        };
        p.torrent_id = torrent_id;
        self.peers.insert(pid, p);
        true
    }

    /// A session that a peer opened is over.
    pub fn end_inbound(&mut self, pid: u64)
        requires
            old(self).wf(),
        ensures
            final(self).wf(),
            final(self).peers@ == old(self).peers@.remove(pid),
            final(self).connected_out == old(self).connected_out,
            final(self).cooldown == old(self).cooldown,
            final(self).cancelled == old(self).cancelled,
            final(self).next_peer_id == old(self).next_peer_id,
            final(self).bounds == old(self).bounds,
            final(self).seed_dial_peers == old(self).seed_dial_peers,
            final(self).max_connections == old(self).max_connections,
            final(self).connects == old(self).connects,
            final(self).disconnects == next_count(old(self).disconnects),
    {
        self.disconnects = self.disconnects.wrapping_add(1);
        self.peers.remove(pid);
    }

    /// Note what a peer was last seen to have and to do.
    pub fn observe(&mut self, pid: u64, gauges: PeerGauges)
        requires
            old(self).wf(),
        ensures
            final(self).wf(),
            final(self).same_policy(old(self)),
            final(self).connected_out == old(self).connected_out,
            final(self).cooldown == old(self).cooldown,
            final(self).cancelled == old(self).cancelled,
            final(self).next_peer_id == old(self).next_peer_id,
            final(self).peers@ == if old(self).peers@.dom().contains(pid) {
                old(self).peers@.insert(pid, LivePeer { gauges, ..old(self).peers@[pid] })
            } else {
                old(self).peers@
            },
            final(self).peers.order() == old(self).peers.order(),
    {
        let mut p: LivePeer = match self.peers.get(pid) {
            Some(p) => *p,
            None => {
                return ;
            },
        };
        p.gauges = gauges;
        self.peers.insert(pid, p);
    }

    /// A torrent is started. Says whether sessions of an earlier run are to be cancelled.
    pub fn start_torrent(&mut self, id: i64) -> (again: bool)
        requires
            old(self).wf(),
        ensures
            final(self).wf(),
            again == old(self).cancelled@.dom().contains(id),
            final(self).cancelled@ == old(self).cancelled@.insert(id, false),
            final(self).running(id),
            final(self).same_policy(old(self)),
            final(self).peers == old(self).peers,
            final(self).connected_out == old(self).connected_out,
            final(self).cooldown == old(self).cooldown,
            final(self).next_peer_id == old(self).next_peer_id,
    {
        let again = self.cancelled.contains_key(&id);
        self.cancelled.insert(id, false);
        again
    }

    /// A torrent that is to run becomes active.
    pub fn activate_torrent(&mut self, id: i64)
        requires
            old(self).wf(),
        ensures
            final(self).wf(),
            final(self).cancelled@ == if old(self).cancelled@.dom().contains(id) {
                old(self).cancelled@
            } else {
                old(self).cancelled@.insert(id, false)
            },
            final(self).same_policy(old(self)),
            final(self).peers == old(self).peers,
            final(self).connected_out == old(self).connected_out,
            final(self).cooldown == old(self).cooldown,
            final(self).next_peer_id == old(self).next_peer_id,
    {
        if !self.cancelled.contains_key(&id) {
            self.cancelled.insert(id, false);
        }
    }

    /// A torrent is stopped: its peers and connections are forgotten, and no new ones begin.
    /// Returns the peers whose sessions are to end.
    pub fn stop_torrent(&mut self, id: i64) -> (gone: Vec<u64>)
        requires
            old(self).wf(),
        ensures
            final(self).wf(),
            !final(self).running(id),
            final(self).cancelled@ == old(self).cancelled@.remove(id),
            forall|pid: u64| #[trigger]
                gone@.contains(pid) == (old(self).peers@.dom().contains(pid) && old(
                    self,
                ).peers@[pid].torrent_id == id),
            forall|pid: u64| #[trigger]
                final(self).peers@.dom().contains(pid) == (old(self).peers@.dom().contains(pid)
                    && old(self).peers@[pid].torrent_id != id),
            forall|pid: u64|
                final(self).peers@.dom().contains(pid) ==> #[trigger] final(self).peers@[pid]
                    == old(self).peers@[pid],
            forall|k: PeerKey| #[trigger]
                final(self).connected_out@.dom().contains(k) == (
                old(self).connected_out@.dom().contains(k) && k.torrent_id != id),
            final(self).same_policy(old(self)),
            final(self).cooldown == old(self).cooldown,
            final(self).next_peer_id == old(self).next_peer_id,
    {
        self.cancelled.remove(&id);
        let mut gone: Vec<u64> = Vec::new();
        let len: usize = self.peers.len();
        let ghost ids = self.peers.order();
        let ghost m = self.peers@;
        proof {
            self.peers.order_is_domain();
        }
        let mut i: usize = 0;
        while i < len
            invariant
                i <= len,
                len == ids.len(),
                self.peers.wf(),
                self.peers == old(self).peers,
                ids == self.peers.order(),
                m == self.peers@,
                forall|j: int|
                    0 <= j < gone@.len() ==> m.dom().contains(#[trigger] gone@[j])
                        && m[gone@[j]].torrent_id == id,
                forall|j: int|
                    0 <= j < i && m[#[trigger] ids[j]].torrent_id == id ==> gone@.contains(ids[j]),
                self.wf(),
                self.cancelled@ == old(self).cancelled@.remove(id),
                self.same_policy(old(self)),
                self.cooldown == old(self).cooldown,
                self.connected_out == old(self).connected_out,
                self.next_peer_id == old(self).next_peer_id,
            decreases len - i,
        {
            let ghost before = gone@;
            if self.peers.value(i).torrent_id == id {
                let pid: u64 = self.peers.key_at(i);
                gone.push(pid);
                assert(gone@[before.len() as int] == pid);
            }
            proof {
                assert forall|j: int| 0 <= j < i + 1 && m[#[trigger] ids[j]].torrent_id
                    == id implies gone@.contains(ids[j]) by {
                    if j < i {
                        let k = before.index_of(ids[j]);
                        assert(gone@[k] == ids[j]);
                    }
                }
            }
            i += 1;
        }
        assert forall|pid: u64| #[trigger] gone@.contains(pid) == (m.dom().contains(pid)
            && m[pid].torrent_id == id) by {
            if gone@.contains(pid) {
                let j = gone@.index_of(pid);
                assert(gone@[j] == pid);
            }
            if m.dom().contains(pid) && m[pid].torrent_id == id {
                assert(ids.contains(pid));
                let j = ids.index_of(pid);
                assert(ids[j] == pid);
            }
        }
        let mut k: usize = 0;
        while k < gone.len()
            invariant
                k <= gone@.len(),
                self.wf(),
                forall|pid: u64| #[trigger]
                    self.peers@.dom().contains(pid) == (m.dom().contains(pid) && !gone@.subrange(
                        0,
                        k as int,
                    ).contains(pid)),
                forall|pid: u64|
                    self.peers@.dom().contains(pid) ==> #[trigger] self.peers@[pid] == m[pid],
                self.cancelled@ == old(self).cancelled@.remove(id),
                self.same_policy(old(self)),
                self.cooldown == old(self).cooldown,
                self.connected_out == old(self).connected_out,
                self.next_peer_id == old(self).next_peer_id,
            decreases gone@.len() - k,
        {
            let pid: u64 = gone[k];
            self.peers.remove(pid);
            proof {
                let a = gone@.subrange(0, k as int);
                let b = gone@.subrange(0, k + 1);
                assert(b =~= a.push(pid));
                assert forall|x: u64| b.contains(x) == (a.contains(x) || x == pid) by {
                    if a.contains(x) {
                        let j = a.index_of(x);
                        assert(b[j] == x);
                    }
                    if x == pid {
                        assert(b[k as int] == x);
                    }
                    if b.contains(x) && x != pid {
                        let j = b.index_of(x);
                        assert(a[j] == x);
                    }
                }
            }
            k += 1;
        }
        assert(gone@.subrange(0, k as int) =~= gone@);
        self.forget_connections(id);
        gone
    }

    /// Forget the connections of a torrent.
    fn forget_connections(&mut self, id: i64)
        requires
            old(self).wf(),
        ensures
            final(self).wf(),
            forall|k: PeerKey| #[trigger]
                final(self).connected_out@.dom().contains(k) == (
                old(self).connected_out@.dom().contains(k) && k.torrent_id != id),
            final(self).same_policy(old(self)),
            final(self).peers == old(self).peers,
            final(self).cancelled == old(self).cancelled,
            final(self).cooldown == old(self).cooldown,
            final(self).next_peer_id == old(self).next_peer_id,
    {
        let mut kept: Table<PeerKey, bool> = Table::new();
        let len: usize = self.connected_out.len();
        let ghost ks = self.connected_out.order();
        proof {
            self.connected_out.order_is_domain();
        }
        let mut i: usize = 0;
        while i < len
            invariant
                i <= len,
                len == ks.len(),
                ks == self.connected_out.order(),
                self.wf(),
                *self == *old(self),
                kept.wf(),
                forall|k: PeerKey| #[trigger]
                    kept@.dom().contains(k) == (k.torrent_id != id && ks.subrange(
                        0,
                        i as int,
                    ).contains(k)),
            decreases len - i,
        {
            let key: PeerKey = self.connected_out.key_at(i);
            proof {
                let a = ks.subrange(0, i as int);
                let b = ks.subrange(0, i + 1);
                assert forall|x: PeerKey| b.contains(x) == (a.contains(x) || x == key) by {
                    if a.contains(x) {
                        let j = a.index_of(x);
                        assert(b[j] == x);
                    }
                    if x == key {
                        assert(b[i as int] == x);
                    }
                    if b.contains(x) && x != key {
                        let j = b.index_of(x);
                        assert(a[j] == x);
                    }
                }
            }
            if key.torrent_id != id {
                kept.insert(key, true);
            }
            i += 1;
        }
        assert(ks.subrange(0, i as int) =~= ks);
        self.connected_out = kept;
    }
}

/// A counter one further, which starts over at its end.
pub open spec fn next_count(n: u64) -> u64 {
    if n == u64::MAX {
        0
    } else {
        (n + 1) as u64
    }
}

/// A torrent never gets more peers than it may have by dialing.
pub proof fn dialing_stays_below_the_maximum(b: &PeerBook, torrent_id: i64, p: LivePeer, id: i64)
    requires
        b.wf(),
        b.count(torrent_id) < b.bounds.max_peers,
        p.torrent_id == torrent_id,
    ensures
        ({
            let pid = b.next_peer_id;
            let after = peers_of(b.peers@.insert(pid, p), b.peers.order().push(pid), id);
            &&& after == b.count(id) + if id == torrent_id {
                1int
            } else {
                0
            }
            &&& id == torrent_id ==> after <= b.bounds.max_peers
        }),
{
    let pid = b.next_peer_id;
    let ids = b.peers.order();
    b.peers.order_is_domain();
    assert(ids.push(pid).drop_last() =~= ids);
    assert forall|i: int| 0 <= i < ids.len() implies b.peers@.insert(pid, p)[#[trigger] ids[i]]
        == b.peers@[ids[i]] by {
        assert(ids.contains(ids[i]));
    }
    peers_of_frame(b.peers@.insert(pid, p), b.peers@, ids, id);
}

/// An address that is being dialed is not dialed again for the same torrent.
pub proof fn no_address_is_dialed_twice(
    b: &PeerBook,
    after: &PeerBook,
    torrent_id: i64,
    addr: PeerAddr,
    now: u64,
)
    requires
        after.connected_out@ == b.connected_out@.insert(PeerKey { torrent_id, addr }, true),
    ensures
        !after.dialable(torrent_id, addr, now),
{
}

/// While we need pieces, a peer helps exactly where it has some and does not choke us; once we
/// need none, exactly where it lacks some and wants ours.
pub proof fn peers_help_by_serving_or_taking(p: LivePeer)
    ensures
        p.useful(true) ==> !p.gauges.peer_choking && p.gauges.peer_have > 0,
        p.gauges.peer_choking ==> !p.useful(true),
        !p.gauges.peer_choking && p.gauges.peer_have > 0 && p.gauges.piece_count > 0 ==> p.useful(
            true,
        ),
        p.useful(false) ==> p.gauges.peer_interested && 0 < p.gauges.peer_have
            < p.gauges.piece_count,
        p.gauges.peer_interested && 0 < p.gauges.peer_have < p.gauges.piece_count ==> p.useful(
            false,
        ),
        p.gauges.piece_count == 0 ==> !p.useful(true) && !p.useful(false),
{
}

/// Every peer is counted for its torrent, and those that help are counted as such.
pub proof fn each_peer_is_counted_once(
    m: Peers,
    ids: Seq<u64>,
    id: u64,
    torrent_id: i64,
    need: bool,
)
    ensures
        peers_of(m, Seq::<u64>::empty(), torrent_id) == 0,
        useful_of(m, Seq::<u64>::empty(), torrent_id, need) == 0,
        peers_of(m, ids.push(id), torrent_id) == peers_of(m, ids, torrent_id) + (if m[id].torrent_id
            == torrent_id {
            1int
        } else {
            0
        }),
        m[id].torrent_id == torrent_id && m[id].useful(need) ==> useful_of(
            m,
            ids.push(id),
            torrent_id,
            need,
        ) == useful_of(m, ids, torrent_id, need) + 1,
        m[id].torrent_id != torrent_id || !m[id].useful(need) ==> useful_of(
            m,
            ids.push(id),
            torrent_id,
            need,
        ) == useful_of(m, ids, torrent_id, need),
{
    assert(ids.push(id).drop_last() =~= ids);
}

proof fn nobody_helps(m: Peers, ids: Seq<u64>, torrent_id: i64, need: bool)
    requires
        forall|i: int|
            0 <= i < ids.len() && m[#[trigger] ids[i]].torrent_id == torrent_id
                ==> !m[ids[i]].useful(need),
    ensures
        useful_of(m, ids, torrent_id, need) == 0,
    decreases ids.len(),
{
    if ids.len() > 0 {
        assert(ids.last() == ids[ids.len() - 1]);
        assert forall|i: int|
            0 <= i < ids.drop_last().len() && m[#[trigger] ids.drop_last()[i]].torrent_id
                == torrent_id implies !m[ids.drop_last()[i]].useful(need) by {
            assert(ids.drop_last()[i] == ids[i]);
        }
        nobody_helps(m, ids.drop_last(), torrent_id, need);
    }
}

/// While every peer of an incomplete torrent chokes us, none of them counts as a help, and more
/// are dialed wherever one may be added.
pub proof fn choking_peers_do_not_stop_the_search(b: &PeerBook, torrent_id: i64)
    requires
        b.wf(),
        forall|id: u64| #[trigger]
            b.peers@.dom().contains(id) && b.peers@[id].torrent_id == torrent_id
                ==> b.peers@[id].gauges.peer_choking,
    ensures
        b.useful(torrent_id, true) == 0,
        b.count(torrent_id) < b.bounds.max_peers ==> b.refill(torrent_id, true),
{
    let ids = b.peers.order();
    b.peers.order_is_domain();
    assert forall|i: int|
        0 <= i < ids.len() && b.peers@[#[trigger] ids[i]].torrent_id
            == torrent_id implies !b.peers@[ids[i]].useful(true) by {
        assert(ids.contains(ids[i]));
    }
    nobody_helps(b.peers@, ids, torrent_id, true);
}

/// Peers are dialed for a torrent exactly while too few help, there is room for one more, and
/// the torrent needs pieces or complete torrents are dialed for too.
pub proof fn peers_are_refilled_while_too_few_help(b: &PeerBook, id: i64, we_need: bool)
    requires
        b.wf(),
    ensures
        b.refill(id, we_need) ==> b.useful(id, we_need) < b.bounds.min_peers && b.count(id)
            < b.bounds.max_peers && (we_need || b.seed_dial_peers),
        b.useful(id, we_need) < b.bounds.min_peers && b.count(id) < b.bounds.max_peers && (we_need
            || b.seed_dial_peers) ==> b.refill(id, we_need),
        b.count(id) <= b.bounds.max_peers ==> b.count(id) + b.slots(id) == b.bounds.max_peers,
        b.count(id) > b.bounds.max_peers ==> b.slots(id) == 0,
{
}

/// An address is dialed only where no peer of the torrent is there and it is not being left
/// alone.
pub proof fn known_addresses_are_not_dialed(
    b: &PeerBook,
    torrent_id: i64,
    addr: PeerAddr,
    now: u64,
    id: u64,
)
    ensures
        b.peers@.dom().contains(id) && b.peers@[id].torrent_id == torrent_id && b.peers@[id].addr
            == addr ==> !b.dialable(torrent_id, addr, now),
        b.peers@.dom().contains(id) && b.peers@[id].torrent_id == torrent_id
            && b.peers@[id].listen_port is Some && b.peers@[id].addr.spec_with_port(
            b.peers@[id].listen_port->0,
        ) == addr ==> !b.dialable(torrent_id, addr, now),
        cooling(b.cooldown@, PeerKey { torrent_id, addr }, now) ==> !b.dialable(
            torrent_id,
            addr,
            now,
        ),
        b.peers@.dom().is_empty() && !b.connected_out@.dom().contains(PeerKey { torrent_id, addr })
            && !cooling(b.cooldown@, PeerKey { torrent_id, addr }, now) ==> b.dialable(
            torrent_id,
            addr,
            now,
        ),
{
}

/// Of a list exactly the addresses are dialed that may be, in their order.
pub proof fn only_dialable_addresses_are_dialed(
    b: &PeerBook,
    id: i64,
    list: Seq<PeerAddr>,
    n: int,
    now: u64,
    i: int,
)
    requires
        0 <= i < n <= list.len(),
    ensures
        b.dialable(id, list[i], now) <==> b.kept(id, list, n, now).contains(list[i]),
        forall|k: int|
            0 <= k < b.kept(id, list, n, now).len() ==> b.dialable(
                id,
                #[trigger] b.kept(id, list, n, now)[k],
                now,
            ),
    decreases n,
{
    let before = b.kept(id, list, n - 1, now);
    let after = b.kept(id, list, n, now);
    if n > 1 {
        only_dialable_addresses_are_dialed(
            b,
            id,
            list,
            n - 1,
            now,
            if i < n - 1 {
                i
            } else {
                0
            },
        );
    } else {
        assert(before =~= Seq::<PeerAddr>::empty());
    }
    assert forall|k: int| 0 <= k < after.len() implies b.dialable(
        id,
        #[trigger] after[k],
        now,
    ) by {
        if k < before.len() {
            assert(after[k] == before[k]);
        }
    }
    if b.dialable(id, list[i], now) {
        if i == n - 1 {
            assert(after[before.len() as int] == list[i]);
        } else {
            let k = choose|k: int| 0 <= k < before.len() && before[k] == list[i];
            assert(after[k] == list[i]);
        }
    }
}

/// After a session that failed, broke off within five seconds or came to nothing, its address
/// is left alone for half a minute at least; after one of half a minute it may be dialed at
/// once. Other addresses are not touched.
pub proof fn sessions_decide_when_to_dial_again(
    m: Dials,
    key: PeerKey,
    other: PeerKey,
    end: SessionEnd,
    lived: int,
    now: u64,
    t: u64,
)
    requires
        now <= TIME_MAX,
        other != key,
    ensures
        ({
            let after = after_session(m, key, end, lived, now);
            let fails = dial_data(m, key, now).fails;
            &&& end is Closed && lived >= 30_000_000_000 ==> !cooling(after, key, t)
            &&& !(end is Closed && lived >= 30_000_000_000) && t < now + 30_000_000_000 ==> cooling(
                after,
                key,
                t,
            )
            &&& end is Failed || end is Closed && lived < 5_000_000_000 ==> dial_data(
                after,
                key,
                now,
            ).fails == if fails == u32::MAX {
                fails as int
            } else {
                fails + 1
            }
            &&& end is Idle || end is Closed && 5_000_000_000 <= lived < 30_000_000_000
                ==> dial_data(after, key, now).fails == fails
            &&& cooling(after, other, t) == cooling(m, other, t)
        }),
{
    let d = dial_data(m, key, now);
    waits_are_half_a_minute_at_least(d, now);
}

proof fn waits_are_half_a_minute_at_least(d: DialData, now: u64)
    requires
        now <= TIME_MAX,
    ensures
        failed_once_more(d, now).next_ok >= now + 30_000_000_000,
        d.fails < u32::MAX ==> failed_once_more(d, now).fails == d.fails + 1,
        d.fails == u32::MAX ==> failed_once_more(d, now).fails == u32::MAX,
{
    let n = failed_once_more(d, now).fails as int;
    backoff_is_bounded(n);
}

/// There is room for another connection exactly while fewer are open than may be.
pub proof fn connections_stay_within_the_most(b: &PeerBook)
    ensures
        b.max_connections > 0 ==> (b.has_room() <==> b.peers.order().len() < b.max_connections),
        b.max_connections == 0 ==> (b.has_room() <==> b.peers.order().len() == 0),
{
}

/// A peer of which nothing is known chokes us, wants nothing and has nothing, and nothing was
/// exchanged with it.
pub proof fn nothing_is_known_at_first(am_interested: bool, piece_count: u32)
    ensures
        ({
            let g = PeerGauges::spec_at_start(am_interested, piece_count);
            &&& g.peer_choking && !g.peer_interested && g.peer_have == 0
            &&& g.up == 0 && g.down == 0 && g.queue_outstanding == 0 && g.upload_pending == 0
            &&& g.am_interested == am_interested && g.piece_count == piece_count
            &&& g.crypto == PeerCrypto::Unknown
        }),
{
}

/// A peer is reached where it is connected from, and at the port it listens on.
pub proof fn peers_are_reached_where_they_listen(p: LivePeer, a: PeerAddr)
    ensures
        p.listens_at(p.addr),
        p.listen_port matches Some(n) ==> p.listens_at(p.addr.spec_with_port(n)),
        p.listens_at(a) && a != p.addr ==> (p.listen_port matches Some(n) && a
            == p.addr.spec_with_port(n)),
{
}

/// An address is known while it is being connected to, or a peer of the torrent is reached
/// there.
pub proof fn addresses_are_known_by_torrent(b: &PeerBook, torrent_id: i64, a: PeerAddr, id: u64)
    ensures
        b.connected_out@.dom().contains(PeerKey { torrent_id, addr: a }) ==> b.knows(torrent_id, a),
        b.peers@.dom().contains(id) && b.peers@[id].torrent_id == torrent_id
            && b.peers@[id].listens_at(a) ==> b.knows(torrent_id, a),
        b.peers@.dom().is_empty() && !b.connected_out@.dom().contains(
            PeerKey { torrent_id, addr: a },
        ) ==> !b.knows(torrent_id, a),
{
}

/// A dialed peer is one of its torrent, at its address, where it listens too, since now.
pub proof fn dialed_peers_are_noted(torrent_id: i64, piece_count: u32, addr: PeerAddr, now: u64)
    ensures
        ({
            let p = PeerBook::outbound_peer(torrent_id, piece_count, addr, now);
            &&& p.torrent_id == torrent_id && p.addr == addr && p.connected_at == now
            &&& p.direction == PeerDirection::Outbound
            &&& p.listens_at(addr) && p.listen_port == Some(addr.spec_port())
            &&& p.gauges.piece_count == piece_count && p.gauges.am_interested
            &&& !p.useful(true) && !p.useful(false)
        }),
{
}

/// The limits of a book and what was counted stay as they are.
pub proof fn policies_are_kept(a: &PeerBook, b: &PeerBook)
    requires
        a.same_policy(b),
    ensures
        a.bounds == b.bounds && a.seed_dial_peers == b.seed_dial_peers && a.max_connections
            == b.max_connections && a.connects == b.connects && a.disconnects == b.disconnects,
{
}

/// A counter goes up by one, and starts over behind its end.
pub proof fn counters_go_up_by_one(n: u64)
    ensures
        n < u64::MAX ==> next_count(n) == n + 1,
        next_count(u64::MAX) == 0,
{
}

} // verus!
