//! What is shown of torrents and peers.
//!
//! Times are in nanoseconds.
use crate::bitfield::count_bits;
use crate::hex::{hex_encode, hex_text};
use crate::hot::HotTorrent;
use crate::net::PeerAddr;
use crate::rate::NANOS_PER_SEC;
use crate::runtime::disk_worker::DISK_WORKER_DEAD_STATUS;
use crate::session::announce::{AnnounceBaseline, TorrentAnnounce};
use crate::session::peer_policy::{LivePeer, PeerBook};
use crate::session::rates::{
    above, noted, update_rate, update_rate_of, RateBook, RateSample, RateView, Rates,
};
use crate::staging::piece_pool::PieceBufferPool;
use std::collections::HashMap;
use vstd::prelude::*;

verus! {

broadcast use vstd::std_specs::hash::group_hash_axioms;

/// Who opened a connection.
#[derive(Debug, Clone, Copy, PartialEq, Eq, Structural)]
pub enum PeerDirection {
    Inbound,
    Outbound,
}

/// Encryption of a connection.
#[derive(Debug, Clone, Copy, PartialEq, Eq, Structural)]
pub enum PeerCrypto {
    /// The handshake is not finished.
    Unknown,
    /// No encryption layer.
    Plain,
    /// An encrypted handshake that agreed on plain text.
    PePlain,
    /// An encrypted handshake and an RC4 stream.
    Rc4,
}

impl Default for PeerCrypto {
    fn default() -> (r: Self)
        ensures
            r == PeerCrypto::Unknown,
    {
        PeerCrypto::Unknown
    }
}

impl PeerCrypto {
    /// The number that stands for it.
    pub open spec fn code(self) -> u8 {
        match self {
            PeerCrypto::Unknown => 0,
            PeerCrypto::Plain => 1,
            PeerCrypto::PePlain => 2,
            PeerCrypto::Rc4 => 3,
        }
    }

    /// The encryption that a number stands for.
    pub fn from_u8(v: u8) -> (r: Self)
        ensures
            v <= 3 ==> r.code() == v,
            v > 3 ==> r == PeerCrypto::Unknown,
    {
        if v == 1 {
            PeerCrypto::Plain
        } else if v == 2 {
            PeerCrypto::PePlain
        } else if v == 3 {
            PeerCrypto::Rc4
        } else {
            PeerCrypto::Unknown
        }
    }

    /// The number that stands for it.
    pub fn to_u8(self) -> (v: u8)
        ensures
            v == self.code(),
    {
        match self {
            PeerCrypto::Unknown => 0,
            PeerCrypto::Plain => 1,
            PeerCrypto::PePlain => 2,
            PeerCrypto::Rc4 => 3,
        }
    }

    /// Short label.
    pub fn as_str(self) -> (r: &'static str)
        ensures
            r@ == match self {
                PeerCrypto::Unknown => "\u{2014}"@,
                PeerCrypto::Plain => "plain"@,
                PeerCrypto::PePlain => "pe"@,
                PeerCrypto::Rc4 => "rc4"@,
            },
    {
        match self {
            PeerCrypto::Unknown => "\u{2014}",
            PeerCrypto::Plain => "plain",
            PeerCrypto::PePlain => "pe",
            PeerCrypto::Rc4 => "rc4",
        }
    }

    /// One-character tag.
    pub fn wire_tag(self) -> (r: char)
        ensures
            r == match self {
                PeerCrypto::Unknown => '?',
                PeerCrypto::Plain => '-',
                PeerCrypto::PePlain => 'p',
                PeerCrypto::Rc4 => '4',
            },
    {
        match self {
            PeerCrypto::Unknown => '?',
            PeerCrypto::Plain => '-',
            PeerCrypto::PePlain => 'p',
            PeerCrypto::Rc4 => '4',
        }
    }

    /// A stored number gives the encryption back.
    pub proof fn code_reads_back(self, other: PeerCrypto)
        ensures
            self.code() <= 3,
            self.code() == other.code() ==> self == other,
    {
    }
}

/// What is shown of a peer.
#[derive(Debug)]
pub struct PeerInfo {
    pub id: u64,
    pub torrent_id: i64,
    pub torrent_name: String,
    pub addr: PeerAddr,
    pub direction: PeerDirection,
    pub uploaded: u64,
    pub downloaded: u64,
    pub upload_bps: u64,
    pub download_bps: u64,
    pub connected_secs: u64,
    /// Blocks that we are waiting for.
    pub queue_outstanding: u64,
    /// Blocks that we want to be waiting for.
    pub queue_target: u64,
    /// The peer wants our pieces.
    pub peer_interested: bool,
    /// The peer does not serve us.
    pub peer_choking: bool,
    /// We want the peer's pieces.
    pub am_interested: bool,
    /// Blocks that the peer waits for.
    pub upload_pending: u64,
    /// Pieces that the peer has.
    pub peer_have: u32,
    /// Pieces of the torrent, zero where it is not known yet.
    pub piece_count: u32,
    pub crypto: PeerCrypto,
    /// Name of the peer's client, empty where it is not known yet.
    pub client: String,
}

/// Publish what a handshake agreed on, where the session keeps a slot for it.
pub fn set_peer_crypto(slot: &mut Option<PeerCrypto>, crypto: PeerCrypto)
    ensures
        *final(slot) == match *old(slot) {
            Some(_) => Some(crypto),
            None => None,
        },
{
    if slot.is_some() {
        *slot = Some(crypto);
    }
}

/// What is known of a peer besides the session's own record.
#[derive(Debug)]
pub struct PeerRow {
    pub torrent_name: String,
    pub client: String,
}

/// What is shown of a peer.
pub open spec fn shows_peer(
    i: PeerInfo,
    id: u64,
    p: LivePeer,
    row: PeerRow,
    rates: Rates,
    now: u64,
) -> bool {
    &&& i.id == id
    &&& i.torrent_id == p.torrent_id
    &&& i.torrent_name == row.torrent_name
    &&& i.addr == p.addr
    &&& i.direction == p.direction
    &&& i.uploaded == p.gauges.up
    &&& i.downloaded == p.gauges.down
    &&& i.upload_bps == rates.up_bps
    &&& i.download_bps == rates.down_bps
    &&& i.connected_secs == above(now, p.connected_at) / NANOS_PER_SEC
    &&& i.queue_outstanding == p.gauges.queue_outstanding
    &&& i.queue_target == p.gauges.queue_target
    &&& i.peer_interested == p.gauges.peer_interested
    &&& i.peer_choking == p.gauges.peer_choking
    &&& i.am_interested == p.gauges.am_interested
    &&& i.upload_pending == p.gauges.upload_pending
    &&& i.peer_have == p.gauges.peer_have
    &&& i.piece_count == p.gauges.piece_count
    &&& i.crypto == p.gauges.crypto
    &&& i.client == row.client
}

/// What is shown of a peer.
pub fn peer_info(id: u64, p: &LivePeer, row: PeerRow, rates: Rates, now: u64) -> (i: PeerInfo)
    ensures
        shows_peer(i, id, *p, row, rates, now),
{
    let age: u64 = if now > p.connected_at {
        now - p.connected_at
    } else {
        0
    };
    PeerInfo {
        id,
        torrent_id: p.torrent_id,
        torrent_name: row.torrent_name,
        addr: p.addr,
        direction: p.direction,
        uploaded: p.gauges.up,
        downloaded: p.gauges.down,
        upload_bps: rates.up_bps,
        download_bps: rates.down_bps,
        connected_secs: age / NANOS_PER_SEC,
        queue_outstanding: p.gauges.queue_outstanding,
        queue_target: p.gauges.queue_target,
        peer_interested: p.gauges.peer_interested,
        peer_choking: p.gauges.peer_choking,
        am_interested: p.gauges.am_interested,
        upload_pending: p.gauges.upload_pending,
        peer_have: p.gauges.peer_have,
        piece_count: p.gauges.piece_count,
        crypto: p.gauges.crypto,
        client: row.client,
    }
}

/// What is shown of a torrent.
#[derive(Debug)]
pub struct TorrentLive {
    pub id: i64,
    pub name: String,
    /// No wanted piece is missing.
    pub complete: bool,
    pub have_count: u32,
    pub piece_count: u32,
    /// Bytes that are missing.
    pub left: u64,
    pub peer_count: usize,
    /// Bytes sent since the start.
    pub session_uploaded: u64,
    /// Bytes sent since the torrent was added.
    pub lifetime_uploaded: u64,
    /// Bytes of pieces that were completed since the start.
    pub session_downloaded: u64,
    /// Bytes of the pieces that are had.
    pub completed_bytes: u64,
    pub upload_bps: u64,
    pub download_bps: u64,
    /// Seconds until the next announce.
    pub announce_in_secs: Option<u32>,
    pub announce_interval_secs: Option<u32>,
    /// An announce is running.
    pub announce_in_flight: bool,
    pub seeders: Option<u32>,
    pub leechers: Option<u32>,
    /// Piece buffers in use.
    pub staging_used: Option<u32>,
    /// Piece buffers that there may be.
    pub staging_cap: Option<u32>,
    /// Bytes of piece buffers that there may be.
    pub staging_limit_bytes: Option<u64>,
    /// Pieces that are being fetched.
    pub staging_claims: u32,
}

/// What is known of an active torrent.
#[derive(Debug)]
pub struct TorrentRow {
    pub id: i64,
    pub name: String,
    pub complete: bool,
    pub have_count: u32,
    pub piece_count: u32,
    pub left: u64,
    pub lifetime_uploaded: u64,
    pub completed_bytes: u64,
    pub baseline: AnnounceBaseline,
    pub announce: Option<TorrentAnnounce>,
    pub swarm: (Option<u32>, Option<u32>),
    /// Piece buffers in use, piece buffers there may be, and bytes of these.
    pub staging: Option<(u32, u32, u64)>,
    pub staging_claims: u32,
}

/// What is known of a running torrent. `pool` holds its piece buffers.
pub fn torrent_row(
    t: &HotTorrent,
    pool: Option<&PieceBufferPool>,
    lifetime_uploaded: u64,
    baseline: AnnounceBaseline,
    announce: Option<TorrentAnnounce>,
    swarm: (Option<u32>, Option<u32>),
) -> (row: TorrentRow)
    requires
        t.wf(),
        pool matches Some(p) ==> p.wf(),
    ensures
        row.id == t.id,
        row.name@ == t.name@,
        // Pieces that are not wanted need not be there.
        row.complete == t.complete(),
        row.have_count == count_bits(t.bits(), t.piece_count as int),
        row.piece_count == t.piece_count,
        row.left == t.size() - t.bytes_had(t.piece_count as int),
        row.lifetime_uploaded == lifetime_uploaded,
        row.completed_bytes == t.bytes_had(t.piece_count as int),
        row.baseline == baseline,
        row.announce == announce,
        row.swarm == swarm,
        match pool {
            Some(p) => row.staging matches Some(s) && s.0 == p.outstanding() && s.1
                == p.spec_capacity() && s.2 == p.spec_limit_bytes(),
            None => row.staging is None,
        },
        row.staging_claims == t.claims_among(t.piece_count as int),
{
    let staging: Option<(u32, u32, u64)> = match pool {
        Some(p) => {
            let used: usize = p.capacity() - p.available();
            Some((used as u32, p.capacity() as u32, p.limit_bytes()))
        },
        None => None,
    };
    TorrentRow {
        id: t.id,
        name: t.name.clone(),
        complete: t.is_download_complete(),
        have_count: t.have_count(),
        piece_count: t.piece_count,
        left: t.left_bytes(),
        lifetime_uploaded,
        completed_bytes: t.completed_bytes(),
        baseline,
        announce,
        swarm,
        staging,
        staging_claims: t.in_flight_count(),
    }
}

/// What is shown of a torrent with this many peers and these rates.
pub open spec fn shows_torrent(
    t: TorrentLive,
    row: TorrentRow,
    peers: nat,
    rates: Rates,
    now: u64,
) -> bool {
    let since = row.baseline.spec_since(row.lifetime_uploaded, row.completed_bytes);
    &&& t.id == row.id
    &&& t.name == row.name
    &&& t.complete == row.complete
    &&& t.have_count == row.have_count
    &&& t.piece_count == row.piece_count
    &&& t.left == row.left
    &&& t.peer_count == peers
    &&& t.session_uploaded == since.0
    &&& t.lifetime_uploaded == row.lifetime_uploaded
    &&& t.session_downloaded == since.1
    &&& t.completed_bytes == row.completed_bytes
    &&& t.upload_bps == rates.up_bps
    &&& t.download_bps == rates.down_bps
    &&& t.announce_in_secs == match row.announce {
        Some(a) => Some(a.spec_due_in_secs(now)),
        None => None,
    }
    &&& t.announce_interval_secs == match row.announce {
        Some(a) => Some(a.interval_secs),
        None => None,
    }
    &&& t.announce_in_flight == (row.announce is Some && row.announce->0.in_flight)
    &&& (t.seeders, t.leechers) == row.swarm
    &&& t.staging_used == match row.staging {
        Some(s) => Some(s.0),
        None => None,
    }
    &&& t.staging_cap == match row.staging {
        Some(s) => Some(s.1),
        None => None,
    }
    &&& t.staging_limit_bytes == match row.staging {
        Some(s) => Some(s.2),
        None => None,
    }
    &&& t.staging_claims == row.staging_claims
}

/// What is shown of a torrent with this many peers and these rates.
pub fn torrent_live(row: TorrentRow, peer_count: usize, rates: Rates, now: u64) -> (t: TorrentLive)
    ensures
        shows_torrent(t, row, peer_count as nat, rates, now),
{
    let (session_uploaded, session_downloaded) = row.baseline.since(
        row.lifetime_uploaded,
        row.completed_bytes,
    );
    let (announce_in_secs, announce_interval_secs, announce_in_flight) = match row.announce {
        Some(a) => (Some(a.due_in_secs(now)), Some(a.interval_secs), a.in_flight),
        None => (None, None, false),
    };
    let (staging_used, staging_cap, staging_limit_bytes) = match row.staging {
        Some(s) => (Some(s.0), Some(s.1), Some(s.2)),
        None => (None, None, None),
    };
    TorrentLive {
        id: row.id,
        name: row.name,
        complete: row.complete,
        have_count: row.have_count,
        piece_count: row.piece_count,
        left: row.left,
        peer_count,
        session_uploaded,
        lifetime_uploaded: row.lifetime_uploaded,
        session_downloaded,
        completed_bytes: row.completed_bytes,
        upload_bps: rates.up_bps,
        download_bps: rates.down_bps,
        announce_in_secs,
        announce_interval_secs,
        announce_in_flight,
        seeders: row.swarm.0,
        leechers: row.swarm.1,
        staging_used,
        staging_cap,
        staging_limit_bytes,
        staging_claims: row.staging_claims,
    }
}

/// Bytes that came from the peers of a torrent, over the peers `ids`.
pub open spec fn wire_down_of(m: Map<u64, LivePeer>, ids: Seq<u64>, torrent_id: i64) -> nat
    decreases ids.len(),
{
    if ids.len() == 0 {
        0
    } else {
        wire_down_of(m, ids.drop_last(), torrent_id) + if m[ids.last()].torrent_id == torrent_id {
            m[ids.last()].gauges.down as nat
        } else {
            0
        }
    }
}

proof fn wire_down_grows(m: Map<u64, LivePeer>, ids: Seq<u64>, n: int, torrent_id: i64)
    requires
        0 <= n <= ids.len(),
    ensures
        wire_down_of(m, ids.subrange(0, n), torrent_id) <= wire_down_of(m, ids, torrent_id),
    decreases ids.len(),
{
    if n < ids.len() {
        let d = ids.drop_last();
        wire_down_grows(m, d, n, torrent_id);
        assert(d.subrange(0, n) =~= ids.subrange(0, n));
    } else {
        assert(ids.subrange(0, n) =~= ids);
    }
}

/// Bytes that came from the peers of a torrent: what its download rate is taken from.
pub fn wire_down(book: &PeerBook, torrent_id: i64) -> (n: u64)
    requires
        book.wf(),
        wire_down_of(book.peers@, book.peers.order(), torrent_id) <= u64::MAX,
    ensures
        n == wire_down_of(book.peers@, book.peers.order(), torrent_id),
{
    let len: usize = book.peers.len();
    let ghost ids = book.peers.order();
    let ghost m = book.peers@;
    let mut n: u64 = 0;
    let mut i: usize = 0;
    while i < len
        invariant
            i <= len,
            len == ids.len(),
            book.wf(),
            ids == book.peers.order(),
            m == book.peers@,
            wire_down_of(m, ids, torrent_id) <= u64::MAX,
            n == wire_down_of(m, ids.subrange(0, i as int), torrent_id),
        decreases len - i,
    {
        proof {
            let next = ids.subrange(0, i + 1);
            assert(next.drop_last() =~= ids.subrange(0, i as int));
            assert(next.last() == ids[i as int]);
            wire_down_grows(m, ids, i + 1, torrent_id);
        }
        let p = book.peers.value(i);
        if p.torrent_id == torrent_id {
            n = n + p.gauges.down;
        }
        i += 1;
    }
    assert(ids.subrange(0, i as int) =~= ids);
    n
}

/// Peers that are shown with a torrent. Those under zero belong to no torrent yet.
pub open spec fn peers_shown(book: &PeerBook, torrent_id: i64) -> nat {
    if torrent_id == 0 {
        0
    } else {
        book.count(torrent_id)
    }
}

/// Bytes that came from the peers that are shown with a torrent.
pub open spec fn down_shown(book: &PeerBook, torrent_id: i64) -> nat {
    if torrent_id == 0 {
        0
    } else {
        wire_down_of(book.peers@, book.peers.order(), torrent_id)
    }
}

/// Bytes that came from the peers of the first `n` torrents.
pub open spec fn sum_wire(rows: Seq<TorrentRow>, book: &PeerBook, n: int) -> nat
    decreases n,
{
    if n <= 0 {
        0
    } else {
        sum_wire(rows, book, n - 1) + down_shown(book, rows[n - 1].id)
    }
}

proof fn sum_wire_grows(rows: Seq<TorrentRow>, book: &PeerBook, i: int, n: int)
    requires
        i <= n,
    ensures
        sum_wire(rows, book, i) <= sum_wire(rows, book, n),
    decreases n - i,
{
    if i < n {
        sum_wire_grows(rows, book, i, n - 1);
    }
}

/// No torrent comes twice.
pub open spec fn distinct(rows: Seq<TorrentRow>) -> bool {
    forall|i: int, j: int| 0 <= i < j < rows.len() ==> rows[i].id != rows[j].id
}

/// The rates of a torrent, once it is noted what its counters stand at: what was ever sent,
/// and what came from its peers of now.
pub open spec fn torrent_rate(
    samples: Map<i64, RateSample>,
    row: TorrentRow,
    book: &PeerBook,
    nanos: u64,
) -> RateView {
    noted(samples, row.id).next(row.lifetime_uploaded, down_shown(book, row.id) as u64, nanos)
}

/// Note what the counters of the torrents stand at. Gives their rates, and what came from
/// their peers in all.
fn rate_torrents(
    samples: &mut HashMap<i64, RateSample>,
    rows: &Vec<TorrentRow>,
    book: &PeerBook,
    nanos: u64,
) -> (r: (Vec<Rates>, u64))
    requires
        book.wf(),
        distinct(rows@),
        sum_wire(rows@, book, rows@.len() as int) <= u64::MAX,
    ensures
        r.0@.len() == rows@.len(),
        forall|i: int|
            0 <= i < rows@.len() ==> #[trigger] r.0@[i] == torrent_rate(
                old(samples)@,
                rows@[i],
                book,
                nanos,
            ).rates(),
        forall|i: int|
            0 <= i < rows@.len() ==> noted(final(samples)@, (#[trigger] rows@[i]).id)
                == torrent_rate(old(samples)@, rows@[i], book, nanos),
        forall|id: i64|
            (forall|i: int| 0 <= i < rows@.len() ==> (#[trigger] rows@[i]).id != id)
                ==> #[trigger] noted(final(samples)@, id) == noted(old(samples)@, id),
        r.1 == sum_wire(rows@, book, rows@.len() as int),
{
    let ghost first = samples@;
    let mut rates: Vec<Rates> = Vec::new();
    let mut wire: u64 = 0;
    let mut i: usize = 0;
    while i < rows.len()
        invariant
            i <= rows@.len(),
            book.wf(),
            distinct(rows@),
            first == old(samples)@,
            sum_wire(rows@, book, rows@.len() as int) <= u64::MAX,
            wire == sum_wire(rows@, book, i as int),
            rates@.len() == i,
            forall|j: int|
                0 <= j < i ==> #[trigger] rates@[j] == torrent_rate(
                    first,
                    rows@[j],
                    book,
                    nanos,
                ).rates(),
            forall|j: int|
                0 <= j < i ==> noted(samples@, (#[trigger] rows@[j]).id) == torrent_rate(
                    first,
                    rows@[j],
                    book,
                    nanos,
                ),
            forall|id: i64|
                (forall|j: int| 0 <= j < i ==> (#[trigger] rows@[j]).id != id)
                    ==> #[trigger] noted(samples@, id) == noted(first, id),
        decreases rows@.len() - i,
    {
        let id: i64 = rows[i].id;
        proof {
            sum_wire_grows(rows@, book, i + 1, rows@.len() as int);
            assert(noted(samples@, id) == noted(first, id));
        }
        let down: u64 = if id == 0 {
            0
        } else {
            wire_down(book, id)
        };
        let r = update_rate_of(samples, id, rows[i].lifetime_uploaded, down, nanos);
        rates.push(r);
        wire = wire + down;
        i += 1;
    }
    (rates, wire)
}

/// The rates of a peer, once it is noted what its counters stand at.
pub open spec fn peer_rate(
    samples: Map<u64, RateSample>,
    id: u64,
    p: LivePeer,
    nanos: u64,
) -> RateView {
    noted(samples, id).next(p.gauges.up, p.gauges.down, nanos)
}

/// Note what the counters of the peers stand at, and forget those that are gone. Gives their
/// rates.
fn rate_peers(samples: &mut HashMap<u64, RateSample>, book: &PeerBook, nanos: u64) -> (r: Vec<Rates>)
    requires
        book.wf(),
    ensures
        final(samples)@.dom() == book.peers@.dom(),
        r@.len() == book.peers.order().len(),
        forall|i: int|
            0 <= i < r@.len() ==> #[trigger] r@[i] == peer_rate(
                old(samples)@,
                book.peers.order()[i],
                book.peers@[book.peers.order()[i]],
                nanos,
            ).rates(),
        forall|id: u64| #[trigger]
            book.peers@.dom().contains(id) ==> final(samples)@[id]@ == peer_rate(
                old(samples)@,
                id,
                book.peers@[id],
                nanos,
            ),
{
    let ghost first = samples@;
    let ghost ids = book.peers.order();
    let mut kept: HashMap<u64, RateSample> = HashMap::new();
    let mut rates: Vec<Rates> = Vec::new();
    let n: usize = book.peers.len();
    let mut i: usize = 0;
    proof {
        book.peers.order_is_domain();
    }
    while i < n
        invariant
            i <= n,
            n == ids.len(),
            ids == book.peers.order(),
            ids.no_duplicates(),
            book.wf(),
            first == old(samples)@,
            rates@.len() == i,
            forall|j: int| i <= j < n ==> noted(samples@, #[trigger] ids[j]) == noted(first, ids[j]),
            forall|id: u64| #[trigger]
                kept@.dom().contains(id) == ids.subrange(0, i as int).contains(id),
            forall|j: int|
                0 <= j < i ==> kept@.dom().contains(#[trigger] ids[j]) && kept@[ids[j]]@
                    == peer_rate(first, ids[j], book.peers@[ids[j]], nanos),
            forall|j: int|
                0 <= j < i ==> #[trigger] rates@[j] == peer_rate(
                    first,
                    ids[j],
                    book.peers@[ids[j]],
                    nanos,
                ).rates(),
        decreases n - i,
    {
        let id: u64 = book.peers.key_at(i);
        let p = book.peers.value(i);
        let ghost before = kept@;
        let mut s = match samples.remove(&id) {
            Some(s) => s,
            None => RateSample::new(),
        };
        update_rate(&mut s, p.gauges.up, p.gauges.down, nanos);
        rates.push(Rates { up_bps: s.up_bps, down_bps: s.down_bps });
        kept.insert(id, s);
        proof {
            let a = ids.subrange(0, i as int);
            let b = ids.subrange(0, i + 1);
            assert(b =~= a.push(id));
            assert forall|q: u64| #[trigger] kept@.dom().contains(q) == b.contains(q) by {
                assert(before.dom().contains(q) == a.contains(q));
                if a.contains(q) {
                    let k = a.index_of(q);
                    assert(b[k] == q);
                }
                if q == id {
                    assert(b[i as int] == q);
                }
                if b.contains(q) && q != id {
                    let k = b.index_of(q);
                    assert(a[k] == q);
                }
            }
        }
        i += 1;
    }
    proof {
        assert(ids.subrange(0, i as int) =~= ids);
        assert forall|id: u64| #[trigger]
            book.peers@.dom().contains(id) == kept@.dom().contains(id) by {
            assert(ids.contains(id) == book.peers@.dom().contains(id));
        }
        assert(kept@.dom() =~= book.peers@.dom());
        assert forall|id: u64| #[trigger] book.peers@.dom().contains(id) implies kept@[id]@
            == peer_rate(first, id, book.peers@[id], nanos) by {
            let j = ids.index_of(id);
            assert(ids[j] == id);
        }
    }
    *samples = kept;
    rates
}

/// Bytes sent since the start by the first `n` torrents.
pub open spec fn sum_up(rows: Seq<TorrentRow>, n: int) -> nat
    decreases n,
{
    if n <= 0 {
        0
    } else {
        sum_up(rows, n - 1) + rows[n - 1].baseline.spec_since(
            rows[n - 1].lifetime_uploaded,
            rows[n - 1].completed_bytes,
        ).0 as nat
    }
}

/// Bytes completed since the start by the first `n` torrents.
pub open spec fn sum_down(rows: Seq<TorrentRow>, n: int) -> nat
    decreases n,
{
    if n <= 0 {
        0
    } else {
        sum_down(rows, n - 1) + rows[n - 1].baseline.spec_since(
            rows[n - 1].lifetime_uploaded,
            rows[n - 1].completed_bytes,
        ).1 as nat
    }
}

proof fn sums_grow(rows: Seq<TorrentRow>, i: int, n: int)
    requires
        i <= n,
    ensures
        sum_up(rows, i) <= sum_up(rows, n),
        sum_down(rows, i) <= sum_down(rows, n),
    decreases n - i,
{
    if i < n {
        sums_grow(rows, i, n - 1);
    }
}

/// Bytes sent and completed since the start, over all torrents.
pub fn session_totals(rows: &Vec<TorrentRow>) -> (r: (u64, u64))
    requires
        sum_up(rows@, rows@.len() as int) <= u64::MAX,
        sum_down(rows@, rows@.len() as int) <= u64::MAX,
    ensures
        r.0 == sum_up(rows@, rows@.len() as int),
        r.1 == sum_down(rows@, rows@.len() as int),
{
    let mut up: u64 = 0;
    let mut down: u64 = 0;
    let mut i: usize = 0;
    while i < rows.len()
        invariant
            i <= rows@.len(),
            sum_up(rows@, rows@.len() as int) <= u64::MAX,
            sum_down(rows@, rows@.len() as int) <= u64::MAX,
            up == sum_up(rows@, i as int),
            down == sum_down(rows@, i as int),
        decreases rows@.len() - i,
    {
        proof {
            sums_grow(rows@, i + 1, rows@.len() as int);
        }
        let (u, d) = rows[i].baseline.since(rows[i].lifetime_uploaded, rows[i].completed_bytes);
        up = up + u;
        down = down + d;
        i += 1;
    }
    (up, down)
}

/// What is shown of a session.
#[derive(Debug)]
pub struct SessionSnapshot {
    pub listen: String,
    pub peer_id_hex: String,
    pub running: bool,
    pub torrents: Vec<TorrentLive>,
    pub peers: Vec<PeerInfo>,
    pub status_line: String,
    pub total_upload_bps: u64,
    pub total_download_bps: u64,
    pub total_session_up: u64,
    pub total_session_down: u64,
    /// The session was busy: what was shown before still holds.
    pub lock_busy: bool,
}

/// What is shown of a session whatever its torrents and peers are.
#[derive(Debug)]
pub struct SessionFrame {
    pub listen: String,
    pub peer_id: [u8; 20],
    pub running: bool,
    pub status_line: String,
}

/// The status line. A disk worker that is gone for good is all that matters.
pub fn status_line_for_snapshot(permanently_dead: bool, status: Option<String>) -> (s: String)
    ensures
        s@ == if permanently_dead {
            DISK_WORKER_DEAD_STATUS@
        } else {
            match status {
                Some(t) => t@,
                None => ""@,
            }
        },
{
    if permanently_dead {
        return DISK_WORKER_DEAD_STATUS.to_owned();
    }
    match status {
        Some(t) => t,
        None => "".to_owned(),
    }
}

/// What is shown of a session that is busy.
pub fn snapshot_busy(frame: SessionFrame) -> (s: SessionSnapshot)
    ensures
        s.listen == frame.listen,
        s.peer_id_hex@ == hex_text(frame.peer_id@),
        s.running == frame.running,
        s.status_line == frame.status_line,
        s.lock_busy,
        s.torrents@.len() == 0,
        s.peers@.len() == 0,
        s.total_upload_bps == 0,
        s.total_download_bps == 0,
        s.total_session_up == 0,
        s.total_session_down == 0,
{
    SessionSnapshot {
        listen: frame.listen,
        peer_id_hex: hex_encode(frame.peer_id.as_slice()),
        running: frame.running,
        torrents: Vec::new(),
        peers: Vec::new(),
        status_line: frame.status_line,
        total_upload_bps: 0,
        total_download_bps: 0,
        total_session_up: 0,
        total_session_down: 0,
        lock_busy: true,
    }
}

/// What is shown of a session: each active torrent with the number of its peers, each peer,
/// the totals, and all their rates. `peer_rows` are in the order of the session's peers. The
/// rates are those at `now`.
pub fn snapshot_inner(
    frame: SessionFrame,
    rows: Vec<TorrentRow>,
    book: &PeerBook,
    peer_rows: Vec<PeerRow>,
    rates: &mut RateBook,
    now: u64,
) -> (s: SessionSnapshot)
    requires
        book.wf(),
        distinct(rows@),
        peer_rows@.len() == book.peers.order().len(),
        sum_up(rows@, rows@.len() as int) <= u64::MAX,
        sum_down(rows@, rows@.len() as int) <= u64::MAX,
        sum_wire(rows@, book, rows@.len() as int) <= u64::MAX,
    ensures
        s.listen == frame.listen,
        s.peer_id_hex@ == hex_text(frame.peer_id@),
        s.running == frame.running,
        s.status_line == frame.status_line,
        !s.lock_busy,
        s.torrents@.len() == rows@.len(),
        forall|i: int|
            0 <= i < rows@.len() ==> shows_torrent(
                #[trigger] s.torrents@[i],
                rows@[i],
                peers_shown(book, rows@[i].id),
                torrent_rate(old(rates).torrents@, rows@[i], book, now).rates(),
                now,
            ),
        s.peers@.len() == peer_rows@.len(),
        forall|i: int|
            0 <= i < peer_rows@.len() ==> shows_peer(
                #[trigger] s.peers@[i],
                book.peers.order()[i],
                book.peers@[book.peers.order()[i]],
                peer_rows@[i],
                peer_rate(
                    old(rates).peers@,
                    book.peers.order()[i],
                    book.peers@[book.peers.order()[i]],
                    now,
                ).rates(),
                now,
            ),
        s.total_session_up == sum_up(rows@, rows@.len() as int),
        s.total_session_down == sum_down(rows@, rows@.len() as int),
        // The rates in all are those of what was sent since the start and of what came from
        // peers.
        final(rates).total@ == old(rates).total@.next(
            sum_up(rows@, rows@.len() as int) as u64,
            sum_wire(rows@, book, rows@.len() as int) as u64,
            now,
        ),
        s.total_upload_bps == final(rates).total@.up_bps,
        s.total_download_bps == final(rates).total@.down_bps,
        forall|i: int|
            0 <= i < rows@.len() ==> noted(final(rates).torrents@, (#[trigger] rows@[i]).id)
                == torrent_rate(old(rates).torrents@, rows@[i], book, now),
        forall|id: i64|
            (forall|i: int| 0 <= i < rows@.len() ==> (#[trigger] rows@[i]).id != id)
                ==> #[trigger] noted(final(rates).torrents@, id) == noted(
                old(rates).torrents@,
                id,
            ),
        final(rates).peers@.dom() == book.peers@.dom(),
        forall|id: u64| #[trigger]
            book.peers@.dom().contains(id) ==> final(rates).peers@[id]@ == peer_rate(
                old(rates).peers@,
                id,
                book.peers@[id],
                now,
            ),
{
    let (total_session_up, total_session_down) = session_totals(&rows);
    let (torrent_rates, wire) = rate_torrents(&mut rates.torrents, &rows, book, now);
    update_rate(&mut rates.total, total_session_up, wire, now);
    let peer_rates = rate_peers(&mut rates.peers, book, now);
    let ghost all = rows@;
    let ghost n = all.len() as int;
    let mut back: Vec<TorrentLive> = Vec::new();
    let mut rest = rows;
    while rest.len() > 0
        invariant
            book.wf(),
            n == all.len(),
            torrent_rates@.len() == n,
            rest@.len() <= n,
            rest@ == all.subrange(0, rest@.len() as int),
            back@.len() == n - rest@.len(),
            forall|i: int|
                0 <= i < back@.len() ==> shows_torrent(
                    #[trigger] back@[i],
                    all[n - 1 - i],
                    peers_shown(book, all[n - 1 - i].id),
                    torrent_rates@[n - 1 - i],
                    now,
                ),
        decreases rest@.len(),
    {
        let ghost before = rest@;
        if let Some(row) = rest.pop() {
            assert(row == all[before.len() - 1]);
            assert(rest@ =~= all.subrange(0, rest@.len() as int));
            let count: usize = if row.id == 0 {
                0
            } else {
                book.peer_count_for_torrent(row.id)
            };
            back.push(torrent_live(row, count, torrent_rates[rest.len()], now));
        }
    }
    let mut torrents: Vec<TorrentLive> = Vec::new();
    let ghost made = back@;
    while back.len() > 0
        invariant
            made.len() == n,
            back@.len() <= n,
            back@ == made.subrange(0, back@.len() as int),
            torrents@.len() == n - back@.len(),
            forall|i: int| 0 <= i < torrents@.len() ==> #[trigger] torrents@[i] == made[n - 1 - i],
        decreases back@.len(),
    {
        let ghost before = back@;
        if let Some(t) = back.pop() {
            assert(t == made[before.len() - 1]);
            assert(back@ =~= made.subrange(0, back@.len() as int));
            torrents.push(t);
        }
    }
    assert forall|i: int| 0 <= i < n implies shows_torrent(
        #[trigger] torrents@[i],
        all[i],
        peers_shown(book, all[i].id),
        torrent_rates@[i],
        now,
    ) by {
        assert(shows_torrent(
            made[n - 1 - i],
            all[n - 1 - (n - 1 - i)],
            peers_shown(book, all[n - 1 - (n - 1 - i)].id),
            torrent_rates@[n - 1 - (n - 1 - i)],
            now,
        ));
    }
    let peers = peer_infos(book, peer_rows, &peer_rates, now);
    SessionSnapshot {
        listen: frame.listen,
        peer_id_hex: hex_encode(frame.peer_id.as_slice()),
        running: frame.running,
        torrents,
        peers,
        status_line: frame.status_line,
        total_upload_bps: rates.total.up_bps,
        total_download_bps: rates.total.down_bps,
        total_session_up,
        total_session_down,
        lock_busy: false,
    }
}

/// What is shown of each peer.
fn peer_infos(book: &PeerBook, peer_rows: Vec<PeerRow>, rates: &Vec<Rates>, now: u64) -> (r: Vec<
    PeerInfo,
>)
    requires
        book.wf(),
        peer_rows@.len() == book.peers.order().len(),
        rates@.len() == peer_rows@.len(),
    ensures
        r@.len() == peer_rows@.len(),
        forall|i: int|
            0 <= i < peer_rows@.len() ==> shows_peer(
                #[trigger] r@[i],
                book.peers.order()[i],
                book.peers@[book.peers.order()[i]],
                peer_rows@[i],
                rates@[i],
                now,
            ),
{
    let ghost all = peer_rows@;
    let ghost ids = book.peers.order();
    let ghost n = all.len() as int;
    let mut back: Vec<PeerRow> = Vec::new();
    let mut rest = peer_rows;
    while rest.len() > 0
        invariant
            n == all.len(),
            rest@.len() <= n,
            rest@ == all.subrange(0, rest@.len() as int),
            back@.len() == n - rest@.len(),
            forall|i: int| 0 <= i < back@.len() ==> #[trigger] back@[i] == all[n - 1 - i],
        decreases rest@.len(),
    {
        let ghost before = rest@;
        if let Some(row) = rest.pop() {
            assert(row == all[before.len() - 1]);
            assert(rest@ =~= all.subrange(0, rest@.len() as int));
            back.push(row);
        }
    }
    let mut r: Vec<PeerInfo> = Vec::new();
    let ghost made = back@;
    while back.len() > 0
        invariant
            book.wf(),
            ids == book.peers.order(),
            n == all.len(),
            n == ids.len(),
            rates@.len() == n,
            made.len() == n,
            forall|i: int| 0 <= i < n ==> #[trigger] made[i] == all[n - 1 - i],
            back@.len() <= n,
            back@ == made.subrange(0, back@.len() as int),
            r@.len() == n - back@.len(),
            forall|i: int|
                0 <= i < r@.len() ==> shows_peer(
                    #[trigger] r@[i],
                    ids[i],
                    book.peers@[ids[i]],
                    all[i],
                    rates@[i],
                    now,
                ),
        decreases back@.len(),
    {
        let ghost before = back@;
        let at: usize = r.len();
        if let Some(row) = back.pop() {
            assert(row == made[before.len() - 1]);
            assert(row == all[at as int]);
            assert(back@ =~= made.subrange(0, back@.len() as int));
            let id: u64 = book.peers.key_at(at);
            let info = peer_info(id, book.peers.value(at), row, rates[at], now);
            r.push(info);
        }
    }
    r
}

/// A peer is shown under its own id, torrent and address, with its own bytes and rates in each
/// direction, and since when it is connected.
pub proof fn peers_are_shown_as_they_are(
    i: PeerInfo,
    id: u64,
    p: LivePeer,
    row: PeerRow,
    rates: Rates,
    now: u64,
)
    requires
        shows_peer(i, id, p, row, rates, now),
    ensures
        i.id == id && i.torrent_id == p.torrent_id && i.addr == p.addr && i.direction
            == p.direction,
        i.torrent_name == row.torrent_name && i.client == row.client,
        i.uploaded == p.gauges.up && i.downloaded == p.gauges.down,
        i.upload_bps == rates.up_bps && i.download_bps == rates.down_bps,
        now >= p.connected_at ==> i.connected_secs * 1_000_000_000 <= now - p.connected_at < (
        i.connected_secs + 1) * 1_000_000_000,
        now <= p.connected_at ==> i.connected_secs == 0,
        i.queue_outstanding == p.gauges.queue_outstanding && i.queue_target
            == p.gauges.queue_target,
        i.peer_interested == p.gauges.peer_interested && i.peer_choking == p.gauges.peer_choking
            && i.am_interested == p.gauges.am_interested,
        i.upload_pending == p.gauges.upload_pending,
        i.peer_have == p.gauges.peer_have && i.piece_count == p.gauges.piece_count,
        i.crypto == p.gauges.crypto,
{
}

/// A torrent is shown with its own name, pieces, bytes and rates, with what was sent and
/// completed since its start, and with when it announces next.
pub proof fn torrents_are_shown_as_they_are(
    t: TorrentLive,
    row: TorrentRow,
    peers: nat,
    rates: Rates,
    now: u64,
)
    requires
        shows_torrent(t, row, peers, rates, now),
    ensures
        t.id == row.id && t.name == row.name && t.complete == row.complete,
        t.have_count == row.have_count && t.piece_count == row.piece_count && t.left == row.left,
        t.peer_count == peers,
        row.baseline.uploaded <= row.lifetime_uploaded ==> t.session_uploaded
            == row.lifetime_uploaded - row.baseline.uploaded,
        row.baseline.completed <= row.completed_bytes ==> t.session_downloaded
            == row.completed_bytes - row.baseline.completed,
        t.lifetime_uploaded == row.lifetime_uploaded && t.completed_bytes == row.completed_bytes,
        t.upload_bps == rates.up_bps && t.download_bps == rates.down_bps,
        row.announce matches Some(a) ==> t.announce_in_secs == Some(a.spec_due_in_secs(now))
            && t.announce_interval_secs == Some(a.interval_secs) && t.announce_in_flight
            == a.in_flight,
        row.announce is None ==> t.announce_in_secs is None && t.announce_interval_secs is None
            && !t.announce_in_flight,
        t.seeders == row.swarm.0 && t.leechers == row.swarm.1,
        row.staging matches Some(s) ==> t.staging_used == Some(s.0) && t.staging_cap == Some(s.1)
            && t.staging_limit_bytes == Some(s.2),
        row.staging is None ==> t.staging_used is None && t.staging_cap is None
            && t.staging_limit_bytes is None,
        t.staging_claims == row.staging_claims,
{
}

/// What came for a torrent is what came from each of its peers, and from no other.
pub proof fn each_peer_adds_its_bytes(m: Map<u64, LivePeer>, ids: Seq<u64>, id: u64, t: i64)
    ensures
        m[id].torrent_id == t ==> wire_down_of(m, ids.push(id), t) == wire_down_of(m, ids, t)
            + m[id].gauges.down,
        m[id].torrent_id != t ==> wire_down_of(m, ids.push(id), t) == wire_down_of(m, ids, t),
        wire_down_of(m, Seq::<u64>::empty(), t) == 0,
{
    assert(ids.push(id).drop_last() =~= ids);
}

/// Peers are shown with their torrent; those that belong to none yet are shown with none.
pub proof fn peers_are_shown_with_their_torrent(book: &PeerBook, t: i64)
    ensures
        peers_shown(book, 0) == 0,
        down_shown(book, 0) == 0,
        t != 0 ==> peers_shown(book, t) == book.count(t),
        t != 0 ==> down_shown(book, t) == wire_down_of(book.peers@, book.peers.order(), t),
{
}

/// The totals take in each torrent once, with what it sent, what it completed and what came
/// from its peers.
pub proof fn each_torrent_counts_once(rows: Seq<TorrentRow>, book: &PeerBook, n: int)
    requires
        0 <= n < rows.len(),
        rows[n].baseline.uploaded <= rows[n].lifetime_uploaded,
        rows[n].baseline.completed <= rows[n].completed_bytes,
    ensures
        sum_up(rows, 0) == 0 && sum_down(rows, 0) == 0 && sum_wire(rows, book, 0) == 0,
        sum_up(rows, n + 1) == sum_up(rows, n) + (rows[n].lifetime_uploaded
            - rows[n].baseline.uploaded),
        sum_down(rows, n + 1) == sum_down(rows, n) + (rows[n].completed_bytes
            - rows[n].baseline.completed),
        sum_wire(rows, book, n + 1) == sum_wire(rows, book, n) + down_shown(book, rows[n].id),
{
}

/// The rates of a torrent are those of what it ever sent and of what came from its peers; those
/// of a peer are of its own two counters.
pub proof fn rates_are_of_their_own_counters(
    torrents: Map<i64, RateSample>,
    peers: Map<u64, RateSample>,
    row: TorrentRow,
    book: &PeerBook,
    id: u64,
    p: LivePeer,
    now: u64,
)
    ensures
        torrents.contains_key(row.id) ==> torrent_rate(torrents, row, book, now)
            == torrents[row.id]@.next(
            row.lifetime_uploaded,
            down_shown(book, row.id) as u64,
            now,
        ),
        peers.contains_key(id) ==> peer_rate(peers, id, p, now) == peers[id]@.next(
            p.gauges.up,
            p.gauges.down,
            now,
        ),
        !peers.contains_key(id) ==> peer_rate(peers, id, p, now) == RateView::none().next(
            p.gauges.up,
            p.gauges.down,
            now,
        ),
{
}

/// The encryption of a connection is stored under its number.
pub proof fn encryptions_have_their_numbers()
    ensures
        PeerCrypto::Unknown.code() == 0,
        PeerCrypto::Plain.code() == 1,
        PeerCrypto::PePlain.code() == 2,
        PeerCrypto::Rc4.code() == 3,
{
}

} // verus!
