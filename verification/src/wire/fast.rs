//! Fast extension: the allowed-fast set, possession messages, and per-peer state.
use crate::bytes::{be32, be32_at, push_all, push_be32, read_be32};
use crate::hash::{sha1, sha1_digest};
use crate::net::PeerAddr;
use crate::wire::messages::{encode_message, encoded, encoded_all, Message, MessageView};
use std::collections::HashSet;
use vstd::prelude::*;
use vstd::slice::slice_to_vec;

verus! {

/// Default size of the allowed-fast set.
pub const ALLOWED_FAST_K: u32 = 10;

/// Rounds without a new piece after which the search for allowed-fast pieces stops.
pub const STAGNANT_ROUNDS: u32 = 32;

/// The piece that the `j`th integer of a digest stands for.
pub open spec fn candidate(x: Seq<u8>, j: int, piece_count: u32) -> u32 {
    if piece_count == 0 {
        0
    } else {
        be32_at(x, 4 * j) % piece_count
    }
}

/// `a` with the pieces of the first `n` integers of a digest added, each where it
/// is new and fewer than `k` are there.
pub open spec fn with_candidates(a: Seq<u32>, x: Seq<u8>, piece_count: u32, k: nat, n: int) -> Seq<
    u32,
>
    decreases n,
{
    if n <= 0 {
        a
    } else {
        let b = with_candidates(a, x, piece_count, k, n - 1);
        let index = candidate(x, n - 1, piece_count);
        if b.len() < k && !b.contains(index) {
            b.push(index)
        } else {
            b
        }
    }
}

/// Candidates add pieces and take none away.
pub proof fn candidates_only_add(a: Seq<u32>, x: Seq<u8>, piece_count: u32, k: nat, n: int)
    ensures
        with_candidates(a, x, piece_count, k, n).len() >= a.len(),
        with_candidates(a, x, piece_count, k, n).len() == a.len() ==> with_candidates(
            a,
            x,
            piece_count,
            k,
            n,
        ) == a,
    decreases n,
{
    if n > 0 {
        candidates_only_add(a, x, piece_count, k, n - 1);
    }
}

/// The allowed-fast pieces: digests of digests, five integers each, until `k` pieces are
/// found or no digest brings a new one any more.
pub open spec fn allowed_from(
    a: Seq<u32>,
    x: Seq<u8>,
    piece_count: u32,
    k: nat,
    stagnant: nat,
) -> Seq<u32>
    decreases
            (if a.len() < k {
                k - a.len()
            } else {
                0
            }),
            (if stagnant < STAGNANT_ROUNDS {
                STAGNANT_ROUNDS - stagnant
            } else {
                0
            }),
{
    proof {
        candidates_only_add(a, sha1_digest(x), piece_count, k, 5);
    }
    if a.len() >= k || stagnant >= STAGNANT_ROUNDS {
        a
    } else {
        let d = sha1_digest(x);
        let b = with_candidates(a, d, piece_count, k, 5);
        if b.len() <= a.len() {
            allowed_from(a, d, piece_count, k, stagnant + 1)
        } else {
            allowed_from(b, d, piece_count, k, 0)
        }
    }
}

/// The canonical allowed-fast set of a peer: the seed is its address without the last
/// byte, followed by the infohash.
pub open spec fn allowed_fast(k: u32, piece_count: u32, infohash: Seq<u8>, ip: u32) -> Seq<u32> {
    if k == 0 || piece_count == 0 {
        Seq::empty()
    } else {
        allowed_from(
            Seq::empty(),
            be32((ip - ip % 0x100) as u32) + infohash,
            piece_count,
            (if k < piece_count {
                k
            } else {
                piece_count
            }) as nat,
            0,
        )
    }
}

/// Distinct pieces of the torrent.
pub open spec fn distinct_pieces(a: Seq<u32>, piece_count: u32) -> bool {
    &&& a.no_duplicates()
    &&& forall|i: int| 0 <= i < a.len() ==> (#[trigger] a[i]) < piece_count
}

/// Add the pieces that the five integers of a digest stand for, each where it is new and
/// fewer than `want` are there.
pub fn add_candidates(a: &mut Vec<u32>, d: &[u8; 20], piece_count: u32, want: u32)
    requires
        piece_count > 0,
    ensures
        final(a)@ == with_candidates(old(a)@, d@, piece_count, want as nat, 5),
        distinct_pieces(old(a)@, piece_count) ==> distinct_pieces(final(a)@, piece_count),
        old(a)@.len() <= want ==> final(a)@.len() <= want,
{
    let ghost a0 = a@;
    let mut i: usize = 0;
    while i < 5
        invariant
            i <= 5,
            d@.len() == 20,
            piece_count > 0,
            a0.len() <= want ==> a@.len() <= want,
            distinct_pieces(a0, piece_count) ==> distinct_pieces(a@, piece_count),
            a@ == with_candidates(a0, d@, piece_count, want as nat, i as int),
        decreases 5 - i,
    {
        let y: u32 = read_be32(d.as_slice(), 4 * i);
        let index: u32 = y % piece_count;
        let ghost b = a@;
        if (a.len() as u64) < want as u64 && !listed(&*a, index) {
            a.push(index);
            proof {
                if distinct_pieces(a0, piece_count) {
                    assert forall|p: int, q: int| 0 <= p < a@.len() && 0 <= q < a@.len() && p
                        != q implies a@[p] != a@[q] by {
                        if p < b.len() && q < b.len() {
                            assert(b[p] != b[q]);
                        } else if p < b.len() {
                            assert(b.contains(b[p]));
                        } else {
                            assert(b.contains(b[q]));
                        }
                    }
                }
            }
        }
        i += 1;
    }
}

/// The allowed-fast set for the peer at `ip`, at most `k` pieces and at most as many as
/// the torrent has.
pub fn generate_allowed_fast_set(k: u32, piece_count: u32, infohash: &[u8; 20], ip: u32) -> (r: Vec<
    u32,
>)
    ensures
        r@ == allowed_fast(k, piece_count, infohash@, ip),
        distinct_pieces(r@, piece_count),
        r@.len() <= k,
        r@.len() <= piece_count,
{
    let mut a: Vec<u32> = Vec::new();
    if k == 0 || piece_count == 0 {
        return a;
    }
    let want: u32 = if k < piece_count {
        k
    } else {
        piece_count
    };
    let mut x: Vec<u8> = Vec::new();
    push_be32(&mut x, ip - ip % 0x100);
    push_all(&mut x, infohash.as_slice());
    assert(x@ =~= be32((ip - ip % 0x100) as u32) + infohash@);
    assert(a@ =~= Seq::<u32>::empty());
    let mut stagnant: u32 = 0;
    while (a.len() as u64) < want as u64 && stagnant < STAGNANT_ROUNDS
        invariant
            piece_count > 0,
            want <= k,
            want <= piece_count,
            stagnant <= STAGNANT_ROUNDS,
            a@.len() <= want,
            distinct_pieces(a@, piece_count),
            allowed_fast(k, piece_count, infohash@, ip) == allowed_from(
                a@,
                x@,
                piece_count,
                want as nat,
                stagnant as nat,
            ),
        decreases want - a@.len(), STAGNANT_ROUNDS - stagnant,
    {
        let ghost a0 = a@;
        let before: usize = a.len();
        let d: [u8; 20] = sha1(x.as_slice());
        proof {
            candidates_only_add(a0, d@, piece_count, want as nat, 5);
        }
        add_candidates(&mut a, &d, piece_count, want);
        x = slice_to_vec(d.as_slice());
        if a.len() == before {
            stagnant += 1;
        } else {
            stagnant = 0;
        }
    }
    a
}

/// Whether `v` holds `x`.
pub fn listed(v: &Vec<u32>, x: u32) -> (r: bool)
    ensures
        r == v@.contains(x),
{
    let mut i: usize = 0;
    while i < v.len()
        invariant
            i <= v@.len(),
            forall|j: int| 0 <= j < i ==> v@[j] != x,
        decreases v@.len() - i,
    {
        if v[i] == x {
            assert(v@[i as int] == x);
            return true;
        }
        i += 1;
    }
    false
}

/// The allowed-fast set for a peer. There is none for IPv6.
pub fn allowed_fast_for_addr(
    k: u32,
    piece_count: u32,
    infohash: &[u8; 20],
    addr: PeerAddr,
) -> (r: Vec<u32>)
    ensures
        r@ == match addr {
            PeerAddr::V4 { ip, .. } => allowed_fast(k, piece_count, infohash@, ip),
            PeerAddr::V6 { .. } => Seq::<u32>::empty(),
        },
        distinct_pieces(r@, piece_count),
{
    match addr {
        PeerAddr::V4 { ip, .. } => generate_allowed_fast_set(k, piece_count, infohash, ip),
        PeerAddr::V6 { .. } => Vec::new(),
    }
}

/// ALLOWED FAST messages, one for each piece.
pub fn encode_allowed_fast_messages(pieces: &[u32]) -> (out: Vec<u8>)
    ensures
        out@ == encoded_all(pieces@.map_values(|i: u32| MessageView::AllowedFast(i))),
{
    let ghost ms = pieces@.map_values(|i: u32| MessageView::AllowedFast(i));
    let mut out: Vec<u8> = Vec::new();
    let mut i: usize = 0;
    assert(ms.subrange(0, 0) =~= Seq::<MessageView>::empty());
    while i < pieces.len()
        invariant
            i <= pieces@.len(),
            ms == pieces@.map_values(|i: u32| MessageView::AllowedFast(i)),
            out@ == encoded_all(ms.subrange(0, i as int)),
        decreases pieces@.len() - i,
    {
        let m: Vec<u8> = encode_message(&Message::AllowedFast(pieces[i]));
        push_all(&mut out, m.as_slice());
        assert(ms.subrange(0, i + 1).drop_last() =~= ms.subrange(0, i as int));
        i += 1;
    }
    assert(ms.subrange(0, i as int) =~= ms);
    out
}

/// SUGGEST PIECE messages, one for each piece.
pub fn encode_suggest_messages(pieces: &[u32]) -> (out: Vec<u8>)
    ensures
        out@ == encoded_all(pieces@.map_values(|i: u32| MessageView::SuggestPiece(i))),
{
    let ghost ms = pieces@.map_values(|i: u32| MessageView::SuggestPiece(i));
    let mut out: Vec<u8> = Vec::new();
    let mut i: usize = 0;
    assert(ms.subrange(0, 0) =~= Seq::<MessageView>::empty());
    while i < pieces.len()
        invariant
            i <= pieces@.len(),
            ms == pieces@.map_values(|i: u32| MessageView::SuggestPiece(i)),
            out@ == encoded_all(ms.subrange(0, i as int)),
        decreases pieces@.len() - i,
    {
        let m: Vec<u8> = encode_message(&Message::SuggestPiece(pieces[i]));
        push_all(&mut out, m.as_slice());
        assert(ms.subrange(0, i + 1).drop_last() =~= ms.subrange(0, i as int));
        i += 1;
    }
    assert(ms.subrange(0, i as int) =~= ms);
    out
}

/// What a peer that knows the Fast extension is told of our pieces.
pub open spec fn possession(have_count: u32, piece_count: u32, bitfield: Seq<u8>) -> MessageView {
    if piece_count > 0 && have_count >= piece_count {
        MessageView::HaveAll
    } else if have_count == 0 {
        MessageView::HaveNone
    } else {
        MessageView::Bitfield(bitfield)
    }
}

/// The first message after the handshake where both sides know the Fast extension.
pub fn encode_possession_fast(have_count: u32, piece_count: u32, bitfield: Vec<u8>) -> (out: Vec<u8>)
    ensures
        out@ == encoded(possession(have_count, piece_count, bitfield@)),
{
    if piece_count > 0 && have_count >= piece_count {
        encode_message(&Message::HaveAll)
    } else if have_count == 0 {
        encode_message(&Message::HaveNone)
    } else {
        encode_message(&Message::Bitfield(bitfield))
    }
}

/// Fast extension state of one connection.
#[derive(Debug)]
pub struct FastSession {
    /// Both sides know the extension.
    pub enabled: bool,
    /// Pieces that the peer lets us request while it chokes us.
    pub allowed_from_peer: HashSet<u32>,
    /// Pieces that we let the peer request while we choke it.
    pub allowed_to_peer: HashSet<u32>,
}

impl FastSession {
    /// State at the start of a connection.
    pub fn new(enabled: bool) -> (s: Self)
        ensures
            s.enabled == enabled,
            s.allowed_from_peer@ == Set::<u32>::empty(),
            s.allowed_to_peer@ == Set::<u32>::empty(),
    {
        FastSession { enabled, allowed_from_peer: HashSet::new(), allowed_to_peer: HashSet::new() }
    }

    /// The peer listed a piece as allowed fast.
    pub fn on_allowed_fast(&mut self, index: u32)
        ensures
            final(self).allowed_from_peer@ == old(self).allowed_from_peer@.insert(index),
            final(self).allowed_to_peer@ == old(self).allowed_to_peer@,
            final(self).enabled == old(self).enabled,
    {
        broadcast use vstd::std_specs::hash::group_hash_axioms;

        self.allowed_from_peer.insert(index);
    }

    /// Whether we may request the piece while the peer chokes us.
    pub fn peer_allows_while_choked(&self, index: u32) -> (r: bool)
        ensures
            r == (self.enabled && self.allowed_from_peer@.contains(index)),
    {
        broadcast use vstd::std_specs::hash::group_hash_axioms;

        self.enabled && self.allowed_from_peer.contains(&index)
    }

    /// Whether the peer may request the piece while we choke it.
    pub fn we_allow_while_choking(&self, index: u32) -> (r: bool)
        ensures
            r == (self.enabled && self.allowed_to_peer@.contains(index)),
    {
        broadcast use vstd::std_specs::hash::group_hash_axioms;

        self.enabled && self.allowed_to_peer.contains(&index)
    }
}

impl Default for FastSession {
    fn default() -> (s: Self)
        ensures
            !s.enabled,
            s.allowed_from_peer@ == Set::<u32>::empty(),
            s.allowed_to_peer@ == Set::<u32>::empty(),
    {
        FastSession::new(false)
    }
}

/// Peers of one network, whose addresses differ in the last byte alone, may ask for the same
/// pieces.
pub proof fn one_network_has_one_set(k: u32, piece_count: u32, infohash: Seq<u8>, a: u32, b: u32)
    requires
        a / 256 == b / 256,
    ensures
        allowed_fast(k, piece_count, infohash, a) == allowed_fast(k, piece_count, infohash, b),
{
    assert(a - a % 0x100 == b - b % 0x100);
}

/// The pieces of a digest are its five integers, each reduced to the number of pieces, in
/// their order; one that is there already is not taken again.
pub proof fn a_digest_gives_its_integers(a: Seq<u32>, x: Seq<u8>, piece_count: u32, k: nat, n: int)
    requires
        0 < n,
        4 * n <= x.len(),
        piece_count > 0,
    ensures
        ({
            let before = with_candidates(a, x, piece_count, k, n - 1);
            let after = with_candidates(a, x, piece_count, k, n);
            let at = 4 * (n - 1);
            let y = ((x[at] * 256 + x[at + 1]) * 256 + x[at + 2]) * 256 + x[at + 3];
            let piece = (y % piece_count as int) as u32;
            &&& before.len() < k && !before.contains(piece) ==> after == before.push(piece)
            &&& before.len() >= k || before.contains(piece) ==> after == before
        }),
        with_candidates(a, x, piece_count, k, 0) == a,
{
}

/// A peer is told of all pieces only where we have all, of none only where we have none, and
/// else of each.
pub proof fn possession_is_told_truly(have_count: u32, piece_count: u32, bitfield: Seq<u8>)
    requires
        have_count <= piece_count,
    ensures
        possession(have_count, piece_count, bitfield) is HaveAll <==> have_count == piece_count
            && piece_count > 0,
        possession(have_count, piece_count, bitfield) is HaveNone <==> have_count == 0 && (
        piece_count == 0 || have_count < piece_count),
        0 < have_count < piece_count ==> possession(have_count, piece_count, bitfield)
            == MessageView::Bitfield(bitfield),
{
}

/// The pieces that are allowed are those of the torrent, each by the big-endian integers of a
/// digest, four bytes each.
pub proof fn candidates_are_pieces_of_the_torrent(x: Seq<u8>, j: int, piece_count: u32)
    requires
        piece_count > 0,
        0 <= j,
        4 * j + 4 <= x.len(),
    ensures
        candidate(x, j, piece_count) < piece_count,
        (be32_at(x, 4 * j) - candidate(x, j, piece_count)) % (piece_count as int) == 0,
{
    let n = be32_at(x, 4 * j) as int;
    let p = piece_count as int;
    assert((n - n % p) % p == 0) by (nonlinear_arith)
        requires
            p > 0,
    ;
}

/// Distinct pieces of a torrent are pieces of it, and no two are the same.
pub proof fn distinct_pieces_differ(a: Seq<u32>, piece_count: u32, i: int, j: int)
    requires
        distinct_pieces(a, piece_count),
        0 <= i < j < a.len(),
    ensures
        a[i] != a[j],
        a[i] < piece_count,
{
}

/// The digests begin with that of the peer's network, the three bytes of its address that stand
/// first and a zero, and the torrent's hash behind it. No more pieces are allowed than there
/// are.
pub proof fn the_first_digest_is_of_network_and_torrent(
    k: u32,
    piece_count: u32,
    infohash: Seq<u8>,
    ip: u32,
)
    ensures
        k > 0 && piece_count > 0 ==> allowed_fast(k, piece_count, infohash, ip) == allowed_from(
            Seq::empty(),
            seq![
                (ip / 0x100_0000) as u8,
                (ip / 0x1_0000 % 0x100) as u8,
                (ip / 0x100 % 0x100) as u8,
                0u8,
            ] + infohash,
            piece_count,
            if k <= piece_count {
                k as nat
            } else {
                piece_count as nat
            },
            0,
        ),
        allowed_fast(0, piece_count, infohash, ip).len() == 0,
        allowed_fast(k, 0, infohash, ip).len() == 0,
{
    let net = (ip - ip % 0x100) as u32;
    let head = seq![
        (ip / 0x100_0000) as u8,
        (ip / 0x1_0000 % 0x100) as u8,
        (ip / 0x100 % 0x100) as u8,
        0u8,
    ];
    crate::bytes::written_integers_are_big_endian(0, net, 0);
    assert(be32(net).len() == 4);
    assert(net / 0x100_0000 == ip / 0x100_0000);
    assert(net / 0x1_0000 % 0x100 == ip / 0x1_0000 % 0x100);
    assert(net / 0x100 % 0x100 == ip / 0x100 % 0x100);
    assert(net % 0x100 == 0);
    assert(be32(net) =~= head);
}

/// Pieces are taken from one digest after the other, each the digest of the one before, until
/// there are enough or 32 digests in a row brought no new one.
pub proof fn digests_follow_one_another(
    a: Seq<u32>,
    x: Seq<u8>,
    piece_count: u32,
    k: nat,
    stagnant: nat,
)
    ensures
        a.len() >= k || stagnant >= 32 ==> allowed_from(a, x, piece_count, k, stagnant) == a,
        a.len() < k && stagnant < 32 ==> ({
            let d = sha1_digest(x);
            let b = with_candidates(a, d, piece_count, k, 5);
            &&& b.len() > a.len() ==> allowed_from(a, x, piece_count, k, stagnant) == allowed_from(
                b,
                d,
                piece_count,
                k,
                0,
            )
            &&& b.len() <= a.len() ==> allowed_from(a, x, piece_count, k, stagnant) == allowed_from(
                a,
                d,
                piece_count,
                k,
                stagnant + 1,
            )
        }),
{
}

} // verus!
