//! Piece bitfields: one bit per piece, the most significant bit of a byte first.
use vstd::prelude::*;

verus! {

/// The bit of piece `i` in its byte.
pub open spec fn mask(i: int) -> u8 {
    0x80u8 >> ((i % 8) as u8)
}

/// Whether the bit of piece `i` is set. Pieces past the end have none.
pub open spec fn bit(bf: Seq<u8>, i: int) -> bool {
    0 <= i && i / 8 < bf.len() && bf[i / 8] & mask(i) != 0
}

/// Number of set bits among the first `n`.
pub open spec fn count_bits(bf: Seq<u8>, n: int) -> nat
    decreases n,
{
    if n <= 0 {
        0
    } else {
        count_bits(bf, n - 1) + if bit(bf, n - 1) {
            1nat
        } else {
            0nat
        }
    }
}

/// Bytes that `pieces` bits take.
pub open spec fn bytes_for(pieces: int) -> int {
    (pieces + 7) / 8
}

proof fn bits_are_independent(b: u8, j: u8, k: u8)
    by (bit_vector)
    requires
        j < 8,
        k < 8,
    ensures
        ((b | (0x80u8 >> j)) & (0x80u8 >> k) != 0) == (j == k || b & (0x80u8 >> k) != 0),
{
}

proof fn zero_has_no_bits(k: u8)
    by (bit_vector)
    requires
        k < 8,
    ensures
        0u8 & (0x80u8 >> k) == 0,
{
}

proof fn padding_mask(rem: u8, k: u8)
    by (bit_vector)
    requires
        0 < rem < 8,
        k < 8,
    ensures
        ((0xffu8 << ((8 - rem) as u8)) & (0x80u8 >> k) != 0) == (k < rem),
{
}

proof fn all_ones(k: u8)
    by (bit_vector)
    requires
        k < 8,
    ensures
        0xffu8 & (0x80u8 >> k) != 0,
{
}

/// Setting a bit changes that bit alone.
pub proof fn setting_a_bit(bf: Seq<u8>, i: int, j: int)
    requires
        0 <= i,
        i / 8 < bf.len(),
    ensures
        bit(bf.update(i / 8, bf[i / 8] | mask(i)), j) == (j == i || bit(bf, j)),
{
    if 0 <= j && j / 8 == i / 8 {
        bits_are_independent(bf[i / 8], (i % 8) as u8, (j % 8) as u8);
        assert((i % 8 == j % 8) ==> i == j);
    }
}

/// The first of the eight pieces of a byte is its highest bit, the last one its lowest.
pub proof fn pieces_go_from_high_bits_to_low(bf: Seq<u8>, byte: int)
    requires
        0 <= byte < bf.len(),
    ensures
        bit(bf, 8 * byte) == (bf[byte] / 128 % 2 == 1),
        bit(bf, 8 * byte + 1) == (bf[byte] / 64 % 2 == 1),
        bit(bf, 8 * byte + 2) == (bf[byte] / 32 % 2 == 1),
        bit(bf, 8 * byte + 3) == (bf[byte] / 16 % 2 == 1),
        bit(bf, 8 * byte + 4) == (bf[byte] / 8 % 2 == 1),
        bit(bf, 8 * byte + 5) == (bf[byte] / 4 % 2 == 1),
        bit(bf, 8 * byte + 6) == (bf[byte] / 2 % 2 == 1),
        bit(bf, 8 * byte + 7) == (bf[byte] % 2 == 1),
{
    let b = bf[byte];
    assert((b & (0x80u8 >> 0u8) != 0) == (b / 128 % 2 == 1)) by (bit_vector);
    assert((b & (0x80u8 >> 1u8) != 0) == (b / 64 % 2 == 1)) by (bit_vector);
    assert((b & (0x80u8 >> 2u8) != 0) == (b / 32 % 2 == 1)) by (bit_vector);
    assert((b & (0x80u8 >> 3u8) != 0) == (b / 16 % 2 == 1)) by (bit_vector);
    assert((b & (0x80u8 >> 4u8) != 0) == (b / 8 % 2 == 1)) by (bit_vector);
    assert((b & (0x80u8 >> 5u8) != 0) == (b / 4 % 2 == 1)) by (bit_vector);
    assert((b & (0x80u8 >> 6u8) != 0) == (b / 2 % 2 == 1)) by (bit_vector);
    assert((b & (0x80u8 >> 7u8) != 0) == (b % 2 == 1)) by (bit_vector);
}

/// A bitfield has a bit for each piece, and less than a byte to spare.
pub proof fn bitfields_are_just_long_enough(pieces: int)
    requires
        0 <= pieces,
    ensures
        pieces <= 8 * bytes_for(pieces) < pieces + 8,
{
}

/// The count of set bits goes up by one for each bit that is set, from none to all.
pub proof fn each_set_bit_counts_once(bf: Seq<u8>, other: Seq<u8>, i: int, n: int)
    requires
        0 <= n,
    ensures
        (forall|j: int| 0 <= j < n ==> !#[trigger] bit(bf, j)) ==> count_bits(bf, n) == 0,
        (forall|j: int| 0 <= j < n ==> #[trigger] bit(bf, j)) ==> count_bits(bf, n) == n,
        0 <= i < n && !bit(bf, i) && (forall|j: int|
            0 <= j < n ==> #[trigger] bit(other, j) == (bit(bf, j) || j == i)) ==> count_bits(
            other,
            n,
        ) == count_bits(bf, n) + 1,
        !(0 <= i < n) && (forall|j: int|
            0 <= j < n ==> #[trigger] bit(other, j) == (bit(bf, j) || j == i)) ==> count_bits(
            other,
            n,
        ) == count_bits(bf, n),
    decreases n,
{
    if n > 0 {
        each_set_bit_counts_once(bf, other, i, n - 1);
        if forall|j: int| 0 <= j < n ==> #[trigger] bit(other, j) == (bit(bf, j) || j == i) {
            assert(bit(other, n - 1) == (bit(bf, n - 1) || n - 1 == i));
        }
    }
}

/// Bytes that a bitfield of `piece_count` pieces takes.
pub fn bitfield_size_bytes(piece_count: u32) -> (n: usize)
    ensures
        n == bytes_for(piece_count as int),
{
    let whole: usize = (piece_count / 8) as usize;
    if piece_count % 8 == 0 {
        whole
    } else {
        whole + 1
    }
}

/// A bitfield with no bit set.
pub fn empty_bitfield(piece_count: u32) -> (bf: Vec<u8>)
    ensures
        bf@ == Seq::new(bytes_for(piece_count as int) as nat, |i: int| 0u8),
        forall|i: int| !bit(bf@, i),
{
    let bf: Vec<u8> = vec![0u8; bitfield_size_bytes(piece_count)];
    assert forall|i: int| !bit(bf@, i) by {
        if 0 <= i && i / 8 < bf@.len() {
            zero_has_no_bits((i % 8) as u8);
        }
    }
    bf
}

/// Whether the bit of piece `i` is set.
pub fn bitfield_get(bf: &[u8], i: u32) -> (r: bool)
    ensures
        r == bit(bf@, i as int),
{
    let at: usize = (i / 8) as usize;
    if at >= bf.len() {
        return false;
    }
    let shift: u8 = (i % 8) as u8;
    (bf[at] & (0x80u8 >> shift)) != 0
}

/// Set the bit of piece `i`. False, and no change, where it lies past the end.
pub fn bitfield_set(bf: &mut Vec<u8>, i: u32) -> (r: bool)
    ensures
        r == ((i as int) / 8 < old(bf)@.len()),
        final(bf)@.len() == old(bf)@.len(),
        forall|j: int|
            #![trigger bit(final(bf)@, j)]
            bit(final(bf)@, j) == ((r && j == i) || bit(old(bf)@, j)),
        final(bf)@ == if r {
            old(bf)@.update(i as int / 8, old(bf)@[i as int / 8] | mask(i as int))
        } else {
            old(bf)@
        },
{
    let at: usize = (i / 8) as usize;
    if at >= bf.len() {
        return false;
    }
    let shift: u8 = (i % 8) as u8;
    let b: u8 = bf[at];
    bf.set(at, b | (0x80u8 >> shift));
    assert forall|j: int| #![trigger bit(bf@, j)] bit(bf@, j) == (j == i || bit(old(bf)@, j)) by {
        setting_a_bit(old(bf)@, i as int, j);
    }
    true
}

/// Number of pieces among the first `piece_count` whose bit is set.
pub fn count_have_bits(bf: &[u8], piece_count: u32) -> (n: u32)
    ensures
        n == count_bits(bf@, piece_count as int),
{
    let mut n: u32 = 0;
    let mut i: u32 = 0;
    while i < piece_count
        invariant
            i <= piece_count,
            n <= i,
            n == count_bits(bf@, i as int),
        decreases piece_count - i,
    {
        if bitfield_get(bf, i) {
            n += 1;
        }
        i += 1;
    }
    n
}

/// The bytes after a HAVE ALL or HAVE NONE: all ones or all zeros, with the padding bits
/// of the last byte clear.
pub open spec fn all_or_none(len: nat, piece_count: u32, all: bool) -> Seq<u8> {
    let rem = piece_count % 8;
    Seq::new(
        len,
        |i: int|
            if !all {
                0u8
            } else if i == len - 1 && rem != 0 {
                0xffu8 << ((8 - rem) as u8)
            } else {
                0xffu8
            },
    )
}

/// Set every bit of the pieces, or clear all of them.
pub fn apply_have_all_none(peer_bf: &mut Vec<u8>, piece_count: u32, all: bool)
    ensures
        final(peer_bf)@ == all_or_none(old(peer_bf)@.len(), piece_count, all),
{
    let n: usize = peer_bf.len();
    let fill: u8 = if all {
        0xff
    } else {
        0
    };
    let mut i: usize = 0;
    while i < n
        invariant
            i <= n,
            peer_bf@.len() == n,
            n == old(peer_bf)@.len(),
            forall|j: int| 0 <= j < i ==> peer_bf@[j] == fill,
        decreases n - i,
    {
        peer_bf.set(i, fill);
        i += 1;
    }
    let rem: u8 = (piece_count % 8) as u8;
    if all && rem != 0 && n > 0 {
        peer_bf.set(n - 1, 0xffu8 << (8 - rem));
    }
    assert(peer_bf@ =~= all_or_none(n as nat, piece_count, all));
}

/// In a bitfield of the right size, HAVE ALL sets the bits of the pieces and no others,
/// and HAVE NONE sets none.
pub proof fn all_or_none_bits(piece_count: u32, all: bool, i: int)
    ensures
        bit(all_or_none(bytes_for(piece_count as int) as nat, piece_count, all), i) == (all && 0 <= i
            < piece_count),
{
    let n = bytes_for(piece_count as int);
    let rem = (piece_count % 8) as u8;
    if 0 <= i && i / 8 < n {
        let k = (i % 8) as u8;
        all_ones(k);
        zero_has_no_bits(k);
        if rem != 0 {
            padding_mask(rem, k);
        }
    }
}

/// As many bits as there are pieces are set exactly where every one is, and none exactly
/// where none is.
pub proof fn counts_tell_all_and_none(bf: Seq<u8>, n: int)
    requires
        0 <= n,
    ensures
        count_bits(bf, n) <= n,
        count_bits(bf, n) == n <==> (forall|j: int| 0 <= j < n ==> #[trigger] bit(bf, j)),
        count_bits(bf, n) == 0 <==> (forall|j: int| 0 <= j < n ==> !#[trigger] bit(bf, j)),
    decreases n,
{
    if n > 0 {
        counts_tell_all_and_none(bf, n - 1);
        if forall|j: int| 0 <= j < n - 1 ==> #[trigger] bit(bf, j) {
            assert forall|j: int| 0 <= j < n && bit(bf, n - 1) implies #[trigger] bit(bf, j) by {}
        }
    }
}

} // verus!
