//! The PIECE frame that precedes an uploaded block.
use crate::bytes::{be32, be32_round_trip};
use crate::upload::PIECE_HEADER_LEN;
use crate::wire::messages::{
    encoded, piece_header, MessageView, PieceHeader, MAX_MESSAGE_LENGTH, MSG_PIECE,
};
use vstd::prelude::*;

verus! {

/// The 13 bytes before a block of `length` bytes.
pub open spec fn header_bytes(index: u32, begin: u32, length: u32) -> Seq<u8> {
    be32((9 + length) as u32) + seq![MSG_PIECE] + be32(index) + be32(begin)
}

/// Write the header of a block into `dst[0..13]`.
pub fn fill_piece_header(dst: &mut Vec<u8>, index: u32, begin: u32, length: u32)
    requires
        old(dst)@.len() >= PIECE_HEADER_LEN,
        length <= u32::MAX - 9,
    ensures
        final(dst)@ == header_bytes(index, begin, length) + old(dst)@.subrange(
            PIECE_HEADER_LEN as int,
            old(dst)@.len() as int,
        ),
{
    let header: [u8; 13] = build_piece_header(index, begin, length);
    let mut i: usize = 0;
    while i < PIECE_HEADER_LEN
        invariant
            i <= 13,
            dst@.len() == old(dst)@.len() >= 13,
            header@ == header_bytes(index, begin, length),
            header@.len() == 13,
            forall|j: int| 0 <= j < i ==> dst@[j] == header@[j],
            forall|j: int| i <= j < dst@.len() ==> dst@[j] == old(dst)@[j],
        decreases 13 - i,
    {
        dst.set(i, header[i]);
        i += 1;
    }
    assert(dst@ =~= header@ + old(dst)@.subrange(13, old(dst)@.len() as int));
}

/// The header of a block.
pub fn build_piece_header(index: u32, begin: u32, length: u32) -> (h: [u8; PIECE_HEADER_LEN])
    requires
        length <= u32::MAX - 9,
    ensures
        h@ == header_bytes(index, begin, length),
{
    let n: u32 = 9 + length;
    let h: [u8; PIECE_HEADER_LEN] = [
        (n / 0x100_0000) as u8,
        (n / 0x1_0000 % 0x100) as u8,
        (n / 0x100 % 0x100) as u8,
        (n % 0x100) as u8,
        MSG_PIECE,
        (index / 0x100_0000) as u8,
        (index / 0x1_0000 % 0x100) as u8,
        (index / 0x100 % 0x100) as u8,
        (index % 0x100) as u8,
        (begin / 0x100_0000) as u8,
        (begin / 0x1_0000 % 0x100) as u8,
        (begin / 0x100 % 0x100) as u8,
        (begin % 0x100) as u8,
    ];
    assert(h@ =~= header_bytes(index, begin, length));
    h
}

/// Header and block together are the PIECE message, and the header reads back.
pub proof fn header_and_block_are_the_message(index: u32, begin: u32, block: Seq<u8>)
    requires
        9 + block.len() <= MAX_MESSAGE_LENGTH,
    ensures
        header_bytes(index, begin, block.len() as u32) + block == encoded(
            MessageView::Piece { index, begin, block },
        ),
        piece_header(header_bytes(index, begin, block.len() as u32)) == Ok::<
            Option<PieceHeader>,
            Seq<char>,
        >(
            Some(
                PieceHeader {
                    index,
                    begin,
                    block_len: block.len() as u32,
                    message_len: (9 + block.len()) as u32,
                },
            ),
        ),
{
    let n = block.len() as u32;
    let h = header_bytes(index, begin, n);
    vstd::arithmetic::div_mod::lemma_small_mod((9 + n) as nat, 0x1_0000_0000);
    let payload = be32(index) + be32(begin) + block;
    assert(1 + payload.len() == 9 + n);
    assert(h + block =~= be32((9 + n) as u32) + seq![MSG_PIECE] + payload);
    assert(h + block =~= encoded(MessageView::Piece { index, begin, block }));
    assert(h.subrange(0, 4) =~= be32((9 + n) as u32));
    assert(h.subrange(5, 9) =~= be32(index));
    assert(h.subrange(9, 13) =~= be32(begin));
    be32_round_trip(h, 0, (9 + n) as u32);
    be32_round_trip(h, 5, index);
    be32_round_trip(h, 9, begin);
}

/// The header that goes out before a block has the bytes of the protocol.
pub proof fn block_headers_have_the_bytes_of_the_protocol(index: u32, begin: u32, length: u32)
    requires
        length <= u32::MAX - 9,
    ensures
        header_bytes(index, begin, length) == be32((9 + length) as u32) + seq![7u8] + be32(index)
            + be32(begin),
        header_bytes(index, begin, length).len() == 13,
{
}

} // verus!
