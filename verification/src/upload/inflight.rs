//! A PIECE that is being sent.
use crate::error::{Error, Result};
use crate::text::{decimal, push_decimal};
use crate::upload::queue::UploadBlock;
use crate::upload::{PIECE_HEADER_LEN, UPLOAD_BLOCK_LEN};
use vstd::prelude::*;

verus! {

/// How far a PIECE is on its way.
#[derive(Debug, Clone, Copy, PartialEq, Eq, Structural)]
pub enum InFlightState {
    /// The frame is in the scratch buffer; `sent` of its `total` bytes are on the wire.
    Buffered { total: usize, sent: usize, payload: u64 },
}

/// A PIECE that is being sent from the scratch buffer.
#[derive(Debug, Clone, Copy, PartialEq, Eq, Structural)]
pub struct InFlightUpload {
    pub block: UploadBlock,
    /// The cipher has advanced over the frame. Dropping it would put the peer's
    /// decryption out of step.
    pub cipher_applied: bool,
    /// Upload allowance that is reserved for the block.
    pub rate_reserved: u64,
    pub state: InFlightState,
}

impl InFlightUpload {
    /// Whether some of the frame is on the wire.
    pub open spec fn on_wire(self) -> bool {
        self.state->sent > 0
    }

    /// Whether the send may be dropped: nothing is on the wire and the cipher has not
    /// advanced.
    pub open spec fn droppable(self) -> bool {
        !self.on_wire() && !self.cipher_applied
    }

    /// Whether some of the frame is on the wire.
    pub fn any_wire_bytes(&self) -> (r: bool)
        ensures
            r == self.on_wire(),
    {
        match self.state {
            InFlightState::Buffered { sent, .. } => sent > 0,
        }
    }

    /// Whether the send may be dropped.
    pub fn can_abort(&self) -> (r: bool)
        ensures
            r == self.droppable(),
    {
        !self.any_wire_bytes() && !self.cipher_applied
    }

    /// The send of a block whose frame was just put into the scratch buffer.
    pub fn buffered(block: UploadBlock, cipher_applied: bool) -> (r: Self)
        requires
            block.length <= UPLOAD_BLOCK_LEN,
        ensures
            r == (InFlightUpload {
                block,
                cipher_applied,
                rate_reserved: 0,
                state: InFlightState::Buffered {
                    total: (PIECE_HEADER_LEN + block.length) as usize,
                    sent: 0,
                    payload: block.length as u64,
                },
            }),
    {
        InFlightUpload {
            block,
            cipher_applied,
            rate_reserved: 0,
            state: InFlightState::Buffered {
                total: PIECE_HEADER_LEN + block.length as usize,
                sent: 0,
                payload: block.length as u64,
            },
        }
    }

    /// A send in any state of progress.
    pub fn test_buffered(block: UploadBlock, cipher_applied: bool, sent: usize, total: usize) -> (r:
        Self)
        ensures
            r.block == block,
            r.cipher_applied == cipher_applied,
            r.rate_reserved == 0,
            r.state->sent == sent,
            r.state->payload == 0,
            r.state->total == if total >= sent && total >= 1 {
                total
            } else if sent >= 1 {
                sent
            } else {
                1
            },
    {
        let at_least: usize = if sent >= 1 {
            sent
        } else {
            1
        };
        InFlightUpload {
            block,
            cipher_applied,
            rate_reserved: 0,
            state: InFlightState::Buffered {
                total: if total >= at_least {
                    total
                } else {
                    at_least
                },
                sent,
                payload: 0,
            },
        }
    }
}

/// Why a block cannot be read for upload, if it cannot.
pub open spec fn upload_refusal(block: UploadBlock, plen: u32) -> Option<Seq<char>> {
    if block.begin + block.length > plen {
        Some("request past piece end"@)
    } else if block.length == 0 {
        Some("zero-length piece request"@)
    } else if block.length > UPLOAD_BLOCK_LEN {
        Some(
            "piece request length "@ + decimal(block.length as nat) + " > upload block "@ + decimal(
                UPLOAD_BLOCK_LEN as nat,
            ),
        )
    } else {
        None
    }
}

/// Check a block before its payload is read; gives the offset of the block in the
/// torrent. `plen` is the length of its piece.
pub fn plan_upload(block: UploadBlock, plen: u32, piece_length: u32) -> (r: Result<u64>)
    ensures
        match r {
            Ok(off) => upload_refusal(block, plen) is None && off == block.index * piece_length
                + block.begin,
            Err(e) => e is Msg && upload_refusal(block, plen) == Some(e.text()),
        },
{
    if block.begin as u64 + block.length as u64 > plen as u64 {
        return Err(Error::msg("request past piece end"));
    }
    if block.length == 0 {
        return Err(Error::msg("zero-length piece request"));
    }
    if block.length > UPLOAD_BLOCK_LEN {
        let mut m = String::new();
        m.append("piece request length ");
        push_decimal(&mut m, block.length as u64);
        m.append(" > upload block ");
        push_decimal(&mut m, UPLOAD_BLOCK_LEN as u64);
        assert(m@ =~= "piece request length "@ + decimal(block.length as nat)
            + " > upload block "@ + decimal(UPLOAD_BLOCK_LEN as nat));
        return Err(Error::Msg(m));
    }
    let index: u64 = block.index as u64;
    let len: u64 = piece_length as u64;
    assert(index * len <= 0xffff_ffff * 0xffff_ffff) by (nonlinear_arith)
        requires
            index <= 0xffff_ffff,
            len <= 0xffff_ffff,
    ;
    Ok(index * len + block.begin as u64)
}

/// A block is read exactly where it lies inside its piece, is not empty and fits the scratch
/// buffer.
pub proof fn blocks_are_read_from_inside_their_piece(block: UploadBlock, plen: u32)
    ensures
        upload_refusal(block, plen) is None <==> 1 <= block.length <= 16_384 && block.begin
            + block.length <= plen,
{
}

/// A send may be dropped only while none of it is on the wire and the cipher has not passed it.
pub proof fn begun_sends_are_not_dropped(u: InFlightUpload)
    ensures
        u.on_wire() <==> u.state->sent > 0,
        u.on_wire() ==> !u.droppable(),
        u.cipher_applied ==> !u.droppable(),
        !u.on_wire() && !u.cipher_applied ==> u.droppable(),
{
}

} // verus!
