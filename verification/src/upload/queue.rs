//! Checks on incoming upload requests.
use vstd::prelude::*;

verus! {

/// Most requests that a peer may have queued with us; what the extension handshake
/// advertises.
pub const MAX_UPLOAD_REQQ: usize = 8192;

/// Longest request that is accepted: 128 KiB.
pub const MAX_REQUEST_LENGTH: u32 = 131_072;

/// One block that a peer asked for.
#[derive(Debug, Clone, Copy, PartialEq, Eq, Structural)]
pub struct UploadBlock {
    pub index: u32,
    pub begin: u32,
    pub length: u32,
}

/// What becomes of an upload request.
#[derive(Debug, Clone, Copy, PartialEq, Eq, Structural)]
pub enum UploadRequestStatus {
    /// It may be queued.
    Accept,
    /// It is refused, or ignored where the peer knows no refusals. The peer stays.
    Reject,
}

/// Whether a request names a block of a piece: in the torrent, not empty, not too long,
/// and inside the piece.
pub open spec fn request_fits(
    piece_count: u32,
    piece_len: u32,
    index: u32,
    begin: u32,
    length: u32,
) -> bool {
    0 < length <= MAX_REQUEST_LENGTH && index < piece_count && begin + length <= piece_len
}

/// Check a request before it is queued.
pub fn classify_upload_request(
    piece_count: u32,
    piece_len: u32,
    has_piece: bool,
    peer_interested: bool,
    index: u32,
    begin: u32,
    length: u32,
) -> (r: UploadRequestStatus)
    ensures
        r == if request_fits(piece_count, piece_len, index, begin, length) && has_piece
            && peer_interested {
            UploadRequestStatus::Accept
        } else {
            UploadRequestStatus::Reject
        },
{
    if length == 0 || length > MAX_REQUEST_LENGTH {
        return UploadRequestStatus::Reject;
    }
    if index >= piece_count || piece_len == 0 {
        return UploadRequestStatus::Reject;
    }
    if begin as u64 + length as u64 > piece_len as u64 {
        return UploadRequestStatus::Reject;
    }
    if !peer_interested || !has_piece {
        return UploadRequestStatus::Reject;
    }
    UploadRequestStatus::Accept
}

/// A block is served only from inside its piece, a byte at least and 128 KiB at most, and
/// every such block of a piece of the torrent is.
pub proof fn requests_stay_inside_their_piece(
    piece_count: u32,
    piece_len: u32,
    index: u32,
    begin: u32,
    length: u32,
)
    ensures
        request_fits(piece_count, piece_len, index, begin, length) ==> index < piece_count && begin
            < piece_len && 1 <= length <= 131_072 && begin + length - 1 < piece_len,
        index < piece_count && 1 <= length <= 131_072 && length <= piece_len && begin <= piece_len
            - length ==> request_fits(piece_count, piece_len, index, begin, length),
{
}

} // verus!
