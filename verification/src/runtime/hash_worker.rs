//! Checking pieces against their hashes.
use crate::bytes::bytes_eq;
use crate::hash::{sha1, sha1_digest};
use vstd::prelude::*;
use vstd::slice::slice_subrange;

verus! {

/// What became of a piece that was handed over. The buffer goes back to its owner.
#[derive(Debug)]
pub enum HashOutcome {
    /// The hash is right and the piece is on disk.
    Done { index: u32, plen: u32, data: Vec<u8> },
    /// The hash is wrong.
    HashFail { index: u32, plen: u32, data: Vec<u8> },
    /// The hash is right, but the piece could not be written.
    WriteFail { index: u32, plen: u32, data: Vec<u8> },
}

impl HashOutcome {
    /// The piece.
    pub open spec fn piece(&self) -> u32 {
        match self {
            HashOutcome::Done { index, .. } => *index,
            HashOutcome::HashFail { index, .. } => *index,
            HashOutcome::WriteFail { index, .. } => *index,
        }
    }

    /// Its length.
    pub open spec fn length(&self) -> u32 {
        match self {
            HashOutcome::Done { plen, .. } => *plen,
            HashOutcome::HashFail { plen, .. } => *plen,
            HashOutcome::WriteFail { plen, .. } => *plen,
        }
    }

    /// The buffer that it comes back in.
    pub open spec fn buffer(&self) -> Seq<u8> {
        match self {
            HashOutcome::Done { data, .. } => data@,
            HashOutcome::HashFail { data, .. } => data@,
            HashOutcome::WriteFail { data, .. } => data@,
        }
    }
}

/// A piece to check. The buffer may be longer than the piece.
#[derive(Debug)]
pub struct HashJob {
    pub index: u32,
    pub plen: u32,
    pub data: Vec<u8>,
    pub expected: Vec<u8>,
}

/// A checked piece to write.
#[derive(Debug)]
pub struct DiskWriteJob {
    pub index: u32,
    pub plen: u32,
    pub data: Vec<u8>,
}

/// What to do with a piece after its check.
#[derive(Debug)]
pub enum Verified {
    Reply(HashOutcome),
    Write(DiskWriteJob),
}

/// Whether a digest is this hash. One that is not twenty bytes long fits nothing.
pub fn digest_eq(digest: &[u8; 20], expected20: &[u8]) -> (r: bool)
    ensures
        r == (expected20@.len() == 20 && digest@ == expected20@),
{
    expected20.len() == 20 && bytes_eq(digest.as_slice(), expected20)
}

/// Whether bytes have this hash. One that is not twenty bytes long fits nothing.
pub fn sha1_eq(data: &[u8], expected20: &[u8]) -> (r: bool)
    ensures
        r == (expected20@.len() == 20 && sha1_digest(data@) == expected20@),
{
    let h: [u8; 20] = sha1(data);
    digest_eq(&h, expected20)
}

/// The bytes of a piece in its buffer.
pub open spec fn piece_bytes(data: Seq<u8>, plen: u32) -> Seq<u8> {
    if data.len() >= plen {
        data.subrange(0, plen as int)
    } else {
        data
    }
}

/// Whether the piece of a job has the hash that it must have.
pub open spec fn hash_is_right(job: HashJob) -> bool {
    job.expected@.len() == 20 && sha1_digest(piece_bytes(job.data@, job.plen)) == job.expected@
}

/// What to do with a piece that has been checked: one with the wrong hash goes back, one with
/// the right hash is written, or counts as written where writes are discarded.
pub fn after_check(job: HashJob, right: bool, discard_writes: bool) -> (r: Verified)
    ensures
        r == if !right {
            Verified::Reply(
                HashOutcome::HashFail { index: job.index, plen: job.plen, data: job.data },
            )
        } else if discard_writes {
            Verified::Reply(HashOutcome::Done { index: job.index, plen: job.plen, data: job.data })
        } else {
            Verified::Write(
                DiskWriteJob { index: job.index, plen: job.plen, data: job.data },
            )
        },
{
    let index: u32 = job.index;
    let plen: u32 = job.plen;
    let data = job.data;
    if !right {
        return Verified::Reply(HashOutcome::HashFail { index, plen, data });
    }
    if discard_writes {
        return Verified::Reply(HashOutcome::Done { index, plen, data });
    }
    Verified::Write(DiskWriteJob { index, plen, data })
}

/// Check a piece: one with the wrong hash goes back, one with the right hash is written, or
/// counts as written where writes are discarded.
pub fn handle_verify(job: HashJob, discard_writes: bool) -> (r: Verified)
    ensures
        r == if !hash_is_right(job) {
            Verified::Reply(
                HashOutcome::HashFail { index: job.index, plen: job.plen, data: job.data },
            )
        } else if discard_writes {
            Verified::Reply(HashOutcome::Done { index: job.index, plen: job.plen, data: job.data })
        } else {
            Verified::Write(
                DiskWriteJob { index: job.index, plen: job.plen, data: job.data },
            )
        },
{
    let plen: usize = job.plen as usize;
    let right: bool = if job.data.len() >= plen {
        sha1_eq(slice_subrange(job.data.as_slice(), 0, plen), job.expected.as_slice())
    } else {
        sha1_eq(job.data.as_slice(), job.expected.as_slice())
    };
    after_check(job, right, discard_writes)
}

/// The reply where a checked piece could not be handed to the disk.
pub fn write_refused(write: DiskWriteJob) -> (r: HashOutcome)
    ensures
        r == (HashOutcome::WriteFail { index: write.index, plen: write.plen, data: write.data }),
{
    HashOutcome::WriteFail { index: write.index, plen: write.plen, data: write.data }
}

/// Outcome of rechecking one piece.
#[derive(Debug, Clone, Copy, PartialEq, Eq, Structural)]
pub enum RecheckPieceResult {
    Good { index: u32 },
    Bad { index: u32 },
    /// The piece could not be read.
    Missing { index: u32 },
}

/// Judge a piece on disk by the digest of its bytes, where they could be read.
pub fn recheck_verdict(index: u32, expected: &[u8; 20], digest: Option<[u8; 20]>) -> (r:
    RecheckPieceResult)
    ensures
        r == match digest {
            Some(d) => if d@ == expected@ {
                RecheckPieceResult::Good { index }
            } else {
                RecheckPieceResult::Bad { index }
            },
            None => RecheckPieceResult::Missing { index },
        },
{
    match digest {
        Some(d) => if bytes_eq(d.as_slice(), expected.as_slice()) {
            RecheckPieceResult::Good { index }
        } else {
            RecheckPieceResult::Bad { index }
        },
        None => RecheckPieceResult::Missing { index },
    }
}

/// Check a piece on disk by its bytes, where they could be read.
pub fn handle_recheck(index: u32, expected: &[u8; 20], data: Option<&[u8]>) -> (r:
    RecheckPieceResult)
    ensures
        r == match data {
            Some(d) => if sha1_digest(d@) == expected@ {
                RecheckPieceResult::Good { index }
            } else {
                RecheckPieceResult::Bad { index }
            },
            None => RecheckPieceResult::Missing { index },
        },
{
    let digest: Option<[u8; 20]> = match data {
        Some(d) => Some(sha1(d)),
        None => None,
    };
    recheck_verdict(index, expected, digest)
}

/// State of a queue of jobs.
#[derive(Debug, Clone, Copy, PartialEq, Eq, Structural)]
pub enum QueueState {
    Waiting,
    Empty,
    /// Empty, and nothing more will come.
    Closed,
}

/// What a worker does next.
#[derive(Debug, Clone, Copy, PartialEq, Eq, Structural)]
pub enum NextJob {
    Verify,
    Recheck,
    AwaitEither,
    AwaitVerify,
    AwaitRecheck,
    Exit,
}

/// Fetched pieces go before rechecks.
pub fn next_job(leech: QueueState, recheck: QueueState) -> (r: NextJob)
    ensures
        r == NextJob::Verify <==> leech == QueueState::Waiting,
        r == NextJob::Recheck <==> leech != QueueState::Waiting && recheck == QueueState::Waiting,
        r == NextJob::AwaitEither <==> leech == QueueState::Empty && recheck == QueueState::Empty,
        r == NextJob::AwaitVerify <==> leech == QueueState::Empty && recheck == QueueState::Closed,
        r == NextJob::AwaitRecheck <==> leech == QueueState::Closed && recheck
            == QueueState::Empty,
        r == NextJob::Exit <==> leech == QueueState::Closed && recheck == QueueState::Closed,
{
    match leech {
        QueueState::Waiting => NextJob::Verify,
        QueueState::Empty => match recheck {
            QueueState::Waiting => NextJob::Recheck,
            QueueState::Empty => NextJob::AwaitEither,
            QueueState::Closed => NextJob::AwaitVerify,
        },
        QueueState::Closed => match recheck {
            QueueState::Waiting => NextJob::Recheck,
            QueueState::Empty => NextJob::AwaitRecheck,
            QueueState::Closed => NextJob::Exit,
        },
    }
}

/// Number of workers where none is configured: one per processor, four where their number
/// is not known.
pub fn default_hash_workers(parallelism: Option<usize>) -> (n: usize)
    ensures
        n == match parallelism {
            Some(p) => if p == 0 {
                1
            } else {
                p
            },
            None => 4,
        },
{
    match parallelism {
        Some(p) => if p == 0 {
            1
        } else {
            p
        },
        None => 4,
    }
}

/// Only the bytes of the piece are hashed: what else the buffer holds does not count, and one
/// that is right has a hash of twenty bytes.
pub proof fn the_rest_of_the_buffer_does_not_count(job: HashJob, piece: Seq<u8>, rest: Seq<u8>)
    requires
        job.data@ == piece + rest,
        piece.len() == job.plen,
    ensures
        piece_bytes(job.data@, job.plen) == piece,
        piece_bytes(piece, job.plen) == piece,
        hash_is_right(job) <==> job.expected@.len() == 20 && sha1_digest(piece) == job.expected@,
{
    assert(piece_bytes(job.data@, job.plen) =~= piece);
    assert(piece_bytes(piece, job.plen) =~= piece);
}

/// An outcome tells its piece, its length and its buffer, whatever it is.
pub proof fn outcomes_tell_their_piece(index: u32, plen: u32, data: Vec<u8>)
    ensures
        ({
            let done = HashOutcome::Done { index, plen, data };
            let bad = HashOutcome::HashFail { index, plen, data };
            let unwritten = HashOutcome::WriteFail { index, plen, data };
            &&& done.piece() == index && bad.piece() == index && unwritten.piece() == index
            &&& done.length() == plen && bad.length() == plen && unwritten.length() == plen
            &&& done.buffer() == data@ && bad.buffer() == data@ && unwritten.buffer() == data@
        }),
{
}

} // verus!
