//! Options of a peer session.
use crate::peer::helpers::SECOND;
use crate::runtime::pipeline::{DEFAULT_PIPELINE, MAX_PIPELINE};
use crate::staging::piece_pool::DEFAULT_STAGING_MEM_LIMIT;
use vstd::prelude::*;

verus! {

/// Which encryption a connection is opened with and accepted with.
#[derive(Debug, Clone, Copy, PartialEq, Eq, Structural)]
pub enum EncryptionMode {
    /// Plain first, then encrypted.
    PreferPlain,
    /// Encrypted first, then plain.
    PreferRc4,
    /// Encrypted alone.
    RequireRc4,
    /// Plain alone.
    Off,
}

impl EncryptionMode {
    /// Whether an encrypted handshake is offered and accepted.
    pub fn wants_pe(self) -> (r: bool)
        ensures
            r == (self != EncryptionMode::Off),
    {
        match self {
            EncryptionMode::Off => false,
            _ => true,
        }
    }

    /// Whether nothing but RC4 will do.
    pub fn requires_rc4(self) -> (r: bool)
        ensures
            r == (self == EncryptionMode::RequireRc4),
    {
        match self {
            EncryptionMode::RequireRc4 => true,
            _ => false,
        }
    }
}

/// Options of a peer session, inbound and outbound.
#[derive(Debug)]
pub struct PeerConfig {
    pub peer_id: [u8; 20],
    pub encryption: EncryptionMode,
    /// Serve the peer's requests.
    pub allow_upload: bool,
    /// Fetch from the peer where wanted pieces are missing.
    pub allow_download: bool,
    /// Whether pieces can be hashed; without, nothing is fetched.
    pub can_hash: bool,
    /// Blocks to keep outstanding at first.
    pub pipeline: usize,
    /// Most blocks to keep outstanding.
    pub pipeline_max: usize,
    /// Bytes of piece buffers per torrent.
    pub staging_mem_limit: u64,
    /// Name in the extension handshake.
    pub ltep_client: String,
    pub listen_port: u16,
    /// Seconds after which two seeds part; zero for never.
    pub redundant_seed_idle: u64,
    /// Seconds without a transfer after which a peer is left; zero for never.
    pub useless_peer_idle: u64,
    /// Bytes of the socket's send buffer; zero leaves it to the system.
    pub send_buffer_bytes: u64,
    /// Bytes of the socket's receive buffer; zero leaves it to the system.
    pub recv_buffer_bytes: u64,
}

impl PeerConfig {
    /// The options that hold where none is set, for a client of this name.
    pub fn with_client(ltep_client: String) -> (c: PeerConfig)
        ensures
            c.peer_id@ == Seq::new(20, |i: int| 0u8),
            c.encryption == EncryptionMode::PreferPlain,
            c.allow_upload,
            c.allow_download,
            !c.can_hash,
            c.pipeline == DEFAULT_PIPELINE,
            c.pipeline_max == MAX_PIPELINE,
            c.staging_mem_limit == DEFAULT_STAGING_MEM_LIMIT,
            c.ltep_client == ltep_client,
            c.listen_port == 6881,
            c.redundant_seed_idle == 15,
            c.useless_peer_idle == 60,
            c.send_buffer_bytes == 0,
            c.recv_buffer_bytes == 0,
    {
        let c = PeerConfig {
            peer_id: [0u8; 20],
            encryption: EncryptionMode::PreferPlain,
            allow_upload: true,
            allow_download: true,
            can_hash: false,
            pipeline: DEFAULT_PIPELINE,
            pipeline_max: MAX_PIPELINE,
            staging_mem_limit: DEFAULT_STAGING_MEM_LIMIT,
            ltep_client,
            listen_port: 6881,
            redundant_seed_idle: 15,
            useless_peer_idle: 60,
            send_buffer_bytes: 0,
            recv_buffer_bytes: 0,
        };
        assert(c.peer_id@ =~= Seq::new(20, |i: int| 0u8));
        c
    }

    /// Whether we fetch from a peer of a torrent that is complete or not.
    pub open spec fn fetches(&self, complete: bool) -> bool {
        self.allow_download && self.can_hash && !complete
    }

    /// Whether we fetch from a peer of a torrent that is complete or not.
    pub fn wants_download(&self, complete: bool) -> (r: bool)
        ensures
            r == self.fetches(complete),
    {
        self.allow_download && self.can_hash && !complete
    }

    /// Seconds without a transfer after which a peer is left, zero for never. Two seeds have
    /// a time of their own, where one is set.
    pub open spec fn idle_limit(&self, both_complete: bool) -> u64 {
        if both_complete && self.redundant_seed_idle != 0 {
            self.redundant_seed_idle
        } else {
            self.useless_peer_idle
        }
    }

    /// When a peer is left if nothing is transferred since `last_transfer`, in nanoseconds.
    /// None where it is never left for that, or not before the clock ends.
    pub open spec fn left_at(&self, both_complete: bool, last_transfer: u64) -> Option<u64> {
        let limit = self.idle_limit(both_complete);
        let at = last_transfer + limit * SECOND;
        if limit != 0 && at <= u64::MAX {
            Some(at as u64)
        } else {
            None
        }
    }

    /// When a peer is left if nothing is transferred since `last_transfer`, in nanoseconds.
    pub fn idle_deadline(&self, both_complete: bool, last_transfer: u64) -> (r: Option<u64>)
        ensures
            r == self.left_at(both_complete, last_transfer),
    {
        let limit: u64 = if both_complete && self.redundant_seed_idle != 0 {
            self.redundant_seed_idle
        } else {
            self.useless_peer_idle
        };
        if limit == 0 {
            return None;
        }
        match limit.checked_mul(SECOND) {
            Some(nanos) => last_transfer.checked_add(nanos),
            None => None,
        }
    }
}

/// We fetch from a peer exactly where that is allowed, pieces can be hashed and some are
/// missing.
pub proof fn fetching_needs_hashing_and_missing_pieces(cfg: &PeerConfig, complete: bool)
    ensures
        complete ==> !cfg.fetches(complete),
        !cfg.can_hash ==> !cfg.fetches(complete),
        !cfg.allow_download ==> !cfg.fetches(complete),
        cfg.allow_download && cfg.can_hash ==> cfg.fetches(false),
{
}

/// Two seeds part after their own time where one is set, and any peer after the other one;
/// zero stands for never.
pub proof fn idle_peers_are_left_in_time(cfg: &PeerConfig, last: u64)
    ensures
        0 < cfg.redundant_seed_idle && last + cfg.redundant_seed_idle * 1_000_000_000 <= u64::MAX
            ==> cfg.left_at(true, last) == Some(
            (last + cfg.redundant_seed_idle * 1_000_000_000) as u64,
        ),
        cfg.redundant_seed_idle == 0 ==> cfg.left_at(true, last) == cfg.left_at(false, last),
        0 < cfg.useless_peer_idle && last + cfg.useless_peer_idle * 1_000_000_000 <= u64::MAX
            ==> cfg.left_at(false, last) == Some(
            (last + cfg.useless_peer_idle * 1_000_000_000) as u64,
        ),
        cfg.useless_peer_idle == 0 ==> cfg.left_at(false, last) is None,
{
}

/// Two seeds are left after their own time, where one is set, and other peers after theirs.
pub proof fn seeds_have_a_time_of_their_own(cfg: &PeerConfig)
    ensures
        cfg.redundant_seed_idle > 0 ==> cfg.idle_limit(true) == cfg.redundant_seed_idle,
        cfg.redundant_seed_idle == 0 ==> cfg.idle_limit(true) == cfg.useless_peer_idle,
        cfg.idle_limit(false) == cfg.useless_peer_idle,
{
}

} // verus!
