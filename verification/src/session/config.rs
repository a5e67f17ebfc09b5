//! Settings of a session.
use crate::net::PeerAddr;
use crate::peer::config::{EncryptionMode, PeerConfig};
use crate::random::random_u32;
use crate::runtime::disk_worker::{clamp_depth, DEFAULT_DISK_DEPTH, DISK_DEPTH_MAX};
use crate::runtime::pipeline::{
    clamp_initial_pipeline, clamped, DEFAULT_PIPELINE, MAX_PIPELINE, MIN_PIPELINE,
};
use crate::staging::piece_pool::DEFAULT_STAGING_MEM_LIMIT;
use crate::text::{lowered, to_lower, trim, trimmed};
use crate::tracker::http::tracker_user_agent;
use crate::upload::{ResolvedUploadBackend, UploadOptions};
use vstd::prelude::*;
use vstd::slice::slice_to_vec;
use vstd::utf8::encode_utf8;

verus! {

/// First bytes of our peer id.
pub const DEFAULT_PEER_ID_PREFIX: &'static str = "-sc0001-";

/// Name in the extension handshake.
pub const DEFAULT_LTEP_CLIENT: &'static str = "seedchamp 1";

/// Settings of the network.
#[derive(Debug)]
pub struct NetworkConfig {
    pub announce: bool,
    pub send_buffer_bytes: u64,
    pub recv_buffer_bytes: u64,
    pub peer_id_prefix: String,
    pub http_user_agent: String,
    pub ltep_client: String,
}

/// Settings of downloads.
#[derive(Debug)]
pub struct SwarmConfig {
    pub pipeline: usize,
    pub pipeline_max: usize,
    pub staging_mem_limit: u64,
}

/// Settings of disk writes.
#[derive(Debug)]
pub struct DiskConfig {
    pub backend: String,
    pub depth: usize,
}

/// Limits.
#[derive(Debug)]
pub struct LimitsConfig {
    pub min_peers: u32,
    pub max_peers: u32,
    pub seed_dial_peers: bool,
    pub max_connections: u32,
    pub redundant_seed_idle_secs: u64,
    pub useless_peer_idle_secs: u64,
    pub max_upload_bps: u64,
    pub max_download_bps: u64,
}

impl LimitsConfig {
    /// Fewest and most peers of a torrent: at least one may connect, and the lower number is
    /// not above the upper one.
    pub fn clamped_peer_limits(&self) -> (r: (u32, u32))
        ensures
            r.1 == if self.max_peers == 0 {
                1
            } else {
                self.max_peers
            },
            r.0 == if self.min_peers > r.1 {
                r.1
            } else {
                self.min_peers
            },
    {
        let max: u32 = if self.max_peers == 0 {
            1
        } else {
            self.max_peers
        };
        (
            if self.min_peers > max {
                max
            } else {
                self.min_peers
            },
            max,
        )
    }
}

/// Settings of announces.
#[derive(Debug)]
pub struct TrackerConfig {
    pub max_concurrent_per_host: u32,
    pub startup_stagger_ms: u64,
    pub max_inflight_announces: u32,
    pub numwant: u32,
}

/// Settings of the process.
#[derive(Debug)]
pub struct Config {
    pub network: NetworkConfig,
    pub swarm: SwarmConfig,
    pub disk: DiskConfig,
    pub limits: LimitsConfig,
    pub tracker: TrackerConfig,
    pub peer_workers: Option<usize>,
    pub hash_workers: Option<usize>,
}

impl Default for Config {
    fn default() -> (c: Self)
        ensures
            c.network.announce,
            c.network.send_buffer_bytes == 0,
            c.network.recv_buffer_bytes == 0,
            c.network.peer_id_prefix@ == ""@,
            c.network.http_user_agent@ == ""@,
            c.network.ltep_client@ == ""@,
            c.swarm.pipeline == DEFAULT_PIPELINE,
            c.swarm.pipeline_max == MAX_PIPELINE,
            c.swarm.staging_mem_limit == DEFAULT_STAGING_MEM_LIMIT,
            c.disk.backend@ == "auto"@,
            c.disk.depth == DEFAULT_DISK_DEPTH,
            c.limits.min_peers == 20,
            c.limits.max_peers == 40,
            !c.limits.seed_dial_peers,
            c.limits.max_connections == 2048,
            c.limits.redundant_seed_idle_secs == 15,
            c.limits.useless_peer_idle_secs == 60,
            c.limits.max_upload_bps == 0,
            c.limits.max_download_bps == 0,
            c.tracker.max_concurrent_per_host == 2,
            c.tracker.startup_stagger_ms == 50,
            c.tracker.max_inflight_announces == 16,
            c.tracker.numwant == 50,
            c.peer_workers is None,
            c.hash_workers is None,
    {
        Config {
            network: NetworkConfig {
                announce: true,
                send_buffer_bytes: 0,
                recv_buffer_bytes: 0,
                peer_id_prefix: "".to_owned(),
                http_user_agent: "".to_owned(),
                ltep_client: "".to_owned(),
            },
            swarm: SwarmConfig {
                pipeline: DEFAULT_PIPELINE,
                pipeline_max: MAX_PIPELINE,
                staging_mem_limit: DEFAULT_STAGING_MEM_LIMIT,
            },
            disk: DiskConfig { backend: "auto".to_owned(), depth: DEFAULT_DISK_DEPTH },
            limits: LimitsConfig {
                min_peers: 20,
                max_peers: 40,
                seed_dial_peers: false,
                max_connections: 2048,
                redundant_seed_idle_secs: 15,
                useless_peer_idle_secs: 60,
                max_upload_bps: 0,
                max_download_bps: 0,
            },
            tracker: TrackerConfig {
                max_concurrent_per_host: 2,
                startup_stagger_ms: 50,
                max_inflight_announces: 16,
                numwant: 50,
            },
            peer_workers: None,
            hash_workers: None,
        }
    }
}

/// Settings of a session.
#[derive(Debug)]
pub struct RuntimeConfig {
    /// Address to listen on.
    pub listen: PeerAddr,
    pub encryption: EncryptionMode,
    pub upload: UploadOptions,
    /// Trackers are asked.
    pub announce: bool,
    /// Blocks to keep outstanding at first.
    pub pipeline: usize,
    /// Most blocks to keep outstanding.
    pub pipeline_max: usize,
    /// Bytes of piece buffers per torrent.
    pub staging_mem_limit: u64,
    pub manual_peers: Vec<PeerAddr>,
    /// Threads for peers; as many as processors where none is given.
    pub peer_workers: Option<usize>,
    /// Threads for hashing; as many as processors where none is given.
    pub hash_workers: Option<usize>,
    /// Verified pieces are not written, and nothing is served.
    pub discard_writes: bool,
    pub disk_backend: String,
    /// Most pieces that are being written.
    pub disk_depth: usize,
    /// Helpful peers that there should be for each torrent.
    pub min_peers: usize,
    /// Most peers of a torrent.
    pub max_peers: usize,
    /// Peers are dialed also for torrents that are complete.
    pub seed_dial_peers: bool,
    /// Most connections, over all torrents.
    pub max_connections: usize,
    /// Seconds after which two seeds part; zero for never.
    pub redundant_seed_idle_secs: u64,
    /// Seconds without a transfer after which a peer is left; zero for never.
    pub useless_peer_idle_secs: u64,
    pub send_buffer_bytes: u64,
    pub recv_buffer_bytes: u64,
    /// Announces to one host that may run at a time; zero for no limit.
    pub max_concurrent_per_host: u32,
    /// Milliseconds between the first announces of torrents.
    pub startup_stagger_ms: u64,
    /// Announces that may run at a time; zero for no limit.
    pub max_inflight_announces: u32,
    /// Peers that are asked for in an announce.
    pub numwant: u32,
    pub peer_id_prefix: Vec<u8>,
    pub http_user_agent: String,
    /// Name in the extension handshake.
    pub ltep_client: String,
    /// Bytes per second that are sent; zero for no limit.
    pub max_upload_bps: u64,
    /// Bytes per second that are taken; zero for no limit.
    pub max_download_bps: u64,
}

/// The text without space around it, or another one where nothing is left.
pub open spec fn text_or(s: Seq<char>, other: Seq<char>) -> Seq<char> {
    if trimmed(s).len() == 0 {
        other
    } else {
        trimmed(s)
    }
}

fn trimmed_or(s: &str, other: &str) -> (r: String)
    ensures
        r@ == text_or(s@, other@),
{
    let t = trim(s);
    if t.as_str().is_empty() {
        other.to_owned()
    } else {
        t
    }
}

/// At least one.
pub open spec fn at_least_one(n: int) -> int {
    if n < 1 {
        1
    } else {
        n
    }
}

impl Default for RuntimeConfig {
    fn default() -> (c: Self)
        ensures
            c.listen == (PeerAddr::V4 { ip: 0, port: 6881 }),
            c.encryption == EncryptionMode::PreferPlain,
            c.upload.backend == ResolvedUploadBackend::Auto,
            c.announce,
            c.pipeline == DEFAULT_PIPELINE,
            c.pipeline_max == MAX_PIPELINE,
            c.staging_mem_limit == DEFAULT_STAGING_MEM_LIMIT,
            c.manual_peers@ == Seq::<PeerAddr>::empty(),
            c.peer_workers is None,
            c.hash_workers is None,
            !c.discard_writes,
            c.disk_backend@ == "auto"@,
            c.disk_depth == DEFAULT_DISK_DEPTH,
            c.min_peers == 20,
            c.max_peers == 40,
            !c.seed_dial_peers,
            c.max_connections == 2048,
            c.redundant_seed_idle_secs == 15,
            c.useless_peer_idle_secs == 60,
            c.send_buffer_bytes == 0,
            c.recv_buffer_bytes == 0,
            c.max_concurrent_per_host == 2,
            c.startup_stagger_ms == 50,
            c.max_inflight_announces == 16,
            c.numwant == 50,
            c.peer_id_prefix@ == encode_utf8(DEFAULT_PEER_ID_PREFIX@),
            c.http_user_agent@ == "seedchamp/1"@,
            c.ltep_client@ == DEFAULT_LTEP_CLIENT@,
            c.max_upload_bps == 0,
            c.max_download_bps == 0,
    {
        RuntimeConfig {
            listen: PeerAddr::V4 { ip: 0, port: 6881 },
            encryption: EncryptionMode::PreferPlain,
            upload: UploadOptions { backend: ResolvedUploadBackend::Auto },
            announce: true,
            pipeline: DEFAULT_PIPELINE,
            pipeline_max: MAX_PIPELINE,
            staging_mem_limit: DEFAULT_STAGING_MEM_LIMIT,
            manual_peers: Vec::new(),
            peer_workers: None,
            hash_workers: None,
            discard_writes: false,
            disk_backend: "auto".to_owned(),
            disk_depth: DEFAULT_DISK_DEPTH,
            min_peers: 20,
            max_peers: 40,
            seed_dial_peers: false,
            max_connections: 2048,
            redundant_seed_idle_secs: 15,
            useless_peer_idle_secs: 60,
            send_buffer_bytes: 0,
            recv_buffer_bytes: 0,
            max_concurrent_per_host: 2,
            startup_stagger_ms: 50,
            max_inflight_announces: 16,
            numwant: 50,
            peer_id_prefix: slice_to_vec(DEFAULT_PEER_ID_PREFIX.as_bytes()),
            http_user_agent: tracker_user_agent().to_owned(),
            ltep_client: DEFAULT_LTEP_CLIENT.to_owned(),
            max_upload_bps: 0,
            max_download_bps: 0,
        }
    }
}

impl RuntimeConfig {
    /// The settings of a session under those of the process. What the process makes of its
    /// texts for the address, the encryption and uploads is given; no peers are given by hand.
    pub fn from_config(
        cfg: &Config,
        listen: PeerAddr,
        encryption: EncryptionMode,
        upload: UploadOptions,
    ) -> (c: RuntimeConfig)
        ensures
            c.listen == listen,
            c.encryption == encryption,
            c.upload == upload,
            c.announce == cfg.network.announce,
            c.pipeline == clamped(
                at_least_one(cfg.swarm.pipeline as int),
                MIN_PIPELINE as int,
                at_least_one(cfg.swarm.pipeline_max as int),
            ),
            c.pipeline_max == if cfg.swarm.pipeline_max < MIN_PIPELINE {
                MIN_PIPELINE
            } else {
                cfg.swarm.pipeline_max
            },
            c.staging_mem_limit == if cfg.swarm.staging_mem_limit == 0 {
                DEFAULT_STAGING_MEM_LIMIT
            } else {
                cfg.swarm.staging_mem_limit
            },
            c.manual_peers@ == Seq::<PeerAddr>::empty(),
            c.peer_workers == cfg.peer_workers,
            c.hash_workers == cfg.hash_workers,
            !c.discard_writes,
            c.disk_backend@ == if trimmed(cfg.disk.backend@).len() == 0 {
                "auto"@
            } else {
                lowered(trimmed(cfg.disk.backend@))
            },
            c.disk_depth == if cfg.disk.depth < 1 {
                1
            } else if cfg.disk.depth > DISK_DEPTH_MAX {
                DISK_DEPTH_MAX
            } else {
                cfg.disk.depth
            },
            c.max_peers == at_least_one(cfg.limits.max_peers as int),
            c.min_peers == if cfg.limits.min_peers > c.max_peers {
                c.max_peers as int
            } else {
                cfg.limits.min_peers as int
            },
            c.seed_dial_peers == cfg.limits.seed_dial_peers,
            c.max_connections == at_least_one(cfg.limits.max_connections as int),
            c.redundant_seed_idle_secs == cfg.limits.redundant_seed_idle_secs,
            c.useless_peer_idle_secs == cfg.limits.useless_peer_idle_secs,
            c.send_buffer_bytes == cfg.network.send_buffer_bytes,
            c.recv_buffer_bytes == cfg.network.recv_buffer_bytes,
            c.max_concurrent_per_host == cfg.tracker.max_concurrent_per_host,
            c.startup_stagger_ms == cfg.tracker.startup_stagger_ms,
            c.max_inflight_announces == cfg.tracker.max_inflight_announces,
            c.numwant == cfg.tracker.numwant,
            c.peer_id_prefix@ == encode_utf8(
                text_or(cfg.network.peer_id_prefix@, DEFAULT_PEER_ID_PREFIX@),
            ),
            c.http_user_agent@ == text_or(cfg.network.http_user_agent@, "seedchamp/1"@),
            c.ltep_client@ == text_or(cfg.network.ltep_client@, DEFAULT_LTEP_CLIENT@),
            c.max_upload_bps == cfg.limits.max_upload_bps,
            c.max_download_bps == cfg.limits.max_download_bps,
    {
        let (min_peers, max_peers) = cfg.limits.clamped_peer_limits();
        let first: usize = if cfg.swarm.pipeline < 1 {
            1
        } else {
            cfg.swarm.pipeline
        };
        let most: usize = if cfg.swarm.pipeline_max < 1 {
            1
        } else {
            cfg.swarm.pipeline_max
        };
        let backend = trim(cfg.disk.backend.as_str());
        let prefix = trimmed_or(cfg.network.peer_id_prefix.as_str(), DEFAULT_PEER_ID_PREFIX);
        RuntimeConfig {
            listen,
            encryption,
            upload,
            announce: cfg.network.announce,
            pipeline: clamp_initial_pipeline(first, most),
            pipeline_max: if cfg.swarm.pipeline_max < MIN_PIPELINE {
                MIN_PIPELINE
            } else {
                cfg.swarm.pipeline_max
            },
            staging_mem_limit: if cfg.swarm.staging_mem_limit == 0 {
                DEFAULT_STAGING_MEM_LIMIT
            } else {
                cfg.swarm.staging_mem_limit
            },
            manual_peers: Vec::new(),
            peer_workers: cfg.peer_workers,
            hash_workers: cfg.hash_workers,
            discard_writes: false,
            disk_backend: if backend.as_str().is_empty() {
                "auto".to_owned()
            } else {
                to_lower(backend.as_str())
            },
            disk_depth: clamp_depth(cfg.disk.depth),
            min_peers: min_peers as usize,
            max_peers: max_peers as usize,
            seed_dial_peers: cfg.limits.seed_dial_peers,
            max_connections: if cfg.limits.max_connections < 1 {
                1
            } else {
                cfg.limits.max_connections as usize
            },
            redundant_seed_idle_secs: cfg.limits.redundant_seed_idle_secs,
            useless_peer_idle_secs: cfg.limits.useless_peer_idle_secs,
            send_buffer_bytes: cfg.network.send_buffer_bytes,
            recv_buffer_bytes: cfg.network.recv_buffer_bytes,
            max_concurrent_per_host: cfg.tracker.max_concurrent_per_host,
            startup_stagger_ms: cfg.tracker.startup_stagger_ms,
            max_inflight_announces: cfg.tracker.max_inflight_announces,
            numwant: cfg.tracker.numwant,
            peer_id_prefix: slice_to_vec(prefix.as_str().as_bytes()),
            http_user_agent: trimmed_or(
                cfg.network.http_user_agent.as_str(),
                tracker_user_agent(),
            ),
            ltep_client: trimmed_or(cfg.network.ltep_client.as_str(), DEFAULT_LTEP_CLIENT),
            max_upload_bps: cfg.limits.max_upload_bps,
            max_download_bps: cfg.limits.max_download_bps,
        }
    }

    /// What sessions in either direction have in common.
    pub open spec fn carried_over(&self, c: PeerConfig, peer_id: [u8; 20]) -> bool {
        &&& c.peer_id == peer_id
        &&& c.encryption == self.encryption
        &&& c.allow_upload == !self.discard_writes
        &&& c.allow_download
        &&& c.can_hash
        &&& c.pipeline == self.pipeline
        &&& c.pipeline_max == self.pipeline_max
        &&& c.staging_mem_limit == self.staging_mem_limit
        &&& c.ltep_client@ == self.ltep_client@
        &&& c.listen_port == self.listen.spec_port()
        &&& c.redundant_seed_idle == self.redundant_seed_idle_secs
        &&& c.useless_peer_idle == self.useless_peer_idle_secs
    }

    /// The options of a session that we open. Nothing is served where nothing is written.
    pub fn outbound_peer(&self, peer_id: [u8; 20]) -> (c: PeerConfig)
        ensures
            self.carried_over(c, peer_id),
            c.send_buffer_bytes == self.send_buffer_bytes,
            c.recv_buffer_bytes == self.recv_buffer_bytes,
    {
        PeerConfig {
            peer_id,
            encryption: self.encryption,
            allow_upload: !self.discard_writes,
            allow_download: true,
            can_hash: true,
            pipeline: self.pipeline,
            pipeline_max: self.pipeline_max,
            staging_mem_limit: self.staging_mem_limit,
            ltep_client: self.ltep_client.as_str().to_owned(),
            listen_port: self.listen.port(),
            redundant_seed_idle: self.redundant_seed_idle_secs,
            useless_peer_idle: self.useless_peer_idle_secs,
            send_buffer_bytes: self.send_buffer_bytes,
            recv_buffer_bytes: self.recv_buffer_bytes,
        }
    }

    /// The options of a session that a peer opens. The socket's buffers are set before it
    /// begins.
    pub fn inbound_peer(&self, peer_id: [u8; 20]) -> (c: PeerConfig)
        ensures
            self.carried_over(c, peer_id),
            c.send_buffer_bytes == 0,
            c.recv_buffer_bytes == 0,
    {
        let mut c = self.outbound_peer(peer_id);
        c.send_buffer_bytes = 0;
        c.recv_buffer_bytes = 0;
        c
    }
}

/// A peer id with this prefix, and other bytes behind it.
pub fn peer_id_with(prefix: &[u8], rest: &[u8; 20]) -> (id: [u8; 20])
    ensures
        forall|i: int|
            0 <= i < 20 ==> #[trigger] id@[i] == if i < prefix@.len() {
                prefix@[i]
            } else {
                rest@[i]
            },
{
    let mut id: [u8; 20] = [0u8; 20];
    let mut i: usize = 0;
    while i < 20
        invariant
            i <= 20,
            id@.len() == 20,
            rest@.len() == 20,
            forall|j: int|
                0 <= j < i ==> #[trigger] id@[j] == if j < prefix@.len() {
                    prefix@[j]
                } else {
                    rest@[j]
                },
        decreases 20 - i,
    {
        id[i] = if i < prefix.len() {
            prefix[i]
        } else {
            rest[i]
        };
        i += 1;
    }
    id
}

/// A peer id for a session: the prefix, and random bytes behind it.
pub fn generate_peer_id_with_prefix(prefix: &[u8]) -> (id: [u8; 20])
    ensures
        forall|i: int| 0 <= i < 20 && i < prefix@.len() ==> #[trigger] id@[i] == prefix@[i],
{
    let mut rest: [u8; 20] = [0u8; 20];
    let mut i: usize = 0;
    while i < 20
        invariant
            i <= 20,
            rest@.len() == 20,
        decreases 20 - i,
    {
        rest[i] = (random_u32() % 256) as u8;
        i += 1;
    }
    peer_id_with(prefix, &rest)
}

/// A text that is empty but for white space gives way to the other one.
pub proof fn empty_texts_give_way(s: Seq<char>, other: Seq<char>)
    ensures
        trimmed(s).len() == 0 ==> text_or(s, other) == other,
        trimmed(s).len() > 0 ==> text_or(s, other) == trimmed(s),
{
}

/// A number is raised to one, and kept where it is more.
pub proof fn numbers_are_at_least_one(n: int)
    ensures
        at_least_one(n) >= 1,
        n >= 1 ==> at_least_one(n) == n,
        n < 1 ==> at_least_one(n) == 1,
{
}

/// A peer is run with the session's settings: our id and port, its encryption, and its limits.
/// Nothing is sent where what is fetched is thrown away.
pub proof fn peers_run_with_the_settings(s: RuntimeConfig, c: PeerConfig, peer_id: [u8; 20])
    requires
        s.carried_over(c, peer_id),
    ensures
        c.peer_id == peer_id,
        c.encryption == s.encryption,
        c.allow_upload <==> !s.discard_writes,
        c.allow_download && c.can_hash,
        c.pipeline == s.pipeline && c.pipeline_max == s.pipeline_max,
        c.staging_mem_limit == s.staging_mem_limit,
        c.ltep_client@ == s.ltep_client@,
        s.listen matches PeerAddr::V4 { port, .. } ==> c.listen_port == port,
        s.listen matches PeerAddr::V6 { port, .. } ==> c.listen_port == port,
        c.redundant_seed_idle == s.redundant_seed_idle_secs,
        c.useless_peer_idle == s.useless_peer_idle_secs,
{
}

} // verus!
