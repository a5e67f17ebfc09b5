//! Work that runs beside the peers: hashing, disk, pipeline sizing.
pub mod disk_worker;
pub mod hash_worker;
pub mod pipeline;
pub mod pool;
pub mod recheck_pool;
