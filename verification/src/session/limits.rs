//! Limits of a running session.
use vstd::prelude::*;

verus! {

/// Limits as they are set by the user. Zero bytes per second stands for no limit.
#[derive(Debug, Clone, Copy, PartialEq, Eq, Structural)]
pub struct SessionLimits {
    pub max_upload_bps: u64,
    pub max_download_bps: u64,
    pub min_peers: u32,
    pub max_peers: u32,
}

/// Peers of a torrent: the number to refill to, and the most there may be.
#[derive(Debug, Clone, Copy, PartialEq, Eq, Structural)]
pub struct PeerBounds {
    pub min_peers: usize,
    pub max_peers: usize,
}

/// At least one peer, and no lower bound above the upper one.
pub open spec fn bounds_of(min_peers: int, max_peers: int) -> (int, int) {
    let max = if max_peers < 1 {
        1
    } else {
        max_peers
    };
    let min = if min_peers > max {
        max
    } else {
        min_peers
    };
    (
        if min < 1 {
            1
        } else {
            min
        },
        max,
    )
}

impl PeerBounds {
    /// At least one peer, and no lower bound above the upper one.
    pub fn new(min_peers: usize, max_peers: usize) -> (b: PeerBounds)
        ensures
            (b.min_peers as int, b.max_peers as int) == bounds_of(
                min_peers as int,
                max_peers as int,
            ),
            1 <= b.min_peers <= b.max_peers,
    {
        let max: usize = if max_peers < 1 {
            1
        } else {
            max_peers
        };
        let min: usize = if min_peers > max {
            max
        } else {
            min_peers
        };
        PeerBounds {
            min_peers: if min < 1 {
                1
            } else {
                min
            },
            max_peers: max,
        }
    }
}

/// The bounds that limits set by the user ask for.
pub fn apply_session_limits(lim: &SessionLimits) -> (b: PeerBounds)
    ensures
        (b.min_peers as int, b.max_peers as int) == bounds_of(
            lim.min_peers as int,
            lim.max_peers as int,
        ),
        1 <= b.min_peers <= b.max_peers,
{
    PeerBounds::new(lim.min_peers as usize, lim.max_peers as usize)
}

/// Bounds that make sense are kept. A torrent may always have a peer, and is never refilled
/// beyond the most that it may have.
pub proof fn sensible_bounds_are_kept(min_peers: int, max_peers: int)
    ensures
        1 <= min_peers <= max_peers ==> bounds_of(min_peers, max_peers) == (min_peers, max_peers),
        min_peers > max_peers >= 1 ==> bounds_of(min_peers, max_peers) == (max_peers, max_peers),
        max_peers < 1 ==> bounds_of(min_peers, max_peers) == (1int, 1int),
        min_peers < 1 && max_peers >= 1 ==> bounds_of(min_peers, max_peers) == (1int, max_peers),
{
}

} // verus!
