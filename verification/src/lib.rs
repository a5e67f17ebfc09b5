//! BitTorrent engine: the wire protocol, piece staging, upload queueing, tracker
//! exchange and session policy, each with a contract that Verus proves.
//!
//! Sockets, files, threads and clocks stay outside: callers hand in the bytes they
//! read and the time they saw, and carry out the actions that come back.
use vstd::prelude::*;

pub mod bencode;
pub mod bitfield;
pub mod bytes;
pub mod error;
pub mod hash;
pub mod hex;
pub mod hot;
pub mod net;
pub mod peer;
pub mod process_metrics;
mod random;
pub mod rate;
pub mod rate_limit;
pub mod runtime;
pub mod session;
pub mod staging;
pub mod text;
pub mod tracker;
pub mod upload;
pub mod wire;

verus! {

} // verus!
