//! A running session: what is announced, dialed, admitted and shown.
pub mod announce;
pub mod catalog_io;
pub mod config;
pub mod dial;
pub mod dial_policy;
pub mod lifecycle;
pub mod limits;
pub mod peer_policy;
pub mod rates;
pub mod relocate;
pub mod snapshot;
pub mod table;
