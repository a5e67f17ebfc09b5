//! BitTorrent wire protocol: messages, Fast extension, peer identification.
pub mod fast;
pub mod messages;
pub mod peer_id;
