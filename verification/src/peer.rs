//! One peer connection: outbound queue, download state, session decisions.
pub mod config;
pub mod ctrl_scratch;
pub mod download;
pub mod duplex;
pub mod establish;
pub mod established;
pub mod helpers;
pub mod out_queue;
pub mod reader_turn;
