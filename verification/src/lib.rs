//! The verified core of a latency benchmark and market data monitor.
//!
//! `order`, `eip712`, `crypto` and `client` hold what the benchmark signs and
//! sends, and `wad` and `stats` what it reports. `monitor`, `tracker` and
//! `checker` follow the streams and books of the exchange, on the ground of
//! `message`, `json`, `stream`, `book` and `checksum`.

pub mod book;
pub mod checker;
pub mod checksum;
pub mod client;
pub mod crypto;
pub mod decimal;
pub mod eip712;
pub mod encoding;
pub mod json;
pub mod message;
pub mod monitor;
pub mod order;
pub mod stats;
pub mod stream;
pub mod table;
pub mod text;
pub mod tracker;
pub mod wad;
