//! An exchange matching engine: order-entry and market-data codecs, a
//! write-ahead log, bounded rings, and the engine's own bookkeeping.

pub mod bytes;
pub mod cli;
pub mod cli_laws;
pub mod codec;
pub mod egress;
pub mod engine;
pub mod engine_laws;
pub mod ingress;
pub mod io_laws;
pub mod md_pub;
pub mod order_laws;
pub mod spsc;
pub mod text;
pub mod types;
pub mod wal;
pub mod wal_laws;
pub mod wire;

pub use engine::MatchingEngine;
pub use spsc::Spsc;
pub use types::{Command, CommandType, Event, EventType};
