//! Verified core of the Abysses node: content addressing, erasure coding,
//! proof of work, the name chain, onion framing, circuit bookkeeping and the
//! fragment cache.

pub mod api;
pub mod bytes;
pub mod circuit;
pub mod consensus;
pub mod cover_traffic;
pub mod error;
pub mod identity;
pub mod network;
pub mod primitives;
pub mod protocol;
pub mod search;
pub mod simulator;
pub mod storage;
pub mod text;
pub mod types;
