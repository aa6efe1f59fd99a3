pub mod cache;
pub mod dht;
pub mod erasure;
pub mod merkle;
pub mod publisher;
pub mod retriever;
