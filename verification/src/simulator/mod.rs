pub mod network;
