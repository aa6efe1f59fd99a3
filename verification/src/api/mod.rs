pub mod proxy;
pub mod websocket;
