//! Node-wide settings and states.
use vstd::prelude::*;

verus! {

#[derive(Debug, Clone, Copy, PartialEq, Eq, Structural)]
pub enum NodeState {
    Initializing,
    Bootstrapping,
    Online,
    Offline,
}

#[derive(Debug, Clone, Copy)]
pub struct NodeConfig {
    pub websocket_port: u16,
    pub proxy_port: u16,
}

impl Default for NodeConfig {
    /// WebSocket on port 9000, proxy on port 8080.
    fn default() -> (c: Self)
        ensures
            c.websocket_port == 9000,
            c.proxy_port == 8080,
    {
        NodeConfig { websocket_port: 9000, proxy_port: 8080 }
    }
}

} // verus!
