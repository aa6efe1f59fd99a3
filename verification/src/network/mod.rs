//! Addresses of the node's network: the listen addresses it binds and the
//! bootstrap addresses it joins through.
use vstd::prelude::*;
use crate::error::AbyssError;
use crate::primitives::{multiaddr_parsed, parse_multiaddr};

pub mod bootstrap;

verus! {

/// The bytes of the listen address written as `text`, or a network error
/// "Addr: " followed by the parser's text when it is no multiaddress.
pub fn listen_address(text: &str) -> (r: Result<Vec<u8>, AbyssError>)
    ensures
        match multiaddr_parsed(text@) {
            Ok((bytes, _)) => r matches Ok(b) && b@ == bytes,
            Err(t) => r matches Err(AbyssError::Network(m)) && m@ == "Addr: "@ + t,
        },
{
    match parse_multiaddr(text) {
        Ok((bytes, _)) => Ok(bytes),
        Err(t) => {
            let mut m = String::from_str("Addr: ");
            m.append(t.as_str());
            proof {
                reveal_strlit("Addr: ");
            }
            Err(AbyssError::Network(m))
        },
    }
}

} // verus!
