//! The library's error type.
use vstd::prelude::*;

verus! {

pub enum AbyssError {
    Network(String),
    Encryption(String),
    Decryption(String),
    Storage(String),
    NoActiveCircuit,
    InsufficientNeighbors(usize),
}

} // verus!
