//! The `net_*` part of the Web3 interface that the node answers itself.
use vstd::prelude::*;

verus! {

/// Answers `net_peerCount` and `net_listening`; the node keeps no peers of its own.
pub struct NetApiImpl {}

impl NetApiImpl {
    pub fn new() -> (r: NetApiImpl) {
        NetApiImpl {}
    }

    /// Always zero.
    pub fn peer_count(&self) -> (r: u32)
        ensures
            r == 0,
    {
        0
    }

    /// Always listening.
    pub fn is_listening(&self) -> (r: bool)
        ensures
            r,
    {
        true
    }
}

} // verus!
