//! A peer-to-peer node: gossip-based peer discovery, heartbeat liveness
//! detection, BitTorrent-style choking, reputation bookkeeping and the
//! message protocol the nodes speak.

use vstd::prelude::*;

pub mod algorithms;
pub mod node;
pub mod protocol;
pub mod text;

verus! {

/// The library's motto.
pub fn read_a_book() -> (r: &'static str)
    ensures
        r@ == "you are so smart!!"@,
{
    "you are so smart!!"
}

} // verus!
