//! HashCash: proof-of-work message stamps.
//!
//! Sender-side defense: every message carries a proof-of-work stamp proving
//! that the sender burned real CPU cycles to produce it.
//!
//! Difficulty guide:
//!   - 2: trivial (~16 attempts, instant)   PING/PONG/PEER_LIST
//!   - 3: light (~4k attempts, <0.1s)       VIEW_EVENT/HELLO/GOSSIP
//!   - 4: moderate (~65k attempts, ~0.5s)   ELECTION/COORDINATOR
//!   - 5: serious (~1M attempts, ~2-4s)     AUDIT_RESULT (triggers payments)

use vstd::prelude::*;

verus! {

/// A proof-of-work stamp: the nonce found, the difficulty it meets, and the
/// hex digest it produced.
#[derive(Debug, Clone, PartialEq, Eq, PartialOrd, Ord, Default, Hash)]
pub struct ProofOfWork {
    nonce: u64,
    difficulty: u8,
    hash: String,
}

} // verus!
