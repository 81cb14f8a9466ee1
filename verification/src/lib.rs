//! Verified core of a ZinKNet node and client: 256-bit chain words,
//! competition bookkeeping, the node's interactive state machine and
//! the chain log poller.
use vstd::prelude::*;

pub mod uint;
pub mod word_map;
pub mod competition;
pub mod chain;
pub mod p2p;
pub mod node;
pub mod layout;

verus! {

} // verus!
