//! Read-only observability records and small node-service decisions.

use vstd::prelude::*;

verus! {

use crate::bytes::clone_bytes;
use crate::voter::VoterSetState;

/// A public key as raw bytes.
pub struct Public(pub Vec<u8>);

/// One voter's place and weight inside the set.
pub struct VoterInfo {
    pub canon_idx: usize,
    pub weight: u64,
}

/// The weighted voter set as reported.
pub struct VoterSet {
    pub weights: Vec<(Public, VoterInfo)>,
    pub voters: Vec<(Public, u64)>,
    pub threshold: u64,
}

/// The reported finality configuration.
pub struct Config {
    /// The expected gossip latency, in milliseconds.
    pub gossip_duration_millis: u64,
    /// How often justifications are generated, in blocks.
    pub justification_period: u64,
    /// The local signing key, when the node votes.
    pub local_key_public: Option<Public>,
    /// The key the node will vote with next, when one is staged.
    pub local_next_key_public: Option<Public>,
    /// A local name for the voter.
    pub name: Option<String>,
}

/// The finality gadget's state as reported.
pub struct CrfgState {
    pub config: Option<Config>,
    pub set_id: u64,
    pub voters: VoterSet,
    pub set_status: Option<VoterSetState>,
    pub pending_skip: Vec<(Vec<u8>, u64, u64)>,
}

/// The sync-side report: the pending skip list.
pub struct SyncState {
    pub pending_skip: Vec<(Vec<u8>, u64, u64)>,
}

/// The block a read defaults to: the named one, or the best.
pub fn unwrap_or_best(hash: Option<Vec<u8>>, best_hash: &[u8]) -> (r: Vec<u8>)
    ensures
        match hash {
            Some(h) => r@ == h@,
            None => r@ == best_hash@,
        },
{
    match hash {
        Some(h) => h,
        None => clone_bytes(best_hash),
    }
}

} // verus!
