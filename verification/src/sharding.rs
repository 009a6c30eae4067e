//! Shard arithmetic and the scale-out restarter.
//!
//! An account's shard is its shard code — the first two bytes of the
//! account, read little-endian — reduced modulo the shard count. The
//! restarter watches for a configured scale-out: when the coinbase
//! account lands on a different shard under the new count, the node
//! must restart there.

use vstd::prelude::*;

verus! {

/// How many leading account bytes carry the shard code.
pub const SHARD_CODE_SIZE: usize = 2;

/// The shard an account belongs to under `count` shards: its leading
/// two bytes, little-endian, modulo the count.
pub open spec fn spec_shard_num_for_bytes(bytes: Seq<u8>, count: u16) -> Option<u16> {
    if bytes.len() >= SHARD_CODE_SIZE && count > 0 {
        Some(((bytes[0] + bytes[1] * 256) as u16 % count) as u16)
    } else {
        None
    }
}

/// The shard an account's bytes belong to under `count` shards.
pub fn shard_num_for_bytes(bytes: &[u8], count: u16) -> (r: Option<u16>)
    ensures
        r == spec_shard_num_for_bytes(bytes@, count),
{
    if bytes.len() >= SHARD_CODE_SIZE && count > 0 {
        let code: u16 = bytes[0] as u16 + bytes[1] as u16 * 256;
        Some(code % count)
    } else {
        None
    }
}

/// A configured scale-out to a larger shard count.
#[derive(Clone, Copy, PartialEq, Eq, Structural, Debug)]
pub struct ScaleOut {
    pub new_shard_count: u16,
}

/// The process-control signal the restarter emits.
#[derive(Clone, Copy, PartialEq, Eq, Structural, Debug)]
pub enum Signal {
    /// Restart under the new sharding.
    Restart,
    /// Stop the node.
    Stop,
}

/// The restarter's decision: with a scale-out configured, the node
/// restarts exactly when the coinbase maps onto a different shard
/// under the new count; without one, nothing happens.
pub open spec fn spec_restart_decision(
    coinbase: Seq<u8>,
    shard_num: u16,
    new_count: Option<u16>,
) -> Option<Signal> {
    match new_count {
        None => None,
        Some(count) => match spec_shard_num_for_bytes(coinbase, count) {
            None => Some(Signal::Stop),
            Some(new_shard) => if new_shard != shard_num {
                Some(Signal::Restart)
            } else {
                None
            },
        },
    }
}

/// Decide whether a scale-out moves this node: restart when the
/// coinbase lands on another shard under the new count, stop when the
/// coinbase cannot be placed, and keep running otherwise.
pub fn restart_decision(coinbase: &[u8], shard_num: u16, new_count: Option<u16>) -> (r: Option<
    Signal,
>)
    ensures
        r == spec_restart_decision(coinbase@, shard_num, new_count),
{
    match new_count {
        None => None,
        Some(count) => match shard_num_for_bytes(coinbase, count) {
            None => Some(Signal::Stop),
            Some(new_shard) => if new_shard != shard_num {
                Some(Signal::Restart)
            } else {
                None
            },
        },
    }
}

} // verus!
