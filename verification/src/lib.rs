//! Core logic of a sharded proof-of-work blockchain node.
//!
//! The library covers the consensus-critical computations of the node:
//! difficulty retargeting and seal verification for the proof-of-work
//! layer, gossip validation and voter-set bookkeeping for the finality
//! gadget, the wire format of cross-shard relay extrinsics, and the
//! shard-routing rules of the foreign network. Network transports,
//! storage backends and RPC plumbing live outside the library and hand
//! it plain values.

pub mod authorities;
pub mod bytes;
pub mod chain_spec;
pub mod codec;
pub mod crypto;
pub mod difficulty;
pub mod errors;
pub mod foreign;
pub mod gossip;
pub mod header;
pub mod import_queue;
pub mod misc;
pub mod pow;
pub mod pow_verifier;
pub mod relay;
pub mod sharding;
pub mod submit;
pub mod u256;
pub mod voter;
pub mod worker;

pub use u256::U256;
