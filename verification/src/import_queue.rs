//! The serial import queue.
//!
//! Blocks from the network and the miner line up in arrival order;
//! each is verified and then imported, strictly one at a time. A
//! failure discards the current item only: the queue keeps going.

use vstd::prelude::*;

verus! {

use crate::difficulty::{PowParams, ChainEntry};
use crate::errors::VerifyError;
use crate::header::Header;
use crate::pow_verifier::{verify_header, spec_verify};

/// The pending imports, first come first served.
pub struct ImportQueue {
    pub pending: Vec<Header>,
}

impl ImportQueue {
    /// An empty queue.
    pub fn new() -> (r: ImportQueue)
        ensures
            r.pending@.len() == 0,
    {
        ImportQueue { pending: Vec::new() }
    }

    /// How many imports wait.
    pub fn len(&self) -> (r: usize)
        ensures
            r == self.pending@.len(),
    {
        self.pending.len()
    }

    /// Line a block up behind the ones already waiting.
    pub fn push(&mut self, h: Header)
        ensures
            final(self).pending@ == old(self).pending@.push(h),
    {
        self.pending.push(h);
    }

    /// Take the block that has waited longest.
    pub fn pop(&mut self) -> (r: Option<Header>)
        ensures
            old(self).pending@.len() == 0 ==> (r is None && final(self).pending@ == old(
                self,
            ).pending@),
            old(self).pending@.len() > 0 ==> (r matches Some(h) && h == old(self).pending@[0]
                && final(self).pending@ == old(self).pending@.drop_first()),
    {
        if self.pending.len() == 0 {
            None
        } else {
            let h = self.pending.remove(0);
            proof {
                assert(self.pending@ =~= old(self).pending@.drop_first());
            }
            Some(h)
        }
    }
}

/// One turn of the queue: verify the current block and say whether the
/// importer may commit it. The verdict is exactly the verifier's.
pub fn process_one(
    params: &PowParams,
    h: &Header,
    parent_timestamp: u64,
    now: u64,
    clock_skew: u64,
    ancestors: &Vec<ChainEntry>,
) -> (r: Result<(), VerifyError>)
    requires
        params.difficulty_adj >= 1,
        now + clock_skew <= u64::MAX,
    ensures
        r == spec_verify(*params, *h, parent_timestamp, now, clock_skew, ancestors@),
{
    verify_header(params, h, parent_timestamp, now, clock_skew, ancestors)
}

} // verus!
