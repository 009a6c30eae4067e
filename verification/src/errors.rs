//! Error kinds of the consensus layers.

use vstd::prelude::*;

verus! {

/// Why the finality voter or its plumbing failed.
#[derive(Debug)]
pub enum Error {
    /// An error inside the finality gadget.
    Crfg(String),
    /// A network error.
    Network(String),
    /// A blockchain read error.
    Blockchain(String),
    /// A storage error.
    Client(String),
    /// An invariant violation, such as an out-of-order handoff.
    Safety(String),
    /// A timer failure.
    Timer(String),
}

/// Why the proof-of-work layer failed.
#[derive(Debug)]
pub enum PowError {
    /// A storage or import error.
    ClientImport(String),
    /// A missing or conflicting inherent-data provider.
    InherentData(String),
}

/// Why an incoming header was rejected.
#[derive(Debug, PartialEq, Eq, Structural)]
pub enum VerifyError {
    /// The last digest item is not a well-formed seal.
    BadSeal,
    /// The work hash misses the seal's own target.
    BadWork,
    /// The seal's target differs from the recomputed one.
    BadDifficulty,
    /// The seal's time is not after the parent's or is too far ahead.
    BadTimestamp,
    /// The parent chain could not be read back to a boundary.
    UnknownParent,
}

} // verus!
