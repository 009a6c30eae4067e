//! Chain specification choices and genesis parameters.

use vstd::prelude::*;

verus! {

use crate::bytes::bytes_eq;
use vstd::string::StringSliceAdditionalSpecFns;
use crate::u256::U256;

/// The chain specification a node can start from.
#[derive(Clone, Copy, PartialEq, Eq, Structural, Debug)]
pub enum Alternative {
    /// The current runtime with one development authority.
    Development,
    /// The current runtime with a small fixed authority set.
    LocalTestnet,
    /// The proof-of-concept chain with a prebuilt runtime.
    POCTestnet,
}

/// The alternative a command-line name picks: `dev`, `local`, and
/// `poc` or the empty name; anything else picks nothing.
pub open spec fn spec_alternative_from(b: Seq<u8>) -> Option<Alternative> {
    if b == seq![100u8, 101u8, 118u8] {
        Some(Alternative::Development)
    } else if b == seq![108u8, 111u8, 99u8, 97u8, 108u8] {
        Some(Alternative::LocalTestnet)
    } else if b.len() == 0 || b == seq![112u8, 111u8, 99u8] {
        Some(Alternative::POCTestnet)
    } else {
        None
    }
}

impl Alternative {
    /// Pick the alternative a command-line name names.
    pub fn from(s: &str) -> (r: Option<Alternative>)
        ensures
            r == spec_alternative_from(s.spec_bytes()),
    {
        let b = s.as_bytes();
        let dev: Vec<u8> = vec![100u8, 101u8, 118u8];
        let local: Vec<u8> = vec![108u8, 111u8, 99u8, 97u8, 108u8];
        let poc: Vec<u8> = vec![112u8, 111u8, 99u8];
        proof {
            assert(dev@ =~= seq![100u8, 101u8, 118u8]);
            assert(local@ =~= seq![108u8, 111u8, 99u8, 97u8, 108u8]);
            assert(poc@ =~= seq![112u8, 111u8, 99u8]);
        }
        if bytes_eq(b, dev.as_slice()) {
            Some(Alternative::Development)
        } else if bytes_eq(b, local.as_slice()) {
            Some(Alternative::LocalTestnet)
        } else if b.len() == 0 || bytes_eq(b, poc.as_slice()) {
            Some(Alternative::POCTestnet)
        } else {
            None
        }
    }
}

/// The genesis configuration of the test chains.
pub struct GenesisParams {
    /// The runtime code.
    pub code: Vec<u8>,
    /// The starting consensus authorities.
    pub authorities: Vec<Vec<u8>>,
    /// The least spacing of timestamps.
    pub minimum_period: u64,
    /// The starting difficulty target.
    pub genesis_difficulty: U256,
    /// The retarget period in blocks.
    pub difficulty_adj: u64,
    /// The intended block spacing in seconds.
    pub target_block_time: u64,
    /// The accounts given indices.
    pub indices: Vec<Vec<u8>>,
    pub transaction_base_fee: u128,
    pub transaction_byte_fee: u128,
    pub existential_deposit: u128,
    pub transfer_fee: u128,
    pub creation_fee: u128,
    /// Every endowed account with its starting balance.
    pub balances: Vec<(Vec<u8>, u128)>,
    /// How many shards the chain starts with.
    pub sharding_count: u16,
}

/// The genesis of the test chains: the given authorities and runtime,
/// a difficulty of `0x3fff` shifted into the top bits, sixty blocks
/// per retarget, and every endowed account holding two to the
/// sixtieth.
pub fn testnet_template_genesis(
    initial_authorities: Vec<Vec<u8>>,
    endowed_accounts: Vec<Vec<u8>>,
    code: Vec<u8>,
) -> (r: GenesisParams)
    ensures
        r.code == code,
        r.authorities == initial_authorities,
        r.minimum_period == 0,
        r.genesis_difficulty.value() == 0x3fff * 0x100000000000000000000000000000000000000000000000000000000nat,
        r.difficulty_adj == 60,
        r.target_block_time == 15,
        r.indices == endowed_accounts,
        r.transaction_base_fee == 1,
        r.transaction_byte_fee == 0,
        r.existential_deposit == 500,
        r.transfer_fee == 0,
        r.creation_fee == 0,
        r.balances@.len() == endowed_accounts@.len(),
        forall|i: int|
            0 <= i < r.balances@.len() ==> (#[trigger] r.balances@[i]).0@ == r.indices@[i]@
                && r.balances@[i].1 == 0x1000000000000000u128,
        r.sharding_count == 4,
{
    let n = endowed_accounts.len();
    let mut balances: Vec<(Vec<u8>, u128)> = Vec::new();
    let mut i: usize = 0;
    while i < n
        invariant
            0 <= i <= n,
            n == endowed_accounts@.len(),
            balances@.len() == i,
            forall|j: int|
                0 <= j < i ==> (#[trigger] balances@[j]).0@ == endowed_accounts@[j]@
                    && balances@[j].1 == 0x1000000000000000u128,
        decreases n - i,
    {
        let k = crate::bytes::clone_bytes(endowed_accounts[i].as_slice());
        balances.push((k, 0x1000000000000000u128));
        i = i + 1;
    }
    let genesis_difficulty = U256::new(0, 0, 0, 0x3fff00000000u64);
    proof {
        assert(genesis_difficulty.value() == 0x3fff
            * 0x100000000000000000000000000000000000000000000000000000000nat);
    }
    GenesisParams {
        code,
        authorities: initial_authorities,
        minimum_period: 0,
        genesis_difficulty,
        difficulty_adj: 60,
        target_block_time: 15,
        indices: endowed_accounts,
        transaction_base_fee: 1,
        transaction_byte_fee: 0,
        existential_deposit: 500,
        transfer_fee: 0,
        creation_fee: 0,
        balances,
        sharding_count: 4,
    }
}

impl Alternative {
    /// The display name and the identifier of each chain.
    pub fn name_and_id(&self) -> (r: (String, String))
        ensures
            match self {
                Alternative::Development => r.0@ == "Development"@ && r.1@ == "dev"@,
                Alternative::LocalTestnet => r.0@ == "Local Testnet"@ && r.1@ == "local_testnet"@,
                Alternative::POCTestnet => r.0@ == "POC Testnet"@ && r.1@ == "poc_testnet"@,
            },
    {
        match self {
            Alternative::Development => ("Development".to_owned(), "dev".to_owned()),
            Alternative::LocalTestnet => ("Local Testnet".to_owned(), "local_testnet".to_owned()),
            Alternative::POCTestnet => ("POC Testnet".to_owned(), "poc_testnet".to_owned()),
        }
    }
}

} // verus!
