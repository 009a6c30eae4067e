use yee_node::difficulty::{calc_difficulty, sat_mul_u64, ChainEntry, PowParams};
use yee_node::header::{DigestItem, Header};
use yee_node::import_queue::ImportQueue;
use yee_node::pow::{PowSeal, ProofNonce, WorkProof};
use yee_node::pow_verifier::verify_header;
use yee_node::u256::U256;
use yee_node::worker::{mine, on_job, worker_tick, WorkerStep, MINING_PREFIX, MINING_PREFIX_LEN};

fn entry(number: u64, difficulty: U256, timestamp: u64) -> ChainEntry {
    ChainEntry {
        number,
        seal: Some((difficulty, timestamp)),
    }
}

#[test]
fn retarget_halves_when_blocks_run_fast() {
    // Four blocks at five-second spacing against a ten-second target:
    // the span took half the expected time, so the target halves.
    let d = U256::new(80000, 0, 0, 0);
    let params = PowParams {
        genesis_difficulty: d,
        difficulty_adj: 4,
        target_block_time: 10,
    };
    let ancestors = vec![
        entry(3, d, 15000),
        entry(2, d, 10000),
        entry(1, d, 5000),
        entry(0, d, 0),
    ];
    let new = calc_difficulty(&params, 4, 20000, &ancestors).unwrap();
    assert_eq!(new, U256::new(40000, 0, 0, 0));
}

#[test]
fn off_boundary_reuses_parent_difficulty() {
    let d = U256::new(12345, 0, 0, 0);
    let params = PowParams {
        genesis_difficulty: U256::new(1, 0, 0, 0),
        difficulty_adj: 4,
        target_block_time: 10,
    };
    let ancestors = vec![entry(2, d, 10000)];
    let got = calc_difficulty(&params, 3, 20000, &ancestors).unwrap();
    assert_eq!(got, d);
}

#[test]
fn unsealed_parent_off_boundary_uses_genesis() {
    let g = U256::new(777, 0, 0, 0);
    let params = PowParams {
        genesis_difficulty: g,
        difficulty_adj: 4,
        target_block_time: 10,
    };
    let ancestors = vec![ChainEntry { number: 0, seal: None }];
    let got = calc_difficulty(&params, 1, 1000, &ancestors).unwrap();
    assert_eq!(got, g);
}

#[test]
fn missing_ancestors_is_an_import_error() {
    let params = PowParams {
        genesis_difficulty: U256::new(1, 0, 0, 0),
        difficulty_adj: 4,
        target_block_time: 10,
    };
    let ancestors: Vec<ChainEntry> = Vec::new();
    assert!(calc_difficulty(&params, 4, 20000, &ancestors).is_err());
}

#[test]
fn saturating_mul_caps_at_the_largest_word() {
    assert_eq!(sat_mul_u64(3, 4), 12);
    assert_eq!(sat_mul_u64(u64::MAX, 2), u64::MAX);
}

#[test]
fn u256_division_and_scaling() {
    let x = U256::new(100, 7, 0, 0);
    let q = x.div_u64(2);
    let back = q.saturating_mul_u64(2);
    // 100 + 7 * 2^64 is even, so halving and doubling round-trips.
    assert_eq!(back, x);
    assert!(q.le(&x));
    assert!(!x.le(&q));
}

#[test]
fn u256_byte_round_trip() {
    let x = U256::new(1, 2, 3, 0x3fff00000000);
    let bytes = x.to_be_bytes();
    assert_eq!(bytes.len(), 32);
    let back = U256::from_be_bytes(bytes.as_slice());
    assert_eq!(back, x);
}

/// The seal check agrees with an independent recomputation of the
/// work hash: pre-hash `0xab…`, nonce `0x42`, prefix `"yeeroot-"`,
/// target two to the two-hundred-twenty-fourth.
#[test]
fn seal_check_matches_recomputed_work_hash() {
    let pre_hash = vec![0xabu8; 32];
    let authority = vec![7u8; 32];
    let difficulty = U256::new(0, 0, 0, 0x100000000);
    let nonce = ProofNonce::get_with_prefix_len(MINING_PREFIX.as_bytes(), MINING_PREFIX_LEN, 0x42);
    assert_eq!(nonce.extra_data, b"yeeroot-\0\0\0\0".to_vec());
    let seal = PowSeal {
        authority_id: authority.clone(),
        difficulty,
        timestamp: 123456,
        work_proof: WorkProof::Nonce(nonce),
    };
    // Recompute the work input by hand.
    let mut input = pre_hash.clone();
    input.extend_from_slice(&authority);
    input.extend_from_slice(&difficulty.to_be_bytes());
    input.extend_from_slice(&123456u64.to_le_bytes());
    input.push(1);
    input.extend_from_slice(&12u64.to_le_bytes());
    input.extend_from_slice(b"yeeroot-\0\0\0\0");
    input.extend_from_slice(&0x42u64.to_le_bytes());
    let digest = blake2_rfc::blake2b::blake2b(32, &[], &input);
    let work = U256::from_be_bytes(digest.as_bytes());
    assert_eq!(seal.check_seal(&pre_hash), work.le(&difficulty));
    // Under the largest target the same proof always passes.
    let easy = PowSeal {
        authority_id: authority,
        difficulty: U256::max_value(),
        timestamp: 123456,
        work_proof: seal.work_proof,
    };
    assert!(easy.check_seal(&pre_hash));
}

#[test]
fn mining_finds_a_nonce_under_an_easy_target() {
    let header = Header {
        parent_hash: vec![1u8; 32],
        number: 1,
        state_root: vec![2u8; 32],
        extrinsics_root: vec![3u8; 32],
        digest: Vec::new(),
    };
    let pre = header.hash();
    let found = mine(
        &[9u8; 32],
        &U256::max_value(),
        1000,
        &pre,
        MINING_PREFIX.as_bytes(),
        MINING_PREFIX_LEN,
        10,
    );
    let seal = found.expect("the largest target accepts the first nonce");
    match seal.work_proof {
        WorkProof::Nonce(pn) => assert_eq!(pn.nonce, 0),
        _ => panic!("mined seals carry a nonce proof"),
    }
}

#[test]
fn a_mined_header_verifies() {
    let params = PowParams {
        genesis_difficulty: U256::max_value(),
        difficulty_adj: 4,
        target_block_time: 10,
    };
    let header = Header {
        parent_hash: vec![1u8; 32],
        number: 1,
        state_root: vec![2u8; 32],
        extrinsics_root: vec![3u8; 32],
        digest: Vec::new(),
    };
    let ancestors = vec![ChainEntry { number: 0, seal: None }];
    let sealed = on_job(header, &[9u8; 32], &params, &ancestors, 5000, 10)
        .unwrap()
        .expect("the largest target accepts the first nonce");
    assert_eq!(sealed.digest.len(), 1);
    // The sealed header passes the full verification, with the clock a
    // little ahead of the seal.
    let verdict = verify_header(&params, &sealed, 0, 5000, 1000, &ancestors);
    assert!(verdict.is_ok());
    // A stale clock rejects the timestamp.
    let verdict = verify_header(&params, &sealed, 0, 3000, 0, &ancestors);
    assert!(verdict.is_err());
    // A timestamp not past the parent's is rejected too.
    let verdict = verify_header(&params, &sealed, 5000, 5000, 1000, &ancestors);
    assert!(verdict.is_err());
}

#[test]
fn worker_ticks_decide_stop_wait_mine() {
    assert_eq!(worker_tick(true, false, true), WorkerStep::Stop);
    assert_eq!(worker_tick(false, true, true), WorkerStep::Wait);
    assert_eq!(worker_tick(false, false, false), WorkerStep::Wait);
    assert_eq!(worker_tick(false, false, true), WorkerStep::Mine);
}

#[test]
fn the_import_queue_is_first_come_first_served() {
    let mk = |n: u64| Header {
        parent_hash: vec![0u8; 32],
        number: n,
        state_root: vec![0u8; 32],
        extrinsics_root: vec![0u8; 32],
        digest: Vec::new(),
    };
    let mut q = ImportQueue::new();
    assert!(q.pop().is_none());
    q.push(mk(1));
    q.push(mk(2));
    q.push(mk(3));
    assert_eq!(q.len(), 3);
    assert_eq!(q.pop().unwrap().number, 1);
    assert_eq!(q.pop().unwrap().number, 2);
    assert_eq!(q.pop().unwrap().number, 3);
    assert!(q.pop().is_none());
}

#[test]
fn a_losing_sweep_comes_back_empty() {
    // With a target of one, no nonce of a short sweep can win.
    let tiny = U256::new(1, 0, 0, 0);
    let params = PowParams {
        genesis_difficulty: tiny,
        difficulty_adj: 4,
        target_block_time: 10,
    };
    let header = Header {
        parent_hash: vec![1u8; 32],
        number: 1,
        state_root: vec![2u8; 32],
        extrinsics_root: vec![3u8; 32],
        digest: Vec::new(),
    };
    let ancestors = vec![ChainEntry { number: 0, seal: None }];
    let mined = on_job(header, &[9u8; 32], &params, &ancestors, 5000, 4).unwrap();
    assert!(mined.is_none());
}
