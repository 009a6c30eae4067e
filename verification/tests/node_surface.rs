use yee_node::chain_spec::{testnet_template_genesis, Alternative};
use yee_node::crypto::timestamp_now;
use yee_node::gossip::GossipValidator;
use yee_node::misc::unwrap_or_best;
use yee_node::submit::{decode_submit_work, parse_submit_data};
use yee_node::u256::U256;

#[test]
fn chain_names_pick_alternatives() {
    assert_eq!(Alternative::from("dev"), Some(Alternative::Development));
    assert_eq!(Alternative::from("local"), Some(Alternative::LocalTestnet));
    assert_eq!(Alternative::from("poc"), Some(Alternative::POCTestnet));
    assert_eq!(Alternative::from(""), Some(Alternative::POCTestnet));
    assert_eq!(Alternative::from("mainnet"), None);
    let (name, id) = Alternative::Development.name_and_id();
    assert_eq!(name, "Development");
    assert_eq!(id, "dev");
}

#[test]
fn genesis_parameters_hold_the_published_constants() {
    let auth = vec![vec![1u8; 32]];
    let endowed = vec![vec![2u8; 32], vec![3u8; 32]];
    let params = testnet_template_genesis(auth, endowed, vec![0xaa]);
    assert_eq!(params.difficulty_adj, 60);
    assert_eq!(params.target_block_time, 15);
    assert_eq!(params.sharding_count, 4);
    assert_eq!(params.existential_deposit, 500);
    assert_eq!(params.balances.len(), 2);
    assert_eq!(params.balances[0].1, 1u128 << 60);
    // 0x3fff shifted 224 bits up.
    assert_eq!(
        params.genesis_difficulty,
        U256::new(0, 0, 0, 0x3fff00000000)
    );
}

#[test]
fn submitted_work_decodes_from_hex() {
    let mut payload = Vec::new();
    payload.extend_from_slice(&[0xabu8; 32]);
    payload.extend_from_slice(&0x42u64.to_be_bytes());
    payload.extend_from_slice(&[0x11u8; 36]);
    let text = hex::encode(&payload);
    let job = parse_submit_data(text.as_bytes()).expect("a well-formed submission decodes");
    assert_eq!(job.merkle_root, vec![0xabu8; 32]);
    assert_eq!(job.nonce, 0x42);
    assert_eq!(job.extra_data.len(), 40);
    assert_eq!(&job.extra_data[..36], &[0x11u8; 36]);
    // The entropy checksum is the head of its own hash.
    let check = blake2_rfc::blake2b::blake2b(32, &[], &[0x11u8; 36]);
    assert_eq!(&job.extra_data[36..], &check.as_bytes()[..4]);
    // The achieved target is the work hash of the reassembled triple.
    let mut source = Vec::new();
    source.extend_from_slice(&[0xabu8; 32]);
    source.extend_from_slice(&0x42u64.to_le_bytes());
    source.extend_from_slice(&job.extra_data);
    let hash = blake2_rfc::blake2b::blake2b(32, &[], &source);
    assert_eq!(job.nonce_target, U256::from_be_bytes(hash.as_bytes()));
    // Bad hex and short payloads are refused.
    assert!(parse_submit_data(b"zz").is_none());
    assert!(decode_submit_work(&payload[..75]).is_none());
}

#[test]
fn reads_default_to_the_best_block() {
    assert_eq!(unwrap_or_best(None, &[1u8; 32]), vec![1u8; 32]);
    assert_eq!(unwrap_or_best(Some(vec![2u8; 32]), &[1u8; 32]), vec![2u8; 32]);
}

#[test]
fn the_clock_reads_after_the_epoch() {
    let now = timestamp_now().expect("the clock reads after the epoch");
    // The node was written after 2020; a sane clock says so.
    assert!(now > 1_577_836_800_000);
}

#[test]
fn fresh_validators_start_with_an_empty_window() {
    let v = GossipValidator::new();
    assert!(!v.is_expired(0, 0));
    assert!(!v.is_expired(0, 1));
    assert!(v.is_expired(3, 1));
    assert!(v.is_expired(0, 2));
}
