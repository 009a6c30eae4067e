use parity_codec::{Compact, Encode};
use yee_node::foreign::{
    accept_inbound, count_peers, foreign_status, route_targets, ChainInfo, Message, PeerInfo,
    Status,
};
use yee_node::relay::{Era, OriginExtrinsic, RelayParams, RelayTypes};
use yee_node::sharding::{restart_decision, shard_num_for_bytes, Signal};

fn sample_origin(dest_first_byte: u8) -> OriginExtrinsic {
    let mut dest = vec![0u8; 32];
    dest[0] = dest_first_byte;
    OriginExtrinsic::from_parts(
        None,
        vec![1u8; 32],
        vec![2u8; 64],
        9,
        Era::Immortal,
        dest,
        500_000,
    )
}

#[test]
fn origin_decode_inverts_encode() {
    let origin = sample_origin(2);
    let bytes = origin.encode(RelayTypes::Balance);
    let decoded = OriginExtrinsic::decode(RelayTypes::Balance, bytes.clone())
        .expect("the canonical form decodes");
    assert_eq!(decoded.from(), vec![1u8; 32]);
    assert_eq!(decoded.amount(), 500_000);
    assert_eq!(decoded.asset_id(), None);
    assert_eq!(decoded.to()[0], 2);
    // Encoding the decoded value reproduces the bytes exactly.
    assert_eq!(decoded.encode(RelayTypes::Balance), bytes);
}

#[test]
fn asset_origins_carry_their_asset() {
    let mut dest = vec![0u8; 32];
    dest[0] = 3;
    let origin = OriginExtrinsic::from_parts(
        Some(77),
        vec![1u8; 32],
        vec![2u8; 64],
        0,
        Era::Mortal(64, 10),
        dest,
        1u128 << 90,
    );
    let bytes = origin.encode(RelayTypes::Assets);
    let decoded =
        OriginExtrinsic::decode(RelayTypes::Assets, bytes.clone()).expect("assets decode");
    assert_eq!(decoded.asset_id(), Some(77));
    assert_eq!(decoded.amount(), 1u128 << 90);
    assert_eq!(decoded.encode(RelayTypes::Assets), bytes);
}

#[test]
fn truncated_origins_are_refused() {
    let origin = sample_origin(2);
    let bytes = origin.encode(RelayTypes::Balance);
    for cut in 0..bytes.len() {
        assert!(
            OriginExtrinsic::decode(RelayTypes::Balance, bytes[..cut].to_vec()).is_none(),
            "cut {cut}"
        );
    }
}

fn sample_relay_bytes(origin: &[u8]) -> Vec<u8> {
    // The wrapper as the wire carries it: a compact count, version
    // one unsigned, module and call indices, the relay type, the
    // framed origin, the height and the two hashes.
    let mut bytes = Compact(0u32).encode();
    bytes.push(1);
    bytes.push(9);
    bytes.push(4);
    bytes.push(0);
    bytes.extend_from_slice(&Encode::encode(&origin.to_vec()));
    bytes.extend_from_slice(&Compact(42u64).encode());
    bytes.extend_from_slice(&[6u8; 32]);
    bytes.extend_from_slice(&[7u8; 32]);
    bytes
}

#[test]
fn relay_wrappers_decode() {
    let origin = sample_origin(2).encode(RelayTypes::Balance);
    let bytes = sample_relay_bytes(&origin);
    let params = RelayParams::decode(bytes).expect("a well-formed wrapper decodes");
    assert_eq!(params.relay_type(), RelayTypes::Balance);
    assert_eq!(params.number(), 42);
    assert_eq!(params.block_hash(), vec![6u8; 32]);
    assert_eq!(params.parent_hash(), vec![7u8; 32]);
    assert_eq!(params.origin(), origin);
    let expected_hash = blake2_rfc::blake2b::blake2b(32, &[], &origin);
    assert_eq!(params.hash(), expected_hash.as_bytes().to_vec());
}

#[test]
fn signed_wrappers_are_refused() {
    let origin = sample_origin(2).encode(RelayTypes::Balance);
    let mut bytes = sample_relay_bytes(&origin);
    bytes[1] |= 0x80;
    assert!(RelayParams::decode(bytes).is_none());
}

/// An extrinsic whose destination maps to shard 2 is forwarded only to
/// the peers of shard 2, and a node of shard 0 keeps it out of its own
/// pool.
#[test]
fn relay_routes_to_the_destination_shard() {
    let origin = sample_origin(2);
    let dest = origin.to();
    let dest_shard = shard_num_for_bytes(&dest, 4).unwrap();
    assert_eq!(dest_shard, 2);
    let peers = vec![
        PeerInfo { shard_num: Some(2) },
        PeerInfo { shard_num: Some(1) },
        PeerInfo { shard_num: Some(2) },
        PeerInfo { shard_num: None },
    ];
    assert_eq!(route_targets(&peers, dest_shard), vec![0, 2]);
    assert!(!accept_inbound(0, dest_shard));
    assert!(accept_inbound(2, dest_shard));
}

/// A node of shard 0 in a four-shard cluster whose coinbase lands on
/// shard 5 under eight-shard sharding restarts.
#[test]
fn scale_out_restarts_the_node() {
    let mut coinbase = vec![0u8; 32];
    coinbase[0] = 5;
    assert_eq!(shard_num_for_bytes(&coinbase, 4), Some(1));
    assert_eq!(shard_num_for_bytes(&coinbase, 8), Some(5));
    assert_eq!(
        restart_decision(&coinbase, 0, Some(8)),
        Some(Signal::Restart)
    );
    // A coinbase staying on its shard keeps the node running.
    let home = vec![0u8; 32];
    assert_eq!(restart_decision(&home, 0, Some(8)), None);
    assert_eq!(restart_decision(&coinbase, 0, None), None);
    // An unplaceable coinbase stops the node.
    assert_eq!(restart_decision(&[1u8], 0, Some(8)), Some(Signal::Stop));
}

#[test]
fn foreign_status_counts_peers_by_shard() {
    let peers = vec![
        PeerInfo { shard_num: Some(0) },
        PeerInfo { shard_num: Some(2) },
        PeerInfo { shard_num: Some(2) },
        PeerInfo { shard_num: None },
    ];
    assert_eq!(count_peers(&peers, 2), 2);
    let client_info = vec![
        (
            0u16,
            Some(ChainInfo {
                best_number: 10,
                best_hash: vec![1u8; 32],
                finalized_number: 8,
                finalized_hash: vec![2u8; 32],
            }),
        ),
        (2u16, None),
    ];
    let report = foreign_status(0, 7, &peers, &client_info);
    assert_eq!(report.len(), 2);
    let local = report[0].1.as_ref().unwrap();
    // One foreign peer of shard 0 plus seven primary peers.
    assert_eq!(local.peer_count, 8);
    assert_eq!(local.best_number, 10);
    assert!(report[1].1.is_none());
}

#[test]
fn foreign_status_messages_round_trip() {
    let status = Status {
        version: 1,
        min_supported_version: 1,
        best_number: 99,
        best_hash: vec![1u8; 32],
        genesis_hash: vec![2u8; 32],
        shard_num: 3,
    };
    let mut bytes = vec![0u8];
    bytes.extend_from_slice(&status.encode());
    match Message::from_bytes(&bytes) {
        Some(Message::Status(st)) => {
            assert_eq!(st.best_number, 99);
            assert_eq!(st.shard_num, 3);
            assert_eq!(st.genesis_hash, vec![2u8; 32]);
        }
        _ => panic!("a framed status reads back"),
    }
    // An extrinsic batch carries the reference codec's framing: a
    // compact count, each item behind its compact length.
    let items: Vec<Vec<u8>> = vec![vec![10, 11, 12], vec![9]];
    let mut batch = vec![1u8];
    batch.extend_from_slice(&items.encode());
    match Message::from_bytes(&batch) {
        Some(Message::Extrinsics(xs)) => {
            assert_eq!(xs, vec![vec![10, 11, 12], vec![9]]);
        }
        _ => panic!("a framed batch reads back"),
    }
    assert!(Message::from_bytes(&[2u8]).is_none());
}

#[test]
fn foreign_messages_round_trip_both_ways() {
    let status = Status {
        version: 2,
        min_supported_version: 1,
        best_number: 42,
        best_hash: vec![8u8; 32],
        genesis_hash: vec![9u8; 32],
        shard_num: 1,
    };
    let bytes = Message::Status(status).into_bytes();
    match Message::from_bytes(&bytes) {
        Some(Message::Status(st)) => {
            assert_eq!(st.version, 2);
            assert_eq!(st.best_number, 42);
            assert_eq!(st.shard_num, 1);
        }
        _ => panic!("a written status reads back"),
    }
    let batch = Message::Extrinsics(vec![vec![1, 2, 3], Vec::new(), vec![4]]);
    let bytes = batch.into_bytes();
    match Message::from_bytes(&bytes) {
        Some(Message::Extrinsics(xs)) => {
            assert_eq!(xs, vec![vec![1, 2, 3], Vec::new(), vec![4]]);
        }
        _ => panic!("a written batch reads back"),
    }
}
