use ed25519_dalek::{Signer, SigningKey};
use parity_codec::{Compact, Encode};
use yee_node::authorities::{decode_scheduled_change, scheduled_change_in_header, AuthoritySet, ScheduledChange};
use yee_node::header::{DigestItem, Header};
use yee_node::gossip::{
    commit_topic, localized_payload, message_topic, CompactCommit, FullCommitMessage,
    GossipMessage, GossipValidator, SignedMessage, ValidationResult, Vote, VoteKind,
    VoteOrPrecommitMessage,
};
use yee_node::voter::{
    decode_voter_set_state, encode_voter_set_state, genesis_round_state, is_voter, voter_step,
    NewAuthoritySet, RoundState, UntilImported, VoterCommand, VoterDecision, VoterSetState,
    VoterTurn,
};

fn window(min_live_round: u64, max_round: u64, set_id: u64) -> GossipValidator {
    let mut v = GossipValidator::new();
    v.note_round(max_round, set_id);
    if min_live_round > 0 {
        v.drop_round(min_live_round - 1, set_id);
    }
    v
}

/// Expiry at `(set_id=5, min_live_round=10, max_round=12)`: round 7 of
/// the live set is out of the window, round 8 is within tolerance, and
/// the next set is live only up to the tolerance.
#[test]
fn gossip_expiry_window() {
    let v = window(10, 12, 5);
    assert!(v.is_expired(7, 5));
    assert!(!v.is_expired(8, 5));
    assert!(!v.is_expired(12, 5));
    assert!(v.is_expired(3, 4));
    assert!(!v.is_expired(2, 6));
    assert!(v.is_expired(6, 6));
    assert!(v.is_expired(0, 7));
}

#[test]
fn note_and_drop_move_the_window() {
    let mut v = GossipValidator::new();
    v.note_round(4, 1);
    assert_eq!(v.rounds.set_id, 1);
    assert_eq!(v.rounds.max_round, 4);
    v.note_round(2, 1);
    assert_eq!(v.rounds.max_round, 4);
    v.drop_round(6, 1);
    assert_eq!(v.rounds.min_live_round, 7);
    v.note_round(1, 2);
    assert_eq!(v.rounds.min_live_round, 0);
    assert_eq!(v.rounds.max_round, 1);
}

fn signed_vote(key: &SigningKey, kind: VoteKind, round: u64, set_id: u64) -> SignedMessage {
    let vote = Vote {
        target_hash: vec![5u8; 32],
        target_number: 77,
    };
    let payload = localized_payload(&kind, &vote.target_hash, vote.target_number, round, set_id);
    let sig = key.sign(&payload);
    SignedMessage {
        kind,
        vote,
        signature: sig.to_bytes().to_vec(),
        id: key.verifying_key().to_bytes().to_vec(),
    }
}

#[test]
fn round_messages_validate_by_signature() {
    let key = SigningKey::from_bytes(&[3u8; 32]);
    let v = window(0, 5, 5);
    let good = VoteOrPrecommitMessage {
        round: 4,
        set_id: 5,
        message: signed_vote(&key, VoteKind::Prevote, 4, 5),
    };
    match v.validate_round_message(&good) {
        ValidationResult::Valid(topic) => assert_eq!(topic, message_topic(4, 5)),
        _ => panic!("a well-signed live message is valid"),
    }
    // The same vote presented under the wrong round fails its signature.
    let replayed = VoteOrPrecommitMessage {
        round: 5,
        set_id: 5,
        message: signed_vote(&key, VoteKind::Prevote, 4, 5),
    };
    assert!(matches!(
        v.validate_round_message(&replayed),
        ValidationResult::Invalid
    ));
    let stale = VoteOrPrecommitMessage {
        round: 4,
        set_id: 4,
        message: signed_vote(&key, VoteKind::Prevote, 4, 4),
    };
    assert!(matches!(
        v.validate_round_message(&stale),
        ValidationResult::Expired
    ));
}

#[test]
fn commit_messages_check_every_precommit() {
    let key = SigningKey::from_bytes(&[4u8; 32]);
    let v = window(0, 5, 5);
    let signed = signed_vote(&key, VoteKind::Precommit, 9, 5);
    let commit = FullCommitMessage {
        round: 9,
        set_id: 5,
        message: CompactCommit {
            target_hash: vec![5u8; 32],
            target_number: 77,
            precommits: vec![Vote {
                target_hash: vec![5u8; 32],
                target_number: 77,
            }],
            auth_data: vec![(signed.signature.clone(), signed.id.clone())],
        },
    };
    match v.validate_commit_message(&commit) {
        ValidationResult::Valid(topic) => assert_eq!(topic, commit_topic(5)),
        _ => panic!("a well-signed commit is valid"),
    }
    // An empty commit is malformed.
    let empty = FullCommitMessage {
        round: 9,
        set_id: 5,
        message: CompactCommit {
            target_hash: vec![5u8; 32],
            target_number: 77,
            precommits: Vec::new(),
            auth_data: Vec::new(),
        },
    };
    assert!(matches!(
        v.validate_commit_message(&empty),
        ValidationResult::Invalid
    ));
    // A forged signature invalidates the whole commit.
    let forged = FullCommitMessage {
        round: 9,
        set_id: 5,
        message: CompactCommit {
            target_hash: vec![5u8; 32],
            target_number: 77,
            precommits: vec![Vote {
                target_hash: vec![5u8; 32],
                target_number: 77,
            }],
            auth_data: vec![(vec![0u8; 64], signed.id.clone())],
        },
    };
    assert!(matches!(
        v.validate_commit_message(&forged),
        ValidationResult::Invalid
    ));
}

#[test]
fn voter_state_persists_and_loads() {
    let rs = RoundState {
        prevote_ghost: Some((vec![1u8; 32], 5)),
        finalized: Some((vec![2u8; 32], 4)),
        estimate: None,
        completable: true,
    };
    let state = VoterSetState::Live(7, rs);
    let bytes = encode_voter_set_state(&state);
    match decode_voter_set_state(&bytes) {
        Some(VoterSetState::Live(n, rs2)) => {
            assert_eq!(n, 7);
            assert_eq!(rs2.prevote_ghost, Some((vec![1u8; 32], 5)));
            assert_eq!(rs2.finalized, Some((vec![2u8; 32], 4)));
            assert_eq!(rs2.estimate, None);
            assert!(rs2.completable);
        }
        _ => panic!("a stored live record loads as itself"),
    }
    let paused = VoterSetState::Paused(
        9,
        RoundState {
            prevote_ghost: None,
            finalized: None,
            estimate: None,
            completable: false,
        },
    );
    let bytes = encode_voter_set_state(&paused);
    assert!(matches!(
        decode_voter_set_state(&bytes),
        Some(VoterSetState::Paused(9, _))
    ));
    // A corrupted tag does not load.
    let mut broken = encode_voter_set_state(&paused);
    broken[0] = 9;
    assert!(decode_voter_set_state(&broken).is_none());
}

/// A change scheduled at height 100 with delay 10 applies exactly once
/// when height 110 finalizes on its branch, advancing the set id and
/// restarting the voter live at round zero from the handoff block.
#[test]
fn handoff_applies_exactly_once() {
    let mut set = AuthoritySet::genesis(vec![(vec![1u8; 32], 1)]);
    let change = ScheduledChange {
        next_authorities: vec![(vec![2u8; 32], 1), (vec![3u8; 32], 1)],
        delay: 10,
    };
    assert!(set.add_pending_change(100, change));
    assert_eq!(set.earliest_effective(), Some(110));
    // Finalizing below the handoff height applies nothing.
    let none = set.apply_finalized(105, &[9u8; 32], &vec![true]);
    assert_eq!(none.len(), 0);
    let commands = set.apply_finalized(110, &[9u8; 32], &vec![true]);
    assert_eq!(commands.len(), 1);
    assert_eq!(set.set_id, 1);
    assert_eq!(set.current_authorities.len(), 2);
    let cmd = &commands[0];
    assert_eq!(cmd.canon_number, 110);
    assert_eq!(cmd.set_id, 1);
    // The voter restarts at round zero from the handoff block.
    let decision = voter_step(
        VoterTurn::Command(VoterCommand::ChangeAuthorities(NewAuthoritySet {
            canon_number: cmd.canon_number,
            canon_hash: cmd.canon_hash.clone(),
            set_id: cmd.set_id,
            authorities: cmd.authorities.clone(),
        })),
        3,
        genesis_round_state(&[0u8; 32], 0),
    );
    match decision {
        VoterDecision::Continue(VoterSetState::Live(0, rs), Some(new)) => {
            assert_eq!(new.set_id, 1);
            assert_eq!(rs.finalized, Some((vec![9u8; 32], 110)));
            assert!(rs.completable);
        }
        _ => panic!("a change of authorities restarts the voter live at round zero"),
    }
}

#[test]
fn pruned_branches_do_not_hand_off() {
    let mut set = AuthoritySet::genesis(vec![(vec![1u8; 32], 1)]);
    assert!(set.add_pending_change(
        100,
        ScheduledChange {
            next_authorities: vec![(vec![2u8; 32], 1)],
            delay: 10,
        }
    ));
    assert!(set.add_pending_change(
        105,
        ScheduledChange {
            next_authorities: vec![(vec![4u8; 32], 1)],
            delay: 10,
        }
    ));
    // The first signal lost its branch; the second wins.
    let commands = set.apply_finalized(115, &[8u8; 32], &vec![false, true]);
    assert_eq!(commands.len(), 1);
    assert_eq!(set.set_id, 1);
    assert_eq!(set.current_authorities[0].0, vec![4u8; 32]);
}

#[test]
fn voter_pause_keeps_the_last_round() {
    let decision = voter_step(
        VoterTurn::Command(VoterCommand::Pause("why".to_owned())),
        41,
        genesis_round_state(&[7u8; 32], 41),
    );
    match decision {
        VoterDecision::Continue(VoterSetState::Paused(41, _), None) => {}
        _ => panic!("a pause persists the last completed round"),
    }
    assert!(matches!(
        voter_step(VoterTurn::Concluded, 0, genesis_round_state(&[0u8; 32], 0)),
        VoterDecision::Shutdown
    ));
}

#[test]
fn only_set_members_vote() {
    let voters = vec![(vec![1u8; 32], 1), (vec![2u8; 32], 1)];
    assert!(is_voter(&voters, &Some(vec![2u8; 32])));
    assert!(!is_voter(&voters, &Some(vec![3u8; 32])));
    assert!(!is_voter(&voters, &None));
}

#[test]
fn gossip_bytes_decode_and_classify() {
    let key = SigningKey::from_bytes(&[6u8; 32]);
    let v = window(0, 5, 5);
    let signed = signed_vote(&key, VoteKind::Prevote, 4, 5);
    // A vote message on the wire: tag, round, set, kind, vote,
    // signature, author.
    let mut bytes = vec![0u8];
    bytes.extend_from_slice(&4u64.to_le_bytes());
    bytes.extend_from_slice(&5u64.to_le_bytes());
    bytes.push(0);
    bytes.extend_from_slice(&signed.vote.target_hash);
    bytes.extend_from_slice(&signed.vote.target_number.to_le_bytes());
    bytes.extend_from_slice(&signed.signature);
    bytes.extend_from_slice(&signed.id);
    match v.validate_bytes(&bytes) {
        ValidationResult::Valid(topic) => assert_eq!(topic, message_topic(4, 5)),
        _ => panic!("well-formed signed bytes are valid"),
    }
    assert!(!v.message_expired_bytes(&bytes));
    // Garbage is invalid and counts as expired for the sweep.
    assert!(matches!(
        v.validate_bytes(&[9, 9, 9]),
        ValidationResult::Invalid
    ));
    assert!(v.message_expired_bytes(&[9, 9, 9]));
    // A commit on the wire round-trips through the same entry.
    let pc = signed_vote(&key, VoteKind::Precommit, 4, 5);
    let mut commit = vec![1u8];
    commit.extend_from_slice(&4u64.to_le_bytes());
    commit.extend_from_slice(&5u64.to_le_bytes());
    commit.extend_from_slice(&pc.vote.target_hash);
    commit.extend_from_slice(&pc.vote.target_number.to_le_bytes());
    commit.extend_from_slice(&Compact(1u32).encode());
    commit.extend_from_slice(&pc.vote.target_hash);
    commit.extend_from_slice(&pc.vote.target_number.to_le_bytes());
    commit.extend_from_slice(&Compact(1u32).encode());
    commit.extend_from_slice(&pc.signature);
    commit.extend_from_slice(&pc.id);
    match v.validate_bytes(&commit) {
        ValidationResult::Valid(topic) => assert_eq!(topic, commit_topic(5)),
        _ => panic!("a well-signed commit on the wire is valid"),
    }
}

#[test]
fn scheduled_changes_decode_from_digest_payloads() {
    let mut payload = Vec::new();
    payload.extend_from_slice(&Compact(2u32).encode());
    payload.extend_from_slice(&[1u8; 32]);
    payload.extend_from_slice(&5u64.to_le_bytes());
    payload.extend_from_slice(&[2u8; 32]);
    payload.extend_from_slice(&7u64.to_le_bytes());
    payload.extend_from_slice(&10u64.to_le_bytes());
    // The payload is exactly the reference codec's form of the pair.
    let reference = (
        vec![([1u8; 32], 5u64), ([2u8; 32], 7u64)],
        10u64,
    )
        .encode();
    assert_eq!(payload, reference);
    let change = decode_scheduled_change(&payload).expect("a framed change decodes");
    assert_eq!(change.delay, 10);
    assert_eq!(change.next_authorities.len(), 2);
    assert_eq!(change.next_authorities[1], (vec![2u8; 32], 7));
    // Trailing bytes are refused.
    let mut long = payload.clone();
    long.push(0);
    assert!(decode_scheduled_change(&long).is_none());
    // The header scan finds the change among other digest items.
    let header = Header {
        parent_hash: vec![0u8; 32],
        number: 100,
        state_root: vec![0u8; 32],
        extrinsics_root: vec![0u8; 32],
        digest: vec![DigestItem::Other(vec![1, 2, 3]), DigestItem::Other(payload)],
    };
    let found = scheduled_change_in_header(&header).expect("the scan finds the change");
    assert_eq!(found.delay, 10);
}

#[test]
fn the_import_hook_notes_changes_and_flags_due_handoffs() {
    let mut set = AuthoritySet::genesis(vec![(vec![1u8; 32], 1)]);
    let (added, due) = set.import_hook(
        100,
        Some(ScheduledChange {
            next_authorities: vec![(vec![2u8; 32], 1)],
            delay: 10,
        }),
    );
    assert!(added);
    assert!(!due);
    let (added, due) = set.import_hook(110, None);
    assert!(!added);
    assert!(due);
}

#[test]
fn commits_wait_for_their_block() {
    let mut barrier = UntilImported::new();
    // A commit on a known block passes straight through.
    assert_eq!(
        barrier.queue_commit(vec![1u8; 32], vec![10], true),
        Some(vec![10])
    );
    // Commits on unknown blocks wait in arrival order.
    assert_eq!(barrier.queue_commit(vec![2u8; 32], vec![20], false), None);
    assert_eq!(barrier.queue_commit(vec![3u8; 32], vec![30], false), None);
    assert_eq!(barrier.queue_commit(vec![2u8; 32], vec![21], false), None);
    // Importing a block releases exactly its commits, in order.
    let released = barrier.note_imported(&[2u8; 32]);
    assert_eq!(released, vec![vec![20], vec![21]]);
    assert_eq!(barrier.waiting.len(), 1);
    let released = barrier.note_imported(&[3u8; 32]);
    assert_eq!(released, vec![vec![30]]);
    assert!(barrier.waiting.is_empty());
}

#[test]
fn gossip_messages_round_trip_on_the_wire() {
    let key = SigningKey::from_bytes(&[8u8; 32]);
    let vote = GossipMessage::VoteOrPrecommit(VoteOrPrecommitMessage {
        round: 4,
        set_id: 5,
        message: signed_vote(&key, VoteKind::Prevote, 4, 5),
    });
    let bytes = vote.encode();
    match GossipMessage::decode(&bytes) {
        Some(GossipMessage::VoteOrPrecommit(m)) => {
            assert_eq!(m.round, 4);
            assert_eq!(m.set_id, 5);
            assert_eq!(m.message.vote.target_number, 77);
        }
        _ => panic!("an encoded vote decodes"),
    }
    let pc = signed_vote(&key, VoteKind::Precommit, 4, 5);
    let commit = GossipMessage::Commit(FullCommitMessage {
        round: 4,
        set_id: 5,
        message: CompactCommit {
            target_hash: vec![5u8; 32],
            target_number: 77,
            precommits: vec![Vote {
                target_hash: vec![5u8; 32],
                target_number: 77,
            }],
            auth_data: vec![(pc.signature, pc.id)],
        },
    });
    let bytes = commit.encode();
    let v = window(0, 5, 5);
    match v.validate_bytes(&bytes) {
        ValidationResult::Valid(topic) => assert_eq!(topic, commit_topic(5)),
        _ => panic!("an encoded well-signed commit validates"),
    }
}

#[test]
fn consecutive_handoffs_step_the_set_id() {
    let mut set = AuthoritySet::genesis(vec![(vec![1u8; 32], 1)]);
    assert!(set.add_pending_change(
        100,
        ScheduledChange {
            next_authorities: vec![(vec![2u8; 32], 1)],
            delay: 10,
        }
    ));
    assert!(set.add_pending_change(
        105,
        ScheduledChange {
            next_authorities: vec![(vec![3u8; 32], 1)],
            delay: 10,
        }
    ));
    let commands = set.apply_finalized(120, &[6u8; 32], &vec![true, true]);
    assert_eq!(commands.len(), 2);
    // Each handoff advances the set id by exactly one, in order.
    assert_eq!(commands[0].set_id, 1);
    assert_eq!(commands[1].set_id, 2);
    assert_eq!(commands[0].authorities[0].0, vec![2u8; 32]);
    assert_eq!(commands[1].authorities[0].0, vec![3u8; 32]);
    assert_eq!(set.set_id, 2);
    assert_eq!(set.current_authorities[0].0, vec![3u8; 32]);
    assert!(set.pending_changes.is_empty());
}

#[test]
fn out_of_order_changes_are_refused() {
    let mut set = AuthoritySet::genesis(vec![(vec![1u8; 32], 1)]);
    let (added, _) = set.import_hook(
        100,
        Some(ScheduledChange {
            next_authorities: vec![(vec![2u8; 32], 1)],
            delay: 50,
        }),
    );
    assert!(added);
    // A change that would run before the one already pending is
    // refused, and the pending list stays as it was.
    let (added, _) = set.import_hook(
        101,
        Some(ScheduledChange {
            next_authorities: vec![(vec![3u8; 32], 1)],
            delay: 10,
        }),
    );
    assert!(!added);
    assert_eq!(set.pending_changes.len(), 1);
}
