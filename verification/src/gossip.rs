//! Gossip validation for finality messages.
//!
//! The validator tracks the live window — the least live round, the
//! highest round seen, the current set id — and classifies incoming
//! votes and commits as expired, invalid or valid under a topic. A
//! message of an older set is expired; one of the next set is kept
//! only within the first few rounds; within the current set a round
//! more than the tolerance behind the least live round is expired.

use vstd::prelude::*;

verus! {

use crate::bytes::{le_seq, le_value, p256, push_bytes, lemma_le_seq_value,
    lemma_le_value_unique};
use crate::codec::{spec_decode_compact, decode_compact_u32, encode_compact_u64,
    push_le_bytes_u64};
use crate::crypto::{blake2b_256, blake2b_256_of, ed25519_verify, ed25519_verifies};
use crate::relay::lemma_compact_prefix_stable;

/// How many rounds beyond the window a message may run without
/// expiring.
pub const MESSAGE_ROUND_TOLERANCE: u64 = 2;

/// The validator's round window.
pub struct TopicTracker {
    pub min_live_round: u64,
    pub max_round: u64,
    pub set_id: u64,
}

impl TopicTracker {
    /// Whether a message at `(round, set_id)` is expired for this
    /// window: an older set always, a set after the next always, the
    /// next set beyond the tolerance, and the current set below the
    /// least live round by more than the tolerance.
    pub open spec fn spec_is_expired(self, round: u64, set_id: u64) -> bool {
        if set_id < self.set_id {
            true
        } else if set_id == self.set_id + 1 {
            round > MESSAGE_ROUND_TOLERANCE
        } else if set_id == self.set_id {
            round + MESSAGE_ROUND_TOLERANCE < self.min_live_round
        } else {
            true
        }
    }

    /// Classify `(round, set_id)` against the window.
    pub fn is_expired(&self, round: u64, set_id: u64) -> (r: bool)
        ensures
            r == self.spec_is_expired(round, set_id),
    {
        if set_id < self.set_id {
            true
        } else if self.set_id < u64::MAX && set_id == self.set_id + 1 {
            round > MESSAGE_ROUND_TOLERANCE
        } else if set_id == self.set_id {
            let floor = if self.min_live_round >= MESSAGE_ROUND_TOLERANCE {
                self.min_live_round - MESSAGE_ROUND_TOLERANCE
            } else {
                0
            };
            round < floor
        } else {
            true
        }
    }
}

/// Messages of sets gone by are expired; rounds of the current set
/// from the tolerance below the least live round on are not.
pub proof fn lemma_gossip_expiry(t: TopicTracker, round: u64, set_id: u64)
    ensures
        set_id < t.set_id ==> t.spec_is_expired(round, set_id),
        set_id == t.set_id && round + MESSAGE_ROUND_TOLERANCE >= t.min_live_round
            ==> !t.spec_is_expired(round, set_id),
{
}

/// The gossip validator: the window, adjusted on sends and drops.
pub struct GossipValidator {
    pub rounds: TopicTracker,
}

impl GossipValidator {
    /// A validator with an empty window at set zero.
    pub fn new() -> (r: GossipValidator)
        ensures
            r.rounds.min_live_round == 0,
            r.rounds.max_round == 0,
            r.rounds.set_id == 0,
    {
        GossipValidator { rounds: TopicTracker { min_live_round: 0, max_round: 0, set_id: 0 } }
    }

    /// Note a round in play: a later set resets the window to it, and
    /// the highest round seen rises to `round`.
    pub fn note_round(&mut self, round: u64, set_id: u64)
        ensures
            set_id > old(self).rounds.set_id ==> final(self).rounds == (TopicTracker {
                min_live_round: 0,
                max_round: round,
                set_id,
            }),
            set_id <= old(self).rounds.set_id ==> final(self).rounds == (TopicTracker {
                max_round: if round > old(self).rounds.max_round {
                    round
                } else {
                    old(self).rounds.max_round
                },
                ..old(self).rounds
            }),
    {
        if set_id > self.rounds.set_id {
            self.rounds.set_id = set_id;
            self.rounds.max_round = 0;
            self.rounds.min_live_round = 0;
        }
        if round > self.rounds.max_round {
            self.rounds.max_round = round;
        }
    }

    /// Nothing tracks sets beyond the window.
    pub fn note_set(&self, _set_id: u64) {
    }

    /// Drop a completed round of the current set: the least live round
    /// moves past it.
    pub fn drop_round(&mut self, round: u64, set_id: u64)
        requires
            round < u64::MAX,
        ensures
            set_id == old(self).rounds.set_id && round >= old(self).rounds.min_live_round
                ==> final(self).rounds == (TopicTracker {
                min_live_round: (round + 1) as u64,
                ..old(self).rounds
            }),
            !(set_id == old(self).rounds.set_id && round >= old(self).rounds.min_live_round)
                ==> final(self).rounds == old(self).rounds,
    {
        if set_id == self.rounds.set_id && round >= self.rounds.min_live_round {
            self.rounds.min_live_round = round + 1;
        }
    }

    /// Nothing tracks dropped sets beyond the window.
    pub fn drop_set(&self, _set_id: u64) {
    }

    /// Classify `(round, set_id)` against the window.
    pub fn is_expired(&self, round: u64, set_id: u64) -> (r: bool)
        ensures
            r == self.rounds.spec_is_expired(round, set_id),
    {
        self.rounds.is_expired(round, set_id)
    }
}

/// A vote on a block.
pub struct Vote {
    pub target_hash: Vec<u8>,
    pub target_number: u64,
}

/// A finality-gadget message: a prevote or a precommit.
pub enum VoteKind {
    Prevote,
    Precommit,
}

/// A signed vote with its author.
pub struct SignedMessage {
    pub kind: VoteKind,
    pub vote: Vote,
    pub signature: Vec<u8>,
    pub id: Vec<u8>,
}

/// A vote message with its round and set.
pub struct VoteOrPrecommitMessage {
    pub round: u64,
    pub set_id: u64,
    pub message: SignedMessage,
}

/// A compact commit: the finalized target, the precommits and their
/// signers.
pub struct CompactCommit {
    pub target_hash: Vec<u8>,
    pub target_number: u64,
    pub precommits: Vec<Vote>,
    pub auth_data: Vec<(Vec<u8>, Vec<u8>)>,
}

/// A commit message with its round and set.
pub struct FullCommitMessage {
    pub round: u64,
    pub set_id: u64,
    pub message: CompactCommit,
}

/// A gossip message as it travels.
pub enum GossipMessage {
    VoteOrPrecommit(VoteOrPrecommitMessage),
    Commit(FullCommitMessage),
}

/// How a message is classified: good under a topic, expired, or bad.
pub enum ValidationResult {
    Valid(Vec<u8>),
    Invalid,
    Expired,
}

/// The bytes a vote signature covers: the vote tagged with its kind,
/// then the round and the set, all little-endian.
pub open spec fn spec_localized_payload(
    kind: VoteKind,
    target_hash: Seq<u8>,
    target_number: u64,
    round: u64,
    set_id: u64,
) -> Seq<u8> {
    (match kind {
        VoteKind::Prevote => seq![0u8],
        VoteKind::Precommit => seq![1u8],
    }) + target_hash + le_seq(target_number as nat, 8) + le_seq(round as nat, 8) + le_seq(
        set_id as nat,
        8,
    )
}

/// Build the bytes a vote signature covers.
pub fn localized_payload(
    kind: &VoteKind,
    target_hash: &[u8],
    target_number: u64,
    round: u64,
    set_id: u64,
) -> (r: Vec<u8>)
    ensures
        r@ == spec_localized_payload(*kind, target_hash@, target_number, round, set_id),
{
    let mut out: Vec<u8> = Vec::new();
    out.push(
        match kind {
            VoteKind::Prevote => 0u8,
            VoteKind::Precommit => 1u8,
        },
    );
    let ghost s1 = out@;
    push_bytes(&mut out, target_hash);
    let ghost s2 = out@;
    proof {
        reveal_with_fuel(p256, 9);
    }
    push_le_bytes_u64(&mut out, target_number, 8);
    let ghost s3 = out@;
    proof {
        let seg = s3.subrange(s2.len() as int, s3.len() as int);
        lemma_le_seq_value(target_number as nat, 8);
        lemma_le_value_unique(seg, le_seq(target_number as nat, 8));
        assert(s3 =~= s2 + le_seq(target_number as nat, 8));
    }
    push_le_bytes_u64(&mut out, round, 8);
    let ghost s4 = out@;
    proof {
        let seg = s4.subrange(s3.len() as int, s4.len() as int);
        lemma_le_seq_value(round as nat, 8);
        lemma_le_value_unique(seg, le_seq(round as nat, 8));
        assert(s4 =~= s3 + le_seq(round as nat, 8));
    }
    push_le_bytes_u64(&mut out, set_id, 8);
    proof {
        let seg = out@.subrange(s4.len() as int, out@.len() as int);
        lemma_le_seq_value(set_id as nat, 8);
        lemma_le_value_unique(seg, le_seq(set_id as nat, 8));
        assert(out@ =~= s4 + le_seq(set_id as nat, 8));
        assert(out@ =~= spec_localized_payload(*kind, target_hash@, target_number, round, set_id));
    }
    out
}

/// Whether a signature over a vote's localized payload verifies for
/// `(round, set_id)` under the author's key, over byte strings.
pub open spec fn spec_sig_ok(
    kind: VoteKind,
    target_hash: Seq<u8>,
    target_number: u64,
    signature: Seq<u8>,
    id: Seq<u8>,
    round: u64,
    set_id: u64,
) -> bool {
    id.len() == 32 && signature.len() == 64 && ed25519_verifies(
        id,
        spec_localized_payload(kind, target_hash, target_number, round, set_id),
        signature,
    )
}

/// Whether a vote's signature verifies for `(round, set_id)` under its
/// author's key.
pub open spec fn spec_message_sig_ok(msg: SignedMessage, round: u64, set_id: u64) -> bool {
    spec_sig_ok(
        msg.kind,
        msg.vote.target_hash@,
        msg.vote.target_number,
        msg.signature@,
        msg.id@,
        round,
        set_id,
    )
}

/// Check a vote's signature for `(round, set_id)`.
pub fn check_message_sig(msg: &SignedMessage, round: u64, set_id: u64) -> (r: bool)
    ensures
        r == spec_message_sig_ok(*msg, round, set_id),
{
    if msg.id.len() != 32 || msg.signature.len() != 64 {
        return false;
    }
    let payload = localized_payload(
        &msg.kind,
        msg.vote.target_hash.as_slice(),
        msg.vote.target_number,
        round,
        set_id,
    );
    ed25519_verify(msg.id.as_slice(), payload.as_slice(), msg.signature.as_slice())
}

/// The decimal digits of `n`.
pub open spec fn spec_decimal(n: u64) -> Seq<u8>
    decreases n,
{
    if n < 10 {
        seq![(48 + n) as u8]
    } else {
        spec_decimal(n / 10).push((48 + n % 10) as u8)
    }
}

/// Append the decimal digits of `n`.
pub fn push_decimal(out: &mut Vec<u8>, n: u64)
    ensures
        final(out)@ =~= old(out)@ + spec_decimal(n),
    decreases n,
{
    if n < 10 {
        out.push((48 + n) as u8);
        proof {
            assert(out@ =~= old(out)@ + seq![(48 + n) as u8]);
        }
    } else {
        push_decimal(out, n / 10);
        out.push((48 + n % 10) as u8);
        proof {
            assert(old(out)@ + spec_decimal(n / 10).push((48 + n % 10) as u8) =~= (old(out)@
                + spec_decimal(n / 10)).push((48 + n % 10) as u8));
        }
    }
}

/// The topic of round messages: the hash of `"{set}-{round}"`.
pub open spec fn spec_message_topic(round: u64, set_id: u64) -> Seq<u8> {
    blake2b_256_of(spec_decimal(set_id) + seq![45u8] + spec_decimal(round))
}

/// The topic of commit messages: the hash of `"{set}-COMMITS"`.
pub open spec fn spec_commit_topic(set_id: u64) -> Seq<u8> {
    blake2b_256_of(spec_decimal(set_id) + seq![45u8, 67u8, 79u8, 77u8, 77u8, 73u8, 84u8, 83u8])
}

/// The topic of round messages.
pub fn message_topic(round: u64, set_id: u64) -> (r: Vec<u8>)
    ensures
        r@ == spec_message_topic(round, set_id),
{
    let mut name: Vec<u8> = Vec::new();
    push_decimal(&mut name, set_id);
    name.push(45u8);
    let ghost s1 = name@;
    push_decimal(&mut name, round);
    proof {
        assert(s1 =~= spec_decimal(set_id) + seq![45u8]);
        assert(name@ =~= spec_decimal(set_id) + seq![45u8] + spec_decimal(round));
    }
    blake2b_256(name.as_slice())
}

/// The topic of commit messages.
pub fn commit_topic(set_id: u64) -> (r: Vec<u8>)
    ensures
        r@ == spec_commit_topic(set_id),
{
    let mut name: Vec<u8> = Vec::new();
    push_decimal(&mut name, set_id);
    push_bytes(&mut name, &[45u8, 67u8, 79u8, 77u8, 77u8, 73u8, 84u8, 83u8]);
    proof {
        assert(name@ =~= spec_decimal(set_id) + seq![45u8, 67u8, 79u8, 77u8, 77u8, 73u8, 84u8,
            83u8]);
    }
    blake2b_256(name.as_slice())
}

/// Whether every precommit of a commit is signed by its listed author
/// for `(round, set_id)`.
pub open spec fn spec_commit_sigs_ok(c: CompactCommit, round: u64, set_id: u64) -> bool {
    forall|i: int|
        0 <= i < c.precommits@.len() ==> spec_message_sig_ok(
            SignedMessage {
                kind: VoteKind::Precommit,
                vote: #[trigger] c.precommits@[i],
                signature: c.auth_data@[i].0,
                id: c.auth_data@[i].1,
            },
            round,
            set_id,
        )
}

/// Whether every precommit of a commit is signed by its listed
/// author, over byte strings.
pub open spec fn spec_commit_sigs_ok_view(c: SpecCompactCommit, round: u64, set_id: u64) -> bool {
    forall|i: int|
        0 <= i < c.precommits.len() ==> spec_sig_ok(
            VoteKind::Precommit,
            (#[trigger] c.precommits[i]).target_hash,
            c.precommits[i].target_number,
            c.auth_data[i].0,
            c.auth_data[i].1,
            round,
            set_id,
        )
}

impl GossipValidator {
    /// Classify a vote message: expired by the window, invalid on a
    /// bad signature, else valid under the round topic.
    pub fn validate_round_message(&self, full: &VoteOrPrecommitMessage) -> (r: ValidationResult)
        ensures
            self.rounds.spec_is_expired(full.round, full.set_id) ==> r is Expired,
            !self.rounds.spec_is_expired(full.round, full.set_id) && !spec_message_sig_ok(
                full.message,
                full.round,
                full.set_id,
            ) ==> r is Invalid,
            !self.rounds.spec_is_expired(full.round, full.set_id) && spec_message_sig_ok(
                full.message,
                full.round,
                full.set_id,
            ) ==> (r matches ValidationResult::Valid(t) && t@ == spec_message_topic(
                full.round,
                full.set_id,
            )),
    {
        if self.is_expired(full.round, full.set_id) {
            return ValidationResult::Expired;
        }
        if !check_message_sig(&full.message, full.round, full.set_id) {
            return ValidationResult::Invalid;
        }
        ValidationResult::Valid(message_topic(full.round, full.set_id))
    }

    /// Classify a commit message: expired by the window; invalid when
    /// the precommit and author lists disagree or are empty, or any
    /// signature fails; else valid under the commit topic.
    pub fn validate_commit_message(&self, full: &FullCommitMessage) -> (r: ValidationResult)
        ensures
            self.rounds.spec_is_expired(full.round, full.set_id) ==> r is Expired,
            !self.rounds.spec_is_expired(full.round, full.set_id) ==> {
                let ok = full.message.precommits@.len() == full.message.auth_data@.len()
                    && full.message.precommits@.len() > 0 && spec_commit_sigs_ok(
                    full.message,
                    full.round,
                    full.set_id,
                );
                if ok {
                    r matches ValidationResult::Valid(t) && t@ == spec_commit_topic(full.set_id)
                } else {
                    r is Invalid
                }
            },
    {
        if self.is_expired(full.round, full.set_id) {
            return ValidationResult::Expired;
        }
        let n = full.message.precommits.len();
        if n != full.message.auth_data.len() || n == 0 {
            return ValidationResult::Invalid;
        }
        let mut i: usize = 0;
        while i < n
            invariant
                0 <= i <= n,
                n > 0,
                !self.rounds.spec_is_expired(full.round, full.set_id),
                n == full.message.precommits@.len(),
                n == full.message.auth_data@.len(),
                forall|j: int|
                    0 <= j < i ==> spec_message_sig_ok(
                        SignedMessage {
                            kind: VoteKind::Precommit,
                            vote: #[trigger] full.message.precommits@[j],
                            signature: full.message.auth_data@[j].0,
                            id: full.message.auth_data@[j].1,
                        },
                        full.round,
                        full.set_id,
                    ),
            decreases n - i,
        {
            let pc = &full.message.precommits[i];
            let sig = &full.message.auth_data[i].0;
            let id = &full.message.auth_data[i].1;
            if id.len() != 32 || sig.len() != 64 {
                proof {
                    assert(!spec_message_sig_ok(
                        SignedMessage {
                            kind: VoteKind::Precommit,
                            vote: full.message.precommits@[i as int],
                            signature: full.message.auth_data@[i as int].0,
                            id: full.message.auth_data@[i as int].1,
                        },
                        full.round,
                        full.set_id,
                    ));
                }
                return ValidationResult::Invalid;
            }
            let payload = localized_payload(
                &VoteKind::Precommit,
                pc.target_hash.as_slice(),
                pc.target_number,
                full.round,
                full.set_id,
            );
            if !ed25519_verify(id.as_slice(), payload.as_slice(), sig.as_slice()) {
                proof {
                    assert(!spec_message_sig_ok(
                        SignedMessage {
                            kind: VoteKind::Precommit,
                            vote: full.message.precommits@[i as int],
                            signature: full.message.auth_data@[i as int].0,
                            id: full.message.auth_data@[i as int].1,
                        },
                        full.round,
                        full.set_id,
                    ));
                }
                return ValidationResult::Invalid;
            }
            i = i + 1;
        }
        ValidationResult::Valid(commit_topic(full.set_id))
    }

    /// Classify a decoded gossip message.
    pub fn validate(&self, message: &GossipMessage) -> (r: ValidationResult)
        ensures
            match message {
                GossipMessage::VoteOrPrecommit(m) => {
                    &&& self.rounds.spec_is_expired(m.round, m.set_id) ==> r is Expired
                    &&& !self.rounds.spec_is_expired(m.round, m.set_id) && !spec_message_sig_ok(
                        m.message,
                        m.round,
                        m.set_id,
                    ) ==> r is Invalid
                    &&& !self.rounds.spec_is_expired(m.round, m.set_id) && spec_message_sig_ok(
                        m.message,
                        m.round,
                        m.set_id,
                    ) ==> (r matches ValidationResult::Valid(t) && t@ == spec_message_topic(
                        m.round,
                        m.set_id,
                    ))
                },
                GossipMessage::Commit(m) => {
                    &&& self.rounds.spec_is_expired(m.round, m.set_id) ==> r is Expired
                    &&& !self.rounds.spec_is_expired(m.round, m.set_id) ==> {
                        let ok = m.message.precommits@.len() == m.message.auth_data@.len()
                            && m.message.precommits@.len() > 0 && spec_commit_sigs_ok(
                            m.message,
                            m.round,
                            m.set_id,
                        );
                        if ok {
                            r matches ValidationResult::Valid(t) && t@ == spec_commit_topic(
                                m.set_id,
                            )
                        } else {
                            r is Invalid
                        }
                    }
                },
            },
    {
        match message {
            GossipMessage::VoteOrPrecommit(m) => self.validate_round_message(m),
            GossipMessage::Commit(m) => self.validate_commit_message(m),
        }
    }

    /// Whether a message at `(round, set_id)` has expired: what the
    /// sweep of stored messages asks for each of them.
    pub fn message_expired(&self, round: u64, set_id: u64) -> (r: bool)
        ensures
            r == self.rounds.spec_is_expired(round, set_id),
    {
        self.rounds.is_expired(round, set_id)
    }
}

/// What vote decoding yields.
pub struct SpecVote {
    pub target_hash: Seq<u8>,
    pub target_number: u64,
}

impl View for Vote {
    type V = SpecVote;

    closed spec fn view(&self) -> SpecVote {
        SpecVote { target_hash: self.target_hash@, target_number: self.target_number }
    }
}

/// What signed-vote decoding yields.
pub struct SpecSignedMessage {
    pub kind: VoteKind,
    pub vote: SpecVote,
    pub signature: Seq<u8>,
    pub id: Seq<u8>,
}

impl View for SignedMessage {
    type V = SpecSignedMessage;

    closed spec fn view(&self) -> SpecSignedMessage {
        SpecSignedMessage {
            kind: self.kind,
            vote: self.vote@,
            signature: self.signature@,
            id: self.id@,
        }
    }
}

/// What commit decoding yields.
pub struct SpecCompactCommit {
    pub target_hash: Seq<u8>,
    pub target_number: u64,
    pub precommits: Seq<SpecVote>,
    pub auth_data: Seq<(Seq<u8>, Seq<u8>)>,
}

impl View for CompactCommit {
    type V = SpecCompactCommit;

    closed spec fn view(&self) -> SpecCompactCommit {
        SpecCompactCommit {
            target_hash: self.target_hash@,
            target_number: self.target_number,
            precommits: Seq::new(self.precommits@.len(), |i: int| self.precommits@[i]@),
            auth_data: Seq::new(
                self.auth_data@.len(),
                |i: int| (self.auth_data@[i].0@, self.auth_data@[i].1@),
            ),
        }
    }
}

/// What gossip-message decoding yields.
pub enum SpecGossipMessage {
    VoteOrPrecommit(u64, u64, SpecSignedMessage),
    Commit(u64, u64, SpecCompactCommit),
}

impl View for GossipMessage {
    type V = SpecGossipMessage;

    closed spec fn view(&self) -> SpecGossipMessage {
        match self {
            GossipMessage::VoteOrPrecommit(m) => SpecGossipMessage::VoteOrPrecommit(
                m.round,
                m.set_id,
                m.message@,
            ),
            GossipMessage::Commit(m) => SpecGossipMessage::Commit(m.round, m.set_id, m.message@),
        }
    }
}

/// A vote on the wire: a 32-byte target hash and an eight-byte number.
pub open spec fn spec_decode_vote(s: Seq<u8>, pos: int) -> Option<(SpecVote, int)> {
    if 0 <= pos && pos + 40 <= s.len() {
        Some(
            (
                SpecVote {
                    target_hash: s.subrange(pos, pos + 32),
                    target_number: le_value(s.subrange(pos + 32, pos + 40)) as u64,
                },
                pos + 40,
            ),
        )
    } else {
        None
    }
}

/// A signed vote on the wire: a kind tag, the vote, the 64-byte
/// signature and the 32-byte author.
pub open spec fn spec_decode_signed(s: Seq<u8>, pos: int) -> Option<(SpecSignedMessage, int)> {
    if !(0 <= pos < s.len() && (s[pos] == 0 || s[pos] == 1)) {
        None
    } else {
        let kind = if s[pos] == 0 {
            VoteKind::Prevote
        } else {
            VoteKind::Precommit
        };
        match spec_decode_vote(s, pos + 1) {
            None => None,
            Some((vote, p1)) => {
                if p1 + 96 <= s.len() {
                    Some(
                        (
                            SpecSignedMessage {
                                kind,
                                vote,
                                signature: s.subrange(p1, p1 + 64),
                                id: s.subrange(p1 + 64, p1 + 96),
                            },
                            p1 + 96,
                        ),
                    )
                } else {
                    None
                }
            },
        }
    }
}

/// A run of `n` votes.
pub open spec fn spec_decode_votes(s: Seq<u8>, pos: int, n: nat) -> Option<(Seq<SpecVote>, int)>
    decreases n,
{
    if n == 0 {
        Some((Seq::empty(), pos))
    } else {
        match spec_decode_vote(s, pos) {
            None => None,
            Some((v, p1)) => match spec_decode_votes(s, p1, (n - 1) as nat) {
                None => None,
                Some((rest, p2)) => Some((seq![v] + rest, p2)),
            },
        }
    }
}

/// A run of `n` signature-author pairs.
pub open spec fn spec_decode_auth(s: Seq<u8>, pos: int, n: nat) -> Option<
    (Seq<(Seq<u8>, Seq<u8>)>, int),
>
    decreases n,
{
    if n == 0 {
        Some((Seq::empty(), pos))
    } else if 0 <= pos && pos + 96 <= s.len() {
        match spec_decode_auth(s, pos + 96, (n - 1) as nat) {
            None => None,
            Some((rest, p2)) => Some(
                (seq![(s.subrange(pos, pos + 64), s.subrange(pos + 64, pos + 96))] + rest, p2),
            ),
        }
    } else {
        None
    }
}

/// A gossip message on the wire: a tag, the round and set, then a
/// signed vote or a commit with its compactly counted lists.
pub open spec fn spec_decode_gossip(s: Seq<u8>) -> Option<SpecGossipMessage> {
    if s.len() < 17 || (s[0] != 0 && s[0] != 1) {
        None
    } else {
        let round = le_value(s.subrange(1, 9)) as u64;
        let set_id = le_value(s.subrange(9, 17)) as u64;
        if s[0] == 0 {
            match spec_decode_signed(s, 17) {
                None => None,
                Some((m, _)) => Some(SpecGossipMessage::VoteOrPrecommit(round, set_id, m)),
            }
        } else {
            if !(17 + 40 <= s.len()) {
                None
            } else {
                let target_hash = s.subrange(17, 49);
                let target_number = le_value(s.subrange(49, 57)) as u64;
                match spec_decode_compact(s, 57, 4) {
                    None => None,
                    Some((n1, q1)) => match spec_decode_votes(s, q1, n1) {
                        None => None,
                        Some((precommits, p1)) => match spec_decode_compact(s, p1, 4) {
                            None => None,
                            Some((n2, q2)) => match spec_decode_auth(s, q2, n2) {
                                None => None,
                                Some((auth, _)) => Some(
                                    SpecGossipMessage::Commit(
                                        round,
                                        set_id,
                                        SpecCompactCommit {
                                            target_hash,
                                            target_number,
                                            precommits,
                                            auth_data: auth,
                                        },
                                    ),
                                ),
                            },
                        },
                    },
                }
            }
        }
    }
}

/// Read one vote.
fn decode_vote(s: &[u8], pos: usize) -> (r: Option<(Vote, usize)>)
    ensures
        match r {
            Some((v, p)) => spec_decode_vote(s@, pos as int) == Some((v@, p as int)),
            None => spec_decode_vote(s@, pos as int) is None,
        },
{
    let len = s.len();
    if !(pos <= len && len - pos >= 40) {
        return None;
    }
    let (target_hash, _) = match crate::codec::decode_bytes(s, pos, 32) {
        Some(x) => x,
        None => {
            return None;
        },
    };
    proof {
        reveal_with_fuel(p256, 9);
        crate::bytes::lemma_le_value_bound(s@.subrange(pos + 32, pos + 40));
    }
    let target_number = crate::bytes::u64_from_le_n(s, pos + 32, 8);
    Some((Vote { target_hash, target_number }, pos + 40))
}

/// Read one signed vote.
fn decode_signed(s: &[u8], pos: usize) -> (r: Option<(SignedMessage, usize)>)
    ensures
        match r {
            Some((m, p)) => spec_decode_signed(s@, pos as int) == Some((m@, p as int)),
            None => spec_decode_signed(s@, pos as int) is None,
        },
{
    let len = s.len();
    if !(pos < len) {
        return None;
    }
    let kind = if s[pos] == 0 {
        VoteKind::Prevote
    } else if s[pos] == 1 {
        VoteKind::Precommit
    } else {
        return None;
    };
    let (vote, p1) = match decode_vote(s, pos + 1) {
        Some(x) => x,
        None => {
            return None;
        },
    };
    if !(p1 <= len && len - p1 >= 96) {
        return None;
    }
    let (signature, _) = match crate::codec::decode_bytes(s, p1, 64) {
        Some(x) => x,
        None => {
            return None;
        },
    };
    let (id, _) = match crate::codec::decode_bytes(s, p1 + 64, 32) {
        Some(x) => x,
        None => {
            return None;
        },
    };
    Some((SignedMessage { kind, vote, signature, id }, p1 + 96))
}

impl GossipMessage {
    /// Read a gossip message from its bytes, or nothing on a framing
    /// violation.
    pub fn decode(data: &[u8]) -> (r: Option<GossipMessage>)
        ensures
            match r {
                Some(m) => spec_decode_gossip(data@) == Some(m@),
                None => spec_decode_gossip(data@) is None,
            },
    {
        let len = data.len();
        if len < 17 {
            return None;
        }
        let tag = data[0];
        if tag != 0 && tag != 1 {
            return None;
        }
        proof {
            reveal_with_fuel(p256, 9);
            crate::bytes::lemma_le_value_bound(data@.subrange(1, 9));
            crate::bytes::lemma_le_value_bound(data@.subrange(9, 17));
        }
        let round = crate::bytes::u64_from_le_n(data, 1, 8);
        let set_id = crate::bytes::u64_from_le_n(data, 9, 17 - 9);
        if tag == 0 {
            let (message, _) = match decode_signed(data, 17) {
                Some(x) => x,
                None => {
                    return None;
                },
            };
            Some(GossipMessage::VoteOrPrecommit(VoteOrPrecommitMessage { round, set_id, message }))
        } else {
            if !(len >= 57) {
                return None;
            }
            let (target_hash, _) = match crate::codec::decode_bytes(data, 17, 32) {
                Some(x) => x,
                None => {
                    return None;
                },
            };
            proof {
                reveal_with_fuel(p256, 9);
                crate::bytes::lemma_le_value_bound(data@.subrange(49, 57));
            }
            let target_number = crate::bytes::u64_from_le_n(data, 49, 8);
            let (n1, q1) = match crate::codec::decode_compact_u32(data, 57) {
                Some(x) => x,
                None => {
                    return None;
                },
            };
            let mut precommits: Vec<Vote> = Vec::new();
            let mut pos: usize = q1;
            let mut i: u32 = 0;
            while i < n1
                invariant
                    0 <= i <= n1,
                    q1 <= pos <= data@.len(),
                    data@.len() == len,
                    len >= 57,
                    data@[0] == 1,
                    spec_decode_compact(data@, 57, 4) == Some((n1 as nat, q1 as int)),
                    precommits@.len() == i,
                    match spec_decode_votes(data@, q1 as int, n1 as nat) {
                        Some((all, pend)) => {
                            &&& spec_decode_votes(data@, pos as int, (n1 - i) as nat) is Some
                            &&& all =~= Seq::new(precommits@.len(), |j: int| precommits@[j]@)
                                + spec_decode_votes(
                                data@,
                                pos as int,
                                (n1 - i) as nat,
                            )->Some_0.0
                            &&& pend == spec_decode_votes(
                                data@,
                                pos as int,
                                (n1 - i) as nat,
                            )->Some_0.1
                        },
                        None => spec_decode_votes(data@, pos as int, (n1 - i) as nat) is None,
                    },
                decreases n1 - i,
            {
                let ghost pre = spec_decode_votes(data@, pos as int, (n1 - i) as nat);
                let (v, p2) = match decode_vote(data, pos) {
                    Some(x) => x,
                    None => {
                        return None;
                    },
                };
                precommits.push(v);
                proof {
                    if spec_decode_votes(data@, q1 as int, n1 as nat) is Some {
                        let prevs = Seq::new(
                            (precommits@.len() - 1) as nat,
                            |j: int| precommits@[j]@,
                        );
                        assert(Seq::new(precommits@.len(), |j: int| precommits@[j]@) =~= prevs.push(
                            v@,
                        ));
                        assert(prevs.push(v@) + spec_decode_votes(
                            data@,
                            p2 as int,
                            (n1 - i - 1) as nat,
                        )->Some_0.0 =~= prevs + pre->Some_0.0);
                    }
                }
                pos = p2;
                i = i + 1;
            }
            proof {
                if spec_decode_votes(data@, q1 as int, n1 as nat) is Some {
                    assert(spec_decode_votes(data@, pos as int, 0) == Some(
                        (Seq::<SpecVote>::empty(), pos as int),
                    ));
                    assert(spec_decode_votes(data@, q1 as int, n1 as nat)->Some_0.0 =~= Seq::new(
                        precommits@.len(),
                        |j: int| precommits@[j]@,
                    ));
                }
            }
            let ghost vend = pos as int;
            let (n2, q2) = match crate::codec::decode_compact_u32(data, pos) {
                Some(x) => x,
                None => {
                    return None;
                },
            };
            let mut auth_data: Vec<(Vec<u8>, Vec<u8>)> = Vec::new();
            let mut pos2: usize = q2;
            let mut k: u32 = 0;
            while k < n2
                invariant
                    0 <= k <= n2,
                    q2 <= pos2 <= data@.len(),
                    data@.len() == len,
                    len >= 57,
                    data@[0] == 1,
                    spec_decode_compact(data@, 57, 4) == Some((n1 as nat, q1 as int)),
                    spec_decode_votes(data@, q1 as int, n1 as nat) is Some,
                    spec_decode_votes(data@, q1 as int, n1 as nat)->Some_0.1 == vend,
                    spec_decode_compact(data@, vend, 4) == Some((n2 as nat, q2 as int)),
                    auth_data@.len() == k,
                    match spec_decode_auth(data@, q2 as int, n2 as nat) {
                        Some((all, _)) => {
                            &&& spec_decode_auth(data@, pos2 as int, (n2 - k) as nat) is Some
                            &&& all =~= Seq::new(
                                auth_data@.len(),
                                |j: int| (auth_data@[j].0@, auth_data@[j].1@),
                            ) + spec_decode_auth(data@, pos2 as int, (n2 - k) as nat)->Some_0.0
                        },
                        None => spec_decode_auth(data@, pos2 as int, (n2 - k) as nat) is None,
                    },
                decreases n2 - k,
            {
                let ghost pre = spec_decode_auth(data@, pos2 as int, (n2 - k) as nat);
                if !(pos2 <= len && len - pos2 >= 96) {
                    return None;
                }
                let (sig, _) = match crate::codec::decode_bytes(data, pos2, 64) {
                    Some(x) => x,
                    None => {
                        return None;
                    },
                };
                let (id, _) = match crate::codec::decode_bytes(data, pos2 + 64, 32) {
                    Some(x) => x,
                    None => {
                        return None;
                    },
                };
                auth_data.push((sig, id));
                proof {
                    if spec_decode_auth(data@, q2 as int, n2 as nat) is Some {
                        let prevs = Seq::new(
                            (auth_data@.len() - 1) as nat,
                            |j: int| (auth_data@[j].0@, auth_data@[j].1@),
                        );
                        assert(Seq::new(
                            auth_data@.len(),
                            |j: int| (auth_data@[j].0@, auth_data@[j].1@),
                        ) =~= prevs.push((data@.subrange(pos2 as int, pos2 + 64), data@.subrange(
                            pos2 + 64,
                            pos2 + 96,
                        ))));
                        assert(prevs.push((data@.subrange(pos2 as int, pos2 + 64), data@.subrange(
                            pos2 + 64,
                            pos2 + 96,
                        ))) + spec_decode_auth(
                            data@,
                            pos2 + 96,
                            (n2 - k - 1) as nat,
                        )->Some_0.0 =~= prevs + pre->Some_0.0);
                    }
                }
                pos2 = pos2 + 96;
                k = k + 1;
            }
            proof {
                if spec_decode_auth(data@, q2 as int, n2 as nat) is Some {
                    assert(spec_decode_auth(data@, pos2 as int, 0) == Some(
                        (Seq::<(Seq<u8>, Seq<u8>)>::empty(), pos2 as int),
                    ));
                    assert(spec_decode_auth(data@, q2 as int, n2 as nat)->Some_0.0 =~= Seq::new(
                        auth_data@.len(),
                        |j: int| (auth_data@[j].0@, auth_data@[j].1@),
                    ));
                }
            }
            let message = CompactCommit { target_hash, target_number, precommits, auth_data };
            Some(GossipMessage::Commit(FullCommitMessage { round, set_id, message }))
        }
    }
}

impl GossipValidator {
    /// Classify raw gossip bytes: undecodable bytes are invalid, and a
    /// decoded message is classified by its round and set.
    pub fn validate_bytes(&self, data: &[u8]) -> (r: ValidationResult)
        ensures
            match spec_decode_gossip(data@) {
                None => r is Invalid,
                Some(SpecGossipMessage::VoteOrPrecommit(round, set_id, sm)) => {
                    &&& self.rounds.spec_is_expired(round, set_id) ==> r is Expired
                    &&& !self.rounds.spec_is_expired(round, set_id) && !spec_sig_ok(
                        sm.kind,
                        sm.vote.target_hash,
                        sm.vote.target_number,
                        sm.signature,
                        sm.id,
                        round,
                        set_id,
                    ) ==> r is Invalid
                    &&& !self.rounds.spec_is_expired(round, set_id) && spec_sig_ok(
                        sm.kind,
                        sm.vote.target_hash,
                        sm.vote.target_number,
                        sm.signature,
                        sm.id,
                        round,
                        set_id,
                    ) ==> (r matches ValidationResult::Valid(t) && t@ == spec_message_topic(
                        round,
                        set_id,
                    ))
                },
                Some(SpecGossipMessage::Commit(round, set_id, c)) => {
                    &&& self.rounds.spec_is_expired(round, set_id) ==> r is Expired
                    &&& !self.rounds.spec_is_expired(round, set_id) ==> {
                        let ok = c.precommits.len() == c.auth_data.len() && c.precommits.len() > 0
                            && spec_commit_sigs_ok_view(c, round, set_id);
                        if ok {
                            r matches ValidationResult::Valid(t) && t@ == spec_commit_topic(set_id)
                        } else {
                            r is Invalid
                        }
                    }
                },
            },
    {
        match GossipMessage::decode(data) {
            Some(GossipMessage::VoteOrPrecommit(m)) => self.validate_round_message(&m),
            Some(GossipMessage::Commit(m)) => {
                proof {
                    if m.message.precommits@.len() == m.message.auth_data@.len() {
                        assert(spec_commit_sigs_ok(m.message, m.round, m.set_id)
                            == spec_commit_sigs_ok_view(m.message@, m.round, m.set_id)) by {
                        if spec_commit_sigs_ok(m.message, m.round, m.set_id) {
                            assert forall|i: int|
                                0 <= i < m.message@.precommits.len() implies spec_sig_ok(
                                VoteKind::Precommit,
                                (#[trigger] m.message@.precommits[i]).target_hash,
                                m.message@.precommits[i].target_number,
                                m.message@.auth_data[i].0,
                                m.message@.auth_data[i].1,
                                m.round,
                                m.set_id,
                            ) by {
                                assert(m.message@.precommits[i] == m.message.precommits@[i]@);
                                assert(m.message@.auth_data[i] == (m.message.auth_data@[i].0@,
                                m.message.auth_data@[i].1@));
                                assert(spec_message_sig_ok(
                                    SignedMessage {
                                        kind: VoteKind::Precommit,
                                        vote: m.message.precommits@[i],
                                        signature: m.message.auth_data@[i].0,
                                        id: m.message.auth_data@[i].1,
                                    },
                                    m.round,
                                    m.set_id,
                                ));
                            }
                        }
                        if spec_commit_sigs_ok_view(m.message@, m.round, m.set_id) {
                            assert forall|i: int|
                                0 <= i < m.message.precommits@.len() implies spec_message_sig_ok(
                                SignedMessage {
                                    kind: VoteKind::Precommit,
                                    vote: #[trigger] m.message.precommits@[i],
                                    signature: m.message.auth_data@[i].0,
                                    id: m.message.auth_data@[i].1,
                                },
                                m.round,
                                m.set_id,
                            ) by {
                                assert(m.message@.precommits[i] == m.message.precommits@[i]@);
                                assert(m.message@.auth_data[i] == (m.message.auth_data@[i].0@,
                                m.message.auth_data@[i].1@));
                                assert(spec_sig_ok(
                                    VoteKind::Precommit,
                                    m.message@.precommits[i].target_hash,
                                    m.message@.precommits[i].target_number,
                                    m.message@.auth_data[i].0,
                                    m.message@.auth_data[i].1,
                                    m.round,
                                    m.set_id,
                                ));
                            }
                        }
                        }
                    }
                }
                self.validate_commit_message(&m)
            },
            None => ValidationResult::Invalid,
        }
    }

    /// Whether stored gossip bytes have expired: undecodable bytes
    /// have, and a decoded message follows its round and set.
    pub fn message_expired_bytes(&self, data: &[u8]) -> (r: bool)
        ensures
            r == (match spec_decode_gossip(data@) {
                Some(SpecGossipMessage::VoteOrPrecommit(round, set_id, _)) => self.rounds.spec_is_expired(
                    round,
                    set_id,
                ),
                Some(SpecGossipMessage::Commit(round, set_id, _)) => self.rounds.spec_is_expired(
                    round,
                    set_id,
                ),
                None => true,
            }),
    {
        match GossipMessage::decode(data) {
            Some(GossipMessage::VoteOrPrecommit(m)) => self.is_expired(m.round, m.set_id),
            Some(GossipMessage::Commit(m)) => self.is_expired(m.round, m.set_id),
            None => true,
        }
    }
}

/// Appending bytes does not change a vote run that already decoded.
pub proof fn lemma_decode_votes_extend(s: Seq<u8>, t: Seq<u8>, pos: int, n: nat)
    requires
        spec_decode_votes(s, pos, n) is Some,
    ensures
        spec_decode_votes(s + t, pos, n) == spec_decode_votes(s, pos, n),
    decreases n,
{
    if n > 0 {
        let st = s + t;
        assert(st.subrange(pos, pos + 32) =~= s.subrange(pos, pos + 32));
        assert(st.subrange(pos + 32, pos + 40) =~= s.subrange(pos + 32, pos + 40));
        lemma_decode_votes_extend(s, t, pos + 40, (n - 1) as nat);
    }
}

/// A vote appended at the end of a decoded run extends the run by it.
pub proof fn lemma_decode_votes_snoc(s: Seq<u8>, pos: int, n: nat, v: SpecVote, s2: Seq<u8>)
    requires
        spec_decode_votes(s, pos, n) matches Some((vs, p)) && p == s.len(),
        0 <= pos,
        v.target_hash.len() == 32,
        s2 == s + v.target_hash + le_seq(v.target_number as nat, 8),
    ensures
        spec_decode_votes(s2, pos, n + 1) matches Some((vs2, p2)) && vs2 == spec_decode_votes(
            s,
            pos,
            n,
        )->Some_0.0.push(v) && p2 == s2.len(),
    decreases n,
{
    reveal_with_fuel(p256, 9);
    crate::bytes::lemma_le_seq_value(v.target_number as nat, 8);
    if n == 0 {
        assert(s2.subrange(pos, pos + 32) =~= v.target_hash);
        assert(s2.subrange(pos + 32, pos + 40) =~= le_seq(v.target_number as nat, 8));
        assert(spec_decode_votes(s2, s2.len() as int, 0) == Some(
            (Seq::<SpecVote>::empty(), s2.len() as int),
        ));
        assert(Seq::<SpecVote>::empty().push(v) =~= seq![v] + Seq::<SpecVote>::empty());
    } else {
        assert(s2.subrange(pos, pos + 32) =~= s.subrange(pos, pos + 32));
        assert(s2.subrange(pos + 32, pos + 40) =~= s.subrange(pos + 32, pos + 40));
        lemma_decode_votes_snoc(s, pos + 40, (n - 1) as nat, v, s2);
        let first = spec_decode_vote(s, pos)->Some_0.0;
        let rest = spec_decode_votes(s, pos + 40, (n - 1) as nat)->Some_0.0;
        assert((seq![first] + rest).push(v) =~= seq![first] + rest.push(v));
    }
}

/// A signature-author pair appended at the end of a decoded run
/// extends the run by it.
pub proof fn lemma_decode_auth_snoc(
    s: Seq<u8>,
    pos: int,
    n: nat,
    sig: Seq<u8>,
    id: Seq<u8>,
    s2: Seq<u8>,
)
    requires
        spec_decode_auth(s, pos, n) matches Some((ps, p)) && p == s.len(),
        0 <= pos,
        sig.len() == 64,
        id.len() == 32,
        s2 == s + sig + id,
    ensures
        spec_decode_auth(s2, pos, n + 1) matches Some((ps2, p2)) && ps2 == spec_decode_auth(
            s,
            pos,
            n,
        )->Some_0.0.push((sig, id)) && p2 == s2.len(),
    decreases n,
{
    if n == 0 {
        assert(s2.subrange(pos, pos + 64) =~= sig);
        assert(s2.subrange(pos + 64, pos + 96) =~= id);
        assert(spec_decode_auth(s2, s2.len() as int, 0) == Some(
            (Seq::<(Seq<u8>, Seq<u8>)>::empty(), s2.len() as int),
        ));
        assert(Seq::<(Seq<u8>, Seq<u8>)>::empty().push((sig, id)) =~= seq![(sig, id)] + Seq::<
            (Seq<u8>, Seq<u8>),
        >::empty());
    } else {
        assert(s2.subrange(pos, pos + 64) =~= s.subrange(pos, pos + 64));
        assert(s2.subrange(pos + 64, pos + 96) =~= s.subrange(pos + 64, pos + 96));
        lemma_decode_auth_snoc(s, pos + 96, (n - 1) as nat, sig, id, s2);
        let first = (s.subrange(pos, pos + 64), s.subrange(pos + 64, pos + 96));
        let rest = spec_decode_auth(s, pos + 96, (n - 1) as nat)->Some_0.0;
        assert((seq![first] + rest).push((sig, id)) =~= seq![first] + rest.push((sig, id)));
    }
}

impl GossipMessage {
    /// Write a gossip message; decoding the bytes restores it.
    #[verifier::rlimit(100)]
    #[verifier::spinoff_prover]
    pub fn encode(&self) -> (r: Vec<u8>)
        requires
            self matches GossipMessage::VoteOrPrecommit(m) ==> m.message.vote.target_hash@.len()
                == 32 && m.message.signature@.len() == 64 && m.message.id@.len() == 32,
            self matches GossipMessage::Commit(m) ==> {
                &&& m.message.target_hash@.len() == 32
                &&& m.message.precommits@.len() == m.message.auth_data@.len()
                &&& m.message.precommits@.len() < 0x100000000
                &&& forall|i: int|
                    0 <= i < m.message.precommits@.len() ==> (
                    #[trigger] m.message.precommits@[i]).target_hash@.len() == 32
                        && m.message.auth_data@[i].0@.len() == 64 && m.message.auth_data@[i].1@.len()
                        == 32
            },
        ensures
            spec_decode_gossip(r@) == Some(self@),
    {
        proof {
            reveal_with_fuel(p256, 9);
        }
        match self {
            GossipMessage::VoteOrPrecommit(m) => {
                let mut out: Vec<u8> = vec![0u8];
                push_le_bytes_u64(&mut out, m.round, 8);
                let ghost s1 = out@;
                push_le_bytes_u64(&mut out, m.set_id, 8);
                let ghost head = out@;
                out.push(
                    match m.message.kind {
                        VoteKind::Prevote => 0u8,
                        VoteKind::Precommit => 1u8,
                    },
                );
                let ghost t1 = out@;
                push_bytes(&mut out, m.message.vote.target_hash.as_slice());
                let ghost t2 = out@;
                push_le_bytes_u64(&mut out, m.message.vote.target_number, 8);
                let ghost t3 = out@;
                push_bytes(&mut out, m.message.signature.as_slice());
                let ghost t4 = out@;
                push_bytes(&mut out, m.message.id.as_slice());
                proof {
                    assert(out@.len() == 154);
                    assert(t4 =~= t3 + m.message.signature@);
                    assert(out@ =~= t4 + m.message.id@);
                    assert(t3.subrange(0, 50) =~= t2);
                    assert(t2 =~= t1 + m.message.vote.target_hash@);
                    assert(t1 =~= head.push(match m.message.kind {
                        VoteKind::Prevote => 0u8,
                        VoteKind::Precommit => 1u8,
                    }));
                    assert(head.subrange(0, 9) =~= s1);
                    assert(out@.subrange(0, 58) =~= t3);
                    assert(out@.subrange(0, 50) =~= t2);
                    assert(out@.subrange(0, 18) =~= t1);
                    assert(out@.subrange(0, 17) =~= head);
                    assert(out@[0] == 0u8);
                    assert(le_value(out@.subrange(1, 9)) == m.round) by {
                        assert(out@.subrange(1, 9) =~= s1.subrange(1, 9));
                    }
                    assert(le_value(out@.subrange(9, 17)) == m.set_id) by {
                        assert(out@.subrange(9, 17) =~= head.subrange(9, 17));
                    }
                    assert(out@.subrange(18, 50) =~= m.message.vote.target_hash@);
                    crate::bytes::lemma_le_seq_value(m.message.vote.target_number as nat, 8);
                    assert(le_value(out@.subrange(50, 58)) == m.message.vote.target_number) by {
                        assert(out@.subrange(50, 58) =~= t3.subrange(50, 58));
                    }
                    assert(out@.subrange(58, 122) =~= m.message.signature@);
                    assert(out@.subrange(122, 154) =~= m.message.id@);
                    assert(spec_decode_vote(out@, 18) == Some(
                        (m.message.vote@, 58int),
                    ));
                    assert(spec_decode_signed(out@, 17) == Some((m.message@, 154int)));
                }
                out
            },
            GossipMessage::Commit(m) => {
                let mut out: Vec<u8> = vec![1u8];
                push_le_bytes_u64(&mut out, m.round, 8);
                let ghost c1 = out@;
                push_le_bytes_u64(&mut out, m.set_id, 8);
                let ghost c2 = out@;
                push_bytes(&mut out, m.message.target_hash.as_slice());
                let ghost c3 = out@;
                push_le_bytes_u64(&mut out, m.message.target_number, 8);
                let ghost c4 = out@;
                let n = m.message.precommits.len();
                encode_compact_u64(&mut out, n as u64);
                let ghost head = out@;
                proof {
                    assert(head.subrange(0, 57) =~= c4);
                    assert(c4.subrange(0, 49) =~= c3);
                    assert(c3 =~= c2 + m.message.target_hash@);
                    assert(c2.subrange(0, 9) =~= c1);
                    assert(head.subrange(0, 49) =~= c3);
                    assert(head.subrange(0, 9) =~= c1);
                    assert(head[0] == 1u8);
                    assert(le_value(head.subrange(1, 9)) == m.round) by {
                        assert(head.subrange(1, 9) =~= c1.subrange(1, 9));
                    }
                    assert(head.subrange(0, 17) =~= c2);
                    assert(le_value(head.subrange(9, 17)) == m.set_id) by {
                        assert(head.subrange(9, 17) =~= c2.subrange(9, 17));
                    }
                    assert(c3.subrange(17, 49) =~= m.message.target_hash@);
                    assert(head.subrange(17, 49) =~= c3.subrange(17, 49));
                    assert(le_value(head.subrange(49, 57)) == m.message.target_number) by {
                        assert(head.subrange(49, 57) =~= c4.subrange(49, 57));
                    }
                    assert(spec_decode_compact(head, 57, 4) == Some((n as nat, head.len() as int)));
                    assert(Seq::new(0, |j: int| m.message.precommits@[j]@) =~= Seq::<
                        SpecVote,
                    >::empty());
                }
                let mut i: usize = 0;
                while i < n
                    invariant
                        0 <= i <= n,
                        n == m.message.precommits@.len(),
                        forall|k: int|
                            0 <= k < n ==> (#[trigger] m.message.precommits@[k]).target_hash@.len()
                                == 32,
                        out@.len() >= head.len(),
                        out@.subrange(0, head.len() as int) =~= head,
                        head.len() >= 58,
                        spec_decode_votes(out@, head.len() as int, i as nat) == Some(
                            (
                                Seq::new(i as nat, |j: int| m.message.precommits@[j]@),
                                out@.len() as int,
                            ),
                        ),
                    decreases n - i,
                {
                    let ghost before = out@;
                    proof {
                        reveal_with_fuel(p256, 9);
                    }
                    push_bytes(&mut out, m.message.precommits[i].target_hash.as_slice());
                    push_le_bytes_u64(&mut out, m.message.precommits[i].target_number, 8);
                    proof {
                        reveal_with_fuel(p256, 9);
                        let v = m.message.precommits@[i as int]@;
                        crate::bytes::lemma_le_seq_value(v.target_number as nat, 8);
                        crate::bytes::lemma_le_value_unique(
                            out@.subrange(before.len() as int + 32, out@.len() as int),
                            le_seq(v.target_number as nat, 8),
                        );
                        assert(out@ =~= before + v.target_hash + le_seq(v.target_number as nat, 8));
                        lemma_decode_votes_snoc(before, head.len() as int, i as nat, v, out@);
                        assert(Seq::new(i as nat, |j: int| m.message.precommits@[j]@).push(v)
                            =~= Seq::new((i + 1) as nat, |j: int| m.message.precommits@[j]@));
                        assert(out@.subrange(0, head.len() as int) =~= before.subrange(
                            0,
                            head.len() as int,
                        ));
                    }
                    i = i + 1;
                }
                let ghost after_votes = out@;
                encode_compact_u64(&mut out, n as u64);
                let ghost head2 = out@;
                proof {
                    assert(Seq::new(
                        0,
                        |j: int| (m.message.auth_data@[j].0@, m.message.auth_data@[j].1@),
                    ) =~= Seq::<(Seq<u8>, Seq<u8>)>::empty());
                    assert forall|j: int|
                        0 <= j < n implies (#[trigger] m.message.auth_data@[j]).0@.len() == 64
                        && m.message.auth_data@[j].1@.len() == 32 by {
                        assert(m.message.precommits@[j].target_hash@.len() == 32);
                    }
                }
                let mut k: usize = 0;
                while k < n
                    invariant
                        0 <= k <= n,
                        n == m.message.auth_data@.len(),
                        forall|j: int|
                            0 <= j < n ==> (#[trigger] m.message.auth_data@[j]).0@.len() == 64
                                && m.message.auth_data@[j].1@.len() == 32,
                        out@.subrange(0, head2.len() as int) =~= head2,
                        head2.len() > after_votes.len(),
                        out@.len() == head2.len() + k * 96,
                        spec_decode_auth(out@, head2.len() as int, k as nat) == Some(
                            (
                                Seq::new(
                                    k as nat,
                                    |j: int| (m.message.auth_data@[j].0@, m.message.auth_data@[j].1@),
                                ),
                                out@.len() as int,
                            ),
                        ),
                    decreases n - k,
                {
                    let ghost before = out@;
                    push_bytes(&mut out, m.message.auth_data[k].0.as_slice());
                    push_bytes(&mut out, m.message.auth_data[k].1.as_slice());
                    proof {
                        let sig = m.message.auth_data@[k as int].0@;
                        let id = m.message.auth_data@[k as int].1@;
                        assert(out@ =~= before + sig + id);
                        lemma_decode_auth_snoc(before, head2.len() as int, k as nat, sig, id, out@);
                        assert(Seq::new(
                            k as nat,
                            |j: int| (m.message.auth_data@[j].0@, m.message.auth_data@[j].1@),
                        ).push((sig, id)) =~= Seq::new(
                            (k + 1) as nat,
                            |j: int| (m.message.auth_data@[j].0@, m.message.auth_data@[j].1@),
                        ));
                        assert(out@.subrange(0, head2.len() as int) =~= before.subrange(
                            0,
                            head2.len() as int,
                        ));
                    }
                    k = k + 1;
                }
                proof {
                    reveal_with_fuel(p256, 9);
                    assert(head2.subrange(0, after_votes.len() as int) =~= after_votes);
                    assert(out@.subrange(0, head2.len() as int) =~= head2);
                    assert(out@.subrange(0, after_votes.len() as int) =~= after_votes);
                    assert(after_votes.subrange(0, head.len() as int) =~= head);
                    assert(out@.subrange(0, head.len() as int) =~= head);
                    assert(out@.subrange(0, 57) =~= head.subrange(0, 57));
                    assert(out@[0] == head[0] && head[0] == 1u8);
                    assert(out@.subrange(1, 9) =~= head.subrange(1, 9));
                    assert(out@.subrange(9, 17) =~= head.subrange(9, 17));
                    assert(out@.subrange(17, 49) =~= head.subrange(17, 49));
                    assert(out@.subrange(49, 57) =~= head.subrange(49, 57));
                    assert(le_value(out@.subrange(1, 9)) == m.round);
                    assert(le_value(out@.subrange(9, 17)) == m.set_id);
                    assert(out@.subrange(17, 49) =~= m.message.target_hash@);
                    assert(le_value(out@.subrange(49, 57)) == m.message.target_number);
                    lemma_compact_prefix_stable(head, out@, 57, 4);
                    assert(spec_decode_compact(out@, 57, 4) == Some((n as nat, head.len() as int)));
                    lemma_decode_votes_extend(
                        after_votes,
                        out@.subrange(after_votes.len() as int, out@.len() as int),
                        head.len() as int,
                        n as nat,
                    );
                    assert(after_votes + out@.subrange(after_votes.len() as int, out@.len() as int)
                        =~= out@);
                    lemma_compact_prefix_stable(head2, out@, after_votes.len() as int, 4);
                    assert(spec_decode_compact(out@, after_votes.len() as int, 4) == Some(
                        (n as nat, head2.len() as int),
                    ));
                }
                out
            },
        }
    }
}

} // verus!
