//! The finality voter's lifecycle.
//!
//! The voter is live at a round with a round state, or paused at the
//! round it last completed. Every transition is persisted before the
//! loop goes on; on restart the voter resumes from the stored record.
//! A change of authorities restarts voting at round zero from the
//! handoff block; a pause keeps the last completed round.

use vstd::prelude::*;

verus! {

use crate::bytes::{push_bytes, bytes_eq};
use crate::codec::{spec_decode_bytes, spec_decode_u64_le, decode_bytes, decode_u64_le,
    encode_u64_le};
use crate::errors::Error;

/// The state of one voting round.
pub struct RoundState {
    pub prevote_ghost: Option<(Vec<u8>, u64)>,
    pub finalized: Option<(Vec<u8>, u64)>,
    pub estimate: Option<(Vec<u8>, u64)>,
    pub completable: bool,
}

/// What round-state decoding yields, over byte strings.
pub struct SpecRoundState {
    pub prevote_ghost: Option<(Seq<u8>, u64)>,
    pub finalized: Option<(Seq<u8>, u64)>,
    pub estimate: Option<(Seq<u8>, u64)>,
    pub completable: bool,
}

impl View for RoundState {
    type V = SpecRoundState;

    closed spec fn view(&self) -> SpecRoundState {
        SpecRoundState {
            prevote_ghost: match self.prevote_ghost {
                Some((ref h, n)) => Some((h@, n)),
                None => None,
            },
            finalized: match self.finalized {
                Some((ref h, n)) => Some((h@, n)),
                None => None,
            },
            estimate: match self.estimate {
                Some((ref h, n)) => Some((h@, n)),
                None => None,
            },
            completable: self.completable,
        }
    }
}

/// The persisted voter record: live at a round, or paused.
pub enum VoterSetState {
    /// The voter runs, resuming at the given round.
    Live(u64, RoundState),
    /// The voter is paused after the given round.
    Paused(u64, RoundState),
}

/// What voter-record decoding yields.
pub enum SpecVoterSetState {
    Live(u64, SpecRoundState),
    Paused(u64, SpecRoundState),
}

impl View for VoterSetState {
    type V = SpecVoterSetState;

    closed spec fn view(&self) -> SpecVoterSetState {
        match self {
            VoterSetState::Live(n, rs) => SpecVoterSetState::Live(*n, rs@),
            VoterSetState::Paused(n, rs) => SpecVoterSetState::Paused(*n, rs@),
        }
    }
}

/// The round state a new authority set starts from: everything points
/// at the handoff block and the round is completable.
pub open spec fn spec_genesis_round_state(hash: Seq<u8>, number: u64) -> SpecRoundState {
    SpecRoundState {
        prevote_ghost: Some((hash, number)),
        finalized: Some((hash, number)),
        estimate: Some((hash, number)),
        completable: true,
    }
}

/// The round state a new authority set starts from.
pub fn genesis_round_state(hash: &[u8], number: u64) -> (r: RoundState)
    ensures
        r@ == spec_genesis_round_state(hash@, number),
{
    let a = crate::bytes::clone_bytes(hash);
    let b = crate::bytes::clone_bytes(hash);
    let c = crate::bytes::clone_bytes(hash);
    RoundState {
        prevote_ghost: Some((a, number)),
        finalized: Some((b, number)),
        estimate: Some((c, number)),
        completable: true,
    }
}

/// An `Option<(hash, number)>` on the wire: a tag byte, then on one a
/// 32-byte hash and an eight-byte number.
pub open spec fn spec_decode_opt_hn(s: Seq<u8>, pos: int) -> Option<
    (Option<(Seq<u8>, u64)>, int),
> {
    if !(0 <= pos < s.len()) {
        None
    } else if s[pos] == 0 {
        Some((None, pos + 1))
    } else if s[pos] == 1 {
        match spec_decode_bytes(s, pos + 1, 32) {
            None => None,
            Some((h, p1)) => match spec_decode_u64_le(s, p1) {
                None => None,
                Some((n, p2)) => Some((Some((h, n as u64)), p2)),
            },
        }
    } else {
        None
    }
}

/// The round-state wire form: three optional block references and the
/// completability flag.
pub open spec fn spec_decode_round_state(s: Seq<u8>, pos: int) -> Option<(SpecRoundState, int)> {
    match spec_decode_opt_hn(s, pos) {
        None => None,
        Some((pg, p1)) => match spec_decode_opt_hn(s, p1) {
            None => None,
            Some((fin, p2)) => match spec_decode_opt_hn(s, p2) {
                None => None,
                Some((est, p3)) => {
                    if 0 <= p3 < s.len() && (s[p3] == 0 || s[p3] == 1) {
                        Some(
                            (
                                SpecRoundState {
                                    prevote_ghost: pg,
                                    finalized: fin,
                                    estimate: est,
                                    completable: s[p3] == 1,
                                },
                                p3 + 1,
                            ),
                        )
                    } else {
                        None
                    }
                },
            },
        },
    }
}

/// The voter-record wire form: a variant tag, the round, the round
/// state.
pub open spec fn spec_decode_voter_set_state(s: Seq<u8>) -> Option<SpecVoterSetState> {
    if s.len() < 1 || (s[0] != 0 && s[0] != 1) {
        None
    } else {
        match spec_decode_u64_le(s, 1) {
            None => None,
            Some((n, p1)) => match spec_decode_round_state(s, p1) {
                None => None,
                Some((rs, _)) => {
                    if s[0] == 0 {
                        Some(SpecVoterSetState::Live(n as u64, rs))
                    } else {
                        Some(SpecVoterSetState::Paused(n as u64, rs))
                    }
                },
            },
        }
    }
}

/// Read an optional block reference.
pub fn decode_opt_hn(s: &[u8], pos: usize) -> (r: Option<(Option<(Vec<u8>, u64)>, usize)>)
    ensures
        match r {
            Some((v, p)) => spec_decode_opt_hn(s@, pos as int) == Some(
                (
                    match v {
                        Some((h, n)) => Some((h@, n)),
                        None => None,
                    },
                    p as int,
                ),
            ),
            None => spec_decode_opt_hn(s@, pos as int) is None,
        },
{
    let len = s.len();
    if pos >= len {
        return None;
    }
    if s[pos] == 0 {
        Some((None, pos + 1))
    } else if s[pos] == 1 {
        let (h, p1) = match decode_bytes(s, pos + 1, 32) {
            Some(x) => x,
            None => {
                return None;
            },
        };
        let (n, p2) = match decode_u64_le(s, p1) {
            Some(x) => x,
            None => {
                return None;
            },
        };
        Some((Some((h, n)), p2))
    } else {
        None
    }
}

/// Append an optional block reference.
pub fn push_opt_hn(out: &mut Vec<u8>, v: &Option<(Vec<u8>, u64)>)
    requires
        match v {
            Some((h, _)) => h@.len() == 32,
            None => true,
        },
    ensures
        final(out)@.subrange(0, old(out)@.len() as int) =~= old(out)@,
        final(out)@.len() > old(out)@.len(),
        spec_decode_opt_hn(final(out)@, old(out)@.len() as int) == Some(
            (
                match v {
                    Some((h, n)) => Some((h@, *n)),
                    None => None,
                },
                final(out)@.len() as int,
            ),
        ),
{
    let ghost base = out@.len() as int;
    match v {
        None => {
            out.push(0u8);
            proof {
                assert(out@[base] == 0u8);
            }
        },
        Some((h, n)) => {
            out.push(1u8);
            let ghost s1 = out@;
            push_bytes(out, h.as_slice());
            let ghost s2 = out@;
            encode_u64_le(out, *n);
            proof {
                assert(out@.subrange(0, s2.len() as int) =~= s2);
                assert(s2 =~= s1 + h@);
                assert(s1[base] == 1u8);
                assert(s2[base] == 1u8);
                assert(out@.subrange(0, s2.len() as int)[base] == out@[base]);
                assert(out@[base] == 1u8);
                assert(forall|i: int|
                    0 <= i < s2.len() ==> out@.subrange(0, s2.len() as int)[i] == #[trigger] out@[i]);
                assert(out@.subrange(base + 1, base + 33) =~= h@);
                assert(out@.subrange(0, base) =~= old(out)@);
            }
        },
    }
}

/// Store a voter record as bytes; decoding them restores the record.
pub fn encode_voter_set_state(state: &VoterSetState) -> (r: Vec<u8>)
    requires
        match state {
            VoterSetState::Live(_, rs) | VoterSetState::Paused(_, rs) => {
                &&& (rs.prevote_ghost matches Some((h, _)) ==> h@.len() == 32)
                &&& (rs.finalized matches Some((h, _)) ==> h@.len() == 32)
                &&& (rs.estimate matches Some((h, _)) ==> h@.len() == 32)
            },
        },
    ensures
        spec_decode_voter_set_state(r@) == Some(state@),
{
    let mut out: Vec<u8> = Vec::new();
    let (tag, round, rs): (u8, u64, &RoundState) = match state {
        VoterSetState::Live(n, rs) => (0u8, *n, rs),
        VoterSetState::Paused(n, rs) => (1u8, *n, rs),
    };
    out.push(tag);
    let ghost s1 = out@;
    encode_u64_le(&mut out, round);
    let ghost s2 = out@;
    push_opt_hn(&mut out, &rs.prevote_ghost);
    let ghost s3 = out@;
    push_opt_hn(&mut out, &rs.finalized);
    let ghost s4 = out@;
    push_opt_hn(&mut out, &rs.estimate);
    let ghost s5 = out@;
    out.push(if rs.completable {
        1u8
    } else {
        0u8
    });
    proof {
        assert(out@.subrange(0, s5.len() as int) =~= s5);
        assert(s5.subrange(0, s4.len() as int) =~= s4);
        assert(s4.subrange(0, s3.len() as int) =~= s3);
        assert(s3.subrange(0, s2.len() as int) =~= s2);
        assert(s2.subrange(0, s1.len() as int) =~= s1);
        assert(out@.subrange(0, s4.len() as int) =~= s4);
        assert(out@.subrange(0, s3.len() as int) =~= s3);
        assert(out@.subrange(0, s2.len() as int) =~= s2);
        assert(out@.subrange(0, s1.len() as int) =~= s1);
        assert(out@[0] == tag);
        lemma_u64_prefix_stable(s2, out@, 1);
        lemma_opt_hn_prefix_stable(s3, out@, s2.len() as int);
        lemma_opt_hn_prefix_stable(s4, out@, s3.len() as int);
        lemma_opt_hn_prefix_stable(s5, out@, s4.len() as int);
        assert(out@[s5.len() as int] == (if rs.completable {
            1u8
        } else {
            0u8
        }));
    }
    out
}

/// A fixed-width reading inside a prefix survives in any extension.
pub proof fn lemma_u64_prefix_stable(s: Seq<u8>, full: Seq<u8>, pos: int)
    requires
        spec_decode_u64_le(s, pos) is Some,
        full.len() >= s.len(),
        full.subrange(0, s.len() as int) == s,
    ensures
        spec_decode_u64_le(full, pos) == spec_decode_u64_le(s, pos),
{
    let t = full.subrange(s.len() as int, full.len() as int);
    assert(full =~= s + t);
    crate::codec::lemma_decode_u64_le_extend(s, t, pos);
}

/// An optional-reference reading inside a prefix survives in any
/// extension.
pub proof fn lemma_opt_hn_prefix_stable(s: Seq<u8>, full: Seq<u8>, pos: int)
    requires
        spec_decode_opt_hn(s, pos) is Some,
        full.len() >= s.len(),
        full.subrange(0, s.len() as int) == s,
    ensures
        spec_decode_opt_hn(full, pos) == spec_decode_opt_hn(s, pos),
{
    let t = full.subrange(s.len() as int, full.len() as int);
    assert(full =~= s + t);
    assert((s + t)[pos] == s[pos]);
    if s[pos] == 1 {
        crate::codec::lemma_decode_bytes_extend(s, t, pos + 1, 32);
        let (h, p1) = spec_decode_bytes(s, pos + 1, 32)->Some_0;
        crate::codec::lemma_decode_u64_le_extend(s, t, p1);
    }
}

/// Load a stored voter record, or nothing when the bytes do not parse.
pub fn decode_voter_set_state(s: &[u8]) -> (r: Option<VoterSetState>)
    ensures
        match r {
            Some(state) => spec_decode_voter_set_state(s@) == Some(state@),
            None => spec_decode_voter_set_state(s@) is None,
        },
{
    let len = s.len();
    if len < 1 {
        return None;
    }
    let tag = s[0];
    if tag != 0 && tag != 1 {
        return None;
    }
    let (round, p1) = match decode_u64_le(s, 1) {
        Some(x) => x,
        None => {
            return None;
        },
    };
    let (pg, p2) = match decode_opt_hn(s, p1) {
        Some(x) => x,
        None => {
            return None;
        },
    };
    let (fin, p3) = match decode_opt_hn(s, p2) {
        Some(x) => x,
        None => {
            return None;
        },
    };
    let (est, p4) = match decode_opt_hn(s, p3) {
        Some(x) => x,
        None => {
            return None;
        },
    };
    if !(p4 < len) {
        return None;
    }
    let cb = s[p4];
    if cb != 0 && cb != 1 {
        return None;
    }
    let rs = RoundState { prevote_ghost: pg, finalized: fin, estimate: est, completable: cb == 1 };
    if tag == 0 {
        Some(VoterSetState::Live(round, rs))
    } else {
        Some(VoterSetState::Paused(round, rs))
    }
}

/// A new authority set with the canonical block it starts from.
pub struct NewAuthoritySet {
    pub canon_number: u64,
    pub canon_hash: Vec<u8>,
    pub set_id: u64,
    pub authorities: Vec<(Vec<u8>, u64)>,
}

/// A command posted to the voter by the import hook.
pub enum VoterCommand {
    /// Pause the voter for the given reason.
    Pause(String),
    /// Swap to a new authority set.
    ChangeAuthorities(NewAuthoritySet),
}

/// What the voter's select step observed.
pub enum VoterTurn {
    /// The voter future concluded on its own.
    Concluded,
    /// The command stream closed or failed.
    CommandsClosed,
    /// A command arrived, from outside or from the voter itself.
    Command(VoterCommand),
    /// The voter failed with an error.
    Failed(Error),
}

/// What the loop does next.
pub enum VoterDecision {
    /// Shut the voter down.
    Shutdown,
    /// Propagate a fatal error.
    Fatal(Error),
    /// Persist the record and run the next voter; on a change of
    /// authorities the set to install comes along.
    Continue(VoterSetState, Option<NewAuthoritySet>),
}

/// One turn of the voter loop. A concluded voter or a closed command
/// stream shuts down; an error is fatal; a pause persists the last
/// completed round; a change of authorities restarts at round zero
/// from the handoff block with the new set. The caller persists the
/// record in every `Continue` before polling again.
pub fn voter_step(turn: VoterTurn, last_completed_number: u64, last_completed: RoundState) -> (r:
    VoterDecision)
    ensures
        match turn {
            VoterTurn::Concluded => r is Shutdown,
            VoterTurn::CommandsClosed => r is Shutdown,
            VoterTurn::Failed(e) => r matches VoterDecision::Fatal(e2) && e2 == e,
            VoterTurn::Command(cmd) => match cmd {
                VoterCommand::Pause(_) => r matches VoterDecision::Continue(state, inst) && inst
                    is None && state@ == SpecVoterSetState::Paused(
                    last_completed_number,
                    last_completed@,
                ),
                VoterCommand::ChangeAuthorities(new) => r matches VoterDecision::Continue(
                    state,
                    inst,
                ) && inst matches Some(new2) && new2 == new && state@ == SpecVoterSetState::Live(
                    0,
                    spec_genesis_round_state(new.canon_hash@, new.canon_number),
                ),
            },
        },
{
    match turn {
        VoterTurn::Concluded => VoterDecision::Shutdown,
        VoterTurn::CommandsClosed => VoterDecision::Shutdown,
        VoterTurn::Failed(e) => VoterDecision::Fatal(e),
        VoterTurn::Command(cmd) => match cmd {
            VoterCommand::Pause(_) => VoterDecision::Continue(
                VoterSetState::Paused(last_completed_number, last_completed),
                None,
            ),
            VoterCommand::ChangeAuthorities(new) => {
                let genesis = genesis_round_state(new.canon_hash.as_slice(), new.canon_number);
                VoterDecision::Continue(VoterSetState::Live(0, genesis), Some(new))
            },
        },
    }
}

/// Whether the local key belongs to the voter set: outbound commits
/// are sent only then.
pub fn is_voter(voters: &Vec<(Vec<u8>, u64)>, local_key: &Option<Vec<u8>>) -> (r: bool)
    ensures
        match local_key {
            None => r == false,
            Some(k) => r == exists|i: int|
                0 <= i < voters@.len() && #[trigger] voters@[i].0@ == k@,
        },
{
    let key = match local_key {
        Some(k) => k,
        None => {
            return false;
        },
    };
    let n = voters.len();
    let mut i: usize = 0;
    while i < n
        invariant
            0 <= i <= n,
            n == voters@.len(),
            local_key matches Some(kk) && kk@ == key@,
            forall|j: int| 0 <= j < i ==> #[trigger] voters@[j].0@ != key@,
        decreases n - i,
    {
        if bytes_eq(voters[i].0.as_slice(), key.as_slice()) {
            proof {
                assert(voters@[i as int].0@ == key@);
            }
            return true;
        }
        i = i + 1;
    }
    false
}

/// The finality service's configuration.
pub struct Config {
    /// The expected time for a message to cross the network, in
    /// milliseconds.
    pub gossip_duration_millis: u64,
    /// How often justifications are generated, in blocks.
    pub justification_period: u64,
    /// The local signing key's public half, when the node votes.
    pub local_key: Option<Vec<u8>>,
    /// The staged next key's public half, when one is set.
    pub local_next_key: Option<Vec<u8>>,
    /// A local name for the voter.
    pub name: Option<String>,
}

impl Config {
    /// The voter's name, or a placeholder.
    pub fn name(&self) -> (r: &str)
        ensures
            match self.name {
                Some(ref n) => r@ == n@,
                None => r@ == "<unknown>"@,
            },
    {
        match &self.name {
            Some(n) => n.as_str(),
            None => "<unknown>",
        }
    }
}

/// The commits released for one imported block: those waiting on its
/// hash, in arrival order.
pub open spec fn spec_released(waiting: Seq<(Seq<u8>, Seq<u8>)>, h: Seq<u8>) -> Seq<Seq<u8>>
    decreases waiting.len(),
{
    if waiting.len() == 0 {
        Seq::empty()
    } else if waiting[0].0 == h {
        seq![waiting[0].1] + spec_released(waiting.drop_first(), h)
    } else {
        spec_released(waiting.drop_first(), h)
    }
}

/// The commits still waiting after one import: those on other hashes,
/// in arrival order.
pub open spec fn spec_kept(waiting: Seq<(Seq<u8>, Seq<u8>)>, h: Seq<u8>) -> Seq<(Seq<u8>, Seq<u8>)>
    decreases waiting.len(),
{
    if waiting.len() == 0 {
        Seq::empty()
    } else if waiting[0].0 == h {
        spec_kept(waiting.drop_first(), h)
    } else {
        seq![waiting[0]] + spec_kept(waiting.drop_first(), h)
    }
}

/// The hash-and-bytes view of the waiting list.
pub open spec fn spec_barrier_view(w: Seq<(Vec<u8>, Vec<u8>)>) -> Seq<(Seq<u8>, Seq<u8>)> {
    Seq::new(w.len(), |i: int| (w[i].0@, w[i].1@))
}

/// The barrier between the commit stream and the voter: a commit
/// naming a block not yet imported waits here until the block appears.
pub struct UntilImported {
    pub waiting: Vec<(Vec<u8>, Vec<u8>)>,
}

impl UntilImported {
    /// An empty barrier.
    pub fn new() -> (r: UntilImported)
        ensures
            r.waiting@.len() == 0,
    {
        UntilImported { waiting: Vec::new() }
    }

    /// Pass a commit through when its block is known; otherwise hold
    /// it in arrival order.
    pub fn queue_commit(&mut self, target_hash: Vec<u8>, commit: Vec<u8>, known: bool) -> (r:
        Option<Vec<u8>>)
        ensures
            known ==> (r matches Some(c) && c == commit && final(self).waiting@ == old(
                self,
            ).waiting@),
            !known ==> r is None && final(self).waiting@ == old(self).waiting@.push(
                (target_hash, commit),
            ),
    {
        if known {
            Some(commit)
        } else {
            self.waiting.push((target_hash, commit));
            None
        }
    }

    /// A block arrived: release every commit waiting on its hash, in
    /// arrival order, and keep the rest waiting in theirs.
    pub fn note_imported(&mut self, hash: &[u8]) -> (released: Vec<Vec<u8>>)
        ensures
            Seq::new(released@.len(), |i: int| released@[i]@) == spec_released(
                spec_barrier_view(old(self).waiting@),
                hash@,
            ),
            spec_barrier_view(final(self).waiting@) == spec_kept(
                spec_barrier_view(old(self).waiting@),
                hash@,
            ),
    {
        let ghost all = spec_barrier_view(self.waiting@);
        let mut released: Vec<Vec<u8>> = Vec::new();
        let mut kept: Vec<(Vec<u8>, Vec<u8>)> = Vec::new();
        let n = self.waiting.len();
        let mut i: usize = 0;
        proof {
            assert(all.subrange(0, all.len() as int) =~= all);
        }
        while i < n
            invariant
                0 <= i <= n,
                n == self.waiting@.len(),
                all == spec_barrier_view(self.waiting@),
                Seq::new(released@.len(), |k: int| released@[k]@) + spec_released(
                    all.subrange(i as int, n as int),
                    hash@,
                ) =~= spec_released(all, hash@),
                Seq::new(kept@.len(), |k: int| (kept@[k].0@, kept@[k].1@)) + spec_kept(
                    all.subrange(i as int, n as int),
                    hash@,
                ) =~= spec_kept(all, hash@),
            decreases n - i,
        {
            let ghost rest = all.subrange(i as int, n as int);
            proof {
                assert(rest[0] == all[i as int]);
                assert(rest.drop_first() =~= all.subrange(i + 1, n as int));
            }
            let h = crate::bytes::clone_bytes(self.waiting[i].0.as_slice());
            let c = crate::bytes::clone_bytes(self.waiting[i].1.as_slice());
            if bytes_eq(h.as_slice(), hash) {
                released.push(c);
                proof {
                    let rv = Seq::new(released@.len(), |k: int| released@[k]@);
                    let prev = Seq::new((released@.len() - 1) as nat, |k: int| released@[k]@);
                    assert(rv =~= prev.push(all[i as int].1));
                    assert(prev.push(all[i as int].1) + spec_released(rest.drop_first(), hash@)
                        =~= prev + spec_released(rest, hash@));
                }
            } else {
                kept.push((h, c));
                proof {
                    let kv = Seq::new(kept@.len(), |k: int| (kept@[k].0@, kept@[k].1@));
                    let prev = Seq::new(
                        (kept@.len() - 1) as nat,
                        |k: int| (kept@[k].0@, kept@[k].1@),
                    );
                    assert(kv =~= prev.push(all[i as int]));
                    assert(prev.push(all[i as int]) + spec_kept(rest.drop_first(), hash@) =~= prev
                        + spec_kept(rest, hash@));
                }
            }
            i = i + 1;
        }
        proof {
            assert(all.subrange(n as int, n as int) =~= Seq::<(Seq<u8>, Seq<u8>)>::empty());
        }
        self.waiting = kept;
        released
    }
}

} // verus!
