//! The authority set and its scheduled handoffs.
//!
//! Imported headers announce set changes; each carries the new
//! authorities and a delay, and takes effect when the block at the
//! signal height plus the delay is finalized on the signal's branch.
//! Finalizing applies every due change whose signal is canonical, in
//! height order, and prunes the due ones whose branch lost; each
//! applied handoff advances the set id by one and emits one command.

use vstd::prelude::*;

verus! {

use crate::bytes::le_value;
use crate::codec::{spec_decode_compact, decode_compact_u32, decode_bytes};
use crate::header::{Header, DigestItem};
use crate::voter::NewAuthoritySet;

/// Whether two weighted authority lists name the same authorities
/// with the same weights.
pub open spec fn weighted_eq(a: Seq<(Vec<u8>, u64)>, b: Seq<(Vec<u8>, u64)>) -> bool {
    a.len() == b.len() && forall|i: int|
        0 <= i < a.len() ==> (#[trigger] a[i]).0@ == b[i].0@ && a[i].1 == b[i].1
}

/// A set change announced in a header.
pub struct ScheduledChange {
    pub next_authorities: Vec<(Vec<u8>, u64)>,
    pub delay: u64,
}

/// A change waiting for its handoff block.
pub struct PendingChange {
    pub next_authorities: Vec<(Vec<u8>, u64)>,
    /// The height the signal block was imported at.
    pub canon_height: u64,
    /// The height whose finalization applies the change.
    pub effective_number: u64,
}

/// The weighted voter set with its pending handoffs, kept in effective
/// order.
pub struct AuthoritySet {
    pub current_authorities: Vec<(Vec<u8>, u64)>,
    pub set_id: u64,
    pub pending_changes: Vec<PendingChange>,
}

impl AuthoritySet {
    /// Pending handoffs never run backwards: each applies at or after
    /// the one before it.
    pub open spec fn wf(self) -> bool {
        forall|i: int, j: int|
            0 <= i < j < self.pending_changes@.len() ==> #[trigger] self.pending_changes@[i].effective_number
                <= #[trigger] self.pending_changes@[j].effective_number
    }

    /// An authority set with no pending change.
    pub fn genesis(authorities: Vec<(Vec<u8>, u64)>) -> (r: AuthoritySet)
        ensures
            r.wf(),
            r.current_authorities == authorities,
            r.set_id == 0,
            r.pending_changes@.len() == 0,
    {
        AuthoritySet { current_authorities: authorities, set_id: 0, pending_changes: Vec::new() }
    }

    /// The height of the soonest handoff, if one is pending.
    pub fn earliest_effective(&self) -> (r: Option<u64>)
        ensures
            match r {
                Some(n) => self.pending_changes@.len() > 0 && n == self.pending_changes@[0].effective_number,
                None => self.pending_changes@.len() == 0,
            },
    {
        if self.pending_changes.len() > 0 {
            Some(self.pending_changes[0].effective_number)
        } else {
            None
        }
    }

    /// Note a change announced at `number`: it joins the pending list
    /// in effective order, at the height plus its delay. A change that
    /// would run before an already pending one is refused, as the
    /// original forbids out-of-order handoffs.
    pub fn add_pending_change(&mut self, number: u64, change: ScheduledChange) -> (r: bool)
        requires
            old(self).wf(),
            number + change.delay <= u64::MAX,
        ensures
            final(self).wf(),
            final(self).current_authorities == old(self).current_authorities,
            final(self).set_id == old(self).set_id,
            r ==> final(self).pending_changes@.len() == old(self).pending_changes@.len() + 1
                && final(self).pending_changes@.last().effective_number == number + change.delay
                && final(self).pending_changes@.last().next_authorities
                == change.next_authorities && final(self).pending_changes@.last().canon_height
                == number && final(self).pending_changes@.drop_last() == old(
                self,
            ).pending_changes@,
            !r ==> *final(self) == *old(self) && old(self).pending_changes@.len() > 0 && old(
                self,
            ).pending_changes@.last().effective_number > number + change.delay,
    {
        let effective = number + change.delay;
        let n = self.pending_changes.len();
        if n > 0 && self.pending_changes[n - 1].effective_number > effective {
            return false;
        }
        let pending = PendingChange {
            next_authorities: change.next_authorities,
            canon_height: number,
            effective_number: effective,
        };
        self.pending_changes.push(pending);
        proof {
            assert(self.pending_changes@.drop_last() =~= old(self).pending_changes@);
            assert forall|i: int, j: int|
                0 <= i < j < self.pending_changes@.len() implies #[trigger] self.pending_changes@[i].effective_number
                <= #[trigger] self.pending_changes@[j].effective_number by {
                if j < self.pending_changes@.len() - 1 {
                } else {
                    if i < self.pending_changes@.len() - 1 {
                        assert(old(self).pending_changes@[i].effective_number <= old(
                            self,
                        ).pending_changes@[old(self).pending_changes@.len() - 1].effective_number);
                    }
                }
            }
        }
        true
    }

    /// How many of the pending changes a finalization applies: those
    /// due at `finalized_number` whose signal branch won.
    pub open spec fn spec_applicable_count(
        pending: Seq<PendingChange>,
        canonical: Seq<bool>,
        finalized_number: u64,
    ) -> nat
        decreases pending.len(),
    {
        if pending.len() == 0 {
            0
        } else if pending[0].effective_number <= finalized_number {
            (if canonical[0] {
                1nat
            } else {
                0nat
            }) + Self::spec_applicable_count(
                pending.drop_first(),
                canonical.drop_first(),
                finalized_number,
            )
        } else {
            0
        }
    }

    /// The pending changes a finalization applies, in order: the due
    /// ones whose signal branch won.
    pub open spec fn spec_applied_changes(
        pending: Seq<PendingChange>,
        canonical: Seq<bool>,
        finalized_number: u64,
    ) -> Seq<PendingChange>
        decreases pending.len(),
    {
        if pending.len() == 0 {
            Seq::empty()
        } else if pending[0].effective_number <= finalized_number {
            (if canonical[0] {
                seq![pending[0]]
            } else {
                Seq::empty()
            }) + Self::spec_applied_changes(
                pending.drop_first(),
                canonical.drop_first(),
                finalized_number,
            )
        } else {
            Seq::empty()
        }
    }

    /// How many leading pending changes a finalization makes due.
    pub open spec fn spec_due_prefix(pending: Seq<PendingChange>, finalized_number: u64) -> nat
        decreases pending.len(),
    {
        if pending.len() == 0 {
            0
        } else if pending[0].effective_number <= finalized_number {
            1 + Self::spec_due_prefix(pending.drop_first(), finalized_number)
        } else {
            0
        }
    }

    /// Apply the handoffs a finalization makes due. `canonical[i]`
    /// says whether the `i`-th pending signal lies on the finalized
    /// branch; due changes off that branch are pruned. Exactly one
    /// command leaves per applicable handoff, and the set id advances
    /// by that count.
    pub fn apply_finalized(
        &mut self,
        finalized_number: u64,
        finalized_hash: &[u8],
        canonical: &Vec<bool>,
    ) -> (commands: Vec<NewAuthoritySet>)
        requires
            old(self).wf(),
            canonical@.len() == old(self).pending_changes@.len(),
            old(self).set_id + old(self).pending_changes@.len() <= u64::MAX,
        ensures
            final(self).wf(),
            commands@.len() == Self::spec_applicable_count(
                old(self).pending_changes@,
                canonical@,
                finalized_number,
            ),
            final(self).set_id == old(self).set_id + commands@.len(),
            forall|i: int|
                0 <= i < commands@.len() ==> #[trigger] commands@[i].canon_number
                    == finalized_number && commands@[i].canon_hash@ == finalized_hash@,
            forall|i: int|
                0 <= i < commands@.len() ==> #[trigger] commands@[i].set_id == old(self).set_id + i
                    + 1,
            forall|i: int|
                0 <= i < commands@.len() ==> weighted_eq(
                    (#[trigger] commands@[i]).authorities@,
                    Self::spec_applied_changes(
                        old(self).pending_changes@,
                        canonical@,
                        finalized_number,
                    )[i].next_authorities@,
                ),
            commands@.len() == Self::spec_applied_changes(
                old(self).pending_changes@,
                canonical@,
                finalized_number,
            ).len(),
            commands@.len() > 0 ==> weighted_eq(
                final(self).current_authorities@,
                commands@[commands@.len() - 1].authorities@,
            ),
            final(self).pending_changes@ == old(self).pending_changes@.subrange(
                Self::spec_due_prefix(old(self).pending_changes@, finalized_number) as int,
                old(self).pending_changes@.len() as int,
            ),
            forall|i: int|
                0 <= i < final(self).pending_changes@.len()
                    ==> #[trigger] final(self).pending_changes@[i].effective_number
                    > finalized_number,
    {
        let mut commands: Vec<NewAuthoritySet> = Vec::new();
        let ghost pending0 = self.pending_changes@;
        let ghost canonical0 = canonical@;
        let ghost applied0 = Self::spec_applied_changes(pending0, canonical0, finalized_number);
        let total = self.pending_changes.len();
        proof {
            assert(pending0.subrange(0, pending0.len() as int) =~= pending0);
            assert(canonical0.subrange(0, canonical0.len() as int) =~= canonical0);
            assert(applied0.subrange(0, applied0.len() as int) =~= applied0);
        }
        let mut idx: usize = 0;
        loop
            invariant
                self.wf(),
                idx <= pending0.len(),
                pending0.len() == total,
                canonical0.len() == pending0.len(),
                canonical@ == canonical0,
                self.pending_changes@ =~= pending0.subrange(idx as int, pending0.len() as int),
                commands@.len() == Self::spec_applicable_count(
                    pending0,
                    canonical0,
                    finalized_number,
                ) - Self::spec_applicable_count(
                    pending0.subrange(idx as int, pending0.len() as int),
                    canonical0.subrange(idx as int, canonical0.len() as int),
                    finalized_number,
                ),
                self.set_id == old(self).set_id + commands@.len(),
                self.set_id + self.pending_changes@.len() <= u64::MAX,
                forall|i: int|
                    0 <= i < commands@.len() ==> #[trigger] commands@[i].canon_number
                        == finalized_number && commands@[i].canon_hash@ == finalized_hash@,
                commands@.len() == 0 ==> self.current_authorities == old(
                    self,
                ).current_authorities,
                commands@.len() > 0 ==> weighted_eq(
                    self.current_authorities@,
                    commands@[commands@.len() - 1].authorities@,
                ),
                commands@.len() <= applied0.len(),
                applied0 == Self::spec_applied_changes(pending0, canonical0, finalized_number),
                Self::spec_applied_changes(
                    pending0.subrange(idx as int, pending0.len() as int),
                    canonical0.subrange(idx as int, canonical0.len() as int),
                    finalized_number,
                ) == applied0.subrange(commands@.len() as int, applied0.len() as int),
                Self::spec_due_prefix(pending0, finalized_number) == idx + Self::spec_due_prefix(
                    pending0.subrange(idx as int, pending0.len() as int),
                    finalized_number,
                ),
                forall|i: int|
                    0 <= i < commands@.len() ==> #[trigger] commands@[i].set_id == old(self).set_id
                        + i + 1,
                forall|i: int|
                    0 <= i < commands@.len() ==> weighted_eq(
                        (#[trigger] commands@[i]).authorities@,
                        applied0[i].next_authorities@,
                    ),
            ensures
                commands@.len() == Self::spec_applicable_count(
                    pending0,
                    canonical0,
                    finalized_number,
                ),
                commands@.len() == applied0.len(),
                self.pending_changes@ =~= pending0.subrange(
                    Self::spec_due_prefix(pending0, finalized_number) as int,
                    pending0.len() as int,
                ),
                forall|i: int|
                    0 <= i < self.pending_changes@.len()
                        ==> #[trigger] self.pending_changes@[i].effective_number
                        > finalized_number,
            decreases pending0.len() - idx,
        {
            let ghost rest = pending0.subrange(idx as int, pending0.len() as int);
            let ghost crest = canonical0.subrange(idx as int, canonical0.len() as int);
            if self.pending_changes.len() == 0 {
                proof {
                    assert(Self::spec_applicable_count(rest, crest, finalized_number) == 0);
                }
                break;
            }
            if self.pending_changes[0].effective_number > finalized_number {
                proof {
                    assert(rest[0] == self.pending_changes@[0]);
                    assert(Self::spec_applicable_count(rest, crest, finalized_number) == 0);
                    assert forall|i: int|
                        0 <= i < self.pending_changes@.len()
                            implies #[trigger] self.pending_changes@[i].effective_number
                        > finalized_number by {
                        assert(self.pending_changes@[0].effective_number
                            <= self.pending_changes@[i].effective_number);
                    }
                }
                break;
            }
            let due = self.pending_changes.remove(0);
            let canon = canonical[idx];
            let ghost entry_len = commands@.len() as int;
            proof {
                assert(rest[0] == due);
                assert(crest[0] == canon);
                assert(rest.drop_first() =~= pending0.subrange(
                    idx + 1,
                    pending0.len() as int,
                ));
                assert(crest.drop_first() =~= canonical0.subrange(
                    idx + 1,
                    canonical0.len() as int,
                ));
                assert(self.pending_changes@ =~= rest.drop_first());
                assert(Self::spec_due_prefix(rest, finalized_number) == 1 + Self::spec_due_prefix(
                    rest.drop_first(),
                    finalized_number,
                ));
                if canon {
                    assert(Self::spec_applied_changes(rest, crest, finalized_number) =~= seq![due]
                        + Self::spec_applied_changes(
                        rest.drop_first(),
                        crest.drop_first(),
                        finalized_number,
                    ));
                    let suffix = applied0.subrange(entry_len, applied0.len() as int);
                    let tail = Self::spec_applied_changes(
                        rest.drop_first(),
                        crest.drop_first(),
                        finalized_number,
                    );
                    assert(suffix =~= seq![due] + tail);
                    assert(suffix[0] == due);
                    assert(applied0[entry_len] == suffix[0]);
                    assert(tail =~= suffix.drop_first());
                    assert(suffix.drop_first() =~= applied0.subrange(
                        entry_len + 1,
                        applied0.len() as int,
                    ));
                } else {
                    assert(Self::spec_applied_changes(rest, crest, finalized_number)
                        =~= Self::spec_applied_changes(
                        rest.drop_first(),
                        crest.drop_first(),
                        finalized_number,
                    ));
                }
            }
            if canon {
                self.set_id = self.set_id + 1;
                let authorities = due.next_authorities;
                let hash_copy = crate::bytes::clone_bytes(finalized_hash);
                let dup = clone_weighted(&authorities);
                self.current_authorities = authorities;
                let cmd = NewAuthoritySet {
                    canon_number: finalized_number,
                    canon_hash: hash_copy,
                    set_id: self.set_id,
                    authorities: dup,
                };
                commands.push(cmd);
                proof {
                    assert(weighted_eq(
                        self.current_authorities@,
                        commands@[commands@.len() - 1].authorities@,
                    ));
                    assert(weighted_eq(
                        commands@[entry_len].authorities@,
                        applied0[entry_len].next_authorities@,
                    ));
                }
            }
            idx = idx + 1;
        }
        commands
    }
}

/// A copy of a weighted authority list.
pub fn clone_weighted(v: &Vec<(Vec<u8>, u64)>) -> (r: Vec<(Vec<u8>, u64)>)
    ensures
        weighted_eq(r@, v@),
{
    let n = v.len();
    let mut out: Vec<(Vec<u8>, u64)> = Vec::new();
    let mut i: usize = 0;
    while i < n
        invariant
            0 <= i <= n,
            n == v@.len(),
            out@.len() == i,
            forall|j: int| 0 <= j < i ==> (#[trigger] out@[j]).0@ == v@[j].0@ && out@[j].1
                == v@[j].1,
        decreases n - i,
    {
        let id = crate::bytes::clone_bytes(v[i].0.as_slice());
        let w = v[i].1;
        out.push((id, w));
        i = i + 1;
    }
    out
}

/// A run of `n` weighted authorities on the wire: each a 32-byte key
/// and an eight-byte weight.
pub open spec fn spec_decode_authorities(s: Seq<u8>, pos: int, n: nat) -> Option<
    (Seq<(Seq<u8>, u64)>, int),
>
    decreases n,
{
    if n == 0 {
        Some((Seq::empty(), pos))
    } else if 0 <= pos && pos + 40 <= s.len() {
        match spec_decode_authorities(s, pos + 40, (n - 1) as nat) {
            None => None,
            Some((rest, p)) => Some(
                (
                    seq![(s.subrange(pos, pos + 32), le_value(s.subrange(pos + 32, pos + 40)) as u64)]
                        + rest,
                    p,
                ),
            ),
        }
    } else {
        None
    }
}

/// A scheduled change on the wire: a compactly counted authority run
/// and the eight-byte delay, with nothing after.
pub open spec fn spec_decode_scheduled_change(s: Seq<u8>) -> Option<
    (Seq<(Seq<u8>, u64)>, u64),
> {
    match spec_decode_compact(s, 0, 4) {
        None => None,
        Some((n, p0)) => match spec_decode_authorities(s, p0, n) {
            None => None,
            Some((auth, p)) => {
                if p + 8 == s.len() {
                    Some((auth, le_value(s.subrange(p, p + 8)) as u64))
                } else {
                    None
                }
            },
        },
    }
}

/// Read a scheduled change from a digest payload.
pub fn decode_scheduled_change(s: &[u8]) -> (r: Option<ScheduledChange>)
    ensures
        match r {
            Some(c) => spec_decode_scheduled_change(s@) matches Some((auth, delay)) && {
                &&& c.delay == delay
                &&& auth.len() == c.next_authorities@.len()
                &&& forall|i: int|
                    0 <= i < auth.len() ==> (#[trigger] c.next_authorities@[i]).0@ == auth[i].0
                        && c.next_authorities@[i].1 == auth[i].1
            },
            None => spec_decode_scheduled_change(s@) is None,
        },
{
    let len = s.len();
    let (n, p0) = match decode_compact_u32(s, 0) {
        Some(x) => x,
        None => {
            return None;
        },
    };
    let mut auth: Vec<(Vec<u8>, u64)> = Vec::new();
    let mut pos: usize = p0;
    let mut i: u32 = 0;
    while i < n
        invariant
            0 <= i <= n,
            p0 <= pos <= s@.len(),
            s@.len() == len,
            spec_decode_compact(s@, 0, 4) == Some((n as nat, p0 as int)),
            auth@.len() == i,
            match spec_decode_authorities(s@, p0 as int, n as nat) {
                Some((all, pend)) => {
                    &&& spec_decode_authorities(s@, pos as int, (n - i) as nat) is Some
                    &&& all =~= Seq::new(auth@.len(), |j: int| (auth@[j].0@, auth@[j].1))
                        + spec_decode_authorities(s@, pos as int, (n - i) as nat)->Some_0.0
                    &&& pend == spec_decode_authorities(s@, pos as int, (n - i) as nat)->Some_0.1
                },
                None => spec_decode_authorities(s@, pos as int, (n - i) as nat) is None,
            },
        decreases n - i,
    {
        let ghost pre = spec_decode_authorities(s@, pos as int, (n - i) as nat);
        if !(pos <= len && len - pos >= 40) {
            return None;
        }
        let (id, _) = match decode_bytes(s, pos, 32) {
            Some(x) => x,
            None => {
                return None;
            },
        };
        proof {
            reveal_with_fuel(crate::bytes::p256, 9);
            crate::bytes::lemma_le_value_bound(s@.subrange(pos + 32, pos + 40));
        }
        let w = crate::bytes::u64_from_le_n(s, pos + 32, 8);
        auth.push((id, w));
        proof {
            if spec_decode_authorities(s@, p0 as int, n as nat) is Some {
                let prevs = Seq::new((auth@.len() - 1) as nat, |j: int| (auth@[j].0@, auth@[j].1));
                assert(Seq::new(auth@.len(), |j: int| (auth@[j].0@, auth@[j].1)) =~= prevs.push(
                    (s@.subrange(pos as int, pos + 32), le_value(
                        s@.subrange(pos + 32, pos + 40),
                    ) as u64),
                ));
                assert(prevs.push(
                    (s@.subrange(pos as int, pos + 32), le_value(
                        s@.subrange(pos + 32, pos + 40),
                    ) as u64),
                ) + spec_decode_authorities(s@, pos + 40, (n - i - 1) as nat)->Some_0.0 =~= prevs
                    + pre->Some_0.0);
            }
        }
        pos = pos + 40;
        i = i + 1;
    }
    proof {
        if spec_decode_authorities(s@, p0 as int, n as nat) is Some {
            assert(spec_decode_authorities(s@, pos as int, 0) == Some(
                (Seq::<(Seq<u8>, u64)>::empty(), pos as int),
            ));
            assert(spec_decode_authorities(s@, p0 as int, n as nat)->Some_0.0 =~= Seq::new(
                auth@.len(),
                |j: int| (auth@[j].0@, auth@[j].1),
            ));
        }
    }
    if !(pos <= len && len - pos == 8) {
        return None;
    }
    proof {
        reveal_with_fuel(crate::bytes::p256, 9);
        crate::bytes::lemma_le_value_bound(s@.subrange(pos as int, pos + 8));
    }
    let delay = crate::bytes::u64_from_le_n(s, pos, 8);
    Some(ScheduledChange { next_authorities: auth, delay })
}

/// The first scheduled change a digest run announces.
pub open spec fn spec_scheduled_in_digest(items: Seq<DigestItem>) -> Option<
    (Seq<(Seq<u8>, u64)>, u64),
>
    decreases items.len(),
{
    if items.len() == 0 {
        None
    } else {
        match items[0] {
            DigestItem::Other(b) => match spec_decode_scheduled_change(b@) {
                Some(c) => Some(c),
                None => spec_scheduled_in_digest(items.drop_first()),
            },
            DigestItem::Seal(_) => spec_scheduled_in_digest(items.drop_first()),
        }
    }
}

/// Scan a header's digest for the first scheduled change.
pub fn scheduled_change_in_header(h: &Header) -> (r: Option<ScheduledChange>)
    ensures
        match r {
            Some(c) => spec_scheduled_in_digest(h.digest@) matches Some((auth, delay)) && {
                &&& c.delay == delay
                &&& auth.len() == c.next_authorities@.len()
                &&& forall|i: int|
                    0 <= i < auth.len() ==> (#[trigger] c.next_authorities@[i]).0@ == auth[i].0
                        && c.next_authorities@[i].1 == auth[i].1
            },
            None => spec_scheduled_in_digest(h.digest@) is None,
        },
{
    let n = h.digest.len();
    proof {
        assert(h.digest@.subrange(0, n as int) =~= h.digest@);
    }
    let mut i: usize = 0;
    while i < n
        invariant
            0 <= i <= n,
            n == h.digest@.len(),
            spec_scheduled_in_digest(h.digest@) == spec_scheduled_in_digest(
                h.digest@.subrange(i as int, n as int),
            ),
        decreases n - i,
    {
        let ghost rest = h.digest@.subrange(i as int, n as int);
        proof {
            assert(rest[0] == h.digest@[i as int]);
            assert(rest.drop_first() =~= h.digest@.subrange(i + 1, n as int));
        }
        match &h.digest[i] {
            DigestItem::Other(b) => {
                match decode_scheduled_change(b.as_slice()) {
                    Some(c) => {
                        return Some(c);
                    },
                    None => {
                    },
                }
            },
            DigestItem::Seal(_) => {
            },
        }
        i = i + 1;
    }
    proof {
        assert(h.digest@.subrange(n as int, n as int) =~= Seq::<DigestItem>::empty());
    }
    None
}

impl AuthoritySet {
    /// The import hook for one header: note its scheduled change, if
    /// any, and say whether an already pending handoff is due at this
    /// height — the cue to check the canonical branch and drive the
    /// voter.
    pub fn import_hook(&mut self, number: u64, scheduled: Option<ScheduledChange>) -> (r: (
        bool,
        bool,
    ))
        requires
            old(self).wf(),
            scheduled matches Some(c) ==> number + c.delay <= u64::MAX,
        ensures
            final(self).wf(),
            final(self).set_id == old(self).set_id,
            final(self).current_authorities == old(self).current_authorities,
            scheduled is None ==> r.0 == false && *final(self) == *old(self),
            scheduled matches Some(c) ==> {
                &&& r.0 ==> final(self).pending_changes@.len() == old(
                    self,
                ).pending_changes@.len() + 1 && final(self).pending_changes@.last().effective_number
                    == number + c.delay && final(self).pending_changes@.last().next_authorities
                    == c.next_authorities && final(self).pending_changes@.last().canon_height
                    == number && final(self).pending_changes@.drop_last() == old(
                    self,
                ).pending_changes@
                &&& !r.0 ==> final(self).pending_changes@ == old(self).pending_changes@ && old(
                    self,
                ).pending_changes@.len() > 0 && old(
                    self,
                ).pending_changes@.last().effective_number > number + c.delay
            },
            r.1 == (final(self).pending_changes@.len() > 0
                && final(self).pending_changes@[0].effective_number <= number),
    {
        let added = match scheduled {
            Some(c) => self.add_pending_change(number, c),
            None => false,
        };
        let due = match self.earliest_effective() {
            Some(e) => e <= number,
            None => false,
        };
        (added, due)
    }
}

} // verus!
