//! The foreign network: shard-tagged peers and relay routing.
//!
//! Nodes of different shards greet each other with a status naming
//! their shard, then exchange extrinsics. Peers are grouped by shard;
//! an outbound relay extrinsic goes only to the peers of its
//! destination shard, and an inbound one reaches the local pool only
//! when it routes to the local shard.

use vstd::prelude::*;

verus! {

use crate::bytes::{le_value, p256, lemma_le_value_bound, push_bytes, clone_bytes};
use crate::codec::{spec_decode_compact, spec_decode_byte_vec, decode_compact_u32,
    decode_byte_vec, decode_bytes, encode_compact_u64, encode_byte_vec, push_le_bytes_u64,
    lemma_byte_vec_prefix_stable, lemma_decode_byte_vec_extend};
use crate::relay::lemma_compact_prefix_stable;

/// The greeting a peer sends on connect.
pub struct Status {
    /// Protocol version.
    pub version: u32,
    /// Minimum supported version.
    pub min_supported_version: u32,
    /// Best block number.
    pub best_number: u64,
    /// Best block hash.
    pub best_hash: Vec<u8>,
    /// Genesis block hash.
    pub genesis_hash: Vec<u8>,
    /// The sender's shard.
    pub shard_num: u16,
}

/// A message on the foreign wire.
pub enum Message {
    /// The connect greeting.
    Status(Status),
    /// A batch of extrinsics, each as raw bytes.
    Extrinsics(Vec<Vec<u8>>),
}

/// A message handed out of the bridge.
pub enum OutMessage {
    /// A batch of extrinsics.
    Extrinsics(Vec<Vec<u8>>),
}

/// What status decoding yields.
pub struct SpecStatus {
    pub version: u32,
    pub min_supported_version: u32,
    pub best_number: u64,
    pub best_hash: Seq<u8>,
    pub genesis_hash: Seq<u8>,
    pub shard_num: u16,
}

impl View for Status {
    type V = SpecStatus;

    closed spec fn view(&self) -> SpecStatus {
        SpecStatus {
            version: self.version,
            min_supported_version: self.min_supported_version,
            best_number: self.best_number,
            best_hash: self.best_hash@,
            genesis_hash: self.genesis_hash@,
            shard_num: self.shard_num,
        }
    }
}

/// The status wire form: two four-byte versions, an eight-byte best
/// number, two 32-byte hashes and the two-byte shard.
pub open spec fn spec_decode_status(s: Seq<u8>, pos: int) -> Option<(SpecStatus, int)> {
    if 0 <= pos && pos + 82 <= s.len() {
        Some(
            (
                SpecStatus {
                    version: le_value(s.subrange(pos, pos + 4)) as u32,
                    min_supported_version: le_value(s.subrange(pos + 4, pos + 8)) as u32,
                    best_number: le_value(s.subrange(pos + 8, pos + 16)) as u64,
                    best_hash: s.subrange(pos + 16, pos + 48),
                    genesis_hash: s.subrange(pos + 48, pos + 80),
                    shard_num: le_value(s.subrange(pos + 80, pos + 82)) as u16,
                },
                pos + 82,
            ),
        )
    } else {
        None
    }
}

/// Read a status at `pos`.
pub fn decode_status(s: &[u8], pos: usize) -> (r: Option<(Status, usize)>)
    ensures
        match r {
            Some((st, p)) => spec_decode_status(s@, pos as int) == Some((st@, p as int)),
            None => spec_decode_status(s@, pos as int) is None,
        },
{
    let len = s.len();
    if !(pos <= len && len - pos >= 82) {
        return None;
    }
    proof {
        reveal_with_fuel(p256, 9);
        lemma_le_value_bound(s@.subrange(pos as int, pos + 4));
        lemma_le_value_bound(s@.subrange(pos + 4, pos + 8));
        lemma_le_value_bound(s@.subrange(pos + 80, pos + 82));
    }
    let version = crate::bytes::u64_from_le_n(s, pos, 4) as u32;
    let min_supported_version = crate::bytes::u64_from_le_n(s, pos + 4, 4) as u32;
    let best_number = crate::bytes::u64_from_le_n(s, pos + 8, 8);
    let (best_hash, _) = match decode_bytes(s, pos + 16, 32) {
        Some(x) => x,
        None => {
            return None;
        },
    };
    let (genesis_hash, _) = match decode_bytes(s, pos + 48, 32) {
        Some(x) => x,
        None => {
            return None;
        },
    };
    let shard_num = crate::bytes::u64_from_le_n(s, pos + 80, 2) as u16;
    Some(
        (
            Status {
                version,
                min_supported_version,
                best_number,
                best_hash,
                genesis_hash,
                shard_num,
            },
            pos + 82,
        ),
    )
}

impl Status {
    /// Write this status; decoding the bytes restores it.
    pub fn encode(&self) -> (r: Vec<u8>)
        requires
            self@.best_hash.len() == 32,
            self@.genesis_hash.len() == 32,
        ensures
            spec_decode_status(r@, 0) == Some((self@, r@.len() as int)),
    {
        proof {
            reveal_with_fuel(p256, 9);
        }
        let mut out: Vec<u8> = Vec::new();
        push_le_bytes_u64(&mut out, self.version as u64, 4);
        let ghost s1 = out@;
        push_le_bytes_u64(&mut out, self.min_supported_version as u64, 4);
        let ghost s2 = out@;
        push_le_bytes_u64(&mut out, self.best_number, 8);
        let ghost s3 = out@;
        push_bytes(&mut out, self.best_hash.as_slice());
        let ghost s4 = out@;
        push_bytes(&mut out, self.genesis_hash.as_slice());
        let ghost s5 = out@;
        push_le_bytes_u64(&mut out, self.shard_num as u64, 2);
        proof {
            assert(out@.subrange(0, 80) =~= s5);
            assert(s5.subrange(0, 48) =~= s4);
            assert(s4.subrange(0, 16) =~= s3);
            assert(s3.subrange(0, 8) =~= s2);
            assert(s2.subrange(0, 4) =~= s1);
            assert(out@.subrange(0, 4) =~= s1.subrange(0, 4));
            assert(out@.subrange(4, 8) =~= s2.subrange(4, 8));
            assert(out@.subrange(8, 16) =~= s3.subrange(8, 16));
            assert(out@.subrange(16, 48) =~= s4.subrange(16, 48));
            assert(s4.subrange(16, 48) =~= self.best_hash@);
            assert(out@.subrange(48, 80) =~= s5.subrange(48, 80));
            assert(s5.subrange(48, 80) =~= self.genesis_hash@);
            assert(le_value(out@.subrange(0, 4)) == self.version as u64);
            assert(le_value(out@.subrange(4, 8)) == self.min_supported_version as u64);
            assert(le_value(out@.subrange(8, 16)) == self.best_number);
            assert(le_value(out@.subrange(80, 82)) == self.shard_num as u64);
        }
        out
    }
}

/// What message decoding yields.
pub enum SpecMessage {
    Status(SpecStatus),
    Extrinsics(Seq<Seq<u8>>),
}

impl View for Message {
    type V = SpecMessage;

    closed spec fn view(&self) -> SpecMessage {
        match self {
            Message::Status(st) => SpecMessage::Status(st@),
            Message::Extrinsics(xs) => SpecMessage::Extrinsics(
                Seq::new(xs@.len(), |i: int| xs@[i]@),
            ),
        }
    }
}

/// A run of `n` byte strings, each behind its own compact length.
pub open spec fn spec_decode_extrinsics(s: Seq<u8>, pos: int, n: nat) -> Option<
    (Seq<Seq<u8>>, int),
>
    decreases n,
{
    if n == 0 {
        Some((Seq::empty(), pos))
    } else {
        match spec_decode_byte_vec(s, pos) {
            None => None,
            Some((x, p)) => match spec_decode_extrinsics(s, p, (n - 1) as nat) {
                Some((rest, pe)) => Some((seq![x] + rest, pe)),
                None => None,
            },
        }
    }
}

/// The message wire form: a tag, then a status or an extrinsic run.
pub open spec fn spec_decode_message(s: Seq<u8>) -> Option<SpecMessage> {
    if s.len() < 1 {
        None
    } else if s[0] == 0 {
        match spec_decode_status(s, 1) {
            Some((st, _)) => Some(SpecMessage::Status(st)),
            None => None,
        }
    } else if s[0] == 1 {
        match spec_decode_compact(s, 1, 4) {
            None => None,
            Some((n, p0)) => match spec_decode_extrinsics(s, p0, n) {
                Some((xs, _)) => Some(SpecMessage::Extrinsics(xs)),
                None => None,
            },
        }
    } else {
        None
    }
}

impl Message {
    /// Read a message from its bytes, or nothing on a framing
    /// violation.
    pub fn from_bytes(bytes: &[u8]) -> (r: Option<Message>)
        ensures
            match r {
                Some(m) => spec_decode_message(bytes@) == Some(m@),
                None => spec_decode_message(bytes@) is None,
            },
    {
        let len = bytes.len();
        if len < 1 {
            return None;
        }
        if bytes[0] == 0 {
            match decode_status(bytes, 1) {
                Some((st, _)) => Some(Message::Status(st)),
                None => None,
            }
        } else if bytes[0] == 1 {
            let (n, p0) = match decode_compact_u32(bytes, 1) {
                Some(x) => x,
                None => {
                    return None;
                },
            };
            let mut xs: Vec<Vec<u8>> = Vec::new();
            let mut pos: usize = p0;
            let mut i: u32 = 0;
            while i < n
                invariant
                    0 <= i <= n,
                    p0 <= pos <= bytes@.len(),
                    bytes@.len() == len,
                    bytes@[0] == 1,
                    spec_decode_compact(bytes@, 1, 4) == Some((n as nat, p0 as int)),
                    match spec_decode_extrinsics(bytes@, p0 as int, n as nat) {
                        Some((all, _)) => {
                            &&& spec_decode_extrinsics(bytes@, pos as int, (n - i) as nat) is Some
                            &&& xs@.len() == i
                            &&& all =~= Seq::new(xs@.len(), |j: int| xs@[j]@)
                                + spec_decode_extrinsics(
                                bytes@,
                                pos as int,
                                (n - i) as nat,
                            )->Some_0.0
                        },
                        None => spec_decode_extrinsics(bytes@, pos as int, (n - i) as nat) is None,
                    },
                decreases n - i,
            {
                let ghost pre = spec_decode_extrinsics(bytes@, pos as int, (n - i) as nat);
                let (x, p2) = match decode_byte_vec(bytes, pos) {
                    Some(v) => v,
                    None => {
                        return None;
                    },
                };
                xs.push(x);
                proof {
                    let all0 = spec_decode_extrinsics(bytes@, p0 as int, n as nat);
                    if all0 is Some {
                        let prev = Seq::new((xs@.len() - 1) as nat, |j: int| xs@[j]@);
                        assert(Seq::new(xs@.len(), |j: int| xs@[j]@) =~= prev.push(x@));
                        assert(pre->Some_0.0 =~= seq![x@] + spec_decode_extrinsics(
                            bytes@,
                            p2 as int,
                            (n - i - 1) as nat,
                        )->Some_0.0);
                        assert(prev.push(x@) + spec_decode_extrinsics(
                            bytes@,
                            p2 as int,
                            (n - i - 1) as nat,
                        )->Some_0.0 =~= prev + pre->Some_0.0);
                    }
                }
                pos = p2;
                i = i + 1;
            }
            proof {
                if spec_decode_extrinsics(bytes@, p0 as int, n as nat) is Some {
                    let all = spec_decode_extrinsics(bytes@, p0 as int, n as nat)->Some_0.0;
                    assert(spec_decode_extrinsics(bytes@, pos as int, 0) == Some(
                        (Seq::<Seq<u8>>::empty(), pos as int),
                    ));
                    assert(all =~= Seq::new(xs@.len(), |j: int| xs@[j]@));
                }
            }
            Some(Message::Extrinsics(xs))
        } else {
            None
        }
    }
}

/// Appending bytes does not change a run that already decoded.
pub proof fn lemma_decode_extrinsics_extend(s: Seq<u8>, t: Seq<u8>, pos: int, n: nat)
    requires
        spec_decode_extrinsics(s, pos, n) is Some,
    ensures
        spec_decode_extrinsics(s + t, pos, n) == spec_decode_extrinsics(s, pos, n),
    decreases n,
{
    if n > 0 {
        lemma_decode_byte_vec_extend(s, t, pos);
        let (_, p) = spec_decode_byte_vec(s, pos)->Some_0;
        lemma_decode_extrinsics_extend(s, t, p, (n - 1) as nat);
    }
}

/// A framed item appended at the end of a decoded run extends the run
/// by that item.
pub proof fn lemma_decode_extrinsics_snoc(s: Seq<u8>, pos: int, n: nat, x: Seq<u8>, s2: Seq<u8>)
    requires
        spec_decode_extrinsics(s, pos, n) matches Some((v, p)) && p == s.len(),
        0 <= pos,
        spec_decode_byte_vec(s2, s.len() as int) == Some((x, s2.len() as int)),
        s2.len() >= s.len(),
        s2.subrange(0, s.len() as int) == s,
    ensures
        spec_decode_extrinsics(s2, pos, n + 1) matches Some((v2, p2)) && v2
            == spec_decode_extrinsics(s, pos, n)->Some_0.0.push(x) && p2 == s2.len(),
    decreases n,
{
    if n == 0 {
        assert(spec_decode_extrinsics(s2, s2.len() as int, 0) == Some(
            (Seq::<Seq<u8>>::empty(), s2.len() as int),
        ));
        assert(Seq::<Seq<u8>>::empty().push(x) =~= seq![x] + Seq::<Seq<u8>>::empty());
    } else {
        lemma_byte_vec_prefix_stable(s, s2, pos);
        let (first, p1) = spec_decode_byte_vec(s, pos)->Some_0;
        lemma_decode_extrinsics_snoc(s, p1, (n - 1) as nat, x, s2);
        let rest = spec_decode_extrinsics(s, p1, (n - 1) as nat)->Some_0.0;
        assert((seq![first] + rest).push(x) =~= seq![first] + rest.push(x));
    }
}

impl Message {
    /// Write a message; decoding the bytes restores it.
    pub fn into_bytes(self) -> (r: Vec<u8>)
        requires
            self matches Message::Status(st) ==> st.best_hash@.len() == 32
                && st.genesis_hash@.len() == 32,
            self matches Message::Extrinsics(xs) ==> xs@.len() < 0x100000000 && forall|i: int|
                0 <= i < xs@.len() ==> (#[trigger] xs@[i])@.len() < 0x100000000,
        ensures
            spec_decode_message(r@) == Some(self@),
    {
        match self {
            Message::Status(st) => {
                let body = st.encode();
                let mut out: Vec<u8> = vec![0u8];
                push_bytes(&mut out, body.as_slice());
                proof {
                    assert(out@.subrange(1, out@.len() as int) =~= body@);
                    assert(out@[0] == 0u8);
                    assert(spec_decode_status(out@, 1) == Some((st@, out@.len() as int))) by {
                        assert(out@.subrange(1, 5) =~= body@.subrange(0, 4));
                        assert(out@.subrange(5, 9) =~= body@.subrange(4, 8));
                        assert(out@.subrange(9, 17) =~= body@.subrange(8, 16));
                        assert(out@.subrange(17, 49) =~= body@.subrange(16, 48));
                        assert(out@.subrange(49, 81) =~= body@.subrange(48, 80));
                        assert(out@.subrange(81, 83) =~= body@.subrange(80, 82));
                    }
                }
                out
            },
            Message::Extrinsics(xs) => {
                let mut out: Vec<u8> = vec![1u8];
                encode_compact_u64(&mut out, xs.len() as u64);
                let ghost head = out@;
                let n = xs.len();
                let mut i: usize = 0;
                while i < n
                    invariant
                        0 <= i <= n,
                        n == xs@.len(),
                        n < 0x100000000,
                        forall|j: int| 0 <= j < n ==> (#[trigger] xs@[j])@.len() < 0x100000000,
                        out@.len() >= head.len(),
                        out@.subrange(0, head.len() as int) =~= head,
                        head.len() >= 2,
                        head[0] == 1,
                        spec_decode_compact(head, 1, 4) == Some((n as nat, head.len() as int)),
                        spec_decode_extrinsics(out@, head.len() as int, i as nat) == Some(
                            (Seq::new(i as nat, |j: int| xs@[j]@), out@.len() as int),
                        ),
                    decreases n - i,
                {
                    let ghost before = out@;
                    encode_byte_vec(&mut out, xs[i].as_slice());
                    proof {
                        let x = xs@[i as int]@;
                        lemma_decode_extrinsics_snoc(before, head.len() as int, i as nat, x, out@);
                        assert(Seq::new(i as nat, |j: int| xs@[j]@).push(x) =~= Seq::new(
                            (i + 1) as nat,
                            |j: int| xs@[j]@,
                        ));
                        assert(out@.subrange(0, head.len() as int) =~= before.subrange(
                            0,
                            head.len() as int,
                        ));
                    }
                    i = i + 1;
                }
                proof {
                    assert(out@[0] == head[0]);
                    lemma_compact_prefix_stable(head, out@, 1, 4);
                    assert(self@ == SpecMessage::Extrinsics(Seq::new(n as nat, |j: int| xs@[j]@)));
                }
                out
            },
        }
    }
}

/// A peer of the foreign overlay, with the shard its greeting named.
pub struct PeerInfo {
    pub shard_num: Option<u16>,
}

/// The peers an outbound relay extrinsic goes to: exactly those whose
/// greeting named the destination shard.
pub fn route_targets(peers: &Vec<PeerInfo>, dest_shard: u16) -> (r: Vec<usize>)
    ensures
        forall|k: int|
            0 <= k < r@.len() ==> 0 <= #[trigger] r@[k] < peers@.len() && peers@[r@[k] as int].shard_num
                == Some(dest_shard),
        forall|i: int|
            0 <= i < peers@.len() && #[trigger] peers@[i].shard_num == Some(dest_shard)
                ==> r@.contains(i as usize),
{
    let n = peers.len();
    let mut out: Vec<usize> = Vec::new();
    let mut i: usize = 0;
    while i < n
        invariant
            0 <= i <= n,
            n == peers@.len(),
            forall|k: int|
                0 <= k < out@.len() ==> 0 <= #[trigger] out@[k] < peers@.len()
                    && peers@[out@[k] as int].shard_num == Some(dest_shard),
            forall|j: int|
                0 <= j < i && #[trigger] peers@[j].shard_num == Some(dest_shard)
                    ==> out@.contains(j as usize),
        decreases n - i,
    {
        let hit = match peers[i].shard_num {
            Some(sn) => sn == dest_shard,
            None => false,
        };
        let ghost prev = out@;
        if hit {
            out.push(i);
            proof {
                assert(out@[out@.len() - 1] == i as usize);
                assert(out@.contains(i as usize));
                assert forall|j: int|
                    0 <= j < i && #[trigger] peers@[j].shard_num == Some(dest_shard) implies out@.contains(
                    j as usize,
                ) by {
                    assert(prev.contains(j as usize));
                    let k = choose|k: int| 0 <= k < prev.len() && prev[k] == j as usize;
                    assert(out@[k] == j as usize);
                }
            }
        }
        i = i + 1;
    }
    out
}

/// Whether an inbound relay extrinsic reaches the local pool: only
/// when it routes to the local shard.
pub fn accept_inbound(local_shard: u16, dest_shard: u16) -> (r: bool)
    ensures
        r == (local_shard == dest_shard),
{
    local_shard == dest_shard
}

/// What the node reports of one foreign chain.
pub struct ForeignStatus {
    pub peer_count: u32,
    pub best_number: u64,
    pub best_hash: Vec<u8>,
    pub finalized_number: u64,
    pub finalized_hash: Vec<u8>,
}

/// A light view of a chain's heads.
pub struct ChainInfo {
    pub best_number: u64,
    pub best_hash: Vec<u8>,
    pub finalized_number: u64,
    pub finalized_hash: Vec<u8>,
}

/// How many foreign peers named shard `shard`.
pub open spec fn spec_peer_count(peers: Seq<PeerInfo>, shard: u16) -> nat
    decreases peers.len(),
{
    if peers.len() == 0 {
        0
    } else {
        spec_peer_count(peers.drop_last(), shard) + (if peers.last().shard_num == Some(shard) {
            1nat
        } else {
            0nat
        })
    }
}

/// Count the foreign peers of one shard.
pub fn count_peers(peers: &Vec<PeerInfo>, shard: u16) -> (r: u64)
    requires
        peers@.len() <= u32::MAX,
    ensures
        r == spec_peer_count(peers@, shard),
        r <= peers@.len(),
{
    let n = peers.len();
    let mut count: u64 = 0;
    let mut i: usize = 0;
    while i < n
        invariant
            0 <= i <= n,
            n == peers@.len() <= u32::MAX,
            count == spec_peer_count(peers@.subrange(0, i as int), shard),
            count <= i,
        decreases n - i,
    {
        proof {
            assert(peers@.subrange(0, i + 1).drop_last() =~= peers@.subrange(0, i as int));
            assert(peers@.subrange(0, i + 1).last() == peers@[i as int]);
        }
        let hit = match peers[i].shard_num {
            Some(sn) => sn == shard,
            None => false,
        };
        if hit {
            count = count + 1;
        }
        i = i + 1;
    }
    proof {
        assert(peers@.subrange(0, n as int) =~= peers@);
    }
    count
}

/// The per-shard status report: each known foreign chain with the
/// count of peers on its shard; the local shard counts the primary
/// network's peers on top.
pub fn foreign_status(
    local_shard: u16,
    main_peer_count: u32,
    peers: &Vec<PeerInfo>,
    client_info: &Vec<(u16, Option<ChainInfo>)>,
) -> (r: Vec<(u16, Option<ForeignStatus>)>)
    requires
        peers@.len() + main_peer_count <= u32::MAX,
    ensures
        r@.len() == client_info@.len(),
        forall|i: int|
            0 <= i < r@.len() ==> {
                &&& (#[trigger] r@[i]).0 == client_info@[i].0
                &&& (r@[i].1 is Some <==> client_info@[i].1 is Some)
                &&& (client_info@[i].1 matches Some(info) ==> r@[i].1 matches Some(st) && {
                    &&& st.best_number == info.best_number
                    &&& st.best_hash@ == info.best_hash@
                    &&& st.finalized_number == info.finalized_number
                    &&& st.finalized_hash@ == info.finalized_hash@
                    &&& st.peer_count == spec_peer_count(peers@, client_info@[i].0) + (
                    if client_info@[i].0 == local_shard {
                        main_peer_count as nat
                    } else {
                        0nat
                    })
                })
            },
{
    let n = client_info.len();
    let mut out: Vec<(u16, Option<ForeignStatus>)> = Vec::new();
    let mut i: usize = 0;
    while i < n
        invariant
            0 <= i <= n,
            n == client_info@.len(),
            peers@.len() + main_peer_count <= u32::MAX,
            out@.len() == i,
            forall|j: int|
                0 <= j < i ==> {
                    &&& (#[trigger] out@[j]).0 == client_info@[j].0
                    &&& (out@[j].1 is Some <==> client_info@[j].1 is Some)
                    &&& (client_info@[j].1 matches Some(info) ==> out@[j].1 matches Some(st) && {
                        &&& st.best_number == info.best_number
                        &&& st.best_hash@ == info.best_hash@
                        &&& st.finalized_number == info.finalized_number
                        &&& st.finalized_hash@ == info.finalized_hash@
                        &&& st.peer_count == spec_peer_count(peers@, client_info@[j].0) + (
                        if client_info@[j].0 == local_shard {
                            main_peer_count as nat
                        } else {
                            0nat
                        })
                    })
                },
        decreases n - i,
    {
        let shard = client_info[i].0;
        let base = count_peers(peers, shard) as u32;
        let total: u32 = if shard == local_shard {
            base + main_peer_count
        } else {
            base
        };
        let status = match &client_info[i].1 {
            Some(info) => Some(
                ForeignStatus {
                    peer_count: total,
                    best_number: info.best_number,
                    best_hash: clone_bytes(info.best_hash.as_slice()),
                    finalized_number: info.finalized_number,
                    finalized_hash: clone_bytes(info.finalized_hash.as_slice()),
                },
            ),
            None => None,
        };
        out.push((shard, status));
        i = i + 1;
    }
    out
}

} // verus!
