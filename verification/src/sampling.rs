//! Decisions of the flow-sample worker: which sample batches it takes, how a
//! flow's sampling budget is spent, which flow-end notices finish a flow,
//! which cached analysis answers a telemetry flow, and the counters its
//! diagnostics report.

use vstd::prelude::*;

use crate::text::str_eq;

verus! {

/// Most flows, batch sequences and cached results the worker keeps.
pub const CACHE_CAPACITY: usize = 4096;

/// How long flow state, sequences and results are kept, in milliseconds.
pub const CACHE_TTL_MS: u64 = 300_000;

/// How long a flow-end notice waits for late samples, in milliseconds.
pub const END_GRACE_MS: u64 = 1000;

/// Most distinct flows remembered for the new-flow count.
pub const SEEN_FLOW_CAPACITY: usize = 65536;

/// Endpoints, protocol and start time of a sampled flow.
#[derive(Clone, Debug, PartialEq, Eq)]
pub struct FlowSampleKey {
    pub ip_version: u32,
    pub protocol: u32,
    pub client_ip: Vec<u8>,
    pub client_port: u32,
    pub remote_ip: Vec<u8>,
    pub remote_port: u32,
    pub first_seen_unix_ms: u64,
}

/// What telemetry reports of a flow: endpoints, protocol and time span.
#[derive(Clone, Debug, PartialEq, Eq)]
pub struct FlowSpan {
    pub protocol: u32,
    pub client_ip: Vec<u8>,
    pub client_port: u32,
    pub remote_ip: Vec<u8>,
    pub remote_port: u32,
    pub first_seen_unix_ms: u64,
    pub last_seen_unix_ms: u64,
}

/// `x + 1`, saturating at `u64::MAX`.
pub open spec fn sat_inc(x: u64) -> int {
    if x == u64::MAX {
        x as int
    } else {
        x + 1
    }
}

/// Whether a sampled flow is the telemetry flow: the same endpoints and
/// protocol, with time spans that meet (to the millisecond).
pub open spec fn sample_matches_flow(key: FlowSampleKey, last_packet_ms: u64, flow: FlowSpan) -> bool {
    &&& key.client_ip@ == flow.client_ip@
    &&& key.remote_ip@ == flow.remote_ip@
    &&& key.client_port == flow.client_port
    &&& key.remote_port == flow.remote_port
    &&& key.protocol == flow.protocol
    &&& key.first_seen_unix_ms <= sat_inc(flow.last_seen_unix_ms)
    &&& sat_inc(last_packet_ms) >= flow.first_seen_unix_ms
}

/// Whether two byte strings are equal.
pub fn bytes_eq(a: &[u8], b: &[u8]) -> (r: bool)
    ensures
        r == (a@ == b@),
{
    if a.len() != b.len() {
        return false;
    }
    let mut i: usize = 0;
    while i < a.len()
        invariant
            i <= a@.len(),
            a@.len() == b@.len(),
            forall|k: int| 0 <= k < i ==> a@[k] == b@[k],
        decreases a@.len() - i,
    {
        if a[i] != b[i] {
            return false;
        }
        i = i + 1;
    }
    assert(a@ =~= b@);
    true
}

/// Whether two sample keys are equal.
pub fn same_sample_key(a: &FlowSampleKey, b: &FlowSampleKey) -> (r: bool)
    ensures
        r == (a.ip_version == b.ip_version && a.protocol == b.protocol && a.client_ip@
            == b.client_ip@ && a.client_port == b.client_port && a.remote_ip@ == b.remote_ip@
            && a.remote_port == b.remote_port && a.first_seen_unix_ms == b.first_seen_unix_ms),
{
    a.ip_version == b.ip_version && a.protocol == b.protocol && bytes_eq(
        a.client_ip.as_slice(),
        b.client_ip.as_slice(),
    ) && a.client_port == b.client_port && bytes_eq(
        a.remote_ip.as_slice(),
        b.remote_ip.as_slice(),
    ) && a.remote_port == b.remote_port && a.first_seen_unix_ms == b.first_seen_unix_ms
}

/// Whether a sampled flow is the telemetry flow.
pub fn matches_flow(key: &FlowSampleKey, last_packet_ms: u64, flow: &FlowSpan) -> (r: bool)
    ensures
        r == sample_matches_flow(*key, last_packet_ms, *flow),
{
    bytes_eq(key.client_ip.as_slice(), flow.client_ip.as_slice()) && bytes_eq(
        key.remote_ip.as_slice(),
        flow.remote_ip.as_slice(),
    ) && key.client_port == flow.client_port && key.remote_port == flow.remote_port
        && key.protocol == flow.protocol && key.first_seen_unix_ms
        <= flow.last_seen_unix_ms.saturating_add(1) && last_packet_ms.saturating_add(1)
        >= flow.first_seen_unix_ms
}

/// A flow-end notice: the gateway and boot that sent it, the flow, and when
/// it arrived.
#[derive(Clone, Debug)]
pub struct FlowEnding {
    pub gateway: String,
    pub boot: String,
    pub flow: FlowSpan,
    pub at_ms: u64,
}

/// Whether a notice finishes a sampled flow of `gateway`/`boot` now: it comes
/// from the same gateway boot, has waited its grace second, and names the
/// flow.
pub open spec fn ending_applies(
    e: FlowEnding,
    gateway: Seq<char>,
    boot: Seq<char>,
    key: FlowSampleKey,
    last_packet_ms: u64,
    now_ms: u64,
) -> bool {
    &&& e.gateway@ == gateway
    &&& e.boot@ == boot
    &&& now_ms - e.at_ms >= END_GRACE_MS
    &&& sample_matches_flow(key, last_packet_ms, e.flow)
}

/// Whether any notice finishes the sampled flow now.
pub fn flow_has_ended(
    endings: &Vec<FlowEnding>,
    gateway: &str,
    boot: &str,
    key: &FlowSampleKey,
    last_packet_ms: u64,
    now_ms: u64,
) -> (r: bool)
    ensures
        r == exists|i: int|
            0 <= i < endings@.len() && #[trigger] ending_applies(
                endings@[i],
                gateway@,
                boot@,
                *key,
                last_packet_ms,
                now_ms,
            ),
{
    let mut i: usize = 0;
    while i < endings.len()
        invariant
            i <= endings@.len(),
            forall|k: int|
                0 <= k < i ==> !#[trigger] ending_applies(
                    endings@[k],
                    gateway@,
                    boot@,
                    *key,
                    last_packet_ms,
                    now_ms,
                ),
        decreases endings@.len() - i,
    {
        let e = &endings[i];
        let waited = now_ms >= e.at_ms && now_ms - e.at_ms >= END_GRACE_MS;
        if str_eq(e.gateway.as_str(), gateway) && str_eq(e.boot.as_str(), boot) && waited
            && matches_flow(key, last_packet_ms, &e.flow) {
            assert(ending_applies(endings@[i as int], gateway@, boot@, *key, last_packet_ms, now_ms));
            return true;
        }
        i = i + 1;
    }
    false
}

/// Whether a flow-end notice is still kept: younger than the cache lifetime.
pub open spec fn ending_kept(e: FlowEnding, now_ms: u64) -> bool {
    now_ms - e.at_ms < CACHE_TTL_MS
}

/// Drops the notices older than the cache lifetime, keeping the others in
/// order.
pub fn prune_endings(endings: &mut Vec<FlowEnding>, now_ms: u64)
    ensures
        final(endings)@ == old(endings)@.filter(|e: FlowEnding| ending_kept(e, now_ms)),
{
    let ghost pred = |e: FlowEnding| ending_kept(e, now_ms);
    let ghost orig = endings@;
    assert(orig.len() == endings.len());
    let mut rest: Vec<FlowEnding> = Vec::new();
    std::mem::swap(endings, &mut rest);
    let mut i: usize = 0;
    while rest.len() > 0
        invariant
            i <= orig.len() <= usize::MAX,
            pred == (|e: FlowEnding| ending_kept(e, now_ms)),
            rest@ == orig.skip(i as int),
            endings@ == orig.take(i as int).filter(pred),
        decreases rest@.len(),
    {
        let e = rest.remove(0);
        proof {
            assert(orig[i as int] == e);
            orig.take(i as int).lemma_filter_push(e, pred);
            assert(orig.take(i as int + 1) =~= orig.take(i as int).push(e));
            assert(rest@ =~= orig.skip(i as int + 1));
        }
        if now_ms < e.at_ms || now_ms - e.at_ms < CACHE_TTL_MS {
            endings.push(e);
        }
        i = i + 1;
    }
    assert(orig.take(i as int) =~= orig);
}

/// Records a flow-end notice, unless the notice store is full.
pub fn record_ending(endings: &mut Vec<FlowEnding>, ending: FlowEnding) -> (recorded: bool)
    ensures
        recorded == (old(endings)@.len() < CACHE_CAPACITY),
        recorded ==> final(endings)@ == old(endings)@.push(ending),
        !recorded ==> final(endings)@ == old(endings)@,
{
    if endings.len() < CACHE_CAPACITY {
        endings.push(ending);
        true
    } else {
        false
    }
}

/// The last sequence number taken from one gateway boot, and until when it
/// is remembered.
#[derive(Clone, Debug)]
pub struct SequenceEntry {
    pub gateway: String,
    pub boot: String,
    pub sequence: u64,
    pub expires_ms: u64,
}

/// Gateway, boot, last sequence, expiry.
pub type SequenceView = (Seq<char>, Seq<char>, u64, u64);

/// Last accepted batch sequence per gateway boot. Batches that do not
/// advance the sequence are duplicates or replays and are skipped.
pub struct BatchSequences {
    entries: Vec<SequenceEntry>,
}

pub open spec fn entry_for(e: SequenceView, gateway: Seq<char>, boot: Seq<char>) -> bool {
    e.0 == gateway && e.1 == boot
}

impl View for BatchSequences {
    type V = Seq<SequenceView>;

    closed spec fn view(&self) -> Seq<SequenceView> {
        self.entries@.map_values(|e: SequenceEntry| (e.gateway@, e.boot@, e.sequence, e.expires_ms))
    }
}

impl BatchSequences {
    /// At most one entry per gateway boot, and no more than the capacity.
    pub open spec fn well_formed(&self) -> bool {
        &&& self@.len() <= CACHE_CAPACITY
        &&& forall|i: int, j: int|
            #![trigger self@[i], self@[j]]
            0 <= i < j < self@.len() ==> !entry_for(self@[i], self@[j].0, self@[j].1)
    }

    /// The last sequence taken from a gateway boot, if it is remembered.
    pub open spec fn last_sequence(&self, gateway: Seq<char>, boot: Seq<char>) -> Option<u64> {
        if exists|i: int| 0 <= i < self@.len() && entry_for(#[trigger] self@[i], gateway, boot) {
            Some(
                self@[choose|i: int|
                    0 <= i < self@.len() && entry_for(#[trigger] self@[i], gateway, boot)].2,
            )
        } else {
            None
        }
    }

    pub fn new() -> (r: Self)
        ensures
            r@ == Seq::<SequenceView>::empty(),
            r.well_formed(),
    {
        let r = BatchSequences { entries: Vec::new() };
        assert(r@ =~= Seq::<SequenceView>::empty());
        r
    }

    fn position(&self, gateway: &str, boot: &str) -> (r: Option<usize>)
        ensures
            match r {
                Some(i) => i < self@.len() && entry_for(self@[i as int], gateway@, boot@),
                None => forall|i: int|
                    0 <= i < self@.len() ==> !entry_for(#[trigger] self@[i], gateway@, boot@),
            },
    {
        let mut i: usize = 0;
        while i < self.entries.len()
            invariant
                i <= self.entries@.len(),
                self@ == self.entries@.map_values(
                    |e: SequenceEntry| (e.gateway@, e.boot@, e.sequence, e.expires_ms),
                ),
                forall|k: int| 0 <= k < i ==> !entry_for(#[trigger] self@[k], gateway@, boot@),
            decreases self.entries@.len() - i,
        {
            let e = &self.entries[i];
            if str_eq(e.gateway.as_str(), gateway) && str_eq(e.boot.as_str(), boot) {
                return Some(i);
            }
            i = i + 1;
        }
        None
    }

    /// Takes a batch if its sequence advances the gateway boot's last one,
    /// or if the boot is new and there is room; the taken sequence is then
    /// remembered for the cache lifetime. A refused batch changes nothing.
    pub fn accept(&mut self, gateway: &str, boot: &str, sequence: u64, now_ms: u64) -> (r: bool)
        requires
            old(self).well_formed(),
        ensures
            final(self).well_formed(),
            r == match old(self).last_sequence(gateway@, boot@) {
                Some(last) => last < sequence,
                None => old(self)@.len() < CACHE_CAPACITY,
            },
            r ==> final(self).last_sequence(gateway@, boot@) == Some(sequence),
            !r ==> final(self)@ == old(self)@,
            forall|g: Seq<char>, b: Seq<char>|
                !(g == gateway@ && b == boot@) ==> #[trigger] final(self).last_sequence(g, b)
                    == old(self).last_sequence(g, b),
    {
        let ghost before = self@;
        let expires = now_ms.saturating_add(CACHE_TTL_MS);
        match self.position(gateway, boot) {
            Some(i) => {
                proof {
                    assert(self.last_sequence(gateway@, boot@) == Some(self@[i as int].2)) by {
                        let c = choose|k: int|
                            0 <= k < self@.len() && entry_for(#[trigger] self@[k], gateway@, boot@);
                        if c != i as int {
                            if c < i {
                                assert(!entry_for(self@[c], self@[i as int].0, self@[i as int].1));
                            } else {
                                assert(!entry_for(self@[i as int], self@[c].0, self@[c].1));
                            }
                        }
                    }
                }
                if self.entries[i].sequence >= sequence {
                    return false;
                }
                let ghost old_entries = self.entries@;
                self.entries.set(
                    i,
                    SequenceEntry {
                        gateway: gateway.to_owned(),
                        boot: boot.to_owned(),
                        sequence,
                        expires_ms: expires,
                    },
                );
                proof {
                    assert(self@ =~= before.update(
                        i as int,
                        (gateway@, boot@, sequence, expires),
                    ));
                    self.lemma_last_after_update(before, i as int, gateway@, boot@);
                }
                true
            },
            None => {
                proof {
                    assert(self.last_sequence(gateway@, boot@) is None);
                }
                if self.entries.len() >= CACHE_CAPACITY {
                    return false;
                }
                self.entries.push(
                    SequenceEntry {
                        gateway: gateway.to_owned(),
                        boot: boot.to_owned(),
                        sequence,
                        expires_ms: expires,
                    },
                );
                proof {
                    assert(self@ =~= before.push((gateway@, boot@, sequence, expires)));
                    assert(self@.drop_last() =~= before);
                    self.lemma_last_after_push(before, gateway@, boot@);
                }
                true
            },
        }
    }

    /// Forgets the gateway boots whose entry has expired, keeping the others
    /// in order.
    pub fn expire(&mut self, now_ms: u64)
        requires
            old(self).well_formed(),
        ensures
            final(self).well_formed(),
            final(self)@ == old(self)@.filter(|e: SequenceView| e.3 > now_ms),
    {
        let ghost pred = |e: SequenceView| e.3 > now_ms;
        let ghost orig = self@;
        let mut rest: Vec<SequenceEntry> = Vec::new();
        std::mem::swap(&mut self.entries, &mut rest);
        let ghost rest0 = rest@;
        assert(orig == rest0.map_values(
            |e: SequenceEntry| (e.gateway@, e.boot@, e.sequence, e.expires_ms),
        ));
        let ghost mut idx: Seq<int> = Seq::empty();
        let mut i: usize = 0;
        while rest.len() > 0
            invariant
                i <= orig.len() <= CACHE_CAPACITY,
                orig.len() == rest0.len(),
                pred == (|e: SequenceView| e.3 > now_ms),
                orig == rest0.map_values(
                    |e: SequenceEntry| (e.gateway@, e.boot@, e.sequence, e.expires_ms),
                ),
                forall|x: int, y: int|
                    #![trigger orig[x], orig[y]]
                    0 <= x < y < orig.len() ==> !entry_for(orig[x], orig[y].0, orig[y].1),
                rest@ == rest0.skip(i as int),
                self@ == orig.take(i as int).filter(pred),
                idx.len() == self@.len(),
                forall|k: int| 0 <= k < idx.len() ==> 0 <= #[trigger] idx[k] < i,
                forall|k: int| 0 <= k < idx.len() ==> self@[k] == orig[#[trigger] idx[k]],
                forall|a: int, b: int| 0 <= a < b < idx.len() ==> #[trigger] idx[a] < #[trigger] idx[b],
            decreases rest@.len(),
        {
            let e = rest.remove(0);
            proof {
                assert(rest0[i as int] == e);
                assert(orig[i as int] == (e.gateway@, e.boot@, e.sequence, e.expires_ms));
                orig.take(i as int).lemma_filter_push(orig[i as int], pred);
                assert(orig.take(i as int + 1) =~= orig.take(i as int).push(orig[i as int]));
                assert(rest@ =~= rest0.skip(i as int + 1));
            }
            if e.expires_ms > now_ms {
                let ghost before = self@;
                self.entries.push(e);
                proof {
                    assert(self@ =~= before.push(orig[i as int]));
                    idx = idx.push(i as int);
                }
            }
            i = i + 1;
        }
        proof {
            assert(orig.take(i as int) =~= orig);
            assert forall|x: int, y: int|
                #![trigger self@[x], self@[y]]
                0 <= x < y < self@.len() implies !entry_for(self@[x], self@[y].0, self@[y].1) by {
                assert(idx[x] < idx[y]);
                assert(self@[x] == orig[idx[x]]);
                assert(self@[y] == orig[idx[y]]);
            }
            assert(self@.len() <= orig.len()) by {
                orig.lemma_filter_len(pred);
            }
        }
    }

    proof fn lemma_last_after_update(self, before: Seq<SequenceView>, i: int, g: Seq<char>, b: Seq<char>)
        requires
            0 <= i < before.len() <= CACHE_CAPACITY,
            entry_for(before[i], g, b),
            forall|x: int, y: int|
                #![trigger before[x], before[y]]
                0 <= x < y < before.len() ==> !entry_for(before[x], before[y].0, before[y].1),
            self@ == before.update(i, (g, b, self@[i].2, self@[i].3)),
        ensures
            self.well_formed(),
            self.last_sequence(g, b) == Some(self@[i].2),
            forall|g2: Seq<char>, b2: Seq<char>|
                !(g2 == g && b2 == b) ==> #[trigger] self.last_sequence(g2, b2) == (if exists|k: int|
                    0 <= k < before.len() && entry_for(#[trigger] before[k], g2, b2) {
                    Some(before[choose|k: int| 0 <= k < before.len() && entry_for(#[trigger] before[k], g2, b2)].2)
                } else {
                    None
                }),
    {
        assert forall|x: int, y: int| #![trigger self@[x], self@[y]] 0 <= x < y < self@.len() implies !entry_for(
            self@[x],
            self@[y].0,
            self@[y].1,
        ) by {
            assert(!entry_for(before[x], before[y].0, before[y].1));
        }
        let c = choose|k: int| 0 <= k < self@.len() && entry_for(#[trigger] self@[k], g, b);
        assert(entry_for(self@[i], g, b));
        if c != i {
            if c < i {
                assert(!entry_for(self@[c], self@[i].0, self@[i].1));
            } else {
                assert(!entry_for(self@[i], self@[c].0, self@[c].1));
            }
        }
        assert forall|g2: Seq<char>, b2: Seq<char>| !(g2 == g && b2 == b) implies #[trigger] self.last_sequence(g2, b2) == (if exists|k: int|
                    0 <= k < before.len() && entry_for(#[trigger] before[k], g2, b2) {
                    Some(before[choose|k: int| 0 <= k < before.len() && entry_for(#[trigger] before[k], g2, b2)].2)
                } else {
                    None
                }) by {
            assert forall|k: int| 0 <= k < self@.len() implies entry_for(#[trigger] self@[k], g2, b2) == entry_for(before[k], g2, b2) by {
                if k == i {
                    assert(!entry_for(self@[k], g2, b2));
                    assert(!entry_for(before[k], g2, b2));
                }
            }
            if exists|k: int| 0 <= k < before.len() && entry_for(#[trigger] before[k], g2, b2) {
                let k1 = choose|k: int| 0 <= k < before.len() && entry_for(#[trigger] before[k], g2, b2);
                assert(entry_for(self@[k1], g2, b2));
                let k2 = choose|k: int| 0 <= k < self@.len() && entry_for(#[trigger] self@[k], g2, b2);
                assert(entry_for(before[k2], g2, b2));
                if k1 != k2 {
                    if k1 < k2 {
                        assert(!entry_for(before[k1], before[k2].0, before[k2].1));
                    } else {
                        assert(!entry_for(before[k2], before[k1].0, before[k1].1));
                    }
                }
            }
        }
    }

    proof fn lemma_last_after_push(self, before: Seq<SequenceView>, g: Seq<char>, b: Seq<char>)
        requires
            before.len() < CACHE_CAPACITY,
            forall|k: int| 0 <= k < before.len() ==> !entry_for(#[trigger] before[k], g, b),
            forall|x: int, y: int|
                #![trigger before[x], before[y]]
                0 <= x < y < before.len() ==> !entry_for(before[x], before[y].0, before[y].1),
            self@.len() == before.len() + 1,
            self@.drop_last() == before,
            self@.last().0 == g,
            self@.last().1 == b,
        ensures
            self.well_formed(),
            self.last_sequence(g, b) == Some(self@.last().2),
            forall|g2: Seq<char>, b2: Seq<char>|
                !(g2 == g && b2 == b) ==> #[trigger] self.last_sequence(g2, b2) == (if exists|k: int|
                    0 <= k < before.len() && entry_for(#[trigger] before[k], g2, b2) {
                    Some(before[choose|k: int| 0 <= k < before.len() && entry_for(#[trigger] before[k], g2, b2)].2)
                } else {
                    None
                }),
    {
        let n = before.len() as int;
        assert forall|k: int| 0 <= k < n implies #[trigger] self@[k] == before[k] by {
            assert(self@.drop_last()[k] == self@[k]);
        }
        assert forall|x: int, y: int| #![trigger self@[x], self@[y]] 0 <= x < y < self@.len() implies !entry_for(
            self@[x],
            self@[y].0,
            self@[y].1,
        ) by {
            if y == n {
                assert(!entry_for(before[x], g, b));
            } else {
                assert(!entry_for(before[x], before[y].0, before[y].1));
            }
        }
        assert(entry_for(self@[n], g, b));
        let c = choose|k: int| 0 <= k < self@.len() && entry_for(#[trigger] self@[k], g, b);
        if c != n {
            assert(!entry_for(before[c], g, b));
        }
        assert forall|g2: Seq<char>, b2: Seq<char>| !(g2 == g && b2 == b) implies #[trigger] self.last_sequence(g2, b2) == (if exists|k: int|
                    0 <= k < before.len() && entry_for(#[trigger] before[k], g2, b2) {
                    Some(before[choose|k: int| 0 <= k < before.len() && entry_for(#[trigger] before[k], g2, b2)].2)
                } else {
                    None
                }) by {
            assert(!entry_for(self@[n], g2, b2));
            if exists|k: int| 0 <= k < before.len() && entry_for(#[trigger] before[k], g2, b2) {
                let k1 = choose|k: int| 0 <= k < before.len() && entry_for(#[trigger] before[k], g2, b2);
                assert(entry_for(self@[k1], g2, b2));
                let k2 = choose|k: int| 0 <= k < self@.len() && entry_for(#[trigger] self@[k], g2, b2);
                assert(k2 != n);
                assert(entry_for(before[k2], g2, b2));
                if k1 != k2 {
                    if k1 < k2 {
                        assert(!entry_for(before[k1], before[k2].0, before[k2].1));
                    } else {
                        assert(!entry_for(before[k2], before[k1].0, before[k1].1));
                    }
                }
            } else {
                assert forall|k: int| 0 <= k < self@.len() implies !entry_for(#[trigger] self@[k], g2, b2) by {
                    if k < n {
                        assert(!entry_for(before[k], g2, b2));
                    }
                }
            }
        }
    }
}

/// Per-flow sampling limits the collector enforces.
#[derive(Clone, Copy, Debug, PartialEq, Eq)]
pub struct SampleLimits {
    pub max_bytes_per_flow: u32,
    pub max_packets_per_direction: usize,
}

/// Sampling progress of one flow: captured bytes, packets per direction
/// (upload, download), and the latest packet time.
#[derive(Clone, Copy, Debug, PartialEq, Eq)]
pub struct FlowBudget {
    pub bytes: u32,
    pub upload_packets: usize,
    pub download_packets: usize,
    pub last_packet_ms: u64,
}

/// Packets of a sample that travel towards the client (direction 2).
pub open spec fn download_count(directions: Seq<u32>) -> nat
    decreases directions.len(),
{
    if directions.len() == 0 {
        0
    } else {
        download_count(directions.drop_last()) + if directions.last() == 2 {
            1nat
        } else {
            0nat
        }
    }
}

pub proof fn lemma_download_count_bound(directions: Seq<u32>)
    ensures
        download_count(directions) <= directions.len(),
    decreases directions.len(),
{
    if directions.len() > 0 {
        lemma_download_count_bound(directions.drop_last());
    }
}

/// Latest of a sample's packet times; 0 for no packets.
pub open spec fn latest_time(times: Seq<u64>) -> u64
    decreases times.len(),
{
    if times.len() == 0 {
        0
    } else {
        let rest = latest_time(times.drop_last());
        if times.last() > rest {
            times.last()
        } else {
            rest
        }
    }
}

/// Whether a sample fits a flow's budget: it is for the same flow, and the
/// flow stays within the byte limit and the packet limit of each direction.
pub open spec fn sample_fits(
    b: FlowBudget,
    same_key: bool,
    sample_bytes: u32,
    directions: Seq<u32>,
    limits: SampleLimits,
) -> bool {
    &&& same_key
    &&& b.bytes + sample_bytes <= limits.max_bytes_per_flow
    &&& b.upload_packets + (directions.len() - download_count(directions))
        <= limits.max_packets_per_direction
    &&& b.download_packets + download_count(directions) <= limits.max_packets_per_direction
}

impl FlowBudget {
    pub fn new() -> (b: Self)
        ensures
            b == (FlowBudget { bytes: 0, upload_packets: 0, download_packets: 0, last_packet_ms: 0 }),
    {
        FlowBudget { bytes: 0, upload_packets: 0, download_packets: 0, last_packet_ms: 0 }
    }

    /// Within the collector's limits.
    pub open spec fn within(self, limits: SampleLimits) -> bool {
        &&& self.bytes <= limits.max_bytes_per_flow
        &&& self.upload_packets <= limits.max_packets_per_direction
        &&& self.download_packets <= limits.max_packets_per_direction
    }

    /// Counts a sample against the flow's budget. A sample for another flow,
    /// or one that would exceed a limit, is dropped and changes nothing.
    pub fn absorb(
        &mut self,
        same_key: bool,
        sample_bytes: u32,
        directions: &[u32],
        times: &[u64],
        limits: SampleLimits,
    ) -> (taken: bool)
        requires
            old(self).within(limits),
        ensures
            taken == sample_fits(*old(self), same_key, sample_bytes, directions@, limits),
            final(self).within(limits),
            !taken ==> *final(self) == *old(self),
            taken ==> {
                &&& final(self).bytes == old(self).bytes + sample_bytes
                &&& final(self).upload_packets == old(self).upload_packets + (directions@.len()
                    - download_count(directions@))
                &&& final(self).download_packets == old(self).download_packets + download_count(
                    directions@,
                )
                &&& final(self).last_packet_ms == if latest_time(times@)
                    > old(self).last_packet_ms {
                    latest_time(times@)
                } else {
                    old(self).last_packet_ms
                }
            },
    {
        let mut downloads: usize = 0;
        let mut i: usize = 0;
        while i < directions.len()
            invariant
                i <= directions@.len(),
                downloads == download_count(directions@.take(i as int)),
                downloads <= i,
            decreases directions@.len() - i,
        {
            assert(directions@.take(i as int + 1).drop_last() =~= directions@.take(i as int));
            if directions[i] == 2 {
                downloads = downloads + 1;
            }
            i = i + 1;
        }
        assert(directions@.take(directions@.len() as int) =~= directions@);
        let uploads = directions.len() - downloads;
        if !same_key || self.bytes as u64 + sample_bytes as u64 > limits.max_bytes_per_flow as u64
            || uploads > limits.max_packets_per_direction - self.upload_packets || downloads
            > limits.max_packets_per_direction - self.download_packets {
            return false;
        }
        let mut latest: u64 = 0;
        let mut j: usize = 0;
        while j < times.len()
            invariant
                j <= times@.len(),
                latest == latest_time(times@.take(j as int)),
            decreases times@.len() - j,
        {
            assert(times@.take(j as int + 1).drop_last() =~= times@.take(j as int));
            if times[j] > latest {
                latest = times[j];
            }
            j = j + 1;
        }
        assert(times@.take(times@.len() as int) =~= times@);
        self.bytes = self.bytes + sample_bytes;
        self.upload_packets = self.upload_packets + uploads;
        self.download_packets = self.download_packets + downloads;
        if latest > self.last_packet_ms {
            self.last_packet_ms = latest;
        }
        true
    }

    /// Whether the flow's sampling is done: its byte budget is spent, or both
    /// directions have their packets.
    pub open spec fn exhausted_spec(self, byte_budget: u32, packet_budget: usize) -> bool {
        self.bytes >= byte_budget || (self.upload_packets >= packet_budget
            && self.download_packets >= packet_budget)
    }

    pub fn exhausted(&self, byte_budget: u32, packet_budget: usize) -> (r: bool)
        ensures
            r == self.exhausted_spec(byte_budget, packet_budget),
    {
        self.bytes >= byte_budget || (self.upload_packets >= packet_budget
            && self.download_packets >= packet_budget)
    }
}

/// Whether detection goes on after a result: only nDPI results, and results
/// for protocols that carry more to learn (TLS, QUIC, HTTP), keep the engine.
pub open spec fn keeps_engine_spec(source: Seq<char>, protocol: Seq<char>) -> bool {
    source == "ndpi"@ || protocol == "tls"@ || protocol == "quic"@ || protocol == "http"@
}

pub fn keeps_engine(source: &str, protocol: &str) -> (r: bool)
    ensures
        r == keeps_engine_spec(source@, protocol@),
{
    str_eq(source, "ndpi") || str_eq(protocol, "tls") || str_eq(protocol, "quic") || str_eq(
        protocol,
        "http",
    )
}

/// Law: detection goes on after any answer for TLS, QUIC or HTTP, whatever
/// its source, and after any answer from nDPI, whatever its protocol; an
/// answer of another source for another protocol stops it.
pub proof fn lemma_keeps_engine(source: Seq<char>, protocol: Seq<char>)
    ensures
        keeps_engine_spec(source, "tls"@),
        keeps_engine_spec(source, "quic"@),
        keeps_engine_spec(source, "http"@),
        keeps_engine_spec("ndpi"@, protocol),
        source != "ndpi"@ && protocol != "tls"@ && protocol != "quic"@ && protocol != "http"@
            ==> !keeps_engine_spec(source, protocol),
{
}

/// Law: after a counted sample that leaves the flow's budget unspent, an
/// answer for TLS, QUIC or HTTP, or any answer from nDPI, lets detection go
/// on; any other answer stops it; a spent budget finishes it whatever the
/// answer.
pub proof fn lemma_engine_action_by_answer(
    b: FlowBudget,
    byte_budget: u32,
    packet_budget: usize,
    source: Seq<char>,
    protocol: Seq<char>,
)
    ensures
        b.exhausted_spec(byte_budget, packet_budget) ==> engine_action_spec(
            b,
            byte_budget,
            packet_budget,
            Some((source, protocol)),
        ) == EngineAction::Finish,
        !b.exhausted_spec(byte_budget, packet_budget) ==> (engine_action_spec(
            b,
            byte_budget,
            packet_budget,
            Some((source, protocol)),
        ) == EngineAction::Continue <==> (source == "ndpi"@ || protocol == "tls"@ || protocol
            == "quic"@ || protocol == "http"@)),
        !b.exhausted_spec(byte_budget, packet_budget) ==> engine_action_spec(
            b,
            byte_budget,
            packet_budget,
            None,
        ) == EngineAction::Continue,
{
}

/// Whether a result may be stored: there is room, or it replaces the
/// flow's own entry.
pub fn cache_admits(len: usize, has_entry: bool) -> (r: bool)
    ensures
        r == (len < CACHE_CAPACITY || has_entry),
{
    len < CACHE_CAPACITY || has_entry
}

/// A cached sample analysis, as far as choosing one goes.
#[derive(Clone, Debug)]
pub struct CachedSample {
    pub gateway: String,
    pub boot: String,
    pub key: FlowSampleKey,
    pub last_packet_ms: u64,
    pub expires_ms: u64,
}

/// Whether a cached analysis answers a telemetry flow of `gateway`/`boot` now.
pub open spec fn cached_answers(
    c: CachedSample,
    gateway: Seq<char>,
    boot: Seq<char>,
    flow: FlowSpan,
    now_ms: u64,
) -> bool {
    &&& c.gateway@ == gateway
    &&& c.boot@ == boot
    &&& c.expires_ms > now_ms
    &&& sample_matches_flow(c.key, c.last_packet_ms, flow)
}

/// The cached analysis that answers a telemetry flow: among those that
/// match, the one whose sampled flow started last (the later on ties).
pub fn best_cached_match(
    results: &Vec<CachedSample>,
    gateway: &str,
    boot: &str,
    flow: &FlowSpan,
    now_ms: u64,
) -> (r: Option<usize>)
    ensures
        match r {
            Some(i) => {
                &&& i < results@.len()
                &&& cached_answers(results@[i as int], gateway@, boot@, *flow, now_ms)
                &&& forall|j: int|
                    0 <= j < results@.len() && #[trigger] cached_answers(
                        results@[j],
                        gateway@,
                        boot@,
                        *flow,
                        now_ms,
                    ) ==> results@[j].key.first_seen_unix_ms <= results@[i as int].key.first_seen_unix_ms
                &&& forall|j: int|
                    i < j < results@.len() && #[trigger] cached_answers(
                        results@[j],
                        gateway@,
                        boot@,
                        *flow,
                        now_ms,
                    ) ==> results@[j].key.first_seen_unix_ms < results@[i as int].key.first_seen_unix_ms
            },
            None => forall|j: int|
                0 <= j < results@.len() ==> !#[trigger] cached_answers(
                    results@[j],
                    gateway@,
                    boot@,
                    *flow,
                    now_ms,
                ),
        },
{
    let mut best: Option<usize> = None;
    let mut k: usize = 0;
    while k < results.len()
        invariant
            k <= results@.len(),
            match best {
                Some(i) => {
                    &&& i < k
                    &&& cached_answers(results@[i as int], gateway@, boot@, *flow, now_ms)
                    &&& forall|j: int|
                        0 <= j < k && #[trigger] cached_answers(
                            results@[j],
                            gateway@,
                            boot@,
                            *flow,
                            now_ms,
                        ) ==> results@[j].key.first_seen_unix_ms
                            <= results@[i as int].key.first_seen_unix_ms
                    &&& forall|j: int|
                        i < j < k && #[trigger] cached_answers(
                            results@[j],
                            gateway@,
                            boot@,
                            *flow,
                            now_ms,
                        ) ==> results@[j].key.first_seen_unix_ms
                            < results@[i as int].key.first_seen_unix_ms
                },
                None => forall|j: int|
                    0 <= j < k ==> !#[trigger] cached_answers(
                        results@[j],
                        gateway@,
                        boot@,
                        *flow,
                        now_ms,
                    ),
            },
        decreases results@.len() - k,
    {
        let c = &results[k];
        let answers = str_eq(c.gateway.as_str(), gateway) && str_eq(c.boot.as_str(), boot)
            && c.expires_ms > now_ms && matches_flow(&c.key, c.last_packet_ms, flow);
        assert(answers == cached_answers(results@[k as int], gateway@, boot@, *flow, now_ms));
        if answers {
            match best {
                Some(i) => {
                    if results[i].key.first_seen_unix_ms <= c.key.first_seen_unix_ms {
                        best = Some(k);
                    }
                },
                None => {
                    best = Some(k);
                },
            }
        }
        k = k + 1;
    }
    best
}

/// Sum of the counts of a size histogram.
pub open spec fn histogram_total(h: Seq<(u32, u64)>) -> nat
    decreases h.len(),
{
    if h.len() == 0 {
        0
    } else {
        histogram_total(h.drop_last()) + h.last().1 as nat
    }
}

/// How many samples the 95th percentile must cover: 95% of the total,
/// rounded up, with the product saturating at `u64::MAX`.
pub open spec fn p95_threshold(total: nat) -> nat {
    let scaled = if total * 95 > u64::MAX {
        u64::MAX as nat
    } else {
        total * 95
    };
    ((scaled + 99) / 100) as nat
}

/// First size whose running count reaches the 95th-percentile threshold; 0
/// for an empty histogram.
pub open spec fn p95_from(h: Seq<(u32, u64)>, k: int, running: nat, threshold: nat) -> u32
    decreases h.len() - k,
{
    if k < 0 || k >= h.len() {
        0
    } else if running + h[k].1 >= threshold {
        h[k].0
    } else {
        p95_from(h, k + 1, running + h[k].1 as nat, threshold)
    }
}

pub proof fn lemma_histogram_total_take(h: Seq<(u32, u64)>, k: int)
    requires
        0 <= k < h.len(),
    ensures
        histogram_total(h.take(k + 1)) == histogram_total(h.take(k)) + h[k].1,
{
    assert(h.take(k + 1).drop_last() =~= h.take(k));
}

pub proof fn lemma_histogram_total_mono(h: Seq<(u32, u64)>, k: int)
    requires
        0 <= k <= h.len(),
    ensures
        histogram_total(h.take(k)) <= histogram_total(h),
    decreases h.len() - k,
{
    if k < h.len() {
        lemma_histogram_total_take(h, k);
        lemma_histogram_total_mono(h, k + 1);
    } else {
        assert(h.take(k) =~= h);
    }
}

/// 95th percentile of sample sizes, from a histogram of (size, count) pairs
/// in increasing size order.
pub fn p95_sample_bytes(histogram: &Vec<(u32, u64)>) -> (r: u32)
    requires
        histogram_total(histogram@) <= u64::MAX,
    ensures
        r == p95_from(histogram@, 0, 0, p95_threshold(histogram_total(histogram@))),
{
    let ghost h = histogram@;
    let mut total: u64 = 0;
    let mut i: usize = 0;
    while i < histogram.len()
        invariant
            i <= h.len(),
            h == histogram@,
            histogram_total(h) <= u64::MAX,
            total == histogram_total(h.take(i as int)),
        decreases h.len() - i,
    {
        proof {
            lemma_histogram_total_take(h, i as int);
            lemma_histogram_total_mono(h, i as int + 1);
        }
        total = total + histogram[i].1;
        i = i + 1;
    }
    assert(h.take(h.len() as int) =~= h);
    let scaled: u64 = if total > u64::MAX / 95 {
        u64::MAX
    } else {
        total * 95
    };
    let threshold: u64 = scaled / 100 + if scaled % 100 != 0 {
        1u64
    } else {
        0u64
    };
    assert(threshold == p95_threshold(total as nat));
    assert(threshold == p95_threshold(histogram_total(h)));
    let mut running: u64 = 0;
    let mut k: usize = 0;
    while k < histogram.len()
        invariant
            k <= h.len(),
            h == histogram@,
            histogram_total(h) <= u64::MAX,
            running == histogram_total(h.take(k as int)),
            threshold == p95_threshold(histogram_total(h)),
            p95_from(h, 0, 0, threshold as nat) == p95_from(h, k as int, running as nat, threshold as nat),
        decreases h.len() - k,
    {
        proof {
            lemma_histogram_total_take(h, k as int);
            lemma_histogram_total_mono(h, k as int + 1);
        }
        running = running + histogram[k].1;
        if running >= threshold {
            return histogram[k].0;
        }
        k = k + 1;
    }
    0
}

/// Increase of a cumulative drop counter since the previous report of the
/// same gateway boot (none: since zero), never negative.
pub fn drop_delta(previous: Option<u64>, current: u64) -> (r: u64)
    ensures
        r == match previous {
            Some(p) => if current >= p { (current - p) as u64 } else { 0 },
            None => current,
        },
{
    match previous {
        Some(p) => current.saturating_sub(p),
        None => current,
    }
}

/// Whether a flow counts as new for the diagnostics (not seen yet, and the
/// store has room) and whether it is (re)remembered.
pub fn note_seen_flow(already_seen: bool, seen_len: usize) -> (r: (bool, bool))
    ensures
        r.0 == (!already_seen && seen_len < SEEN_FLOW_CAPACITY),
        r.1 == (seen_len < SEEN_FLOW_CAPACITY || already_seen),
{
    (!already_seen && seen_len < SEEN_FLOW_CAPACITY, seen_len < SEEN_FLOW_CAPACITY || already_seen)
}

/// The native nDPI engine. This build links no native nDPI library, so the
/// engine reports itself unavailable and starts no flow.
#[derive(Clone, Copy, Debug, Default)]
pub struct NdpiEngine;

impl NdpiEngine {
    pub fn name(&self) -> (r: &'static str)
        ensures
            r@ == "ndpi"@,
    {
        "ndpi"
    }

    /// Starting detection for a flow fails: nDPI was not linked.
    pub fn start(&self, flow: &FlowSampleKey) -> (r: Result<(), String>)
        ensures
            r matches Err(e) && e@ == "nDPI 4.14 was not available at build time"@,
    {
        Err("nDPI 4.14 was not available at build time".to_owned())
    }
}

/// Whether native nDPI was linked into this build: it is not.
pub fn available() -> (r: bool)
    ensures
        !r,
{
    false
}

/// Whether the native DPI engine can run here.
pub fn native_available() -> (r: bool)
    ensures
        r == false,
{
    available()
}

/// How long sampling statistics are kept.
pub const STATS_WINDOW_MS: u64 = 3_600_000;

/// How long one statistics bucket collects.
pub const BUCKET_MS: u64 = 60_000;

/// Sampling counters of one bucket.
#[derive(Clone, Copy, Debug, PartialEq, Eq, Structural)]
pub struct SampleCounts {
    pub samples: u64,
    pub bytes: u64,
    pub identified: u64,
    pub attempted: u64,
    pub drops: u64,
    pub internal_drops: u64,
    pub drop_bytes: u64,
    pub network_bytes: u64,
    pub new_flows: u64,
    pub theoretical_bytes: u64,
}

impl SampleCounts {
    pub fn zero() -> (r: Self)
        ensures
            r == counts_zero(),
    {
        SampleCounts {
            samples: 0,
            bytes: 0,
            identified: 0,
            attempted: 0,
            drops: 0,
            internal_drops: 0,
            drop_bytes: 0,
            network_bytes: 0,
            new_flows: 0,
            theoretical_bytes: 0,
        }
    }

    /// Each counter of `self` plus the same counter of `other`, held at
    /// `u64::MAX`.
    pub fn plus(&self, other: &SampleCounts) -> (r: SampleCounts)
        ensures
            r == counts_plus(*self, *other),
    {
        SampleCounts {
            samples: self.samples.saturating_add(other.samples),
            bytes: self.bytes.saturating_add(other.bytes),
            identified: self.identified.saturating_add(other.identified),
            attempted: self.attempted.saturating_add(other.attempted),
            drops: self.drops.saturating_add(other.drops),
            internal_drops: self.internal_drops.saturating_add(other.internal_drops),
            drop_bytes: self.drop_bytes.saturating_add(other.drop_bytes),
            network_bytes: self.network_bytes.saturating_add(other.network_bytes),
            new_flows: self.new_flows.saturating_add(other.new_flows),
            theoretical_bytes: self.theoretical_bytes.saturating_add(other.theoretical_bytes),
        }
    }
}

pub open spec fn counts_zero() -> SampleCounts {
    SampleCounts {
        samples: 0,
        bytes: 0,
        identified: 0,
        attempted: 0,
        drops: 0,
        internal_drops: 0,
        drop_bytes: 0,
        network_bytes: 0,
        new_flows: 0,
        theoretical_bytes: 0,
    }
}

pub open spec fn sadd(a: u64, b: u64) -> u64 {
    if a + b > u64::MAX {
        u64::MAX
    } else {
        (a + b) as u64
    }
}

pub open spec fn counts_plus(a: SampleCounts, b: SampleCounts) -> SampleCounts {
    SampleCounts {
        samples: sadd(a.samples, b.samples),
        bytes: sadd(a.bytes, b.bytes),
        identified: sadd(a.identified, b.identified),
        attempted: sadd(a.attempted, b.attempted),
        drops: sadd(a.drops, b.drops),
        internal_drops: sadd(a.internal_drops, b.internal_drops),
        drop_bytes: sadd(a.drop_bytes, b.drop_bytes),
        network_bytes: sadd(a.network_bytes, b.network_bytes),
        new_flows: sadd(a.new_flows, b.new_flows),
        theoretical_bytes: sadd(a.theoretical_bytes, b.theoretical_bytes),
    }
}

/// The first bucket, from `i` on, that started less than the window before
/// `now` (its age counted as 0 when it starts later).
pub open spec fn first_recent(b: Seq<(u64, SampleCounts)>, now: u64, i: int) -> int
    decreases b.len() - i,
{
    if i < 0 || i >= b.len() || !(now >= b[i].0 && now - b[i].0 >= STATS_WINDOW_MS) {
        i
    } else {
        first_recent(b, now, i + 1)
    }
}

/// The buckets at `now`: the oldest dropped while they fell out of the
/// window, and a fresh one opened when there is none or the newest is a
/// minute old.
pub open spec fn rolled(b: Seq<(u64, SampleCounts)>, now: u64) -> Seq<(u64, SampleCounts)> {
    let kept = b.skip(first_recent(b, now, 0));
    if kept.len() == 0 || (now >= kept.last().0 && now - kept.last().0 >= BUCKET_MS) {
        kept.push((now, counts_zero()))
    } else {
        kept
    }
}

/// The counters of all buckets together.
pub open spec fn counts_total(b: Seq<(u64, SampleCounts)>) -> SampleCounts
    decreases b.len(),
{
    if b.len() == 0 {
        counts_zero()
    } else {
        counts_plus(counts_total(b.drop_last()), b.last().1)
    }
}

/// Sampling statistics of the last hour, a bucket per minute, oldest first.
pub struct SampleWindow {
    buckets: Vec<(u64, SampleCounts)>,
}

impl SampleWindow {
    pub closed spec fn view(&self) -> Seq<(u64, SampleCounts)> {
        self.buckets@
    }

    pub fn new() -> (r: Self)
        ensures
            r.view().len() == 0,
    {
        SampleWindow { buckets: Vec::new() }
    }

    /// Rolls the window to `now`; afterwards the newest bucket is the one
    /// that collects.
    pub fn roll(&mut self, now: u64)
        ensures
            final(self).view() == rolled(old(self).view(), now),
            final(self).view().len() > 0,
    {
        let ghost b = self.buckets@;
        let mut start: usize = 0;
        while start < self.buckets.len() && now >= self.buckets[start].0 && now
            - self.buckets[start].0 >= STATS_WINDOW_MS
            invariant
                start <= self.buckets@.len(),
                b == self.buckets@,
                first_recent(b, now, 0) == first_recent(b, now, start as int),
            decreases self.buckets@.len() - start,
        {
            start = start + 1;
        }
        let mut kept: Vec<(u64, SampleCounts)> = Vec::new();
        let mut i = start;
        while i < self.buckets.len()
            invariant
                start <= i <= self.buckets@.len(),
                b == self.buckets@,
                kept@ == b.subrange(start as int, i as int),
            decreases self.buckets@.len() - i,
        {
            kept.push(self.buckets[i]);
            i = i + 1;
            assert(kept@ =~= b.subrange(start as int, i as int));
        }
        assert(kept@ =~= b.skip(start as int));
        let n = kept.len();
        let fresh = n == 0 || (now >= kept[n - 1].0 && now - kept[n - 1].0 >= BUCKET_MS);
        if fresh {
            kept.push((now, SampleCounts::zero()));
        }
        self.buckets = kept;
    }

    /// Adds counters to the bucket collecting at `now`.
    pub fn record(&mut self, now: u64, delta: &SampleCounts)
        ensures
            ({
                let r = rolled(old(self).view(), now);
                final(self).view() == r.update(
                    r.len() - 1,
                    (r.last().0, counts_plus(r.last().1, *delta)),
                )
            }),
    {
        self.roll(now);
        let last = self.buckets.len() - 1;
        let (at, counts) = self.buckets[last];
        self.buckets.set(last, (at, counts.plus(delta)));
    }

    /// The counters of the window at `now`, after rolling it.
    pub fn totals(&mut self, now: u64) -> (r: SampleCounts)
        ensures
            final(self).view() == rolled(old(self).view(), now),
            r == counts_total(final(self).view()),
    {
        self.roll(now);
        let mut total = SampleCounts::zero();
        let mut i: usize = 0;
        while i < self.buckets.len()
            invariant
                i <= self.buckets@.len(),
                total == counts_total(self.buckets@.take(i as int)),
            decreases self.buckets@.len() - i,
        {
            proof {
                assert(self.buckets@.take(i as int + 1).drop_last() =~= self.buckets@.take(i as int));
            }
            total = total.plus(&self.buckets[i].1);
            i = i + 1;
        }
        assert(self.buckets@.take(i as int) =~= self.buckets@);
        total
    }
}


/// A flow's budget after a sample is counted against it.
pub open spec fn absorbed_budget(b: FlowBudget, sample_bytes: u32, directions: Seq<u32>, times: Seq<u64>) -> FlowBudget {
    FlowBudget {
        bytes: (b.bytes + sample_bytes) as u32,
        upload_packets: (b.upload_packets + (directions.len() - download_count(directions))) as usize,
        download_packets: (b.download_packets + download_count(directions)) as usize,
        last_packet_ms: if latest_time(times) > b.last_packet_ms {
            latest_time(times)
        } else {
            b.last_packet_ms
        },
    }
}

/// What the sampling worker does with a sample: drop it because the flow
/// table is full, drop it because it is for another flow or over the
/// flow's budget, or count it; `started` tells that the flow was new and
/// detection was started for it.
#[derive(Clone, Copy, Debug, PartialEq, Eq)]
pub enum SampleAdmission {
    DropNoRoom,
    DropOverBudget { started: bool },
    Absorbed { started: bool },
}

pub open spec fn empty_budget() -> FlowBudget {
    FlowBudget { bytes: 0, upload_packets: 0, download_packets: 0, last_packet_ms: 0 }
}

/// The worker's first step for a sample: with the flow's budget (none when
/// the flow is not tracked) and the number of tracked flows, the flow's
/// budget afterwards (none when it stays untracked) and what became of the
/// sample. A new flow is tracked only while the table has room.
pub open spec fn admission_spec(
    entry: Option<FlowBudget>,
    table_len: int,
    same_key: bool,
    sample_bytes: u32,
    directions: Seq<u32>,
    times: Seq<u64>,
    limits: SampleLimits,
) -> (Option<FlowBudget>, SampleAdmission) {
    if entry is None && table_len >= CACHE_CAPACITY {
        (None, SampleAdmission::DropNoRoom)
    } else {
        let started = entry is None;
        let b = match entry {
            Some(b) => b,
            None => empty_budget(),
        };
        if sample_fits(b, same_key, sample_bytes, directions, limits) {
            (Some(absorbed_budget(b, sample_bytes, directions, times)), SampleAdmission::Absorbed { started })
        } else {
            (Some(b), SampleAdmission::DropOverBudget { started })
        }
    }
}

/// Takes a sample in, as `admission_spec` describes.
pub fn admit_sample(
    entry: Option<FlowBudget>,
    table_len: usize,
    same_key: bool,
    sample_bytes: u32,
    directions: &[u32],
    times: &[u64],
    limits: SampleLimits,
) -> (r: (Option<FlowBudget>, SampleAdmission))
    requires
        entry matches Some(b) ==> b.within(limits),
    ensures
        r == admission_spec(entry, table_len as int, same_key, sample_bytes, directions@, times@, limits),
{
    if entry.is_none() && table_len >= CACHE_CAPACITY {
        return (None, SampleAdmission::DropNoRoom);
    }
    let started = entry.is_none();
    let mut b = match entry {
        Some(b) => b,
        None => FlowBudget::new(),
    };
    let ghost b0 = b;
    let taken = b.absorb(same_key, sample_bytes, directions, times, limits);
    if taken {
        assert(b == absorbed_budget(b0, sample_bytes, directions@, times@));
        (Some(b), SampleAdmission::Absorbed { started })
    } else {
        (Some(b), SampleAdmission::DropOverBudget { started })
    }
}

/// What happens to a flow's detection after a counted sample.
#[derive(Clone, Copy, Debug, PartialEq, Eq)]
pub enum EngineAction {
    /// The budget is spent: detection gives its final result and stops.
    Finish,
    /// A result came that teaches nothing more: detection stops.
    Stop,
    /// Detection goes on with the next sample.
    Continue,
}

/// The worker's second step, once detection has seen the sample: finish a
/// flow whose budget is spent; else stop detection after a result (source,
/// protocol) that keeps no engine; else go on.
pub open spec fn engine_action_spec(
    b: FlowBudget,
    byte_budget: u32,
    packet_budget: usize,
    result: Option<(Seq<char>, Seq<char>)>,
) -> EngineAction {
    if b.exhausted_spec(byte_budget, packet_budget) {
        EngineAction::Finish
    } else {
        match result {
            Some((source, protocol)) => if keeps_engine_spec(source, protocol) {
                EngineAction::Continue
            } else {
                EngineAction::Stop
            },
            None => EngineAction::Continue,
        }
    }
}

/// Decides a flow's detection after a counted sample, as
/// `engine_action_spec` describes.
pub fn engine_action(
    b: &FlowBudget,
    byte_budget: u32,
    packet_budget: usize,
    result: Option<(&str, &str)>,
) -> (r: EngineAction)
    ensures
        r == engine_action_spec(
            *b,
            byte_budget,
            packet_budget,
            match result {
                Some((s, p)) => Some((s@, p@)),
                None => None,
            },
        ),
{
    if b.exhausted(byte_budget, packet_budget) {
        return EngineAction::Finish;
    }
    match result {
        Some((source, protocol)) => if keeps_engine(source, protocol) {
            EngineAction::Continue
        } else {
            EngineAction::Stop
        },
        None => EngineAction::Continue,
    }
}

/// What detection named a flow: the source of the answer and the protocol.
pub struct DetectedProtocol {
    pub source: String,
    pub protocol: String,
}

pub open spec fn detected_view(r: Option<DetectedProtocol>) -> Option<(Seq<char>, Seq<char>)> {
    match r {
        Some(p) => Some((p.source@, p.protocol@)),
        None => None,
    }
}

/// A tracked flow's detection: whether its engine still runs, the latest
/// answer, and whether signatures matched one of its samples.
pub struct FlowDetection {
    pub running: bool,
    pub result: Option<DetectedProtocol>,
    pub signatures: bool,
}

/// The worker's step once a counted sample went through detection:
/// `classified` is what the running engine answered for it (ignored when
/// the engine no longer runs) and `signatures_found` whether signature
/// matching, tried while none had matched, found one. The answer replaces
/// the earlier one; then the flow's budget and answer decide, as
/// `engine_action_spec` does, whether detection goes on, stops, or is to
/// be finished (the engine keeps running until `finish_detection`). An
/// answer, once there, is never lost, and a stopped engine never restarts.
pub fn classify_detection(
    d: &mut FlowDetection,
    classified: Option<DetectedProtocol>,
    signatures_found: bool,
    b: &FlowBudget,
    byte_budget: u32,
    packet_budget: usize,
) -> (action: EngineAction)
    ensures
        detected_view(final(d).result) == if old(d).running && classified is Some {
            detected_view(classified)
        } else {
            detected_view(old(d).result)
        },
        final(d).signatures == (old(d).signatures || signatures_found),
        action == engine_action_spec(*b, byte_budget, packet_budget, detected_view(final(d).result)),
        final(d).running == (old(d).running && action != EngineAction::Stop),
        old(d).result is Some ==> final(d).result is Some,
        !old(d).running ==> !final(d).running,
{
    if d.running {
        match classified {
            Some(c) => {
                d.result = Some(c);
            },
            None => {},
        }
    }
    if !d.signatures {
        d.signatures = signatures_found;
    }
    let action = match &d.result {
        Some(r) => engine_action(b, byte_budget, packet_budget, Some((r.source.as_str(), r.protocol.as_str()))),
        None => engine_action(b, byte_budget, packet_budget, None),
    };
    match action {
        EngineAction::Stop => {
            d.running = false;
        },
        _ => {},
    }
    action
}

/// Ends a flow's detection after `EngineAction::Finish`: `finished` is the
/// engine's final answer, which replaces the earlier one when the engine
/// was running and gave one.
pub fn finish_detection(d: &mut FlowDetection, finished: Option<DetectedProtocol>)
    ensures
        !final(d).running,
        detected_view(final(d).result) == if old(d).running && finished is Some {
            detected_view(finished)
        } else {
            detected_view(old(d).result)
        },
        final(d).signatures == old(d).signatures,
        old(d).result is Some ==> final(d).result is Some,
{
    if d.running {
        match finished {
            Some(f) => {
                d.result = Some(f);
            },
            None => {},
        }
    }
    d.running = false;
}

/// What the worker reports after a flow's sample: whether the flow was
/// identified just now (it had no answer before the sample, `had_result`,
/// and has one now), and whether its analysis is published to the cache
/// (it has an answer or matched signatures).
pub fn detection_report(had_result: bool, d: &FlowDetection) -> (r: (bool, bool))
    ensures
        r.0 == (!had_result && d.result is Some),
        r.1 == (d.result is Some || d.signatures),
{
    (!had_result && d.result.is_some(), d.result.is_some() || d.signatures)
}

/// Law: a tracked flow's budget stays within the collector's limits
/// whatever samples arrive.
pub proof fn lemma_admission_keeps_budget(
    entry: Option<FlowBudget>,
    table_len: int,
    same_key: bool,
    sample_bytes: u32,
    directions: Seq<u32>,
    times: Seq<u64>,
    limits: SampleLimits,
)
    requires
        entry matches Some(b) ==> b.within(limits),
    ensures
        admission_spec(entry, table_len, same_key, sample_bytes, directions, times, limits).0 matches Some(b)
            ==> b.within(limits),
{
    lemma_download_count_bound(directions);
}


/// Whether a submitted sample batch reaches the worker: never while
/// sampling is disabled (the queue is then not tried and no detection
/// starts), else when the queue took it (`queued`).
pub fn submission_enqueued(enabled: bool, queued: bool) -> (r: bool)
    ensures
        r == (enabled && queued),
{
    enabled && queued
}

/// The per-flow byte budget a gateway's sample configuration grants, as
/// (enabled, bytes per flow); none without a configuration or while it is
/// disabled.
pub fn configured_flow_budget(config: Option<(bool, u32)>) -> (r: u64)
    ensures
        r == match config {
            Some((true, b)) => b as u64,
            _ => 0,
        },
{
    match config {
        Some((true, b)) => b as u64,
        _ => 0,
    }
}

} // verus!
