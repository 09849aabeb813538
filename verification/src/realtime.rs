//! Live throughput view: one-second rates per scope, client and
//! application, the set of active flows, a bounded rate history, and the
//! events a telemetry batch publishes.

use vstd::prelude::*;

use crate::insights_model::{format_mac, format_mac_spec};
use crate::text::{chars_of, decimal, opt_string_view, push_decimal, push_str, str_eq, string_from_chars};

verus! {

/// Interval assumed when there is no earlier update to measure from.
pub const DEFAULT_INTERVAL_MS: u64 = 1_000;

/// Rate history kept: fifteen minutes of one-second points.
pub const MAX_HISTORY_POINTS: usize = 900;

/// Most active flows kept.
pub const MAX_ACTIVE_FLOWS: usize = 10_000;

/// Upload and download rates, in bytes per second.
#[derive(Clone, Copy, Debug, PartialEq, Eq, Structural)]
pub struct Throughput {
    pub upload_bytes_per_second: u64,
    pub download_bytes_per_second: u64,
}

impl Default for Throughput {
    fn default() -> (t: Self)
        ensures
            t.upload_bytes_per_second == 0 && t.download_bytes_per_second == 0,
    {
        Throughput { upload_bytes_per_second: 0, download_bytes_per_second: 0 }
    }
}

/// One point of the rate history.
#[derive(Clone, Copy, Debug, PartialEq, Eq, Structural)]
pub struct ThroughputPoint {
    pub timestamp: u64,
    pub upload_bytes_per_second: u64,
    pub download_bytes_per_second: u64,
}

/// Rates of one client, split by flow scope.
#[derive(Clone, Copy, Debug, PartialEq, Eq, Structural)]
pub struct ScopedThroughput {
    pub internet: Throughput,
    pub internal: Throughput,
    pub tunnel: Throughput,
    pub unknown: Throughput,
}

/// Where a flow's traffic goes.
#[derive(Clone, Copy, Debug, PartialEq, Eq, Structural)]
pub enum FlowScope {
    Internet,
    Internal,
    Tunnel,
    Unknown,
}

/// Where a flow stands in its life.
#[derive(Clone, Copy, Debug, PartialEq, Eq, Structural)]
pub enum FlowLifecycle {
    Unspecified,
    Active,
    Idle,
    Ended,
}

/// How a flow crosses the gateway.
#[derive(Clone, Copy, Debug, PartialEq, Eq, Structural)]
pub enum PathType {
    Unknown,
    Forwarded,
    Internal,
    Tunnel,
}

/// Address translation applied to a flow.
#[derive(Clone, Copy, Debug, PartialEq, Eq, Structural)]
pub enum NatType {
    Unknown,
    NoTranslation,
    Snat,
    Dnat,
    Both,
}

impl FlowScope {
    pub open spec fn name(self) -> Seq<char> {
        match self {
            FlowScope::Internet => "internet"@,
            FlowScope::Internal => "internal"@,
            FlowScope::Tunnel => "tunnel"@,
            FlowScope::Unknown => "unknown"@,
        }
    }

    pub fn as_str(self) -> (r: &'static str)
        ensures
            r@ == self.name(),
    {
        match self {
            FlowScope::Internet => "internet",
            FlowScope::Internal => "internal",
            FlowScope::Tunnel => "tunnel",
            FlowScope::Unknown => "unknown",
        }
    }
}

impl FlowLifecycle {
    pub open spec fn name(self) -> Seq<char> {
        match self {
            FlowLifecycle::Active => "active"@,
            FlowLifecycle::Idle => "idle"@,
            FlowLifecycle::Ended => "ended"@,
            FlowLifecycle::Unspecified => "unspecified"@,
        }
    }

    pub fn as_str(self) -> (r: &'static str)
        ensures
            r@ == self.name(),
    {
        match self {
            FlowLifecycle::Active => "active",
            FlowLifecycle::Idle => "idle",
            FlowLifecycle::Ended => "ended",
            FlowLifecycle::Unspecified => "unspecified",
        }
    }
}

impl PathType {
    pub open spec fn name(self) -> Seq<char> {
        match self {
            PathType::Forwarded => "forwarded"@,
            PathType::Internal => "internal"@,
            PathType::Tunnel => "tunnel"@,
            PathType::Unknown => "unknown"@,
        }
    }

    pub fn as_str(self) -> (r: &'static str)
        ensures
            r@ == self.name(),
    {
        match self {
            PathType::Forwarded => "forwarded",
            PathType::Internal => "internal",
            PathType::Tunnel => "tunnel",
            PathType::Unknown => "unknown",
        }
    }
}

impl NatType {
    pub open spec fn name(self) -> Seq<char> {
        match self {
            NatType::NoTranslation => "none"@,
            NatType::Snat => "snat"@,
            NatType::Dnat => "dnat"@,
            NatType::Both => "both"@,
            NatType::Unknown => "unknown"@,
        }
    }

    pub fn as_str(self) -> (r: &'static str)
        ensures
            r@ == self.name(),
    {
        match self {
            NatType::NoTranslation => "none",
            NatType::Snat => "snat",
            NatType::Dnat => "dnat",
            NatType::Both => "both",
            NatType::Unknown => "unknown",
        }
    }
}

/// `bytes` per `interval_ms` as bytes per second, the product saturating
/// at `u64::MAX` before the division.
pub open spec fn rate_spec(bytes: u64, interval_ms: u64) -> int {
    (if bytes * 1000 > u64::MAX {
        u64::MAX as int
    } else {
        bytes * 1000
    }) / interval_ms as int
}

/// Bytes per second over an interval.
pub fn rate(bytes: u64, interval_ms: u64) -> (r: u64)
    requires
        interval_ms > 0,
    ensures
        r == rate_spec(bytes, interval_ms),
{
    let scaled = if bytes > u64::MAX / 1000 {
        u64::MAX
    } else {
        bytes * 1000
    };
    scaled / interval_ms
}

/// `a + b`, saturating at `u64::MAX`.
pub open spec fn sat_add(a: int, b: int) -> int {
    if a + b > u64::MAX {
        u64::MAX as int
    } else {
        a + b
    }
}

/// Adds rates, each direction saturating.
pub fn add_rate(throughput: &mut Throughput, upload: u64, download: u64)
    ensures
        final(throughput).upload_bytes_per_second == sat_add(
            old(throughput).upload_bytes_per_second as int,
            upload as int,
        ),
        final(throughput).download_bytes_per_second == sat_add(
            old(throughput).download_bytes_per_second as int,
            download as int,
        ),
{
    throughput.upload_bytes_per_second = throughput.upload_bytes_per_second.saturating_add(upload);
    throughput.download_bytes_per_second = throughput.download_bytes_per_second.saturating_add(
        download,
    );
}

/// The interval an update covers: the time since the previous update, or
/// one second when there is none or the clock did not advance.
pub open spec fn interval_spec(previous: Option<u64>, observed_at: u64) -> u64 {
    match previous {
        Some(p) => if observed_at > p {
            (observed_at - p) as u64
        } else {
            DEFAULT_INTERVAL_MS
        },
        None => DEFAULT_INTERVAL_MS,
    }
}

pub fn update_interval(previous: Option<u64>, observed_at: u64) -> (r: u64)
    ensures
        r == interval_spec(previous, observed_at),
        r > 0,
{
    match previous {
        Some(p) => if observed_at > p {
            observed_at - p
        } else {
            DEFAULT_INTERVAL_MS
        },
        None => DEFAULT_INTERVAL_MS,
    }
}

/// A flow as a telemetry batch reports it, with its addresses already in
/// text form.
#[derive(Clone, Debug)]
pub struct RealtimeFlow {
    pub client_ip: String,
    pub client_port: u32,
    pub remote_ip: String,
    pub remote_port: u32,
    pub protocol: u32,
    pub direction: i32,
    pub client_mac: Vec<u8>,
    pub upload_bytes: u64,
    pub download_bytes: u64,
    pub packets: u64,
    pub last_seen_unix_ms: u64,
    pub lifecycle: FlowLifecycle,
    pub scope: FlowScope,
    pub path_type: PathType,
    pub nat: NatType,
    pub source_segment: String,
    pub destination_segment: String,
}

/// What attribution decided for a flow. The confidence is carried as the
/// bits of its `f64` value.
#[derive(Clone, Debug)]
pub struct FlowAttribution {
    pub application_id: String,
    pub category_id: String,
    pub domain: Option<String>,
    pub confidence_bits: u64,
}

impl FlowAttribution {
    /// Attribution of a flow nothing was learned about.
    pub fn unknown() -> (a: Self)
        ensures
            a.application_id@ == "unknown"@,
            a.category_id@ == "unknown"@,
            a.domain is None,
            a.confidence_bits == 0,
    {
        FlowAttribution {
            application_id: "unknown".to_owned(),
            category_id: "unknown".to_owned(),
            domain: None,
            confidence_bits: 0,
        }
    }
}

/// Decimal text of a signed number.
pub open spec fn signed_decimal(n: i32) -> Seq<char> {
    if n < 0 {
        seq!['-'] + decimal((-n) as nat)
    } else {
        decimal(n as nat)
    }
}

fn push_signed_decimal(out: &mut Vec<char>, n: i32)
    ensures
        final(out)@ == old(out)@ + signed_decimal(n),
{
    if n < 0 {
        out.push('-');
        let magnitude: u64 = (0i64 - n as i64) as u64;
        let ghost mid = out@;
        push_decimal(out, magnitude);
        assert(out@ =~= old(out)@ + signed_decimal(n));
    } else {
        push_decimal(out, n as u64);
    }
}

/// Identity of a flow in the active set:
/// `client:port-remote:port-protocol-direction`.
pub open spec fn flow_id_spec(f: RealtimeFlow) -> Seq<char> {
    f.client_ip@ + seq![':'] + decimal(f.client_port as nat) + seq!['-'] + f.remote_ip@ + seq![':']
        + decimal(f.remote_port as nat) + seq!['-'] + decimal(f.protocol as nat) + seq!['-']
        + signed_decimal(f.direction)
}

pub fn flow_id(flow: &RealtimeFlow) -> (r: String)
    ensures
        r@ == flow_id_spec(*flow),
{
    let mut out: Vec<char> = Vec::new();
    push_str(&mut out, flow.client_ip.as_str());
    out.push(':');
    push_decimal(&mut out, flow.client_port as u64);
    out.push('-');
    push_str(&mut out, flow.remote_ip.as_str());
    out.push(':');
    push_decimal(&mut out, flow.remote_port as u64);
    out.push('-');
    push_decimal(&mut out, flow.protocol as u64);
    out.push('-');
    push_signed_decimal(&mut out, flow.direction);
    assert(out@ =~= flow_id_spec(*flow));
    string_from_chars(out.as_slice())
}

/// Identity of a flow's client: its hardware address when it has one,
/// else its address.
pub open spec fn client_id_spec(f: RealtimeFlow) -> Seq<char> {
    if f.client_mac@.len() == 6 {
        format_mac_spec(f.client_mac@)
    } else {
        f.client_ip@
    }
}

pub fn client_id(flow: &RealtimeFlow) -> (r: String)
    ensures
        r@ == client_id_spec(*flow),
{
    if flow.client_mac.len() == 6 {
        format_mac(flow.client_mac.as_slice())
    } else {
        flow.client_ip.clone()
    }
}

/// `x`, capped at `u64::MAX`.
pub open spec fn capped(x: int) -> int {
    if x > u64::MAX {
        u64::MAX as int
    } else {
        x
    }
}

/// Sum of `vals[i]` over the first `k` indices whose key is `key`.
pub open spec fn keyed_sum(keys: Seq<Seq<char>>, vals: Seq<int>, key: Seq<char>, k: int) -> int
    decreases k,
{
    if k <= 0 {
        0
    } else {
        keyed_sum(keys, vals, key, k - 1) + if keys[k - 1] == key {
            vals[k - 1]
        } else {
            0
        }
    }
}

/// Upload (or download) rate of each flow.
pub open spec fn flow_rates(flows: Seq<RealtimeFlow>, interval: u64, upload: bool) -> Seq<int> {
    Seq::new(
        flows.len(),
        |i: int|
            if upload {
                rate_spec(flows[i].upload_bytes, interval)
            } else {
                rate_spec(flows[i].download_bytes, interval)
            },
    )
}

/// The rates of the flows in one scope, zero for the others.
pub open spec fn in_scope(vals: Seq<int>, flows: Seq<RealtimeFlow>, scope: FlowScope) -> Seq<int> {
    Seq::new(vals.len(), |i: int| if flows[i].scope == scope { vals[i] } else { 0 })
}

/// The same key for every flow: keyed sums over it are plain sums.
pub open spec fn one_key(n: nat) -> Seq<Seq<char>> {
    Seq::new(n, |i: int| Seq::<char>::empty())
}

/// Client identity of each flow.
pub open spec fn client_keys(flows: Seq<RealtimeFlow>) -> Seq<Seq<char>> {
    Seq::new(flows.len(), |i: int| client_id_spec(flows[i]))
}

/// Application of each flow: its attribution's, or `unknown` for a flow
/// without one.
pub open spec fn application_keys(flows: Seq<RealtimeFlow>, attributions: Seq<FlowAttribution>) -> Seq<Seq<char>> {
    Seq::new(
        flows.len(),
        |i: int|
            if i < attributions.len() {
                attributions[i].application_id@
            } else {
                "unknown"@
            },
    )
}

/// Rates summed over the flows that carry `key`, each direction capped.
pub open spec fn keyed_throughput(
    keys: Seq<Seq<char>>,
    ups: Seq<int>,
    downs: Seq<int>,
    key: Seq<char>,
    k: int,
) -> Throughput {
    Throughput {
        upload_bytes_per_second: capped(keyed_sum(keys, ups, key, k)) as u64,
        download_bytes_per_second: capped(keyed_sum(keys, downs, key, k)) as u64,
    }
}

pub open spec fn entries_view(v: Seq<(String, Throughput)>) -> Seq<(Seq<char>, Throughput)> {
    v.map_values(|e: (String, Throughput)| (e.0@, e.1))
}

pub open spec fn scoped_view(v: Seq<(String, ScopedThroughput)>) -> Seq<(Seq<char>, ScopedThroughput)> {
    v.map_values(|e: (String, ScopedThroughput)| (e.0@, e.1))
}

/// Keys of `e` are distinct, each carries its keyed rates over the first
/// `k` flows, and the keys are exactly those of the first `k` flows.
pub open spec fn aggregated(
    e: Seq<(Seq<char>, Throughput)>,
    keys: Seq<Seq<char>>,
    ups: Seq<int>,
    downs: Seq<int>,
    k: int,
) -> bool {
    &&& forall|a: int, b: int| #![trigger e[a], e[b]] 0 <= a < b < e.len() ==> e[a].0 != e[b].0
    &&& forall|j: int|
        0 <= j < e.len() ==> #[trigger] e[j].1 == keyed_throughput(keys, ups, downs, e[j].0, k)
    &&& forall|i: int|
        #![trigger keys[i]]
        0 <= i < k ==> exists|j: int| 0 <= j < e.len() && #[trigger] e[j].0 == keys[i]
    &&& forall|j: int| 0 <= j < e.len() ==> exists|i: int| 0 <= i < k && keys[i] == #[trigger] e[j].0
}

pub proof fn lemma_keyed_sum_absent(keys: Seq<Seq<char>>, vals: Seq<int>, key: Seq<char>, k: int)
    requires
        forall|i: int| 0 <= i < k ==> keys[i] != key,
    ensures
        keyed_sum(keys, vals, key, k) == 0,
    decreases k,
{
    if k > 0 {
        lemma_keyed_sum_absent(keys, vals, key, k - 1);
    }
}

pub proof fn lemma_keyed_sum_nonneg(keys: Seq<Seq<char>>, vals: Seq<int>, key: Seq<char>, k: int)
    requires
        forall|i: int| 0 <= i < k ==> vals[i] >= 0,
    ensures
        keyed_sum(keys, vals, key, k) >= 0,
    decreases k,
{
    if k > 0 {
        lemma_keyed_sum_nonneg(keys, vals, key, k - 1);
    }
}

pub proof fn lemma_capped_step(a: int, v: int)
    requires
        a >= 0,
        0 <= v <= u64::MAX,
    ensures
        sat_add(capped(a), v) == capped(a + v),
{
}

/// Adds a flow's rates to its key's entry, creating the entry on first
/// sight. Returns the entry's index.
fn bump(entries: &mut Vec<(String, Throughput)>, key: &String, up: u64, down: u64) -> (idx: usize)
    ensures
        idx <= old(entries)@.len(),
        idx < old(entries)@.len() ==> {
            &&& old(entries)@[idx as int].0@ == key@
            &&& entries_view(final(entries)@) == entries_view(old(entries)@).update(
                idx as int,
                (
                    key@,
                    Throughput {
                        upload_bytes_per_second: sat_add(
                            old(entries)@[idx as int].1.upload_bytes_per_second as int,
                            up as int,
                        ) as u64,
                        download_bytes_per_second: sat_add(
                            old(entries)@[idx as int].1.download_bytes_per_second as int,
                            down as int,
                        ) as u64,
                    },
                ),
            )
        },
        idx == old(entries)@.len() ==> {
            &&& forall|j: int| 0 <= j < old(entries)@.len() ==> old(entries)@[j].0@ != key@
            &&& entries_view(final(entries)@) == entries_view(old(entries)@).push(
                (key@, Throughput { upload_bytes_per_second: up, download_bytes_per_second: down }),
            )
        },
{
    let mut i: usize = 0;
    while i < entries.len()
        invariant
            i <= entries@.len(),
            entries@ == old(entries)@,
            forall|j: int| 0 <= j < i ==> entries@[j].0@ != key@,
        decreases entries@.len() - i,
    {
        if entries[i].0 == *key {
            let ghost before = entries@;
            let mut t = entries[i].1;
            add_rate(&mut t, up, down);
            let name = entries[i].0.clone();
            entries.set(i, (name, t));
            assert(entries_view(entries@) =~= entries_view(before).update(i as int, (key@, t)));
            return i;
        }
        i = i + 1;
    }
    let ghost before = entries@;
    entries.push((key.clone(), Throughput { upload_bytes_per_second: up, download_bytes_per_second: down }));
    assert(entries_view(entries@) =~= entries_view(before).push(
        (key@, Throughput { upload_bytes_per_second: up, download_bytes_per_second: down }),
    ));
    i
}

/// One more flow keeps an aggregate exact.
#[verifier::rlimit(40)]
#[verifier::spinoff_prover]
pub proof fn lemma_aggregate_step(
    e: Seq<(Seq<char>, Throughput)>,
    e2: Seq<(Seq<char>, Throughput)>,
    keys: Seq<Seq<char>>,
    ups: Seq<int>,
    downs: Seq<int>,
    k: int,
    idx: int,
)
    requires
        0 <= k < keys.len() == ups.len() == downs.len(),
        forall|i: int| 0 <= i < keys.len() ==> 0 <= #[trigger] ups[i] <= u64::MAX,
        forall|i: int| 0 <= i < keys.len() ==> 0 <= #[trigger] downs[i] <= u64::MAX,
        aggregated(e, keys, ups, downs, k),
        0 <= idx <= e.len(),
        idx < e.len() ==> {
            &&& e[idx].0 == keys[k]
            &&& e2 == e.update(
                idx,
                (
                    keys[k],
                    Throughput {
                        upload_bytes_per_second: sat_add(
                            e[idx].1.upload_bytes_per_second as int,
                            ups[k],
                        ) as u64,
                        download_bytes_per_second: sat_add(
                            e[idx].1.download_bytes_per_second as int,
                            downs[k],
                        ) as u64,
                    },
                ),
            )
        },
        idx == e.len() ==> {
            &&& forall|j: int| 0 <= j < e.len() ==> e[j].0 != keys[k]
            &&& e2 == e.push(
                (
                    keys[k],
                    Throughput {
                        upload_bytes_per_second: ups[k] as u64,
                        download_bytes_per_second: downs[k] as u64,
                    },
                ),
            )
        },
    ensures
        aggregated(e2, keys, ups, downs, k + 1),
{
    let key = keys[k];
    assert forall|j: int| 0 <= j < e2.len() implies #[trigger] e2[j].1 == keyed_throughput(
        keys,
        ups,
        downs,
        e2[j].0,
        k + 1,
    ) by {
        lemma_keyed_sum_nonneg(keys, ups, e2[j].0, k);
        lemma_keyed_sum_nonneg(keys, downs, e2[j].0, k);
        if j == idx {
            if idx < e.len() {
                assert(e[j].1 == keyed_throughput(keys, ups, downs, e[j].0, k));
                lemma_capped_step(keyed_sum(keys, ups, key, k), ups[k]);
                lemma_capped_step(keyed_sum(keys, downs, key, k), downs[k]);
            } else {
                assert forall|i: int| 0 <= i < k implies keys[i] != key by {
                    if keys[i] == key {
                        let jj = choose|jj: int| 0 <= jj < e.len() && #[trigger] e[jj].0 == keys[i];
                        assert(e[jj].0 != keys[k]);
                    }
                }
                lemma_keyed_sum_absent(keys, ups, key, k);
                lemma_keyed_sum_absent(keys, downs, key, k);
            }
        } else {
            assert(e2[j] == e[j]);
            assert(e[j].1 == keyed_throughput(keys, ups, downs, e[j].0, k));
            if idx < e.len() {
                assert(e[j].0 != e[idx].0);
            }
        }
    }
    assert forall|a: int, b: int| #![trigger e2[a], e2[b]] 0 <= a < b < e2.len() implies e2[a].0
        != e2[b].0 by {
        if b == idx && idx == e.len() {
            assert(e[a].0 != keys[k]);
        } else if a == idx || b == idx {
            assert(e[a].0 != e[b].0);
        } else {
            assert(e[a].0 != e[b].0);
        }
    }
    assert forall|i: int| #![trigger keys[i]] 0 <= i < k + 1 implies exists|j: int|
        0 <= j < e2.len() && #[trigger] e2[j].0 == keys[i] by {
        if i == k {
            assert(e2[idx].0 == keys[i]);
        } else {
            let j = choose|j: int| 0 <= j < e.len() && #[trigger] e[j].0 == keys[i];
            assert(e2[j].0 == keys[i]);
        }
    }
    assert forall|j: int| 0 <= j < e2.len() implies exists|i: int|
        0 <= i < k + 1 && keys[i] == #[trigger] e2[j].0 by {
        if j == idx {
            assert(keys[k] == e2[j].0);
        } else {
            assert(e2[j] == e[j]);
            let i = choose|i: int| 0 <= i < k && keys[i] == #[trigger] e[j].0;
            assert(keys[i] == e2[j].0);
        }
    }
}

/// No traffic.
pub open spec fn zero_throughput() -> Throughput {
    Throughput { upload_bytes_per_second: 0, download_bytes_per_second: 0 }
}

/// `t` with a flow's rates added to the field of its scope.
pub open spec fn add_scoped(t: ScopedThroughput, scope: FlowScope, up: int, down: int) -> ScopedThroughput {
    let bump = |x: Throughput|
        Throughput {
            upload_bytes_per_second: sat_add(x.upload_bytes_per_second as int, up) as u64,
            download_bytes_per_second: sat_add(x.download_bytes_per_second as int, down) as u64,
        };
    match scope {
        FlowScope::Internet => ScopedThroughput { internet: bump(t.internet), ..t },
        FlowScope::Internal => ScopedThroughput { internal: bump(t.internal), ..t },
        FlowScope::Tunnel => ScopedThroughput { tunnel: bump(t.tunnel), ..t },
        FlowScope::Unknown => ScopedThroughput { unknown: bump(t.unknown), ..t },
    }
}

pub open spec fn scope_field(t: ScopedThroughput, scope: FlowScope) -> Throughput {
    match scope {
        FlowScope::Internet => t.internet,
        FlowScope::Internal => t.internal,
        FlowScope::Tunnel => t.tunnel,
        FlowScope::Unknown => t.unknown,
    }
}

/// The entries with only one scope's rates.
pub open spec fn project(e: Seq<(Seq<char>, ScopedThroughput)>, scope: FlowScope) -> Seq<(Seq<char>, Throughput)> {
    e.map_values(|x: (Seq<char>, ScopedThroughput)| (x.0, scope_field(x.1, scope)))
}

/// Each scope of the entries is an exact aggregate of that scope's flows.
pub open spec fn scoped_aggregated(
    e: Seq<(Seq<char>, ScopedThroughput)>,
    keys: Seq<Seq<char>>,
    flows: Seq<RealtimeFlow>,
    ups: Seq<int>,
    downs: Seq<int>,
    k: int,
) -> bool {
    forall|scope: FlowScope|
        #[trigger] aggregated(
            project(e, scope),
            keys,
            in_scope(ups, flows, scope),
            in_scope(downs, flows, scope),
            k,
        )
}

fn zero_scoped() -> (t: ScopedThroughput)
    ensures
        forall|scope: FlowScope|
            #[trigger] scope_field(t, scope) == zero_throughput(),
{
    let z = Throughput { upload_bytes_per_second: 0, download_bytes_per_second: 0 };
    ScopedThroughput { internet: z, internal: z, tunnel: z, unknown: z }
}

fn add_scoped_exec(t: &mut ScopedThroughput, scope: FlowScope, up: u64, down: u64)
    ensures
        *final(t) == add_scoped(*old(t), scope, up as int, down as int),
{
    match scope {
        FlowScope::Internet => add_rate(&mut t.internet, up, down),
        FlowScope::Internal => add_rate(&mut t.internal, up, down),
        FlowScope::Tunnel => add_rate(&mut t.tunnel, up, down),
        FlowScope::Unknown => add_rate(&mut t.unknown, up, down),
    }
}

/// Adds a flow's rates to the scope field of its client's entry, creating
/// the entry on first sight. Returns the entry's index.
fn bump_scoped(
    entries: &mut Vec<(String, ScopedThroughput)>,
    key: &String,
    scope: FlowScope,
    up: u64,
    down: u64,
) -> (idx: usize)
    ensures
        idx <= old(entries)@.len(),
        idx < old(entries)@.len() ==> {
            &&& old(entries)@[idx as int].0@ == key@
            &&& scoped_view(final(entries)@) == scoped_view(old(entries)@).update(
                idx as int,
                (key@, add_scoped(old(entries)@[idx as int].1, scope, up as int, down as int)),
            )
        },
        idx == old(entries)@.len() ==> {
            &&& forall|j: int| 0 <= j < old(entries)@.len() ==> old(entries)@[j].0@ != key@
            &&& exists|z: ScopedThroughput|
                (forall|sc: FlowScope|
                    #[trigger] scope_field(z, sc) == zero_throughput()) && scoped_view(final(entries)@) == scoped_view(old(entries)@).push(
                    (key@, add_scoped(z, scope, up as int, down as int)),
                )
        },
{
    let mut i: usize = 0;
    while i < entries.len()
        invariant
            i <= entries@.len(),
            entries@ == old(entries)@,
            forall|j: int| 0 <= j < i ==> entries@[j].0@ != key@,
        decreases entries@.len() - i,
    {
        if entries[i].0 == *key {
            let ghost before = entries@;
            let mut t = entries[i].1;
            add_scoped_exec(&mut t, scope, up, down);
            let name = entries[i].0.clone();
            entries.set(i, (name, t));
            assert(scoped_view(entries@) =~= scoped_view(before).update(i as int, (key@, t)));
            return i;
        }
        i = i + 1;
    }
    let ghost before = entries@;
    let z = zero_scoped();
    let mut t = z;
    add_scoped_exec(&mut t, scope, up, down);
    entries.push((key.clone(), t));
    assert(scoped_view(entries@) =~= scoped_view(before).push((key@, t)));
    i
}

pub proof fn lemma_scoped_step(
    e: Seq<(Seq<char>, ScopedThroughput)>,
    e2: Seq<(Seq<char>, ScopedThroughput)>,
    keys: Seq<Seq<char>>,
    flows: Seq<RealtimeFlow>,
    ups: Seq<int>,
    downs: Seq<int>,
    k: int,
    idx: int,
)
    requires
        0 <= k < keys.len() == ups.len() == downs.len() == flows.len(),
        forall|i: int| 0 <= i < keys.len() ==> 0 <= #[trigger] ups[i] <= u64::MAX,
        forall|i: int| 0 <= i < keys.len() ==> 0 <= #[trigger] downs[i] <= u64::MAX,
        scoped_aggregated(e, keys, flows, ups, downs, k),
        0 <= idx <= e.len(),
        idx < e.len() ==> {
            &&& e[idx].0 == keys[k]
            &&& e2 == e.update(idx, (keys[k], add_scoped(e[idx].1, flows[k].scope, ups[k], downs[k])))
        },
        idx == e.len() ==> {
            &&& forall|j: int| 0 <= j < e.len() ==> e[j].0 != keys[k]
            &&& exists|z: ScopedThroughput|
                (forall|sc: FlowScope|
                    #[trigger] scope_field(z, sc) == zero_throughput()) && e2 == e.push((keys[k], add_scoped(z, flows[k].scope, ups[k], downs[k])))
        },
    ensures
        scoped_aggregated(e2, keys, flows, ups, downs, k + 1),
{
    assert forall|scope: FlowScope| #[trigger] aggregated(
        project(e2, scope),
        keys,
        in_scope(ups, flows, scope),
        in_scope(downs, flows, scope),
        k + 1,
    ) by {
        let u = in_scope(ups, flows, scope);
        let d = in_scope(downs, flows, scope);
        let p = project(e, scope);
        let p2 = project(e2, scope);
        assert(aggregated(p, keys, u, d, k));
        assert forall|i: int| 0 <= i < keys.len() implies 0 <= #[trigger] u[i] <= u64::MAX by {
            assert(0 <= ups[i] <= u64::MAX);
        }
        assert forall|i: int| 0 <= i < keys.len() implies 0 <= #[trigger] d[i] <= u64::MAX by {
            assert(0 <= downs[i] <= u64::MAX);
        }
        if idx < e.len() {
            assert(p2 =~= p.update(
                idx,
                (
                    keys[k],
                    Throughput {
                        upload_bytes_per_second: sat_add(
                            p[idx].1.upload_bytes_per_second as int,
                            u[k],
                        ) as u64,
                        download_bytes_per_second: sat_add(
                            p[idx].1.download_bytes_per_second as int,
                            d[k],
                        ) as u64,
                    },
                ),
            ));
        } else {
            let z = choose|z: ScopedThroughput|
                (forall|sc: FlowScope|
                    #[trigger] scope_field(z, sc) == zero_throughput()) && e2 == e.push((keys[k], add_scoped(z, flows[k].scope, ups[k], downs[k])));
            assert(scope_field(z, scope) == zero_throughput());
            assert forall|j: int| 0 <= j < p.len() implies p[j].0 != keys[k] by {
                assert(e[j].0 != keys[k]);
            }
            assert(p2 =~= p.push(
                (
                    keys[k],
                    Throughput {
                        upload_bytes_per_second: u[k] as u64,
                        download_bytes_per_second: d[k] as u64,
                    },
                ),
            ));
        }
        lemma_aggregate_step(p, p2, keys, u, d, k, idx);
    }
}

/// Rates of one batch: overall, per scope, per client, per client and
/// scope, and per application.
#[derive(Clone, Debug)]
pub struct FlowDeltaSummary {
    pub total: Throughput,
    pub internet: Throughput,
    pub internal: Throughput,
    pub tunnel: Throughput,
    pub unknown: Throughput,
    pub clients: Vec<(String, Throughput)>,
    pub client_scopes: Vec<(String, ScopedThroughput)>,
    pub applications: Vec<(String, Throughput)>,
}

/// Rates over all flows of a batch (`scope` None) or over one scope's flows.
pub open spec fn batch_throughput(
    flows: Seq<RealtimeFlow>,
    interval: u64,
    scope: Option<FlowScope>,
) -> Throughput {
    let n = flows.len();
    let ups = flow_rates(flows, interval, true);
    let downs = flow_rates(flows, interval, false);
    match scope {
        None => keyed_throughput(one_key(n), ups, downs, Seq::empty(), n as int),
        Some(s) => keyed_throughput(
            one_key(n),
            in_scope(ups, flows, s),
            in_scope(downs, flows, s),
            Seq::empty(),
            n as int,
        ),
    }
}

/// The summary of a batch is exact: each figure is the capped sum of the
/// rates of the flows it covers.
pub open spec fn summary_exact(
    s: FlowDeltaSummary,
    flows: Seq<RealtimeFlow>,
    attributions: Seq<FlowAttribution>,
    interval: u64,
) -> bool {
    let n = flows.len() as int;
    let ups = flow_rates(flows, interval, true);
    let downs = flow_rates(flows, interval, false);
    &&& s.total == batch_throughput(flows, interval, None)
    &&& s.internet == batch_throughput(flows, interval, Some(FlowScope::Internet))
    &&& s.internal == batch_throughput(flows, interval, Some(FlowScope::Internal))
    &&& s.tunnel == batch_throughput(flows, interval, Some(FlowScope::Tunnel))
    &&& s.unknown == batch_throughput(flows, interval, Some(FlowScope::Unknown))
    &&& aggregated(entries_view(s.clients@), client_keys(flows), ups, downs, n)
    &&& scoped_aggregated(scoped_view(s.client_scopes@), client_keys(flows), flows, ups, downs, n)
    &&& aggregated(
        entries_view(s.applications@),
        application_keys(flows, attributions),
        ups,
        downs,
        n,
    )
}

proof fn lemma_in_scope_bounds(vals: Seq<int>, flows: Seq<RealtimeFlow>, scope: FlowScope)
    requires
        vals.len() == flows.len(),
        forall|i: int| 0 <= i < vals.len() ==> 0 <= #[trigger] vals[i] <= u64::MAX,
    ensures
        forall|i: int|
            0 <= i < vals.len() ==> 0 <= #[trigger] in_scope(vals, flows, scope)[i] <= u64::MAX,
{
    assert forall|i: int| 0 <= i < vals.len() implies 0 <= #[trigger] in_scope(
        vals,
        flows,
        scope,
    )[i] <= u64::MAX by {
        assert(0 <= vals[i] <= u64::MAX);
    }
}

proof fn lemma_total_step(t: Throughput, keys: Seq<Seq<char>>, ups: Seq<int>, downs: Seq<int>, k: int)
    requires
        0 <= k < keys.len() == ups.len() == downs.len(),
        keys[k] == Seq::<char>::empty(),
        forall|i: int| 0 <= i < keys.len() ==> 0 <= #[trigger] ups[i] <= u64::MAX,
        forall|i: int| 0 <= i < keys.len() ==> 0 <= #[trigger] downs[i] <= u64::MAX,
        t == keyed_throughput(keys, ups, downs, Seq::empty(), k),
    ensures
        keyed_throughput(keys, ups, downs, Seq::empty(), k + 1) == (Throughput {
            upload_bytes_per_second: sat_add(t.upload_bytes_per_second as int, ups[k]) as u64,
            download_bytes_per_second: sat_add(t.download_bytes_per_second as int, downs[k]) as u64,
        }),
{
    lemma_keyed_sum_nonneg(keys, ups, Seq::empty(), k);
    lemma_keyed_sum_nonneg(keys, downs, Seq::empty(), k);
    lemma_capped_step(keyed_sum(keys, ups, Seq::empty(), k), ups[k]);
    lemma_capped_step(keyed_sum(keys, downs, Seq::empty(), k), downs[k]);
}

/// Sums the rates of a batch's flows.
pub fn summarize_flows(
    flows: &Vec<RealtimeFlow>,
    attributions: &Vec<FlowAttribution>,
    interval_ms: u64,
) -> (s: FlowDeltaSummary)
    requires
        interval_ms > 0,
    ensures
        summary_exact(s, flows@, attributions@, interval_ms),
{
    let ghost fl = flows@;
    let ghost n = fl.len();
    let ghost ups = flow_rates(fl, interval_ms, true);
    let ghost downs = flow_rates(fl, interval_ms, false);
    let ghost ck = client_keys(fl);
    let ghost ak = application_keys(fl, attributions@);
    let ghost ok = one_key(n);
    let ghost e = Seq::<char>::empty();
    let zero = Throughput { upload_bytes_per_second: 0, download_bytes_per_second: 0 };
    let mut total = zero;
    let mut internet = zero;
    let mut internal = zero;
    let mut tunnel = zero;
    let mut unknown = zero;
    let mut clients: Vec<(String, Throughput)> = Vec::new();
    let mut client_scopes: Vec<(String, ScopedThroughput)> = Vec::new();
    let mut applications: Vec<(String, Throughput)> = Vec::new();
    proof {
        assert forall|i: int| 0 <= i < n implies 0 <= #[trigger] ups[i] <= u64::MAX by {
            assert(rate_spec(fl[i].upload_bytes, interval_ms) <= u64::MAX) by (nonlinear_arith)
                requires
                    interval_ms > 0,
                    rate_spec(fl[i].upload_bytes, interval_ms) == (if fl[i].upload_bytes * 1000
                        > u64::MAX {
                        u64::MAX as int
                    } else {
                        fl[i].upload_bytes * 1000
                    }) / interval_ms as int,
            ;
        }
        assert forall|i: int| 0 <= i < n implies 0 <= #[trigger] downs[i] <= u64::MAX by {
            assert(rate_spec(fl[i].download_bytes, interval_ms) <= u64::MAX) by (nonlinear_arith)
                requires
                    interval_ms > 0,
                    rate_spec(fl[i].download_bytes, interval_ms) == (if fl[i].download_bytes
                        * 1000 > u64::MAX {
                        u64::MAX as int
                    } else {
                        fl[i].download_bytes * 1000
                    }) / interval_ms as int,
            ;
        }
        assert(aggregated(entries_view(clients@), ck, ups, downs, 0));
        assert(aggregated(entries_view(applications@), ak, ups, downs, 0));
        assert forall|scope: FlowScope| #[trigger] aggregated(
            project(scoped_view(client_scopes@), scope),
            ck,
            in_scope(ups, fl, scope),
            in_scope(downs, fl, scope),
            0,
        ) by {
            assert(project(scoped_view(client_scopes@), scope).len() == 0);
        }
    }
    let mut i: usize = 0;
    while i < flows.len()
        invariant
            i <= n,
            fl == flows@,
            n == fl.len(),
            interval_ms > 0,
            ups == flow_rates(fl, interval_ms, true),
            downs == flow_rates(fl, interval_ms, false),
            ck == client_keys(fl),
            ak == application_keys(fl, attributions@),
            ok == one_key(n),
            e == Seq::<char>::empty(),
            forall|j: int| 0 <= j < n ==> 0 <= #[trigger] ups[j] <= u64::MAX,
            forall|j: int| 0 <= j < n ==> 0 <= #[trigger] downs[j] <= u64::MAX,
            total == keyed_throughput(ok, ups, downs, e, i as int),
            internet == keyed_throughput(
                ok,
                in_scope(ups, fl, FlowScope::Internet),
                in_scope(downs, fl, FlowScope::Internet),
                e,
                i as int,
            ),
            internal == keyed_throughput(
                ok,
                in_scope(ups, fl, FlowScope::Internal),
                in_scope(downs, fl, FlowScope::Internal),
                e,
                i as int,
            ),
            tunnel == keyed_throughput(
                ok,
                in_scope(ups, fl, FlowScope::Tunnel),
                in_scope(downs, fl, FlowScope::Tunnel),
                e,
                i as int,
            ),
            unknown == keyed_throughput(
                ok,
                in_scope(ups, fl, FlowScope::Unknown),
                in_scope(downs, fl, FlowScope::Unknown),
                e,
                i as int,
            ),
            aggregated(entries_view(clients@), ck, ups, downs, i as int),
            scoped_aggregated(scoped_view(client_scopes@), ck, fl, ups, downs, i as int),
            aggregated(entries_view(applications@), ak, ups, downs, i as int),
        decreases n - i,
    {
        let flow = &flows[i];
        let up = rate(flow.upload_bytes, interval_ms);
        let down = rate(flow.download_bytes, interval_ms);
        assert(up == ups[i as int] && down == downs[i as int]);
        proof {
            lemma_total_step(total, ok, ups, downs, i as int);
            lemma_in_scope_bounds(ups, fl, FlowScope::Internet);
            lemma_in_scope_bounds(downs, fl, FlowScope::Internet);
            lemma_in_scope_bounds(ups, fl, FlowScope::Internal);
            lemma_in_scope_bounds(downs, fl, FlowScope::Internal);
            lemma_in_scope_bounds(ups, fl, FlowScope::Tunnel);
            lemma_in_scope_bounds(downs, fl, FlowScope::Tunnel);
            lemma_in_scope_bounds(ups, fl, FlowScope::Unknown);
            lemma_in_scope_bounds(downs, fl, FlowScope::Unknown);
            lemma_total_step(internet, ok, in_scope(ups, fl, FlowScope::Internet), in_scope(downs, fl, FlowScope::Internet), i as int);
            lemma_total_step(internal, ok, in_scope(ups, fl, FlowScope::Internal), in_scope(downs, fl, FlowScope::Internal), i as int);
            lemma_total_step(tunnel, ok, in_scope(ups, fl, FlowScope::Tunnel), in_scope(downs, fl, FlowScope::Tunnel), i as int);
            lemma_total_step(unknown, ok, in_scope(ups, fl, FlowScope::Unknown), in_scope(downs, fl, FlowScope::Unknown), i as int);
        }
        add_rate(&mut total, up, down);
        match flow.scope {
            FlowScope::Internet => add_rate(&mut internet, up, down),
            FlowScope::Internal => add_rate(&mut internal, up, down),
            FlowScope::Tunnel => add_rate(&mut tunnel, up, down),
            FlowScope::Unknown => add_rate(&mut unknown, up, down),
        }
        let client = client_id(flow);
        let ghost c0 = entries_view(clients@);
        let ci = bump(&mut clients, &client, up, down);
        proof {
            lemma_aggregate_step(c0, entries_view(clients@), ck, ups, downs, i as int, ci as int);
        }
        let ghost s0 = scoped_view(client_scopes@);
        let si = bump_scoped(&mut client_scopes, &client, flow.scope, up, down);
        proof {
            lemma_scoped_step(s0, scoped_view(client_scopes@), ck, fl, ups, downs, i as int, si as int);
        }
        let ghost a0 = entries_view(applications@);
        let ai = if i < attributions.len() {
            bump(&mut applications, &attributions[i].application_id, up, down)
        } else {
            let unknown_name = "unknown".to_owned();
            bump(&mut applications, &unknown_name, up, down)
        };
        proof {
            lemma_aggregate_step(a0, entries_view(applications@), ak, ups, downs, i as int, ai as int);
        }
        i = i + 1;
    }
    FlowDeltaSummary { total, internet, internal, tunnel, unknown, clients, client_scopes, applications }
}

/// Law: when a batch's rates do not saturate, the overall rate is the sum
/// of the rates of the four scopes, in each direction.
pub proof fn lemma_total_partitions_by_scope(flows: Seq<RealtimeFlow>, interval: u64)
    requires
        interval > 0,
        keyed_sum(
            one_key(flows.len()),
            flow_rates(flows, interval, true),
            Seq::empty(),
            flows.len() as int,
        ) <= u64::MAX,
        keyed_sum(
            one_key(flows.len()),
            flow_rates(flows, interval, false),
            Seq::empty(),
            flows.len() as int,
        ) <= u64::MAX,
    ensures
        batch_throughput(flows, interval, None).upload_bytes_per_second == batch_throughput(
            flows,
            interval,
            Some(FlowScope::Internet),
        ).upload_bytes_per_second + batch_throughput(
            flows,
            interval,
            Some(FlowScope::Internal),
        ).upload_bytes_per_second + batch_throughput(
            flows,
            interval,
            Some(FlowScope::Tunnel),
        ).upload_bytes_per_second + batch_throughput(
            flows,
            interval,
            Some(FlowScope::Unknown),
        ).upload_bytes_per_second,
        batch_throughput(flows, interval, None).download_bytes_per_second == batch_throughput(
            flows,
            interval,
            Some(FlowScope::Internet),
        ).download_bytes_per_second + batch_throughput(
            flows,
            interval,
            Some(FlowScope::Internal),
        ).download_bytes_per_second + batch_throughput(
            flows,
            interval,
            Some(FlowScope::Tunnel),
        ).download_bytes_per_second + batch_throughput(
            flows,
            interval,
            Some(FlowScope::Unknown),
        ).download_bytes_per_second,
{
    let n = flows.len() as int;
    let ok = one_key(flows.len());
    let ups = flow_rates(flows, interval, true);
    let downs = flow_rates(flows, interval, false);
    assert forall|i: int| 0 <= i < n implies #[trigger] ups[i] >= 0 && downs[i] >= 0 by {
        assert(rate_spec(flows[i].upload_bytes, interval) >= 0) by (nonlinear_arith)
            requires
                interval > 0,
                rate_spec(flows[i].upload_bytes, interval) == (if flows[i].upload_bytes * 1000
                    > u64::MAX {
                    u64::MAX as int
                } else {
                    flows[i].upload_bytes * 1000
                }) / interval as int,
        ;
        assert(rate_spec(flows[i].download_bytes, interval) >= 0) by (nonlinear_arith)
            requires
                interval > 0,
                rate_spec(flows[i].download_bytes, interval) == (if flows[i].download_bytes
                    * 1000 > u64::MAX {
                    u64::MAX as int
                } else {
                    flows[i].download_bytes * 1000
                }) / interval as int,
        ;
    }
    lemma_scope_split(ok, ups, flows, n);
    lemma_scope_split(ok, downs, flows, n);
}

/// Keyed sums split over the four scopes, and each part is at most the
/// whole.
proof fn lemma_scope_split(keys: Seq<Seq<char>>, vals: Seq<int>, flows: Seq<RealtimeFlow>, k: int)
    requires
        0 <= k <= vals.len() == flows.len() == keys.len(),
        forall|i: int| 0 <= i < vals.len() ==> #[trigger] vals[i] >= 0,
    ensures
        keyed_sum(keys, vals, Seq::empty(), k) == keyed_sum(
            keys,
            in_scope(vals, flows, FlowScope::Internet),
            Seq::empty(),
            k,
        ) + keyed_sum(keys, in_scope(vals, flows, FlowScope::Internal), Seq::empty(), k)
            + keyed_sum(keys, in_scope(vals, flows, FlowScope::Tunnel), Seq::empty(), k)
            + keyed_sum(keys, in_scope(vals, flows, FlowScope::Unknown), Seq::empty(), k),
        keyed_sum(keys, in_scope(vals, flows, FlowScope::Internet), Seq::empty(), k) >= 0,
        keyed_sum(keys, in_scope(vals, flows, FlowScope::Internal), Seq::empty(), k) >= 0,
        keyed_sum(keys, in_scope(vals, flows, FlowScope::Tunnel), Seq::empty(), k) >= 0,
        keyed_sum(keys, in_scope(vals, flows, FlowScope::Unknown), Seq::empty(), k) >= 0,
    decreases k,
{
    if k > 0 {
        lemma_scope_split(keys, vals, flows, k - 1);
        assert(vals[k - 1] >= 0);
    }
}

/// Lexicographic order of character strings by code point, which is the
/// order of `String` (UTF-8 keeps code point order byte by byte).
pub open spec fn chars_le(a: Seq<char>, b: Seq<char>) -> bool
    decreases a.len(),
{
    if a.len() == 0 {
        true
    } else if b.len() == 0 {
        false
    } else if a[0] != b[0] {
        (a[0] as int) < (b[0] as int)
    } else {
        chars_le(a.drop_first(), b.drop_first())
    }
}

pub proof fn lemma_chars_le_total(a: Seq<char>, b: Seq<char>)
    ensures
        chars_le(a, b) || chars_le(b, a),
        chars_le(a, b) && chars_le(b, a) ==> a == b,
    decreases a.len(),
{
    if a.len() > 0 && b.len() > 0 {
        if a[0] == b[0] {
            lemma_chars_le_total(a.drop_first(), b.drop_first());
            if chars_le(a, b) && chars_le(b, a) {
                assert(a =~= seq![a[0]] + a.drop_first());
                assert(b =~= seq![b[0]] + b.drop_first());
            }
        } else {
            assert((a[0] as int) != (b[0] as int));
        }
    } else if a.len() == 0 && b.len() == 0 {
        assert(a =~= b);
    }
}

pub proof fn lemma_chars_le_trans(a: Seq<char>, b: Seq<char>, c: Seq<char>)
    requires
        chars_le(a, b),
        chars_le(b, c),
    ensures
        chars_le(a, c),
    decreases a.len(),
{
    if a.len() > 0 && b.len() > 0 && c.len() > 0 {
        if a[0] == b[0] && b[0] == c[0] {
            lemma_chars_le_trans(a.drop_first(), b.drop_first(), c.drop_first());
        }
    }
}

pub fn chars_le_exec(a: &[char], b: &[char]) -> (r: bool)
    ensures
        r == chars_le(a@, b@),
{
    let mut i: usize = 0;
    assert(a@.skip(0) =~= a@);
    assert(b@.skip(0) =~= b@);
    while i < a.len() && i < b.len() && a[i] == b[i]
        invariant
            i <= a@.len(),
            i <= b@.len(),
            chars_le(a@, b@) == chars_le(a@.skip(i as int), b@.skip(i as int)),
        decreases a@.len() - i,
    {
        assert(a@.skip(i as int).drop_first() =~= a@.skip(i as int + 1));
        assert(b@.skip(i as int).drop_first() =~= b@.skip(i as int + 1));
        i = i + 1;
    }
    if i == a.len() {
        assert(a@.skip(i as int).len() == 0);
        true
    } else if i == b.len() {
        assert(b@.skip(i as int).len() == 0);
        false
    } else {
        assert(a@.skip(i as int)[0] == a@[i as int]);
        assert(b@.skip(i as int)[0] == b@[i as int]);
        let x = a[i];
        let y = b[i];
        assert(x != y);
        x < y
    }
}

/// Position of `f64` bits in the IEEE 754 total order, as `f64::total_cmp`
/// computes it: comparing keys compares the numbers.
pub open spec fn total_order_key(bits: u64) -> i64 {
    (bits as i64) ^ ((((bits as i64) >> 63u64) as u64 >> 1u64) as i64)
}

pub fn total_order_key_exec(bits: u64) -> (r: i64)
    ensures
        r == total_order_key(bits),
{
    (bits as i64) ^ ((((bits as i64) >> 63u64) as u64 >> 1u64) as i64)
}

/// A flow in the active set, as the live view shows it.
#[derive(Clone, Debug)]
pub struct ActiveFlow {
    pub id: String,
    pub client_ip: String,
    pub client_port: u32,
    pub remote_ip: String,
    pub remote_port: u32,
    pub protocol: u32,
    pub lifecycle: String,
    pub application: String,
    pub category: String,
    pub domain: Option<String>,
    pub confidence_bits: u64,
    pub upload_bytes: u64,
    pub download_bytes: u64,
    pub packets: u64,
    pub last_seen: u64,
    pub scope: String,
    pub path_type: String,
    pub nat: String,
    pub source_segment: String,
    pub destination_segment: String,
}

/// The entry a flow opens in the active set, before its first delta is
/// counted: no bytes yet, and the flow's own attribution.
pub open spec fn is_initial(x: ActiveFlow, flow: RealtimeFlow, attr: FlowAttribution) -> bool {
    &&& x.id@ == flow_id_spec(flow)
    &&& x.client_ip@ == flow.client_ip@
    &&& x.client_port == flow.client_port
    &&& x.remote_ip@ == flow.remote_ip@
    &&& x.remote_port == flow.remote_port
    &&& x.protocol == flow.protocol
    &&& x.application@ == attr.application_id@
    &&& x.category@ == attr.category_id@
    &&& opt_string_view(x.domain) == opt_string_view(attr.domain)
    &&& x.confidence_bits == attr.confidence_bits
    &&& x.upload_bytes == 0
    &&& x.download_bytes == 0
    &&& x.packets == 0
    &&& x.last_seen == flow.last_seen_unix_ms
}

/// `new` is `cur` after a delta of `flow`: counters grow (saturating), the
/// last-seen time only moves forward, the state fields follow the flow, and
/// the attribution is replaced unless the new one is less confident.
pub open spec fn merged(cur: ActiveFlow, new: ActiveFlow, flow: RealtimeFlow, attr: FlowAttribution) -> bool {
    &&& new.id@ == cur.id@
    &&& new.client_ip@ == cur.client_ip@
    &&& new.client_port == cur.client_port
    &&& new.remote_ip@ == cur.remote_ip@
    &&& new.remote_port == cur.remote_port
    &&& new.protocol == cur.protocol
    &&& new.lifecycle@ == flow.lifecycle.name()
    &&& new.upload_bytes == sat_add(cur.upload_bytes as int, flow.upload_bytes as int)
    &&& new.download_bytes == sat_add(cur.download_bytes as int, flow.download_bytes as int)
    &&& new.packets == sat_add(cur.packets as int, flow.packets as int)
    &&& new.last_seen == if flow.last_seen_unix_ms > cur.last_seen {
        flow.last_seen_unix_ms
    } else {
        cur.last_seen
    }
    &&& new.scope@ == flow.scope.name()
    &&& new.path_type@ == flow.path_type.name()
    &&& new.nat@ == flow.nat.name()
    &&& new.source_segment@ == flow.source_segment@
    &&& new.destination_segment@ == flow.destination_segment@
    &&& if total_order_key(attr.confidence_bits) >= total_order_key(cur.confidence_bits) {
        &&& new.application@ == attr.application_id@
        &&& new.category@ == attr.category_id@
        &&& opt_string_view(new.domain) == opt_string_view(attr.domain)
        &&& new.confidence_bits == attr.confidence_bits
    } else {
        &&& new.application@ == cur.application@
        &&& new.category@ == cur.category@
        &&& opt_string_view(new.domain) == opt_string_view(cur.domain)
        &&& new.confidence_bits == cur.confidence_bits
    }
}

fn initial_flow(id: String, flow: &RealtimeFlow, attr: &FlowAttribution) -> (x: ActiveFlow)
    requires
        id@ == flow_id_spec(*flow),
    ensures
        is_initial(x, *flow, *attr),
{
    ActiveFlow {
        id,
        client_ip: flow.client_ip.clone(),
        client_port: flow.client_port,
        remote_ip: flow.remote_ip.clone(),
        remote_port: flow.remote_port,
        protocol: flow.protocol,
        lifecycle: flow.lifecycle.as_str().to_owned(),
        application: attr.application_id.clone(),
        category: attr.category_id.clone(),
        domain: crate::text::clone_opt_string(&attr.domain),
        confidence_bits: attr.confidence_bits,
        upload_bytes: 0,
        download_bytes: 0,
        packets: 0,
        last_seen: flow.last_seen_unix_ms,
        scope: flow.scope.as_str().to_owned(),
        path_type: flow.path_type.as_str().to_owned(),
        nat: flow.nat.as_str().to_owned(),
        source_segment: flow.source_segment.clone(),
        destination_segment: flow.destination_segment.clone(),
    }
}

fn merge_delta(cur: ActiveFlow, flow: &RealtimeFlow, attr: &FlowAttribution) -> (new: ActiveFlow)
    ensures
        merged(cur, new, *flow, *attr),
{
    let mut x = cur;
    x.lifecycle = flow.lifecycle.as_str().to_owned();
    x.upload_bytes = x.upload_bytes.saturating_add(flow.upload_bytes);
    x.download_bytes = x.download_bytes.saturating_add(flow.download_bytes);
    x.packets = x.packets.saturating_add(flow.packets);
    if flow.last_seen_unix_ms > x.last_seen {
        x.last_seen = flow.last_seen_unix_ms;
    }
    x.scope = flow.scope.as_str().to_owned();
    x.path_type = flow.path_type.as_str().to_owned();
    x.nat = flow.nat.as_str().to_owned();
    x.source_segment = flow.source_segment.clone();
    x.destination_segment = flow.destination_segment.clone();
    if total_order_key_exec(attr.confidence_bits) >= total_order_key_exec(x.confidence_bits) {
        x.application = attr.application_id.clone();
        x.category = attr.category_id.clone();
        x.domain = crate::text::clone_opt_string(&attr.domain);
        x.confidence_bits = attr.confidence_bits;
    }
    x
}

/// No two active flows share an id.
pub open spec fn unique_ids(s: Seq<ActiveFlow>) -> bool {
    forall|a: int, b: int| #![trigger s[a], s[b]] 0 <= a < b < s.len() ==> s[a].id@ != s[b].id@
}

/// Position of the active flow with an id, if there is one.
pub open spec fn id_index(s: Seq<ActiveFlow>, id: Seq<char>) -> Option<int> {
    if exists|i: int| 0 <= i < s.len() && #[trigger] s[i].id@ == id {
        Some(choose|i: int| 0 <= i < s.len() && #[trigger] s[i].id@ == id)
    } else {
        None
    }
}

pub proof fn lemma_id_index_unique(s: Seq<ActiveFlow>, id: Seq<char>, i: int)
    requires
        unique_ids(s),
        0 <= i < s.len(),
        s[i].id@ == id,
    ensures
        id_index(s, id) == Some(i),
{
    let c = choose|c: int| 0 <= c < s.len() && #[trigger] s[c].id@ == id;
    if c != i {
        if c < i {
            assert(s[c].id@ != s[i].id@);
        } else {
            assert(s[i].id@ != s[c].id@);
        }
    }
}

fn find_flow(active: &Vec<ActiveFlow>, id: &String) -> (r: Option<usize>)
    ensures
        match r {
            Some(i) => i < active@.len() && active@[i as int].id@ == id@,
            None => forall|j: int| 0 <= j < active@.len() ==> #[trigger] active@[j].id@ != id@,
        },
{
    let mut i: usize = 0;
    while i < active.len()
        invariant
            i <= active@.len(),
            forall|j: int| 0 <= j < i ==> #[trigger] active@[j].id@ != id@,
        decreases active@.len() - i,
    {
        if active[i].id == *id {
            return Some(i);
        }
        i = i + 1;
    }
    None
}

/// What a delta does to the active set: an ended flow leaves it, an active
/// or idle flow is merged into its entry (opened if it is new), and a flow
/// in no known state is ignored.
pub open spec fn active_update(
    old_set: Seq<ActiveFlow>,
    new_set: Seq<ActiveFlow>,
    flow: RealtimeFlow,
    attr: FlowAttribution,
) -> bool {
    let id = flow_id_spec(flow);
    match flow.lifecycle {
        FlowLifecycle::Ended => match id_index(old_set, id) {
            Some(i) => new_set == old_set.remove(i),
            None => new_set == old_set,
        },
        FlowLifecycle::Unspecified => new_set == old_set,
        _ => match id_index(old_set, id) {
            Some(i) => {
                &&& new_set.len() == old_set.len()
                &&& forall|j: int| 0 <= j < old_set.len() && j != i ==> new_set[j] == old_set[j]
                &&& merged(old_set[i], new_set[i], flow, attr)
            },
            None => {
                &&& new_set.len() == old_set.len() + 1
                &&& new_set.drop_last() == old_set
                &&& exists|x: ActiveFlow|
                    is_initial(x, flow, attr) && merged(x, new_set.last(), flow, attr)
            },
        },
    }
}

/// No active flow is marked ended: an ended flow leaves the active set.
pub open spec fn none_ended(s: Seq<ActiveFlow>) -> bool {
    forall|i: int| 0 <= i < s.len() ==> (#[trigger] s[i]).lifecycle@ != "ended"@
}

/// Law: a delta never leaves an ended flow in an active set that had none.
pub proof fn lemma_delta_keeps_none_ended(
    old_set: Seq<ActiveFlow>,
    new_set: Seq<ActiveFlow>,
    flow: RealtimeFlow,
    attr: FlowAttribution,
)
    requires
        none_ended(old_set),
        active_update(old_set, new_set, flow, attr),
    ensures
        none_ended(new_set),
{
    reveal_strlit("ended");
    reveal_strlit("active");
    reveal_strlit("idle");
    let id = flow_id_spec(flow);
    match flow.lifecycle {
        FlowLifecycle::Ended => match id_index(old_set, id) {
            Some(i) => {
                assert forall|j: int| 0 <= j < new_set.len() implies (#[trigger] new_set[j]).lifecycle@ != "ended"@ by {
                    if j < i {
                        assert(new_set[j] == old_set[j]);
                    } else {
                        assert(new_set[j] == old_set[j + 1]);
                    }
                }
            },
            None => {},
        },
        FlowLifecycle::Unspecified => {},
        _ => {
            assert(flow.lifecycle.name()[0] != 'e');
            assert("ended"@[0] == 'e');
            match id_index(old_set, id) {
                Some(i) => {
                    assert forall|j: int| 0 <= j < new_set.len() implies (#[trigger] new_set[j]).lifecycle@ != "ended"@ by {
                        if j != i {
                            assert(new_set[j] == old_set[j]);
                        } else {
                            assert(new_set[j].lifecycle@ == flow.lifecycle.name());
                        }
                    }
                },
                None => {
                    assert forall|j: int| 0 <= j < new_set.len() implies (#[trigger] new_set[j]).lifecycle@ != "ended"@ by {
                        if j < old_set.len() {
                            assert(new_set[j] == new_set.drop_last()[j]);
                        } else {
                            let x = choose|x: ActiveFlow| is_initial(x, flow, attr) && merged(x, new_set.last(), flow, attr);
                            assert(new_set[j] == new_set.last());
                        }
                    }
                },
            }
        },
    }
}

/// Applies one flow delta to the active set.
pub fn update_active_flow(active: &mut Vec<ActiveFlow>, flow: &RealtimeFlow, attr: &FlowAttribution)
    requires
        unique_ids(old(active)@),
    ensures
        unique_ids(final(active)@),
        active_update(old(active)@, final(active)@, *flow, *attr),
{
    let id = flow_id(flow);
    let found = find_flow(active, &id);
    proof {
        match found {
            Some(i) => lemma_id_index_unique(active@, id@, i as int),
            None => {},
        }
    }
    match flow.lifecycle {
        FlowLifecycle::Ended => {
            match found {
                Some(i) => {
                    let ghost before = active@;
                    active.remove(i);
                    assert forall|a: int, b: int| #![trigger active@[a], active@[b]] 0 <= a < b < active@.len() implies active@[a].id@ != active@[b].id@ by {
                        let oa = if a < i { a } else { a + 1 };
                        let ob = if b < i { b } else { b + 1 };
                        assert(active@[a] == before[oa]);
                        assert(active@[b] == before[ob]);
                        assert(before[oa].id@ != before[ob].id@);
                    }
                },
                None => {},
            }
        },
        FlowLifecycle::Unspecified => {},
        _ => {
            match found {
                Some(i) => {
                    let ghost before = active@;
                    let cur = active.remove(i);
                    let new = merge_delta(cur, flow, attr);
                    active.insert(i, new);
                    assert(active@ =~= before.update(i as int, new));
                    assert forall|a: int, b: int| #![trigger active@[a], active@[b]] 0 <= a < b < active@.len() implies active@[a].id@ != active@[b].id@ by {
                        assert(before[a].id@ != before[b].id@);
                    }
                },
                None => {
                    let ghost before = active@;
                    let fresh = initial_flow(id, flow, attr);
                    let new = merge_delta(fresh, flow, attr);
                    active.push(new);
                    assert(active@.drop_last() =~= before);
                    assert forall|a: int, b: int| #![trigger active@[a], active@[b]] 0 <= a < b < active@.len() implies active@[a].id@ != active@[b].id@ by {
                        if b == before.len() {
                            assert(before[a].id@ != flow_id_spec(*flow));
                        } else {
                            assert(before[a].id@ != before[b].id@);
                        }
                    }
                },
            }
        },
    }
}

/// `a` is evicted no later than `b`: it was seen earlier, or at the same
/// time with an id that sorts first.
pub open spec fn older_or_same(a: ActiveFlow, b: ActiveFlow) -> bool {
    a.last_seen < b.last_seen || (a.last_seen == b.last_seen && chars_le(a.id@, b.id@))
}

/// `a` is listed no later than `b` in the live view: it was seen later, or
/// at the same time with an id that sorts first.
pub open spec fn shown_before(a: ActiveFlow, b: ActiveFlow) -> bool {
    a.last_seen > b.last_seen || (a.last_seen == b.last_seen && chars_le(a.id@, b.id@))
}

proof fn lemma_orders(a: ActiveFlow, b: ActiveFlow, c: ActiveFlow)
    ensures
        older_or_same(a, b) || older_or_same(b, a),
        shown_before(a, b) || shown_before(b, a),
        older_or_same(a, b) && older_or_same(b, c) ==> older_or_same(a, c),
        shown_before(a, b) && shown_before(b, c) ==> shown_before(a, c),
{
    lemma_chars_le_total(a.id@, b.id@);
    if chars_le(a.id@, b.id@) && chars_le(b.id@, c.id@) {
        lemma_chars_le_trans(a.id@, b.id@, c.id@);
    }
}

fn older_or_same_exec(a: &ActiveFlow, b: &ActiveFlow) -> (r: bool)
    ensures
        r == older_or_same(*a, *b),
{
    if a.last_seen != b.last_seen {
        return a.last_seen < b.last_seen;
    }
    let x = chars_of(a.id.as_str());
    let y = chars_of(b.id.as_str());
    chars_le_exec(x.as_slice(), y.as_slice())
}

fn shown_before_exec(a: &ActiveFlow, b: &ActiveFlow) -> (r: bool)
    ensures
        r == shown_before(*a, *b),
{
    if a.last_seen != b.last_seen {
        return a.last_seen > b.last_seen;
    }
    let x = chars_of(a.id.as_str());
    let y = chars_of(b.id.as_str());
    chars_le_exec(x.as_slice(), y.as_slice())
}

proof fn lemma_remove_contains(s: Seq<ActiveFlow>, i: int, x: ActiveFlow)
    requires
        0 <= i < s.len(),
    ensures
        s.contains(x) <==> (s.remove(i).contains(x) || x == s[i]),
{
    let r = s.remove(i);
    if s.contains(x) {
        let k = choose|k: int| 0 <= k < s.len() && s[k] == x;
        if k < i {
            assert(r[k] == x);
        } else if k > i {
            assert(r[k - 1] == x);
        }
    }
    if r.contains(x) {
        let k = choose|k: int| 0 <= k < r.len() && r[k] == x;
        if k < i {
            assert(s[k] == x);
        } else {
            assert(s[k + 1] == x);
        }
    }
    if x == s[i] {
        assert(s.contains(x));
    }
}

proof fn lemma_remove_unique(s: Seq<ActiveFlow>, i: int)
    requires
        0 <= i < s.len(),
        unique_ids(s),
    ensures
        unique_ids(s.remove(i)),
        forall|j: int| 0 <= j < s.remove(i).len() ==> #[trigger] s.remove(i)[j].id@ != s[i].id@,
{
    let r = s.remove(i);
    assert forall|a: int, b: int| #![trigger r[a], r[b]] 0 <= a < b < r.len() implies r[a].id@ != r[b].id@ by {
        let oa = if a < i { a } else { a + 1 };
        let ob = if b < i { b } else { b + 1 };
        assert(s[oa].id@ != s[ob].id@);
    }
    assert forall|j: int| 0 <= j < r.len() implies #[trigger] r[j].id@ != s[i].id@ by {
        if j < i {
            assert(s[j].id@ != s[i].id@);
        } else {
            assert(s[i].id@ != s[j + 1].id@);
        }
    }
}

fn oldest_index(active: &Vec<ActiveFlow>) -> (m: usize)
    requires
        active@.len() > 0,
    ensures
        m < active@.len(),
        forall|j: int| 0 <= j < active@.len() ==> older_or_same(active@[m as int], #[trigger] active@[j]),
{
    let mut best: usize = 0;
    let mut i: usize = 1;
    proof {
        lemma_chars_le_total(active@[0].id@, active@[0].id@);
    }
    while i < active.len()
        invariant
            1 <= i <= active@.len(),
            best < i,
            forall|j: int| 0 <= j < i ==> older_or_same(active@[best as int], #[trigger] active@[j]),
        decreases active@.len() - i,
    {
        if !older_or_same_exec(&active[best], &active[i]) {
            proof {
                assert forall|j: int| 0 <= j < i + 1 implies older_or_same(active@[i as int], #[trigger] active@[j]) by {
                    lemma_orders(active@[i as int], active@[best as int], active@[j]);
                    lemma_orders(active@[best as int], active@[i as int], active@[j]);
                    lemma_chars_le_total(active@[i as int].id@, active@[i as int].id@);
                }
            }
            best = i;
        }
        i = i + 1;
    }
    best
}

/// Keeps at most `MAX_ACTIVE_FLOWS` active flows, dropping the oldest.
pub fn evict_oldest_flows(active: &mut Vec<ActiveFlow>)
    requires
        unique_ids(old(active)@),
    ensures
        unique_ids(final(active)@),
        final(active)@.len() == if old(active)@.len() > MAX_ACTIVE_FLOWS {
            MAX_ACTIVE_FLOWS as int
        } else {
            old(active)@.len() as int
        },
        forall|j: int| 0 <= j < final(active)@.len() ==> old(active)@.contains(#[trigger] final(active)@[j]),
        forall|k: int, j: int|
            0 <= k < old(active)@.len() && !final(active)@.contains(old(active)@[k]) && 0 <= j
                < final(active)@.len() ==> older_or_same(
                #[trigger] old(active)@[k],
                #[trigger] final(active)@[j],
            ),
{
    let ghost orig = active@;
    let ghost mut removed: Seq<ActiveFlow> = Seq::empty();
    while active.len() > MAX_ACTIVE_FLOWS
        invariant
            unique_ids(active@),
            active@.len() >= if orig.len() > MAX_ACTIVE_FLOWS {
                MAX_ACTIVE_FLOWS as int
            } else {
                orig.len() as int
            },
            orig.len() <= MAX_ACTIVE_FLOWS ==> active@ == orig,
            forall|j: int| 0 <= j < active@.len() ==> orig.contains(#[trigger] active@[j]),
            forall|k: int| 0 <= k < orig.len() ==> active@.contains(#[trigger] orig[k]) || removed.contains(orig[k]),
            forall|r: int, j: int|
                0 <= r < removed.len() && 0 <= j < active@.len() ==> older_or_same(
                    #[trigger] removed[r],
                    #[trigger] active@[j],
                ),
        decreases active@.len(),
    {
        let m = oldest_index(active);
        let ghost before = active@;
        let gone = active.remove(m);
        proof {
            lemma_remove_unique(before, m as int);
            assert forall|j: int| 0 <= j < active@.len() implies orig.contains(#[trigger] active@[j]) by {
                lemma_remove_contains(before, m as int, active@[j]);
                let k = choose|k: int| 0 <= k < before.len() && before[k] == active@[j];
                assert(orig.contains(before[k]));
            }
            let removed2 = removed.push(gone);
            assert forall|k: int| 0 <= k < orig.len() implies active@.contains(#[trigger] orig[k]) || removed2.contains(orig[k]) by {
                lemma_remove_contains(before, m as int, orig[k]);
                if removed.contains(orig[k]) {
                    let r = choose|r: int| 0 <= r < removed.len() && removed[r] == orig[k];
                    assert(removed2[r] == orig[k]);
                }
                if orig[k] == gone {
                    assert(removed2[removed.len() as int] == orig[k]);
                }
            }
            assert forall|r: int, j: int|
                0 <= r < removed2.len() && 0 <= j < active@.len() implies older_or_same(
                    #[trigger] removed2[r],
                    #[trigger] active@[j],
                ) by {
                let oj = if j < m { j } else { j + 1 };
                assert(active@[j] == before[oj]);
                if r < removed.len() {
                    assert(removed2[r] == removed[r]);
                } else {
                    assert(older_or_same(before[m as int], before[oj]));
                }
            }
            removed = removed2;
        }
    }
    proof {
        assert forall|k: int, j: int|
            0 <= k < orig.len() && !active@.contains(orig[k]) && 0 <= j < active@.len() implies older_or_same(
            #[trigger] orig[k],
            #[trigger] active@[j],
        ) by {
            let r = choose|r: int| 0 <= r < removed.len() && removed[r] == orig[k];
            assert(older_or_same(removed[r], active@[j]));
        }
    }
}

/// The active flows in the order the live view lists them: most recently
/// seen first, then by id.
pub fn sort_for_display(active: Vec<ActiveFlow>) -> (r: Vec<ActiveFlow>)
    requires
        unique_ids(active@),
    ensures
        unique_ids(r@),
        r@.len() == active@.len(),
        forall|x: ActiveFlow| active@.contains(x) <==> r@.contains(x),
        forall|a: int, b: int|
            0 <= a < b < r@.len() ==> shown_before(#[trigger] r@[a], #[trigger] r@[b]),
{
    let ghost orig = active@;
    let mut rest = active;
    let mut out: Vec<ActiveFlow> = Vec::new();
    while rest.len() > 0
        invariant
            unique_ids(rest@),
            unique_ids(out@),
            out@.len() + rest@.len() == orig.len(),
            forall|a: int, b: int| 0 <= a < out@.len() && 0 <= b < rest@.len() ==> #[trigger] out@[a].id@ != #[trigger] rest@[b].id@,
            forall|x: ActiveFlow| orig.contains(x) <==> (out@.contains(x) || rest@.contains(x)),
            forall|a: int, b: int|
                0 <= a < b < out@.len() ==> shown_before(#[trigger] out@[a], #[trigger] out@[b]),
            forall|a: int, b: int|
                0 <= a < out@.len() && 0 <= b < rest@.len() ==> shown_before(#[trigger] out@[a], #[trigger] rest@[b]),
        decreases rest@.len(),
    {
        let mut best: usize = 0;
        let mut i: usize = 1;
        proof {
            lemma_chars_le_total(rest@[0].id@, rest@[0].id@);
        }
        while i < rest.len()
            invariant
                1 <= i <= rest@.len(),
                best < i,
                forall|j: int| 0 <= j < i ==> shown_before(rest@[best as int], #[trigger] rest@[j]),
            decreases rest@.len() - i,
        {
            if !shown_before_exec(&rest[best], &rest[i]) {
                proof {
                    assert forall|j: int| 0 <= j < i + 1 implies shown_before(rest@[i as int], #[trigger] rest@[j]) by {
                        lemma_orders(rest@[i as int], rest@[best as int], rest@[j]);
                        lemma_orders(rest@[best as int], rest@[i as int], rest@[j]);
                        lemma_chars_le_total(rest@[i as int].id@, rest@[i as int].id@);
                    }
                }
                best = i;
            }
            i = i + 1;
        }
        let ghost rest0 = rest@;
        let ghost out0 = out@;
        let x = rest.remove(best);
        out.push(x);
        proof {
            lemma_remove_unique(rest0, best as int);
            assert forall|a: int, b: int| #![trigger out@[a], out@[b]] 0 <= a < b < out@.len() implies out@[a].id@ != out@[b].id@ by {
                if b == out0.len() {
                    assert(out0[a].id@ != rest0[best as int].id@);
                } else {
                    assert(out0[a].id@ != out0[b].id@);
                }
            }
            assert forall|a: int, b: int| 0 <= a < out@.len() && 0 <= b < rest@.len() implies #[trigger] out@[a].id@ != #[trigger] rest@[b].id@ by {
                let ob = if b < best { b } else { b + 1 };
                assert(rest@[b] == rest0[ob]);
                if a < out0.len() {
                    assert(out0[a].id@ != rest0[ob].id@);
                }
            }
            assert forall|y: ActiveFlow| orig.contains(y) <==> (out@.contains(y) || rest@.contains(y)) by {
                lemma_remove_contains(rest0, best as int, y);
                if out0.contains(y) {
                    let k = choose|k: int| 0 <= k < out0.len() && out0[k] == y;
                    assert(out@[k] == y);
                }
                if out@.contains(y) {
                    let k = choose|k: int| 0 <= k < out@.len() && out@[k] == y;
                    if k < out0.len() {
                        assert(out0[k] == y);
                    }
                }
                if y == x {
                    assert(out@[out0.len() as int] == y);
                }
            }
            assert forall|a: int, b: int|
                0 <= a < b < out@.len() implies shown_before(#[trigger] out@[a], #[trigger] out@[b]) by {
                if b == out0.len() {
                    assert(shown_before(out0[a], rest0[best as int]));
                } else {
                    assert(shown_before(out0[a], out0[b]));
                }
            }
            assert forall|a: int, b: int|
                0 <= a < out@.len() && 0 <= b < rest@.len() implies shown_before(#[trigger] out@[a], #[trigger] rest@[b]) by {
                let ob = if b < best { b } else { b + 1 };
                assert(rest@[b] == rest0[ob]);
                if a < out0.len() {
                    assert(shown_before(out0[a], rest0[ob]));
                } else {
                    assert(shown_before(rest0[best as int], rest0[ob]));
                }
            }
        }
    }
    out
}

/// Whether an offload feature is on.
#[derive(Clone, Copy, Debug, PartialEq, Eq, Structural)]
pub enum OffloadStatus {
    Unknown,
    Enabled,
    Disabled,
}

impl OffloadStatus {
    pub open spec fn name(self) -> Seq<char> {
        match self {
            OffloadStatus::Enabled => "enabled"@,
            OffloadStatus::Disabled => "disabled"@,
            OffloadStatus::Unknown => "unknown"@,
        }
    }

    pub fn as_str(self) -> (r: &'static str)
        ensures
            r@ == self.name(),
    {
        match self {
            OffloadStatus::Enabled => "enabled",
            OffloadStatus::Disabled => "disabled",
            OffloadStatus::Unknown => "unknown",
        }
    }
}

/// How far the capture interface's counters can be trusted.
#[derive(Clone, Copy, Debug, PartialEq, Eq, Structural)]
pub enum CounterSanity {
    Unknown,
    Sound,
    Degraded,
    Disabled,
}

impl CounterSanity {
    pub open spec fn name(self) -> Seq<char> {
        match self {
            CounterSanity::Sound => "ok"@,
            CounterSanity::Degraded => "degraded"@,
            CounterSanity::Disabled => "disabled"@,
            CounterSanity::Unknown => "unknown"@,
        }
    }

    pub fn as_str(self) -> (r: &'static str)
        ensures
            r@ == self.name(),
    {
        match self {
            CounterSanity::Sound => "ok",
            CounterSanity::Degraded => "degraded",
            CounterSanity::Disabled => "disabled",
            CounterSanity::Unknown => "unknown",
        }
    }
}

/// One network segment the agent sees.
#[derive(Clone, Debug, PartialEq, Eq)]
pub struct TopologySegmentSnapshot {
    pub subnet: String,
    pub interface: String,
    pub role: String,
    pub confidence: u32,
}

/// Topology as the agent reports it.
#[derive(Clone, Debug)]
pub struct TopologyReport {
    pub topology_mode: String,
    pub agent_addresses: Vec<String>,
    pub upstream_gateway: String,
    pub segments: Vec<TopologySegmentSnapshot>,
    pub nat_status: String,
    pub attach_backend: String,
    pub attach_order: String,
    pub ipv4_coverage: String,
    pub ipv6_coverage: String,
    pub icmp_redirect: String,
    pub software_flow_offload: OffloadStatus,
    pub hardware_flow_offload: OffloadStatus,
    pub topology_warnings: Vec<String>,
    pub confidence: u32,
}

/// Agent health as a telemetry batch reports it.
#[derive(Clone, Debug)]
pub struct AgentHealthReport {
    pub observed_at_unix_ms: u64,
    pub uptime_seconds: u64,
    pub dropped_batches: u64,
    pub dns_dropped_events: u64,
    pub protocol_probe_dropped_events: u64,
    pub tracked_flows: u64,
    pub kernel_version: String,
    pub openwrt_version: String,
    pub hardware_flow_offload: OffloadStatus,
    pub capture_interface: String,
    pub capture_interfaces: Vec<String>,
    pub interface_rx_bytes: u64,
    pub interface_tx_bytes: u64,
    pub interface_rx_packets: u64,
    pub interface_tx_packets: u64,
    pub interface_delta_bytes: u64,
    pub interface_delta_packets: u64,
    pub flow_delta_bytes: u64,
    pub flow_delta_packets: u64,
    pub interface_counter_sanity: CounterSanity,
    pub topology: Option<TopologyReport>,
}

/// Topology in the live view.
#[derive(Clone, Debug, PartialEq, Eq)]
pub struct TopologySummarySnapshot {
    pub topology_mode: String,
    pub agent_addresses: Vec<String>,
    pub upstream_gateway: String,
    pub segments: Vec<TopologySegmentSnapshot>,
    pub nat_status: String,
    pub attach_backend: String,
    pub attach_order: String,
    pub ipv4_coverage: String,
    pub ipv6_coverage: String,
    pub icmp_redirect: String,
    pub software_flow_offload: String,
    pub hardware_flow_offload: String,
    pub topology_warnings: Vec<String>,
    pub confidence: u32,
    pub capture_interface: String,
}

/// Gateway health in the live view.
#[derive(Clone, Debug, PartialEq, Eq)]
pub struct GatewayHealthSnapshot {
    pub observed_at: u64,
    pub uptime_seconds: u64,
    pub dropped_batches: u64,
    pub dns_dropped_events: u64,
    pub protocol_probe_dropped_events: u64,
    pub tracked_flows: u64,
    pub agent_version: String,
    pub kernel_version: String,
    pub openwrt_version: String,
    pub hardware_flow_offload: String,
    pub capture_interface: String,
    pub capture_interfaces: Vec<String>,
    pub interface_rx_bytes: u64,
    pub interface_tx_bytes: u64,
    pub interface_rx_packets: u64,
    pub interface_tx_packets: u64,
    pub interface_delta_bytes: u64,
    pub interface_delta_packets: u64,
    pub flow_delta_bytes: u64,
    pub flow_delta_packets: u64,
    pub interface_counter_sanity: String,
    pub topology: Option<TopologySummarySnapshot>,
}

/// The topology summary a report gives, with the capture interface of the
/// agent's health report.
pub open spec fn topology_summary_of(t: TopologySummarySnapshot, r: TopologyReport, capture_interface: Seq<char>) -> bool {
    &&& t.topology_mode == r.topology_mode
    &&& t.agent_addresses == r.agent_addresses
    &&& t.upstream_gateway == r.upstream_gateway
    &&& t.segments == r.segments
    &&& t.nat_status == r.nat_status
    &&& t.attach_backend == r.attach_backend
    &&& t.attach_order == r.attach_order
    &&& t.ipv4_coverage == r.ipv4_coverage
    &&& t.ipv6_coverage == r.ipv6_coverage
    &&& t.icmp_redirect == r.icmp_redirect
    &&& t.software_flow_offload@ == r.software_flow_offload.name()
    &&& t.hardware_flow_offload@ == r.hardware_flow_offload.name()
    &&& t.topology_warnings == r.topology_warnings
    &&& t.confidence == r.confidence
    &&& t.capture_interface@ == capture_interface
}

/// The health entry a report gives: its figures, the batch's agent version,
/// state names, and the capture interface list (the single capture
/// interface when the list is empty).
pub open spec fn health_snapshot_of(g: GatewayHealthSnapshot, h: AgentHealthReport, agent_version: Seq<char>) -> bool {
    &&& g.observed_at == h.observed_at_unix_ms
    &&& g.uptime_seconds == h.uptime_seconds
    &&& g.dropped_batches == h.dropped_batches
    &&& g.dns_dropped_events == h.dns_dropped_events
    &&& g.protocol_probe_dropped_events == h.protocol_probe_dropped_events
    &&& g.tracked_flows == h.tracked_flows
    &&& g.agent_version@ == agent_version
    &&& g.kernel_version == h.kernel_version
    &&& g.openwrt_version == h.openwrt_version
    &&& g.hardware_flow_offload@ == h.hardware_flow_offload.name()
    &&& g.capture_interface@ == h.capture_interface@
    &&& (if h.capture_interfaces@.len() == 0 {
        g.capture_interfaces@.len() == 1 && g.capture_interfaces@[0]@ == h.capture_interface@
    } else {
        g.capture_interfaces == h.capture_interfaces
    })
    &&& g.interface_rx_bytes == h.interface_rx_bytes
    &&& g.interface_tx_bytes == h.interface_tx_bytes
    &&& g.interface_rx_packets == h.interface_rx_packets
    &&& g.interface_tx_packets == h.interface_tx_packets
    &&& g.interface_delta_bytes == h.interface_delta_bytes
    &&& g.interface_delta_packets == h.interface_delta_packets
    &&& g.flow_delta_bytes == h.flow_delta_bytes
    &&& g.flow_delta_packets == h.flow_delta_packets
    &&& g.interface_counter_sanity@ == h.interface_counter_sanity.name()
    &&& match (g.topology, h.topology) {
        (Some(t), Some(r)) => topology_summary_of(t, r, h.capture_interface@),
        (None, None) => true,
        _ => false,
    }
}

/// The gateway health the live view shows after a batch: built from the
/// batch's report, or the previous one when the batch has none.
pub fn gateway_health_snapshot(
    previous: Option<GatewayHealthSnapshot>,
    health: Option<AgentHealthReport>,
    agent_version: &str,
) -> (r: Option<GatewayHealthSnapshot>)
    ensures
        health is None ==> r == previous,
        health matches Some(h) ==> (r matches Some(g) && health_snapshot_of(g, h, agent_version@)),
{
    match health {
        None => previous,
        Some(h) => {
            let capture_interfaces = if h.capture_interfaces.len() == 0 {
                let mut v: Vec<String> = Vec::new();
                v.push(h.capture_interface.clone());
                v
            } else {
                h.capture_interfaces
            };
            let topology = match h.topology {
                Some(t) => Some(
                    TopologySummarySnapshot {
                        topology_mode: t.topology_mode,
                        agent_addresses: t.agent_addresses,
                        upstream_gateway: t.upstream_gateway,
                        segments: t.segments,
                        nat_status: t.nat_status,
                        attach_backend: t.attach_backend,
                        attach_order: t.attach_order,
                        ipv4_coverage: t.ipv4_coverage,
                        ipv6_coverage: t.ipv6_coverage,
                        icmp_redirect: t.icmp_redirect,
                        software_flow_offload: t.software_flow_offload.as_str().to_owned(),
                        hardware_flow_offload: t.hardware_flow_offload.as_str().to_owned(),
                        topology_warnings: t.topology_warnings,
                        confidence: t.confidence,
                        capture_interface: h.capture_interface.clone(),
                    },
                ),
                None => None,
            };
            Some(
                GatewayHealthSnapshot {
                    observed_at: h.observed_at_unix_ms,
                    uptime_seconds: h.uptime_seconds,
                    dropped_batches: h.dropped_batches,
                    dns_dropped_events: h.dns_dropped_events,
                    protocol_probe_dropped_events: h.protocol_probe_dropped_events,
                    tracked_flows: h.tracked_flows,
                    agent_version: agent_version.to_owned(),
                    kernel_version: h.kernel_version,
                    openwrt_version: h.openwrt_version,
                    hardware_flow_offload: h.hardware_flow_offload.as_str().to_owned(),
                    capture_interface: h.capture_interface,
                    capture_interfaces,
                    interface_rx_bytes: h.interface_rx_bytes,
                    interface_tx_bytes: h.interface_tx_bytes,
                    interface_rx_packets: h.interface_rx_packets,
                    interface_tx_packets: h.interface_tx_packets,
                    interface_delta_bytes: h.interface_delta_bytes,
                    interface_delta_packets: h.interface_delta_packets,
                    flow_delta_bytes: h.flow_delta_bytes,
                    flow_delta_packets: h.flow_delta_packets,
                    interface_counter_sanity: h.interface_counter_sanity.as_str().to_owned(),
                    topology,
                },
            )
        },
    }
}

/// The last `n` elements of `s` (all of them when there are fewer).
pub open spec fn keep_last<A>(s: Seq<A>, n: nat) -> Seq<A> {
    if s.len() > n {
        s.skip(s.len() - n)
    } else {
        s
    }
}

/// Law: the history after an update holds the newest point last, as many
/// points as there were plus one up to the limit, and the earlier points
/// in their order.
pub proof fn lemma_history_window(h: Seq<ThroughputPoint>, p: ThroughputPoint)
    ensures
        ({
            let r = keep_last(h.push(p), MAX_HISTORY_POINTS as nat);
            &&& r.len() == if h.len() + 1 > MAX_HISTORY_POINTS { MAX_HISTORY_POINTS as int } else { h.len() + 1int }
            &&& r.last() == p
            &&& forall|i: int| 0 <= i < r.len() ==> #[trigger] r[i] == h.push(p)[h.len() + 1 - r.len() + i]
        }),
{
}

/// Appends a point to the rate history and drops the oldest points beyond
/// fifteen minutes' worth.
pub fn push_history(history: &mut Vec<ThroughputPoint>, point: ThroughputPoint)
    requires
        old(history)@.len() <= MAX_HISTORY_POINTS,
    ensures
        final(history)@ == keep_last(old(history)@.push(point), MAX_HISTORY_POINTS as nat),
        final(history)@.len() <= MAX_HISTORY_POINTS,
{
    let ghost all = history@.push(point);
    history.push(point);
    if history.len() > MAX_HISTORY_POINTS {
        history.remove(0);
        assert(history@ =~= all.skip(all.len() - MAX_HISTORY_POINTS));
    }
}

/// A device the agent saw, with its address already in text form.
#[derive(Clone, Debug)]
pub struct DeviceObservationInput {
    pub ip: String,
    pub mac: Vec<u8>,
    pub hostname: String,
    pub last_seen_unix_ms: u64,
}

#[derive(Clone, Debug, PartialEq, Eq)]
pub struct GatewayStatusEvent {
    pub gateway_id: String,
    pub status: String,
    pub observed_at: u64,
}

#[derive(Clone, Debug, PartialEq, Eq)]
pub struct DeviceSeenEvent {
    pub gateway_id: String,
    pub ip: String,
    pub mac: String,
    pub hostname: Option<String>,
    pub observed_at: u64,
}

#[derive(Clone, Debug, PartialEq, Eq)]
pub struct WarningEvent {
    pub code: String,
    pub message: String,
    pub observed_at: u64,
}

/// What the live stream publishes. `Snapshot` announces that the engine's
/// snapshot has been replaced; subscribers read it from the engine.
#[derive(Clone, Debug, PartialEq, Eq)]
pub enum RealtimeEvent {
    Snapshot,
    GatewayStatus(GatewayStatusEvent),
    DeviceSeen(DeviceSeenEvent),
    Warning(WarningEvent),
}

impl RealtimeEvent {
    pub open spec fn name_spec(&self) -> Seq<char> {
        match self {
            RealtimeEvent::Snapshot => "snapshot"@,
            RealtimeEvent::GatewayStatus(_) => "gateway_status"@,
            RealtimeEvent::DeviceSeen(_) => "device_seen"@,
            RealtimeEvent::Warning(_) => "warning"@,
        }
    }

    /// The event's name on the stream.
    pub fn name(&self) -> (r: &'static str)
        ensures
            r@ == self.name_spec(),
    {
        match self {
            RealtimeEvent::Snapshot => "snapshot",
            RealtimeEvent::GatewayStatus(_) => "gateway_status",
            RealtimeEvent::DeviceSeen(_) => "device_seen",
            RealtimeEvent::Warning(_) => "warning",
        }
    }
}

/// A gateway-status event.
pub fn gateway_status(gateway_id: &str, status: &str, observed_at: u64) -> (e: RealtimeEvent)
    ensures
        e matches RealtimeEvent::GatewayStatus(g) && g.gateway_id@ == gateway_id@ && g.status@
            == status@ && g.observed_at == observed_at,
{
    RealtimeEvent::GatewayStatus(
        GatewayStatusEvent {
            gateway_id: gateway_id.to_owned(),
            status: status.to_owned(),
            observed_at,
        },
    )
}

/// The event announcing a seen device: its address, hardware address text,
/// host name when it has one, and when it was seen.
pub open spec fn device_event_of(e: RealtimeEvent, gateway_id: Seq<char>, d: DeviceObservationInput) -> bool {
    &&& e matches RealtimeEvent::DeviceSeen(v)
    &&& v.gateway_id@ == gateway_id
    &&& v.ip@ == d.ip@
    &&& v.mac@ == format_mac_spec(d.mac@)
    &&& opt_string_view(v.hostname) == if d.hostname@.len() == 0 {
        None::<Seq<char>>
    } else {
        Some(d.hostname@)
    }
    &&& v.observed_at == d.last_seen_unix_ms
}

/// How many attributions name no application.
pub open spec fn unknown_count(attributions: Seq<FlowAttribution>) -> nat
    decreases attributions.len(),
{
    if attributions.len() == 0 {
        0
    } else {
        unknown_count(attributions.drop_last()) + if attributions.last().application_id@
            == "unknown"@ {
            1nat
        } else {
            0nat
        }
    }
}

/// The events a batch publishes, in order: the gateway is online, each
/// device seen, a warning when some flows had no application, and the new
/// snapshot.
pub open spec fn batch_events_spec(
    events: Seq<RealtimeEvent>,
    gateway_id: Seq<char>,
    devices: Seq<DeviceObservationInput>,
    attributions: Seq<FlowAttribution>,
    observed_at: u64,
) -> bool {
    let n = devices.len();
    let warn = unknown_count(attributions) > 0;
    &&& events.len() == 2 + n + if warn { 1int } else { 0int }
    &&& events[0] matches RealtimeEvent::GatewayStatus(g) && g.gateway_id@ == gateway_id
        && g.status@ == "online"@ && g.observed_at == observed_at
    &&& forall|i: int| 0 <= i < n ==> #[trigger] device_event_of(events[1 + i], gateway_id, devices[i])
    &&& warn ==> (events[1 + n as int] matches RealtimeEvent::Warning(w) && w.code@ == "unclassified_flows"@
        && w.message@ == decimal(unknown_count(attributions)) + " flows had no matching application rule"@
        && w.observed_at == observed_at)
    &&& events.last() == RealtimeEvent::Snapshot
}

fn count_unknown(attributions: &Vec<FlowAttribution>) -> (r: u64)
    ensures
        r == unknown_count(attributions@),
{
    let mut n: u64 = 0;
    let mut i: usize = 0;
    while i < attributions.len()
        invariant
            i <= attributions@.len(),
            n == unknown_count(attributions@.take(i as int)),
            n <= i,
        decreases attributions@.len() - i,
    {
        assert(attributions@.take(i as int + 1).drop_last() =~= attributions@.take(i as int));
        if str_eq(attributions[i].application_id.as_str(), "unknown") {
            n = n + 1;
        }
        i = i + 1;
    }
    assert(attributions@.take(attributions@.len() as int) =~= attributions@);
    n
}

/// The events a batch publishes.
pub fn batch_events(
    gateway_id: &str,
    devices: &Vec<DeviceObservationInput>,
    attributions: &Vec<FlowAttribution>,
    observed_at: u64,
) -> (events: Vec<RealtimeEvent>)
    ensures
        batch_events_spec(events@, gateway_id@, devices@, attributions@, observed_at),
{
    let mut events: Vec<RealtimeEvent> = Vec::new();
    events.push(gateway_status(gateway_id, "online", observed_at));
    let mut i: usize = 0;
    while i < devices.len()
        invariant
            i <= devices@.len(),
            events@.len() == 1 + i,
            events@[0] matches RealtimeEvent::GatewayStatus(g) && g.gateway_id@ == gateway_id@
                && g.status@ == "online"@ && g.observed_at == observed_at,
            forall|k: int| 0 <= k < i ==> #[trigger] device_event_of(events@[1 + k], gateway_id@, devices@[k]),
        decreases devices@.len() - i,
    {
        let d = &devices[i];
        let hostname = if d.hostname.as_str().is_empty() {
            None
        } else {
            Some(d.hostname.clone())
        };
        events.push(
            RealtimeEvent::DeviceSeen(
                DeviceSeenEvent {
                    gateway_id: gateway_id.to_owned(),
                    ip: d.ip.clone(),
                    mac: format_mac(d.mac.as_slice()),
                    hostname,
                    observed_at: d.last_seen_unix_ms,
                },
            ),
        );
        i = i + 1;
    }
    let unknown = count_unknown(attributions);
    if unknown > 0 {
        let mut text: Vec<char> = Vec::new();
        push_decimal(&mut text, unknown);
        push_str(&mut text, " flows had no matching application rule");
        events.push(
            RealtimeEvent::Warning(
                WarningEvent {
                    code: "unclassified_flows".to_owned(),
                    message: string_from_chars(text.as_slice()),
                    observed_at,
                },
            ),
        );
    }
    events.push(RealtimeEvent::Snapshot);
    events
}

/// The live view.
#[derive(Clone, Debug)]
pub struct RealtimeSnapshot {
    pub generated_at: u64,
    pub total: Throughput,
    pub internet: Throughput,
    pub internal: Throughput,
    pub tunnel: Throughput,
    pub unknown: Throughput,
    pub clients: Vec<(String, Throughput)>,
    pub client_scopes: Vec<(String, ScopedThroughput)>,
    pub applications: Vec<(String, Throughput)>,
    pub active_flows: Vec<ActiveFlow>,
    pub history: Vec<ThroughputPoint>,
    pub gateway_health: Option<GatewayHealthSnapshot>,
}

/// The live view before any batch: taken at time 0, every rate zero, no
/// clients, applications, active flows or history, and no gateway health.
pub open spec fn is_empty_snapshot(s: RealtimeSnapshot) -> bool {
    &&& s.generated_at == 0
    &&& s.total == zero_throughput()
    &&& s.internet == zero_throughput()
    &&& s.internal == zero_throughput()
    &&& s.tunnel == zero_throughput()
    &&& s.unknown == zero_throughput()
    &&& s.clients@.len() == 0
    &&& s.client_scopes@.len() == 0
    &&& s.applications@.len() == 0
    &&& s.active_flows@.len() == 0
    &&& s.history@.len() == 0
    &&& s.gateway_health is None
}

impl RealtimeSnapshot {
    pub fn empty() -> (s: Self)
        ensures
            is_empty_snapshot(s),
    {
        let zero = Throughput { upload_bytes_per_second: 0, download_bytes_per_second: 0 };
        RealtimeSnapshot {
            generated_at: 0,
            total: zero,
            internet: zero,
            internal: zero,
            tunnel: zero,
            unknown: zero,
            clients: Vec::new(),
            client_scopes: Vec::new(),
            applications: Vec::new(),
            active_flows: Vec::new(),
            history: Vec::new(),
            gateway_health: None,
        }
    }
}

/// `a` is the attribution of the `i`-th flow: its own, or the unknown
/// attribution when the batch has none for it.
pub open spec fn attribution_for(attributions: Seq<FlowAttribution>, i: int, a: FlowAttribution) -> bool {
    if 0 <= i < attributions.len() {
        a == attributions[i]
    } else {
        &&& a.application_id@ == "unknown"@
        &&& a.category_id@ == "unknown"@
        &&& a.domain is None
        &&& a.confidence_bits == 0
    }
}

/// The active set after the first `k` deltas of a batch, starting from
/// `start`: each delta applied in turn.
pub open spec fn deltas_applied(
    start: Seq<ActiveFlow>,
    end: Seq<ActiveFlow>,
    flows: Seq<RealtimeFlow>,
    attributions: Seq<FlowAttribution>,
    k: int,
) -> bool
    decreases k,
{
    if k <= 0 {
        end == start
    } else {
        exists|mid: Seq<ActiveFlow>, a: FlowAttribution|
            deltas_applied(start, mid, flows, attributions, k - 1) && attribution_for(
                attributions,
                k - 1,
                a,
            ) && #[trigger] active_update(mid, end, flows[k - 1], a)
    }
}

/// Eviction kept the newest flows of `before`, at most `MAX_ACTIVE_FLOWS`.
pub open spec fn evicted(before: Seq<ActiveFlow>, after: Seq<ActiveFlow>) -> bool {
    &&& after.len() == if before.len() > MAX_ACTIVE_FLOWS {
        MAX_ACTIVE_FLOWS as int
    } else {
        before.len() as int
    }
    &&& forall|j: int| 0 <= j < after.len() ==> before.contains(#[trigger] after[j])
    &&& forall|k: int, j: int|
        0 <= k < before.len() && !after.contains(before[k]) && 0 <= j < after.len()
            ==> older_or_same(#[trigger] before[k], #[trigger] after[j])
}

/// `after` lists the flows of `before` in display order.
pub open spec fn displayed(before: Seq<ActiveFlow>, after: Seq<ActiveFlow>) -> bool {
    &&& after.len() == before.len()
    &&& forall|x: ActiveFlow| before.contains(x) <==> after.contains(x)
    &&& forall|a: int, b: int|
        0 <= a < b < after.len() ==> shown_before(#[trigger] after[a], #[trigger] after[b])
}

/// Live throughput engine: the last snapshot, and when it was taken.
pub struct RealtimeEngine {
    snapshot: RealtimeSnapshot,
    last_update_at: Option<u64>,
}

impl RealtimeEngine {
    /// Active flows have distinct ids, none of them is marked ended, and the
    /// bounds hold.
    pub closed spec fn well_formed(&self) -> bool {
        &&& unique_ids(self.snapshot.active_flows@)
        &&& none_ended(self.snapshot.active_flows@)
        &&& self.snapshot.active_flows@.len() <= MAX_ACTIVE_FLOWS
        &&& self.snapshot.history@.len() <= MAX_HISTORY_POINTS
    }

    pub closed spec fn view_snapshot(&self) -> RealtimeSnapshot {
        self.snapshot
    }

    pub closed spec fn last_update(&self) -> Option<u64> {
        self.last_update_at
    }

    pub fn new() -> (e: Self)
        ensures
            e.well_formed(),
            e.last_update() is None,
            is_empty_snapshot(e.view_snapshot()),
    {
        RealtimeEngine { snapshot: RealtimeSnapshot::empty(), last_update_at: None }
    }

    /// The current live view.
    pub fn snapshot(&self) -> (s: &RealtimeSnapshot)
        ensures
            *s == self.view_snapshot(),
    {
        &self.snapshot
    }

    /// Folds a telemetry batch into the live view and returns the events to
    /// publish. Rates cover the time since the previous update (one second
    /// for the first); the history keeps fifteen minutes of internet rates;
    /// the active set takes each flow delta in turn, keeps the newest
    /// flows, and is listed most recent first.
    pub fn update(
        &mut self,
        gateway_id: &str,
        agent_version: &str,
        flows: &Vec<RealtimeFlow>,
        attributions: &Vec<FlowAttribution>,
        devices: &Vec<DeviceObservationInput>,
        health: Option<AgentHealthReport>,
        observed_at: u64,
    ) -> (events: Vec<RealtimeEvent>)
        requires
            old(self).well_formed(),
        ensures
            final(self).well_formed(),
            none_ended(final(self).view_snapshot().active_flows@),
            final(self).last_update() == Some(observed_at),
            ({
                let interval = interval_spec(old(self).last_update(), observed_at);
                let snap = final(self).view_snapshot();
                let summary = FlowDeltaSummary {
                    total: snap.total,
                    internet: snap.internet,
                    internal: snap.internal,
                    tunnel: snap.tunnel,
                    unknown: snap.unknown,
                    clients: snap.clients,
                    client_scopes: snap.client_scopes,
                    applications: snap.applications,
                };
                &&& snap.generated_at == observed_at
                &&& summary_exact(summary, flows@, attributions@, interval)
                &&& snap.history@ == keep_last(
                    old(self).view_snapshot().history@.push(
                        ThroughputPoint {
                            timestamp: observed_at,
                            upload_bytes_per_second: snap.internet.upload_bytes_per_second,
                            download_bytes_per_second: snap.internet.download_bytes_per_second,
                        },
                    ),
                    MAX_HISTORY_POINTS as nat,
                )
                &&& exists|applied: Seq<ActiveFlow>, kept: Seq<ActiveFlow>|
                    #[trigger] deltas_applied(
                        old(self).view_snapshot().active_flows@,
                        applied,
                        flows@,
                        attributions@,
                        flows@.len() as int,
                    ) && #[trigger] evicted(applied, kept) && displayed(kept, snap.active_flows@)
                &&& health is None ==> snap.gateway_health == old(self).view_snapshot().gateway_health
                &&& health matches Some(h) ==> (snap.gateway_health matches Some(g)
                    && health_snapshot_of(g, h, agent_version@))
            }),
            batch_events_spec(events@, gateway_id@, devices@, attributions@, observed_at),
    {
        let interval = update_interval(self.last_update_at, observed_at);
        self.last_update_at = Some(observed_at);
        let summary = summarize_flows(flows, attributions, interval);
        let ghost start = self.snapshot.active_flows@;
        let mut active: Vec<ActiveFlow> = Vec::new();
        std::mem::swap(&mut active, &mut self.snapshot.active_flows);
        let unknown = FlowAttribution::unknown();
        let mut i: usize = 0;
        while i < flows.len()
            invariant
                i <= flows@.len(),
                unique_ids(active@),
                none_ended(active@),
                attribution_for(attributions@, attributions@.len() as int, unknown),
                deltas_applied(start, active@, flows@, attributions@, i as int),
            decreases flows@.len() - i,
        {
            let attr = if i < attributions.len() {
                &attributions[i]
            } else {
                &unknown
            };
            let ghost mid = active@;
            update_active_flow(&mut active, &flows[i], attr);
            proof {
                let k = i as int + 1;
                assert(attribution_for(attributions@, k - 1, *attr));
                assert(active_update(mid, active@, flows@[k - 1], *attr));
                assert(deltas_applied(start, mid, flows@, attributions@, k - 1));
                assert(deltas_applied(start, active@, flows@, attributions@, i as int + 1));
                lemma_delta_keeps_none_ended(mid, active@, flows@[k - 1], *attr);
            }
            i = i + 1;
        }
        let ghost applied = active@;
        evict_oldest_flows(&mut active);
        let ghost kept = active@;
        assert forall|j: int| 0 <= j < kept.len() implies (#[trigger] kept[j]).lifecycle@ != "ended"@ by {
            assert(applied.contains(kept[j]));
        }
        let sorted = sort_for_display(active);
        assert forall|j: int| 0 <= j < sorted@.len() implies (#[trigger] sorted@[j]).lifecycle@ != "ended"@ by {
            assert(sorted@.contains(sorted@[j]));
            assert(kept.contains(sorted@[j]));
        }
        let mut history: Vec<ThroughputPoint> = Vec::new();
        std::mem::swap(&mut history, &mut self.snapshot.history);
        push_history(
            &mut history,
            ThroughputPoint {
                timestamp: observed_at,
                upload_bytes_per_second: summary.internet.upload_bytes_per_second,
                download_bytes_per_second: summary.internet.download_bytes_per_second,
            },
        );
        let mut previous: Option<GatewayHealthSnapshot> = None;
        std::mem::swap(&mut previous, &mut self.snapshot.gateway_health);
        let gateway_health = gateway_health_snapshot(previous, health, agent_version);
        self.snapshot = RealtimeSnapshot {
            generated_at: observed_at,
            total: summary.total,
            internet: summary.internet,
            internal: summary.internal,
            tunnel: summary.tunnel,
            unknown: summary.unknown,
            clients: summary.clients,
            client_scopes: summary.client_scopes,
            applications: summary.applications,
            active_flows: sorted,
            history,
            gateway_health,
        };
        proof {
            assert(deltas_applied(start, applied, flows@, attributions@, flows@.len() as int));
            assert(evicted(applied, kept));
        }
        batch_events(gateway_id, devices, attributions, observed_at)
    }
}

/// Law: once a flow's end is reported, no active flow carries its id; a
/// delta of an active or idle flow leaves exactly one entry with its id.
pub proof fn lemma_flow_presence_after_delta(
    old_set: Seq<ActiveFlow>,
    new_set: Seq<ActiveFlow>,
    flow: RealtimeFlow,
    attr: FlowAttribution,
)
    requires
        unique_ids(old_set),
        unique_ids(new_set),
        active_update(old_set, new_set, flow, attr),
    ensures
        flow.lifecycle == FlowLifecycle::Ended ==> forall|j: int|
            0 <= j < new_set.len() ==> #[trigger] new_set[j].id@ != flow_id_spec(flow),
        (flow.lifecycle == FlowLifecycle::Active || flow.lifecycle == FlowLifecycle::Idle)
            ==> id_index(new_set, flow_id_spec(flow)) is Some,
{
    let id = flow_id_spec(flow);
    if flow.lifecycle == FlowLifecycle::Ended {
        match id_index(old_set, id) {
            Some(i) => {
                assert forall|j: int| 0 <= j < new_set.len() implies #[trigger] new_set[j].id@ != id by {
                    if j < i {
                        assert(new_set[j] == old_set[j]);
                        assert(old_set[j].id@ != old_set[i].id@);
                    } else {
                        assert(new_set[j] == old_set[j + 1]);
                        assert(old_set[i].id@ != old_set[j + 1].id@);
                    }
                }
            },
            None => {},
        }
    } else if flow.lifecycle == FlowLifecycle::Active || flow.lifecycle == FlowLifecycle::Idle {
        match id_index(old_set, id) {
            Some(i) => {
                assert(new_set[i].id@ == id);
            },
            None => {
                let x = choose|x: ActiveFlow| is_initial(x, flow, attr) && merged(x, new_set.last(), flow, attr);
                assert(new_set[new_set.len() - 1].id@ == id);
            },
        }
    }
}


/// Keyed sums over the keys of the first `m` entries, added up.
pub open spec fn entries_keyed(e: Seq<(Seq<char>, Throughput)>, keys: Seq<Seq<char>>, vals: Seq<int>, k: int, m: int) -> int
    decreases m,
{
    if m <= 0 {
        0
    } else {
        entries_keyed(e, keys, vals, k, m - 1) + keyed_sum(keys, vals, e[m - 1].0, k)
    }
}

/// Upload (`upload`) or download rates of the first `m` entries, added up.
pub open spec fn entries_rate_sum(e: Seq<(Seq<char>, Throughput)>, upload: bool, m: int) -> int
    decreases m,
{
    if m <= 0 {
        0
    } else {
        entries_rate_sum(e, upload, m - 1) + if upload {
            e[m - 1].1.upload_bytes_per_second as int
        } else {
            e[m - 1].1.download_bytes_per_second as int
        }
    }
}

pub open spec fn distinct_entry_keys(e: Seq<(Seq<char>, Throughput)>) -> bool {
    forall|a: int, b: int| #![trigger e[a], e[b]] 0 <= a < b < e.len() ==> e[a].0 != e[b].0
}

proof fn lemma_entries_keyed_step(e: Seq<(Seq<char>, Throughput)>, keys: Seq<Seq<char>>, vals: Seq<int>, k: int, m: int)
    requires
        distinct_entry_keys(e),
        1 <= k,
        0 <= m <= e.len(),
    ensures
        entries_keyed(e, keys, vals, k, m) == entries_keyed(e, keys, vals, k - 1, m) + if exists|j: int|
            0 <= j < m && #[trigger] e[j].0 == keys[k - 1] {
            vals[k - 1]
        } else {
            0
        },
    decreases m,
{
    if m > 0 {
        lemma_entries_keyed_step(e, keys, vals, k, m - 1);
        if e[m - 1].0 == keys[k - 1] {
            assert(!exists|j: int| 0 <= j < m - 1 && #[trigger] e[j].0 == keys[k - 1]) by {
                if exists|j: int| 0 <= j < m - 1 && #[trigger] e[j].0 == keys[k - 1] {
                    let j = choose|j: int| 0 <= j < m - 1 && #[trigger] e[j].0 == keys[k - 1];
                    assert(e[j].0 != e[m - 1].0);
                }
            }
        } else {
            if exists|j: int| 0 <= j < m && #[trigger] e[j].0 == keys[k - 1] {
                let j = choose|j: int| 0 <= j < m && #[trigger] e[j].0 == keys[k - 1];
                assert(j < m - 1);
            }
        }
    }
}

/// Some entry carries the key.
pub open spec fn key_listed(e: Seq<(Seq<char>, Throughput)>, key: Seq<char>) -> bool {
    exists|j: int| 0 <= j < e.len() && #[trigger] e[j].0 == key
}

proof fn lemma_entries_keyed_total(e: Seq<(Seq<char>, Throughput)>, keys: Seq<Seq<char>>, vals: Seq<int>, k: int)
    requires
        distinct_entry_keys(e),
        0 <= k <= keys.len(),
        forall|i: int| 0 <= i < k ==> key_listed(e, #[trigger] keys[i]),
    ensures
        entries_keyed(e, keys, vals, k, e.len() as int) == keyed_sum(one_key(keys.len()), vals, Seq::empty(), k),
    decreases k,
{
    if k == 0 {
        assert(entries_keyed(e, keys, vals, 0, e.len() as int) == 0) by {
            lemma_entries_keyed_zero(e, keys, vals, e.len() as int);
        }
    } else {
        lemma_entries_keyed_total(e, keys, vals, k - 1);
        assert(key_listed(e, keys[k - 1]));
        lemma_entries_keyed_step(e, keys, vals, k, e.len() as int);
        assert(keys[k - 1] == keys[k - 1]);
        assert(one_key(keys.len())[k - 1] == Seq::<char>::empty());
    }
}

proof fn lemma_entries_keyed_zero(e: Seq<(Seq<char>, Throughput)>, keys: Seq<Seq<char>>, vals: Seq<int>, m: int)
    requires
        0 <= m <= e.len(),
    ensures
        entries_keyed(e, keys, vals, 0, m) == 0,
    decreases m,
{
    if m > 0 {
        lemma_entries_keyed_zero(e, keys, vals, m - 1);
    }
}

proof fn lemma_keyed_sum_within_total(keys: Seq<Seq<char>>, vals: Seq<int>, key: Seq<char>, k: int)
    requires
        0 <= k <= keys.len(),
        forall|i: int| 0 <= i < keys.len() ==> 0 <= #[trigger] vals[i],
    ensures
        0 <= keyed_sum(keys, vals, key, k) <= keyed_sum(one_key(keys.len()), vals, Seq::empty(), k),
    decreases k,
{
    if k > 0 {
        lemma_keyed_sum_within_total(keys, vals, key, k - 1);
        assert(one_key(keys.len())[k - 1] == Seq::<char>::empty());
        assert(vals[k - 1] >= 0);
    }
}

proof fn lemma_entries_rates(
    e: Seq<(Seq<char>, Throughput)>,
    keys: Seq<Seq<char>>,
    ups: Seq<int>,
    downs: Seq<int>,
    n: int,
    upload: bool,
    m: int,
)
    requires
        n == keys.len() == ups.len() == downs.len(),
        forall|i: int| 0 <= i < n ==> 0 <= #[trigger] ups[i],
        forall|i: int| 0 <= i < n ==> 0 <= #[trigger] downs[i],
        aggregated(e, keys, ups, downs, n),
        keyed_sum(one_key(keys.len()), ups, Seq::empty(), n) <= u64::MAX,
        keyed_sum(one_key(keys.len()), downs, Seq::empty(), n) <= u64::MAX,
        0 <= m <= e.len(),
    ensures
        entries_rate_sum(e, upload, m) == entries_keyed(e, keys, if upload { ups } else { downs }, n, m),
    decreases m,
{
    if m > 0 {
        lemma_entries_rates(e, keys, ups, downs, n, upload, m - 1);
        let key = e[m - 1].0;
        assert(e[m - 1].1 == keyed_throughput(keys, ups, downs, key, n));
        lemma_keyed_sum_within_total(keys, ups, key, n);
        lemma_keyed_sum_within_total(keys, downs, key, n);
    }
}

/// Law: when a batch's rates do not saturate, its clients' rates add up to
/// the batch's overall rate, and so do its applications' rates, in each
/// direction.
pub proof fn lemma_clients_and_applications_sum_to_total(
    s: FlowDeltaSummary,
    flows: Seq<RealtimeFlow>,
    attributions: Seq<FlowAttribution>,
    interval: u64,
)
    requires
        interval > 0,
        summary_exact(s, flows, attributions, interval),
        keyed_sum(one_key(flows.len()), flow_rates(flows, interval, true), Seq::empty(), flows.len() as int)
            <= u64::MAX,
        keyed_sum(one_key(flows.len()), flow_rates(flows, interval, false), Seq::empty(), flows.len() as int)
            <= u64::MAX,
    ensures
        entries_rate_sum(entries_view(s.clients@), true, s.clients@.len() as int) == s.total.upload_bytes_per_second,
        entries_rate_sum(entries_view(s.clients@), false, s.clients@.len() as int) == s.total.download_bytes_per_second,
        entries_rate_sum(entries_view(s.applications@), true, s.applications@.len() as int)
            == s.total.upload_bytes_per_second,
        entries_rate_sum(entries_view(s.applications@), false, s.applications@.len() as int)
            == s.total.download_bytes_per_second,
{
    let n = flows.len() as int;
    let ups = flow_rates(flows, interval, true);
    let downs = flow_rates(flows, interval, false);
    assert forall|i: int| 0 <= i < n implies 0 <= #[trigger] ups[i] by {
        assert(rate_spec(flows[i].upload_bytes, interval) >= 0) by (nonlinear_arith)
            requires
                interval > 0,
                rate_spec(flows[i].upload_bytes, interval) == (if flows[i].upload_bytes * 1000 > u64::MAX {
                    u64::MAX as int
                } else {
                    flows[i].upload_bytes * 1000
                }) / interval as int,
        ;
    }
    assert forall|i: int| 0 <= i < n implies 0 <= #[trigger] downs[i] by {
        assert(rate_spec(flows[i].download_bytes, interval) >= 0) by (nonlinear_arith)
            requires
                interval > 0,
                rate_spec(flows[i].download_bytes, interval) == (if flows[i].download_bytes * 1000 > u64::MAX {
                    u64::MAX as int
                } else {
                    flows[i].download_bytes * 1000
                }) / interval as int,
        ;
    }
    let ck = client_keys(flows);
    let ak = application_keys(flows, attributions);
    let ce = entries_view(s.clients@);
    let ae = entries_view(s.applications@);
    assert(one_key(ck.len()) == one_key(flows.len()));
    assert(one_key(ak.len()) == one_key(flows.len()));
    lemma_entries_rates(ce, ck, ups, downs, n, true, ce.len() as int);
    lemma_entries_rates(ce, ck, ups, downs, n, false, ce.len() as int);
    lemma_entries_rates(ae, ak, ups, downs, n, true, ae.len() as int);
    lemma_entries_rates(ae, ak, ups, downs, n, false, ae.len() as int);
    assert(aggregated(ce, ck, ups, downs, n));
    assert(aggregated(ae, ak, ups, downs, n));
    assert(distinct_entry_keys(ce));
    assert(distinct_entry_keys(ae));
    assert forall|i: int| 0 <= i < n implies key_listed(ce, #[trigger] ck[i]) by {
        assert(exists|j: int| 0 <= j < ce.len() && #[trigger] ce[j].0 == ck[i]);
    }
    assert forall|i: int| 0 <= i < n implies key_listed(ae, #[trigger] ak[i]) by {
        assert(exists|j: int| 0 <= j < ae.len() && #[trigger] ae[j].0 == ak[i]);
    }
    lemma_entries_keyed_total(ce, ck, ups, n);
    lemma_entries_keyed_total(ce, ck, downs, n);
    lemma_entries_keyed_total(ae, ak, ups, n);
    lemma_entries_keyed_total(ae, ak, downs, n);
    assert(ce.len() == s.clients@.len());
    assert(ae.len() == s.applications@.len());
    let tu = keyed_sum(one_key(flows.len()), ups, Seq::empty(), n);
    let td = keyed_sum(one_key(flows.len()), downs, Seq::empty(), n);
    assert(entries_rate_sum(ce, true, ce.len() as int) == entries_keyed(ce, ck, ups, n, ce.len() as int));
    assert(entries_keyed(ce, ck, ups, n, ce.len() as int) == keyed_sum(one_key(ck.len()), ups, Seq::empty(), n));
    assert(entries_rate_sum(ce, true, ce.len() as int) == tu);
    assert(entries_rate_sum(ce, false, ce.len() as int) == td);
    lemma_keyed_sum_nonneg(one_key(flows.len()), ups, Seq::empty(), n);
    lemma_keyed_sum_nonneg(one_key(flows.len()), downs, Seq::empty(), n);
}

} // verus!
