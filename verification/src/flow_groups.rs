//! Per-client groupings of stored flows that insights read: the share of
//! traffic no application rule identified, per client and overall; how many
//! distinct destinations each client reached; protocols first seen in a
//! window; and which encrypted-DNS rule a flow meets.

use vstd::prelude::*;

use crate::ingest::{copy_bytes, sat_add};
use crate::insight_rules::AnalyticsFlow;
use crate::insights_model::{format_mac, format_mac_spec, AffectedClient, InsightSeverity, InsightWindow};
use crate::keyed::{has_key, key_index, lemma_key_index, lemma_lookup_at, lemma_put, lookup, put, unique_keys};
use crate::sampling::bytes_eq;
use crate::text::{chars_of, str_eq, string_from_chars};

verus! {

/// A client of the insights: the device id and the client address.
pub type ClientKey = (u64, Seq<u8>);

/// A client whose traffic counts toward the per-client unknown share once
/// it reaches this many bytes.
pub const CLIENT_UNKNOWN_MIN_BYTES: u64 = 1_048_576;

/// A client reaching this many distinct destinations is reported.
pub const FANOUT_MIN_DESTINATIONS: usize = 50;

/// From this many distinct destinations the report is a warning.
pub const FANOUT_WARNING_DESTINATIONS: usize = 100;

/// Upload plus download of a flow, held at `u64::MAX`.
pub open spec fn flow_total(f: AnalyticsFlow) -> u64 {
    sat_add(f.upload_bytes, f.download_bytes)
}

/// No application rule identified the flow.
pub open spec fn unknown_app(f: AnalyticsFlow) -> bool {
    f.application_id@ == "unknown"@
}

pub open spec fn max_u64(a: u64, b: u64) -> u64 {
    if a >= b {
        a
    } else {
        b
    }
}

pub open spec fn client_key(f: AnalyticsFlow) -> ClientKey {
    (f.device_id, f.client_ip@)
}

fn flow_total_exec(f: &AnalyticsFlow) -> (r: u64)
    ensures
        r == flow_total(*f),
{
    f.upload_bytes.saturating_add(f.download_bytes)
}

fn unknown_app_exec(f: &AnalyticsFlow) -> (r: bool)
    ensures
        r == unknown_app(*f),
{
    str_eq(f.application_id.as_str(), "unknown")
}

/// Unknown bytes, all bytes (each sum held at `u64::MAX`) and the latest
/// time of the first `n` flows (0 without flows).
pub open spec fn unknown_share_spec(flows: Seq<AnalyticsFlow>, n: int) -> (u64, u64, u64)
    decreases n,
{
    if n <= 0 {
        (0, 0, 0)
    } else {
        let p = unknown_share_spec(flows, n - 1);
        let f = flows[n - 1];
        let b = flow_total(f);
        (
            if unknown_app(f) {
                sat_add(p.0, b)
            } else {
                p.0
            },
            sat_add(p.1, b),
            max_u64(p.2, f.last_seen_at),
        )
    }
}

/// The window's unknown share: unknown and total bytes, and when it was
/// last seen.
#[derive(Clone, Copy, Debug, PartialEq, Eq)]
pub struct UnknownShare {
    pub unknown_bytes: u64,
    pub total_bytes: u64,
    pub time: u64,
}

/// The share of a window's traffic that no application rule identified:
/// nothing when the flows carry no bytes; the time is the latest flow's,
/// or the window's end without flows.
pub fn unknown_share(flows: &Vec<AnalyticsFlow>, window_to: u64) -> (r: Option<UnknownShare>)
    ensures
        ({
            let s = unknown_share_spec(flows@, flows@.len() as int);
            match r {
                None => s.1 == 0,
                Some(u) => s.1 != 0 && u.unknown_bytes == s.0 && u.total_bytes == s.1 && u.time == (
                if flows@.len() == 0 {
                    window_to
                } else {
                    s.2
                }),
            }
        }),
{
    let mut unknown: u64 = 0;
    let mut total: u64 = 0;
    let mut time: u64 = 0;
    let mut i: usize = 0;
    while i < flows.len()
        invariant
            i <= flows@.len(),
            (unknown, total, time) == unknown_share_spec(flows@, i as int),
        decreases flows@.len() - i,
    {
        let b = flow_total_exec(&flows[i]);
        if unknown_app_exec(&flows[i]) {
            unknown = unknown.saturating_add(b);
        }
        total = total.saturating_add(b);
        if flows[i].last_seen_at > time {
            time = flows[i].last_seen_at;
        }
        i = i + 1;
    }
    if total == 0 {
        return None;
    }
    Some(UnknownShare { unknown_bytes: unknown, total_bytes: total, time: if flows.len() == 0 { window_to } else { time } })
}

/// Per client, in the order clients first appear: unknown bytes, all bytes
/// (held at `u64::MAX`) and the latest time, over the first `n` flows.
pub open spec fn client_traffic_table(flows: Seq<AnalyticsFlow>, n: int) -> Seq<(ClientKey, (u64, u64, u64))>
    decreases n,
{
    if n <= 0 {
        Seq::empty()
    } else {
        let prev = client_traffic_table(flows, n - 1);
        let f = flows[n - 1];
        let old = match lookup(prev, client_key(f)) {
            Some(v) => v,
            None => (0u64, 0u64, 0u64),
        };
        let b = flow_total(f);
        put(
            prev,
            client_key(f),
            (
                if unknown_app(f) {
                    sat_add(old.0, b)
                } else {
                    old.0
                },
                sat_add(old.1, b),
                max_u64(old.2, f.last_seen_at),
            ),
        )
    }
}

/// A client's traffic in a window.
#[derive(Clone, Debug, PartialEq, Eq)]
pub struct ClientTraffic {
    pub device_id: u64,
    pub client_ip: Vec<u8>,
    pub unknown_bytes: u64,
    pub total_bytes: u64,
    pub last_seen_at: u64,
}

pub open spec fn client_traffic_view(c: ClientTraffic) -> (ClientKey, (u64, u64, u64)) {
    ((c.device_id, c.client_ip@), (c.unknown_bytes, c.total_bytes, c.last_seen_at))
}

pub open spec fn client_traffic_seq(v: Seq<ClientTraffic>) -> Seq<(ClientKey, (u64, u64, u64))> {
    v.map_values(|c: ClientTraffic| client_traffic_view(c))
}

/// A client's traffic is mostly unknown: at least the minimum, with the
/// unknown part doubled (held at `u64::MAX`) reaching the total.
pub open spec fn mostly_unknown(e: (ClientKey, (u64, u64, u64))) -> bool {
    &&& e.1.1 >= CLIENT_UNKNOWN_MIN_BYTES
    &&& (if e.1.0 * 2 > u64::MAX { u64::MAX as int } else { e.1.0 * 2 }) >= e.1.1
}

/// The entries among the first `n` that are mostly unknown, in order.
pub open spec fn mostly_unknown_entries(t: Seq<(ClientKey, (u64, u64, u64))>, n: int) -> Seq<(ClientKey, (u64, u64, u64))>
    decreases n,
{
    if n <= 0 {
        Seq::empty()
    } else {
        let prev = mostly_unknown_entries(t, n - 1);
        if mostly_unknown(t[n - 1]) {
            prev.push(t[n - 1])
        } else {
            prev
        }
    }
}

proof fn lemma_client_table_unique(flows: Seq<AnalyticsFlow>, n: int)
    requires
        0 <= n <= flows.len(),
    ensures
        unique_keys(client_traffic_table(flows, n)),
    decreases n,
{
    if n > 0 {
        lemma_client_table_unique(flows, n - 1);
        let prev = client_traffic_table(flows, n - 1);
        let f = flows[n - 1];
        let old = match lookup(prev, client_key(f)) {
            Some(v) => v,
            None => (0u64, 0u64, 0u64),
        };
        let b = flow_total(f);
        lemma_put(
            prev,
            client_key(f),
            (
                if unknown_app(f) {
                    sat_add(old.0, b)
                } else {
                    old.0
                },
                sat_add(old.1, b),
                max_u64(old.2, f.last_seen_at),
            ),
        );
    }
}

/// Where a client's entry is: its position, or none when absent.
fn find_client(t: &Vec<ClientTraffic>, device_id: u64, ip: &Vec<u8>) -> (r: Option<usize>)
    requires
        unique_keys(client_traffic_seq(t@)),
    ensures
        match r {
            Some(i) => i < t@.len() && key_index(client_traffic_seq(t@), (device_id, ip@)) == Some(i as int),
            None => !has_key(client_traffic_seq(t@), (device_id, ip@)),
        },
{
    let ghost v = client_traffic_seq(t@);
    let mut i: usize = 0;
    while i < t.len()
        invariant
            i <= t@.len(),
            v == client_traffic_seq(t@),
            unique_keys(v),
            forall|j: int| 0 <= j < i ==> (#[trigger] v[j]).0 != (device_id, ip@),
        decreases t@.len() - i,
    {
        if t[i].device_id == device_id && bytes_eq(t[i].client_ip.as_slice(), ip.as_slice()) {
            proof {
                assert(v[i as int].0 == (device_id, ip@));
                lemma_lookup_at(v, i as int);
            }
            return Some(i);
        }
        i = i + 1;
    }
    proof {
        lemma_key_index(v, (device_id, ip@));
    }
    None
}

/// Per-client traffic of a window, clients in the order they first appear.
pub fn client_traffic(flows: &Vec<AnalyticsFlow>) -> (r: Vec<ClientTraffic>)
    ensures
        client_traffic_seq(r@) == client_traffic_table(flows@, flows@.len() as int),
        unique_keys(client_traffic_seq(r@)),
{
    let mut t: Vec<ClientTraffic> = Vec::new();
    assert(client_traffic_seq(t@) =~= Seq::empty());
    let mut i: usize = 0;
    while i < flows.len()
        invariant
            i <= flows@.len(),
            client_traffic_seq(t@) == client_traffic_table(flows@, i as int),
        decreases flows@.len() - i,
    {
        proof {
            lemma_client_table_unique(flows@, i as int);
        }
        let f = &flows[i];
        let b = flow_total_exec(f);
        let unknown = unknown_app_exec(f);
        let ghost v = client_traffic_seq(t@);
        match find_client(&t, f.device_id, &f.client_ip) {
            Some(j) => {
                proof {
                    lemma_lookup_at(v, j as int);
                }
                let ou = t[j].unknown_bytes;
                let ot = t[j].total_bytes;
                let ol = t[j].last_seen_at;
                let u = if unknown { ou.saturating_add(b) } else { ou };
                let time = if f.last_seen_at > ol { f.last_seen_at } else { ol };
                let e = ClientTraffic {
                    device_id: t[j].device_id,
                    client_ip: copy_bytes(&t[j].client_ip),
                    unknown_bytes: u,
                    total_bytes: ot.saturating_add(b),
                    last_seen_at: time,
                };
                t.set(j, e);
                assert(client_traffic_seq(t@) =~= v.update(j as int, (client_key(*f), (u, e.total_bytes, time))));
            },
            None => {
                let time = f.last_seen_at;
                let e = ClientTraffic {
                    device_id: f.device_id,
                    client_ip: copy_bytes(&f.client_ip),
                    unknown_bytes: if unknown { b } else { 0 },
                    total_bytes: b,
                    last_seen_at: time,
                };
                t.push(e);
                assert(client_traffic_seq(t@) =~= v.push((client_key(*f), (e.unknown_bytes, b, time))));
            },
        }
        i = i + 1;
    }
    proof {
        lemma_client_table_unique(flows@, flows@.len() as int);
    }
    t
}

/// The clients whose traffic in the window is mostly unknown, in the order
/// they first appear.
pub fn mostly_unknown_clients(flows: &Vec<AnalyticsFlow>) -> (r: Vec<ClientTraffic>)
    ensures
        ({
            let t = client_traffic_table(flows@, flows@.len() as int);
            client_traffic_seq(r@) == mostly_unknown_entries(t, t.len() as int)
        }),
{
    let all = client_traffic(flows);
    let ghost t = client_traffic_seq(all@);
    let mut out: Vec<ClientTraffic> = Vec::new();
    assert(client_traffic_seq(out@) =~= Seq::empty());
    let mut i: usize = 0;
    while i < all.len()
        invariant
            i <= all@.len(),
            t == client_traffic_seq(all@),
            client_traffic_seq(out@) == mostly_unknown_entries(t, i as int),
        decreases all@.len() - i,
    {
        let c = &all[i];
        let doubled = if c.unknown_bytes > u64::MAX / 2 { u64::MAX } else { c.unknown_bytes * 2 };
        if c.total_bytes >= CLIENT_UNKNOWN_MIN_BYTES && doubled >= c.total_bytes {
            let ghost before = client_traffic_seq(out@);
            out.push(
                ClientTraffic {
                    device_id: c.device_id,
                    client_ip: copy_bytes(&c.client_ip),
                    unknown_bytes: c.unknown_bytes,
                    total_bytes: c.total_bytes,
                    last_seen_at: c.last_seen_at,
                },
            );
            assert(client_traffic_seq(out@) =~= before.push(t[i as int]));
        }
        i = i + 1;
    }
    out
}


/// Per client, in the order clients first appear: the distinct remote
/// addresses reached, in first-seen order, and the latest time, over the
/// first `n` flows.
pub open spec fn fanout_table(flows: Seq<AnalyticsFlow>, n: int) -> Seq<(ClientKey, (Seq<Seq<u8>>, u64))>
    decreases n,
{
    if n <= 0 {
        Seq::empty()
    } else {
        let prev = fanout_table(flows, n - 1);
        let f = flows[n - 1];
        let old = match lookup(prev, client_key(f)) {
            Some(v) => v,
            None => (Seq::<Seq<u8>>::empty(), 0u64),
        };
        put(
            prev,
            client_key(f),
            (
                if old.0.contains(f.remote_ip@) {
                    old.0
                } else {
                    old.0.push(f.remote_ip@)
                },
                max_u64(old.1, f.last_seen_at),
            ),
        )
    }
}

/// The distinct destinations a client reached in a window.
pub struct ClientFanout {
    pub device_id: u64,
    pub client_ip: Vec<u8>,
    pub destinations: Vec<Vec<u8>>,
    pub last_seen_at: u64,
}

pub open spec fn bytes_seqs(v: Seq<Vec<u8>>) -> Seq<Seq<u8>> {
    v.map_values(|b: Vec<u8>| b@)
}

pub open spec fn fanout_view(c: ClientFanout) -> (ClientKey, (Seq<Seq<u8>>, u64)) {
    ((c.device_id, c.client_ip@), (bytes_seqs(c.destinations@), c.last_seen_at))
}

pub open spec fn fanout_seq(v: Seq<ClientFanout>) -> Seq<(ClientKey, (Seq<Seq<u8>>, u64))> {
    v.map_values(|c: ClientFanout| fanout_view(c))
}

proof fn lemma_fanout_table_unique(flows: Seq<AnalyticsFlow>, n: int)
    requires
        0 <= n <= flows.len(),
    ensures
        unique_keys(fanout_table(flows, n)),
    decreases n,
{
    if n > 0 {
        lemma_fanout_table_unique(flows, n - 1);
        let prev = fanout_table(flows, n - 1);
        let f = flows[n - 1];
        let old = match lookup(prev, client_key(f)) {
            Some(v) => v,
            None => (Seq::<Seq<u8>>::empty(), 0u64),
        };
        lemma_put(
            prev,
            client_key(f),
            (
                if old.0.contains(f.remote_ip@) {
                    old.0
                } else {
                    old.0.push(f.remote_ip@)
                },
                max_u64(old.1, f.last_seen_at),
            ),
        );
    }
}

fn find_fanout(t: &Vec<ClientFanout>, device_id: u64, ip: &Vec<u8>) -> (r: Option<usize>)
    requires
        unique_keys(fanout_seq(t@)),
    ensures
        match r {
            Some(i) => i < t@.len() && key_index(fanout_seq(t@), (device_id, ip@)) == Some(i as int),
            None => !has_key(fanout_seq(t@), (device_id, ip@)),
        },
{
    let ghost v = fanout_seq(t@);
    let mut i: usize = 0;
    while i < t.len()
        invariant
            i <= t@.len(),
            v == fanout_seq(t@),
            unique_keys(v),
            forall|j: int| 0 <= j < i ==> (#[trigger] v[j]).0 != (device_id, ip@),
        decreases t@.len() - i,
    {
        if t[i].device_id == device_id && bytes_eq(t[i].client_ip.as_slice(), ip.as_slice()) {
            proof {
                assert(v[i as int].0 == (device_id, ip@));
                lemma_lookup_at(v, i as int);
            }
            return Some(i);
        }
        i = i + 1;
    }
    proof {
        lemma_key_index(v, (device_id, ip@));
    }
    None
}

fn contains_address(list: &Vec<Vec<u8>>, ip: &Vec<u8>) -> (r: bool)
    ensures
        r == bytes_seqs(list@).contains(ip@),
{
    let mut i: usize = 0;
    while i < list.len()
        invariant
            i <= list@.len(),
            forall|j: int| 0 <= j < i ==> (#[trigger] list@[j])@ != ip@,
        decreases list@.len() - i,
    {
        if bytes_eq(list[i].as_slice(), ip.as_slice()) {
            assert(bytes_seqs(list@)[i as int] == ip@);
            return true;
        }
        i = i + 1;
    }
    proof {
        if bytes_seqs(list@).contains(ip@) {
            let j = choose|j: int| 0 <= j < bytes_seqs(list@).len() && bytes_seqs(list@)[j] == ip@;
            assert(list@[j]@ == ip@);
        }
    }
    false
}

/// Each client's distinct destinations in a window, clients in the order
/// they first appear.
pub fn client_fanout(flows: &Vec<AnalyticsFlow>) -> (r: Vec<ClientFanout>)
    ensures
        fanout_seq(r@) == fanout_table(flows@, flows@.len() as int),
{
    let mut t: Vec<ClientFanout> = Vec::new();
    assert(fanout_seq(t@) =~= Seq::empty());
    let mut i: usize = 0;
    while i < flows.len()
        invariant
            i <= flows@.len(),
            fanout_seq(t@) == fanout_table(flows@, i as int),
        decreases flows@.len() - i,
    {
        proof {
            lemma_fanout_table_unique(flows@, i as int);
        }
        let f = &flows[i];
        let ghost v = fanout_seq(t@);
        match find_fanout(&t, f.device_id, &f.client_ip) {
            Some(j) => {
                proof {
                    lemma_lookup_at(v, j as int);
                }
                let seen = contains_address(&t[j].destinations, &f.remote_ip);
                let ol = t[j].last_seen_at;
                let time = if f.last_seen_at > ol { f.last_seen_at } else { ol };
                let mut entry = ClientFanout {
                    device_id: t[j].device_id,
                    client_ip: copy_bytes(&t[j].client_ip),
                    destinations: Vec::new(),
                    last_seen_at: time,
                };
                let ghost old_dest = bytes_seqs(t@[j as int].destinations@);
                let mut k: usize = 0;
                while k < t[j].destinations.len()
                    invariant
                        j < t@.len(),
                        k <= t@[j as int].destinations@.len(),
                        old_dest == bytes_seqs(t@[j as int].destinations@),
                        bytes_seqs(entry.destinations@) == old_dest.take(k as int),
                        entry.device_id == t@[j as int].device_id,
                        entry.client_ip@ == t@[j as int].client_ip@,
                        entry.last_seen_at == time,
                    decreases t@[j as int].destinations@.len() - k,
                {
                    let ghost before = bytes_seqs(entry.destinations@);
                    let d = copy_bytes(&t[j].destinations[k]);
                    entry.destinations.push(d);
                    assert(bytes_seqs(entry.destinations@) =~= before.push(old_dest[k as int]));
                    assert(old_dest.take(k as int + 1) =~= old_dest.take(k as int).push(old_dest[k as int]));
                    k = k + 1;
                }
                assert(old_dest.take(k as int) =~= old_dest);
                if !seen {
                    let ghost before = bytes_seqs(entry.destinations@);
                    entry.destinations.push(copy_bytes(&f.remote_ip));
                    assert(bytes_seqs(entry.destinations@) =~= before.push(f.remote_ip@));
                }
                let ghost ev = fanout_view(entry);
                t.set(j, entry);
                assert(fanout_seq(t@) =~= v.update(j as int, ev));
            },
            None => {
                let mut dests: Vec<Vec<u8>> = Vec::new();
                dests.push(copy_bytes(&f.remote_ip));
                let e = ClientFanout {
                    device_id: f.device_id,
                    client_ip: copy_bytes(&f.client_ip),
                    destinations: dests,
                    last_seen_at: f.last_seen_at,
                };
                assert(bytes_seqs(e.destinations@) =~= Seq::<Seq<u8>>::empty().push(f.remote_ip@));
                let ghost ev = fanout_view(e);
                t.push(e);
                assert(fanout_seq(t@) =~= v.push(ev));
            },
        }
        i = i + 1;
    }
    t
}

/// A client that reached many distinct destinations in a window.
#[derive(Clone, Debug, PartialEq, Eq)]
pub struct FanoutFinding {
    pub device_id: u64,
    pub client_ip: Vec<u8>,
    pub destination_count: usize,
    pub last_seen_at: u64,
    pub severity: InsightSeverity,
}

pub open spec fn fanout_severity(count: int) -> InsightSeverity {
    if count >= FANOUT_WARNING_DESTINATIONS {
        InsightSeverity::Warning
    } else {
        InsightSeverity::Notice
    }
}

pub open spec fn fanout_finding_view(f: FanoutFinding) -> (ClientKey, int, u64, InsightSeverity) {
    ((f.device_id, f.client_ip@), f.destination_count as int, f.last_seen_at, f.severity)
}

/// The clients among the first `n` table entries that reached at least the
/// minimum of distinct destinations, with their count and severity.
pub open spec fn fanout_findings_spec(t: Seq<(ClientKey, (Seq<Seq<u8>>, u64))>, n: int) -> Seq<(ClientKey, int, u64, InsightSeverity)>
    decreases n,
{
    if n <= 0 {
        Seq::empty()
    } else {
        let prev = fanout_findings_spec(t, n - 1);
        let e = t[n - 1];
        if e.1.0.len() >= FANOUT_MIN_DESTINATIONS {
            prev.push((e.0, e.1.0.len() as int, e.1.1, fanout_severity(e.1.0.len() as int)))
        } else {
            prev
        }
    }
}

/// The clients that reached many distinct destinations in a window, in the
/// order they first appear.
pub fn fanout_findings(flows: &Vec<AnalyticsFlow>) -> (r: Vec<FanoutFinding>)
    ensures
        ({
            let t = fanout_table(flows@, flows@.len() as int);
            r@.map_values(|f: FanoutFinding| fanout_finding_view(f)) == fanout_findings_spec(t, t.len() as int)
        }),
{
    let all = client_fanout(flows);
    let ghost t = fanout_seq(all@);
    let mut out: Vec<FanoutFinding> = Vec::new();
    assert(out@.map_values(|f: FanoutFinding| fanout_finding_view(f)) =~= Seq::empty());
    let mut i: usize = 0;
    while i < all.len()
        invariant
            i <= all@.len(),
            t == fanout_seq(all@),
            out@.map_values(|f: FanoutFinding| fanout_finding_view(f)) == fanout_findings_spec(t, i as int),
        decreases all@.len() - i,
    {
        let c = &all[i];
        let count = c.destinations.len();
        assert(t[i as int].1.0.len() == count);
        if count >= FANOUT_MIN_DESTINATIONS {
            let severity = if count >= FANOUT_WARNING_DESTINATIONS {
                InsightSeverity::Warning
            } else {
                InsightSeverity::Notice
            };
            let finding = FanoutFinding {
                device_id: c.device_id,
                client_ip: copy_bytes(&c.client_ip),
                destination_count: count,
                last_seen_at: c.last_seen_at,
                severity,
            };
            let ghost before = out@.map_values(|f: FanoutFinding| fanout_finding_view(f));
            out.push(finding);
            assert(out@.map_values(|f: FanoutFinding| fanout_finding_view(f)) =~= before.push(fanout_finding_view(finding)));
        }
        i = i + 1;
    }
    out
}


/// A protocol that counts as new: named, not `unknown`, and absent from the
/// protocols seen before the window.
pub open spec fn is_new_protocol(known: Seq<Seq<char>>, p: Seq<char>) -> bool {
    p.len() > 0 && p != "unknown"@ && !known.contains(p)
}

/// The new protocols among the first `n` flows, in the order first seen,
/// each with its latest time.
pub open spec fn new_protocol_table(known: Seq<Seq<char>>, flows: Seq<AnalyticsFlow>, n: int) -> Seq<(Seq<char>, u64)>
    decreases n,
{
    if n <= 0 {
        Seq::empty()
    } else {
        let prev = new_protocol_table(known, flows, n - 1);
        let f = flows[n - 1];
        let p = f.protocol_id@;
        if is_new_protocol(known, p) {
            put(
                prev,
                p,
                match lookup(prev, p) {
                    Some(t) => max_u64(t, f.last_seen_at),
                    None => f.last_seen_at,
                },
            )
        } else {
            prev
        }
    }
}

/// The protocol ids of the flows seen before the window.
pub open spec fn protocol_ids(flows: Seq<AnalyticsFlow>) -> Seq<Seq<char>> {
    flows.map_values(|f: AnalyticsFlow| f.protocol_id@)
}

pub open spec fn protocol_times_view(v: Seq<(String, u64)>) -> Seq<(Seq<char>, u64)> {
    v.map_values(|e: (String, u64)| (e.0@, e.1))
}

proof fn lemma_new_protocol_unique(known: Seq<Seq<char>>, flows: Seq<AnalyticsFlow>, n: int)
    requires
        0 <= n <= flows.len(),
    ensures
        unique_keys(new_protocol_table(known, flows, n)),
    decreases n,
{
    if n > 0 {
        lemma_new_protocol_unique(known, flows, n - 1);
        let prev = new_protocol_table(known, flows, n - 1);
        let f = flows[n - 1];
        let p = f.protocol_id@;
        lemma_put(
            prev,
            p,
            match lookup(prev, p) {
                Some(t) => max_u64(t, f.last_seen_at),
                None => f.last_seen_at,
            },
        );
    }
}

fn seen_protocol(baseline: &Vec<AnalyticsFlow>, p: &str) -> (r: bool)
    ensures
        r == protocol_ids(baseline@).contains(p@),
{
    let ghost ids = protocol_ids(baseline@);
    let mut i: usize = 0;
    while i < baseline.len()
        invariant
            i <= baseline@.len(),
            ids == protocol_ids(baseline@),
            forall|j: int| 0 <= j < i ==> (#[trigger] ids[j]) != p@,
        decreases baseline@.len() - i,
    {
        if str_eq(baseline[i].protocol_id.as_str(), p) {
            assert(ids[i as int] == p@);
            return true;
        }
        i = i + 1;
    }
    false
}

/// The protocols first seen in a window that starts at `window_from`, each
/// with the latest time it was seen, in the order first seen; nothing for
/// a window that starts at the epoch, which has no earlier flows.
/// `baseline` holds the flows seen before the window.
pub fn new_protocols(baseline: &Vec<AnalyticsFlow>, flows: &Vec<AnalyticsFlow>, window_from: u64) -> (r: Vec<(String, u64)>)
    ensures
        protocol_times_view(r@) == if window_from == 0 {
            Seq::empty()
        } else {
            new_protocol_table(protocol_ids(baseline@), flows@, flows@.len() as int)
        },
{
    let mut out: Vec<(String, u64)> = Vec::new();
    assert(protocol_times_view(out@) =~= Seq::empty());
    if window_from == 0 {
        return out;
    }
    let ghost known = protocol_ids(baseline@);
    let mut i: usize = 0;
    while i < flows.len()
        invariant
            i <= flows@.len(),
            known == protocol_ids(baseline@),
            protocol_times_view(out@) == new_protocol_table(known, flows@, i as int),
        decreases flows@.len() - i,
    {
        proof {
            lemma_new_protocol_unique(known, flows@, i as int);
        }
        let f = &flows[i];
        let p = f.protocol_id.as_str();
        let ghost v = protocol_times_view(out@);
        if !p.is_empty() && !str_eq(p, "unknown") && !seen_protocol(baseline, p) {
            let mut j: usize = 0;
            let mut found: Option<usize> = None;
            while j < out.len()
                invariant_except_break
                    found is None,
                invariant
                    j <= out@.len(),
                    v == protocol_times_view(out@),
                    forall|a: int| 0 <= a < j ==> (#[trigger] v[a]).0 != p@,
                ensures
                    v == protocol_times_view(out@),
                    match found {
                        Some(a) => a < out@.len() && v[a as int].0 == p@,
                        None => forall|a: int| 0 <= a < out@.len() ==> (#[trigger] v[a]).0 != p@,
                    },
                decreases out@.len() - j,
            {
                if str_eq(out[j].0.as_str(), p) {
                    found = Some(j);
                    break;
                }
                j = j + 1;
            }
            match found {
                Some(a) => {
                    proof {
                        lemma_lookup_at(v, a as int);
                    }
                    let old = out[a].1;
                    let t = if f.last_seen_at > old { f.last_seen_at } else { old };
                    let name = f.protocol_id.clone();
                    out.set(a, (name, t));
                    assert(protocol_times_view(out@) =~= v.update(a as int, (p@, t)));
                },
                None => {
                    proof {
                        lemma_key_index(v, p@);
                    }
                    out.push((f.protocol_id.clone(), f.last_seen_at));
                    assert(protocol_times_view(out@) =~= v.push((p@, f.last_seen_at)));
                },
            }
        }
        i = i + 1;
    }
    out
}

/// The rule an encrypted-DNS flow meets, and the protocol it names: DNS
/// over TLS on port 853, or DNS over HTTPS to a known resolver on port 443.
pub open spec fn encrypted_dns_rule_spec(remote_port: u32, known_provider: bool) -> Option<(Seq<char>, Seq<char>)> {
    if remote_port == 853 {
        Some(("dot_port_853"@, "DoT"@))
    } else if remote_port == 443 && known_provider {
        Some(("known_doh_provider"@, "DoH"@))
    } else {
        None
    }
}

/// Which encrypted-DNS rule a flow to `remote_port` meets, given whether
/// its remote address is a known public resolver.
pub fn encrypted_dns_rule(remote_port: u32, known_provider: bool) -> (r: Option<(&'static str, &'static str)>)
    ensures
        match r {
            Some((rule, protocol)) => encrypted_dns_rule_spec(remote_port, known_provider) == Some((rule@, protocol@)),
            None => encrypted_dns_rule_spec(remote_port, known_provider) is None,
        },
{
    if remote_port == 853 {
        Some(("dot_port_853", "DoT"))
    } else if remote_port == 443 && known_provider {
        Some(("known_doh_provider", "DoH"))
    } else {
        None
    }
}


/// Unknown traffic never counts for more than all traffic: overall, and for
/// every client.
pub proof fn lemma_unknown_within_total(flows: Seq<AnalyticsFlow>, n: int)
    requires
        0 <= n <= flows.len(),
    ensures
        unknown_share_spec(flows, n).0 <= unknown_share_spec(flows, n).1,
        forall|i: int|
            0 <= i < client_traffic_table(flows, n).len() ==> (#[trigger] client_traffic_table(flows, n)[i]).1.0
                <= client_traffic_table(flows, n)[i].1.1,
    decreases n,
{
    if n > 0 {
        lemma_unknown_within_total(flows, n - 1);
        lemma_client_table_unique(flows, n - 1);
        let prev = client_traffic_table(flows, n - 1);
        let f = flows[n - 1];
        lemma_key_index(prev, client_key(f));
        let t = client_traffic_table(flows, n);
        assert forall|i: int| 0 <= i < t.len() implies (#[trigger] t[i]).1.0 <= t[i].1.1 by {
            match key_index(prev, client_key(f)) {
                Some(k) => {
                    lemma_lookup_at(prev, k);
                    if i != k {
                        assert(t[i] == prev[i]);
                    }
                },
                None => {
                    if i < prev.len() {
                        assert(t[i] == prev[i]);
                    }
                },
            }
        }
    }
}


/// The name insights give a client nothing names.
pub const UNKNOWN_CLIENT: &'static str = "Unknown client";

/// A stored client as insights show it.
#[derive(Clone, Debug, PartialEq, Eq)]
pub struct ClientProfile {
    pub id: i64,
    pub name: String,
    pub mac: String,
    pub ip: Option<String>,
}

/// A client's name: its display name, else its host name, else the name
/// for unknown clients.
pub open spec fn profile_name(display_name: Option<String>, hostname: Option<String>) -> Seq<char> {
    match display_name {
        Some(n) => n@,
        None => match hostname {
            Some(h) => h@,
            None => UNKNOWN_CLIENT@,
        },
    }
}

fn copy_text(s: &String) -> (r: String)
    ensures
        r@ == s@,
{
    string_from_chars(chars_of(s.as_str()).as_slice())
}

/// The profile of a stored client with its latest address (as text).
pub fn client_profile(
    id: i64,
    display_name: &Option<String>,
    hostname: &Option<String>,
    mac: &[u8],
    ip: Option<String>,
) -> (r: ClientProfile)
    ensures
        r.id == id,
        r.name@ == profile_name(*display_name, *hostname),
        r.mac@ == format_mac_spec(mac@),
        r.ip == ip,
{
    let name = match display_name {
        Some(n) => copy_text(n),
        None => match hostname {
            Some(h) => copy_text(h),
            None => string_from_chars(chars_of(UNKNOWN_CLIENT).as_slice()),
        },
    };
    ClientProfile { id, name, mac: format_mac(mac), ip }
}

/// The client an insight about a flow names: from the client's profile when
/// one is known, else an unknown client with the flow's device id (none
/// for device 0); the address is the flow's client address (as text).
pub fn affected_client(device_id: u64, profile: Option<&ClientProfile>, client_ip: String) -> (r: AffectedClient)
    ensures
        r.ip == Some(client_ip),
        match profile {
            Some(p) => r.id == Some(p.id) && r.name@ == p.name@ && (r.mac matches Some(m) && m@ == p.mac@),
            None => r.id == (if device_id > 0 { Some(device_id as i64) } else { None }) && r.name@
                == UNKNOWN_CLIENT@ && r.mac is None,
        },
{
    match profile {
        Some(p) => AffectedClient {
            id: Some(p.id),
            name: copy_text(&p.name),
            mac: Some(copy_text(&p.mac)),
            ip: Some(client_ip),
        },
        None => AffectedClient {
            id: if device_id > 0 { Some(device_id as i64) } else { None },
            name: string_from_chars(chars_of(UNKNOWN_CLIENT).as_slice()),
            mac: None,
            ip: Some(client_ip),
        },
    }
}

/// A device counts as new in a window when it was first seen inside it.
pub fn first_seen_in(first_seen: u64, window: &InsightWindow) -> (r: bool)
    ensures
        r == (window.from <= first_seen < window.to),
{
    window.from <= first_seen && first_seen < window.to
}

} // verus!
