//! What the collector decides while it takes in a telemetry batch: which DNS
//! answer names a flow's remote address, which addresses are private
//! endpoints worth probing, when a flow was observed, the running traffic
//! total, and which device sightings a batch contributes.

use vstd::prelude::*;

use crate::device::{DeviceObservation, DiscoveryObservation};
use crate::sampling::bytes_eq;
use crate::text::{chars_of, clone_opt_string, opt_string_view, push_str, str_eq, string_from_chars};

verus! {

/// A flow as a telemetry batch reports it, addresses as raw bytes.
#[derive(Clone, Debug)]
pub struct TelemetryFlow {
    pub client_ip: Vec<u8>,
    pub client_port: u32,
    pub remote_ip: Vec<u8>,
    pub remote_port: u32,
    pub protocol: u32,
    pub client_mac: Vec<u8>,
    pub upload_bytes: u64,
    pub download_bytes: u64,
    pub last_seen_unix_ms: u64,
}

/// A DNS answer a client received, as the agent saw it.
#[derive(Clone, Debug)]
pub struct DnsAnswer {
    pub client_ip: Vec<u8>,
    pub domain: String,
    pub answer_ip: Vec<u8>,
    pub ttl_seconds: u32,
    pub observed_at_unix_ms: u64,
}

/// `a + b`, held at `u64::MAX`.
pub open spec fn sat_add(a: u64, b: u64) -> u64 {
    if a + b > u64::MAX {
        u64::MAX
    } else {
        (a + b) as u64
    }
}

/// The answer was given to `client` for `answer`, no later than `at_ms`, and
/// its time to live had not run out at `at_ms` (the sum held at `u64::MAX`).
pub open spec fn answer_live(a: DnsAnswer, client: Seq<u8>, answer: Seq<u8>, at_ms: u64) -> bool {
    &&& a.client_ip@ == client
    &&& a.answer_ip@ == answer
    &&& a.observed_at_unix_ms <= at_ms
    &&& sat_add(a.observed_at_unix_ms, (a.ttl_seconds * 1000) as u64) > at_ms
}

/// Among the first `n` answers, the live one observed last; of several
/// observed at the same moment, the one listed last.
pub open spec fn latest_live(
    answers: Seq<DnsAnswer>,
    client: Seq<u8>,
    answer: Seq<u8>,
    at_ms: u64,
    n: int,
) -> Option<int>
    decreases n,
{
    if n <= 0 {
        None
    } else {
        let prev = latest_live(answers, client, answer, at_ms, n - 1);
        if answer_live(answers[n - 1], client, answer, at_ms) && match prev {
            Some(p) => answers[p].observed_at_unix_ms <= answers[n - 1].observed_at_unix_ms,
            None => true,
        } {
            Some(n - 1)
        } else {
            prev
        }
    }
}

proof fn lemma_latest_live_range(
    answers: Seq<DnsAnswer>,
    client: Seq<u8>,
    answer: Seq<u8>,
    at_ms: u64,
    n: int,
)
    requires
        n <= answers.len(),
    ensures
        match latest_live(answers, client, answer, at_ms, n) {
            Some(k) => 0 <= k < n && answer_live(answers[k], client, answer, at_ms),
            None => forall|j: int| 0 <= j < n ==> !answer_live(#[trigger] answers[j], client, answer, at_ms),
        },
    decreases n,
{
    if n > 0 {
        lemma_latest_live_range(answers, client, answer, at_ms, n - 1);
    }
}

fn live_answer(a: &DnsAnswer, client_ip: &[u8], answer_ip: &[u8], at_ms: u64) -> (r: bool)
    ensures
        r == answer_live(*a, client_ip@, answer_ip@, at_ms),
{
    bytes_eq(a.client_ip.as_slice(), client_ip) && bytes_eq(a.answer_ip.as_slice(), answer_ip)
        && a.observed_at_unix_ms <= at_ms && a.observed_at_unix_ms.saturating_add((a.ttl_seconds as u64) * 1000) > at_ms
}

/// The domain of the batch's DNS answer that names `answer_ip` for
/// `client_ip` at `at_ms`: the live answer observed last.
pub fn resolve_batch_domain(
    answers: &Vec<DnsAnswer>,
    client_ip: &[u8],
    answer_ip: &[u8],
    at_ms: u64,
) -> (r: Option<String>)
    ensures
        opt_string_view(r) == match latest_live(
            answers@,
            client_ip@,
            answer_ip@,
            at_ms,
            answers@.len() as int,
        ) {
            Some(k) => Some(answers@[k].domain@),
            None => None::<Seq<char>>,
        },
{
    let mut best: Option<usize> = None;
    let mut i: usize = 0;
    while i < answers.len()
        invariant
            i <= answers@.len(),
            match best {
                Some(b) => latest_live(answers@, client_ip@, answer_ip@, at_ms, i as int) == Some(
                    b as int,
                ) && b < i,
                None => latest_live(answers@, client_ip@, answer_ip@, at_ms, i as int) is None,
            },
        decreases answers@.len() - i,
    {
        if live_answer(&answers[i], client_ip, answer_ip, at_ms) {
            match best {
                Some(b) => {
                    if answers[b].observed_at_unix_ms <= answers[i].observed_at_unix_ms {
                        best = Some(i);
                    }
                },
                None => {
                    best = Some(i);
                },
            }
        }
        i = i + 1;
    }
    match best {
        Some(b) => Some(answers[b].domain.clone()),
        None => None,
    }
}

/// The domain a flow is attributed to: the batch's own DNS answer, else the
/// one stored from earlier batches, else a non-empty host name the packet
/// inspection found.
pub fn attribution_domain(
    batch_answer: Option<String>,
    stored_answer: Option<String>,
    inspected_host: Option<String>,
) -> (r: Option<String>)
    ensures
        opt_string_view(r) == if batch_answer is Some {
            opt_string_view(batch_answer)
        } else if stored_answer is Some {
            opt_string_view(stored_answer)
        } else {
            match inspected_host {
                Some(h) => if h@.len() > 0 {
                    Some(h@)
                } else {
                    None
                },
                None => None,
            }
        },
{
    if batch_answer.is_some() {
        return batch_answer;
    }
    if stored_answer.is_some() {
        return stored_answer;
    }
    match inspected_host {
        Some(h) => if h.as_str().is_empty() {
            None
        } else {
            Some(h)
        },
        None => None,
    }
}

/// When a flow was observed: its last-seen time, or the batch's send time
/// where the agent left that out.
pub fn flow_observed_at(last_seen_unix_ms: u64, sent_at: u64) -> (r: u64)
    ensures
        r == if last_seen_unix_ms == 0 {
            sent_at
        } else {
            last_seen_unix_ms
        },
{
    if last_seen_unix_ms == 0 {
        sent_at
    } else {
        last_seen_unix_ms
    }
}

/// The reason text of a classification: the first evidence item as
/// `type:value`, or that no rule matched.
pub open spec fn reason_spec(evidence: Seq<(Seq<char>, Seq<char>)>) -> Seq<char> {
    if evidence.len() == 0 {
        "no matching rule"@
    } else {
        evidence[0].0 + ":"@ + evidence[0].1
    }
}

pub open spec fn evidence_view(evidence: Seq<(String, String)>) -> Seq<(Seq<char>, Seq<char>)> {
    evidence.map_values(|e: (String, String)| (e.0@, e.1@))
}

/// The reason recorded for a classification whose evidence items, as
/// (type, value), are `evidence`.
pub fn attribution_reason(evidence: &Vec<(String, String)>) -> (r: String)
    ensures
        r@ == reason_spec(evidence_view(evidence@)),
{
    if evidence.len() == 0 {
        let r = "no matching rule".to_owned();
        proof {
            reveal_strlit("no matching rule");
        }
        return r;
    }
    let mut out: Vec<char> = Vec::new();
    push_str(&mut out, evidence[0].0.as_str());
    push_str(&mut out, ":");
    push_str(&mut out, evidence[0].1.as_str());
    proof {
        reveal_strlit(":");
        assert(out@ =~= reason_spec(evidence_view(evidence@)));
    }
    string_from_chars(out.as_slice())
}

/// The traffic total after a batch: each flow's upload and download bytes
/// added in turn, held at `u64::MAX`.
pub open spec fn traffic_total(start: u64, flows: Seq<TelemetryFlow>) -> u64
    decreases flows.len(),
{
    if flows.len() == 0 {
        start
    } else {
        let f = flows.last();
        sat_add(sat_add(traffic_total(start, flows.drop_last()), f.upload_bytes), f.download_bytes)
    }
}

pub fn add_traffic_bytes(total: u64, flows: &Vec<TelemetryFlow>) -> (r: u64)
    ensures
        r == traffic_total(total, flows@),
        r >= total,
{
    let mut acc = total;
    let mut i: usize = 0;
    while i < flows.len()
        invariant
            i <= flows@.len(),
            acc == traffic_total(total, flows@.take(i as int)),
            acc >= total,
        decreases flows@.len() - i,
    {
        proof {
            assert(flows@.take(i as int + 1).drop_last() =~= flows@.take(i as int));
        }
        acc = acc.saturating_add(flows[i].upload_bytes).saturating_add(flows[i].download_bytes);
        i = i + 1;
    }
    assert(flows@.take(i as int) =~= flows@);
    acc
}

/// A copy of a byte string.
pub fn copy_bytes(b: &Vec<u8>) -> (r: Vec<u8>)
    ensures
        r@ == b@,
{
    let r = b.clone();
    assert(r@ =~= b@);
    r
}

/// Whether raw address bytes name a private endpoint: an IPv4 private,
/// link-local or loopback address, or an IPv6 loopback, unicast link-local
/// or unique local address. Anything but 4 or 16 bytes is no address.
pub open spec fn private_endpoint(ip: Seq<u8>) -> bool {
    if ip.len() == 4 {
        ||| ip[0] == 10
        ||| ip[0] == 172 && 16 <= ip[1] <= 31
        ||| ip[0] == 192 && ip[1] == 168
        ||| ip[0] == 169 && ip[1] == 254
        ||| ip[0] == 127
    } else if ip.len() == 16 {
        ||| (forall|i: int| 0 <= i < 15 ==> ip[i] == 0) && ip[15] == 1
        ||| ip[0] == 0xfe && 0x80 <= ip[1] <= 0xbf
        ||| ip[0] == 0xfc || ip[0] == 0xfd
    } else {
        false
    }
}

pub fn is_private_endpoint(ip: &[u8]) -> (r: bool)
    ensures
        r == private_endpoint(ip@),
{
    if ip.len() == 4 {
        ip[0] == 10 || (ip[0] == 172 && 16 <= ip[1] && ip[1] <= 31) || (ip[0] == 192 && ip[1]
            == 168) || (ip[0] == 169 && ip[1] == 254) || ip[0] == 127
    } else if ip.len() == 16 {
        let mut zeros = true;
        let mut i: usize = 0;
        while i < 15
            invariant
                ip@.len() == 16,
                i <= 15,
                zeros == forall|k: int| 0 <= k < i ==> ip@[k] == 0,
            decreases 15 - i,
        {
            if ip[i] != 0 {
                zeros = false;
            }
            i = i + 1;
        }
        (zeros && ip[15] == 1) || (ip[0] == 0xfe && 0x80 <= ip[1] && ip[1] <= 0xbf) || ip[0]
            == 0xfc || ip[0] == 0xfd
    } else {
        false
    }
}

/// A device sighting as (MAC, address, host name, last seen).
pub type SightingView = (Seq<u8>, Seq<u8>, Seq<char>, u64);

pub open spec fn sighting(o: DeviceObservation) -> SightingView {
    (o.mac@, o.ip@, o.hostname@, o.last_seen_unix_ms)
}

pub open spec fn sightings(s: Seq<DeviceObservation>) -> Seq<SightingView> {
    s.map_values(|o: DeviceObservation| sighting(o))
}

pub open spec fn byte_strings(s: Seq<Vec<u8>>) -> Seq<Seq<u8>> {
    s.map_values(|b: Vec<u8>| b@)
}

pub open spec fn address_bytes(ip: Seq<u8>) -> bool {
    ip.len() == 4 || ip.len() == 16
}

pub open spec fn has_mac(s: Seq<SightingView>, mac: Seq<u8>) -> bool {
    exists|k: int| 0 <= k < s.len() && (#[trigger] s[k]).0 == mac
}

pub open spec fn has_mac_and_address(s: Seq<SightingView>, mac: Seq<u8>, ip: Seq<u8>) -> bool {
    exists|k: int| 0 <= k < s.len() && (#[trigger] s[k]).0 == mac && s[k].1 == ip
}

/// The sightings after the flows' contribution: a flow whose client MAC has
/// supplemental evidence, with a client address, adds its client unless a
/// sighting of that MAC is already there.
pub open spec fn with_flow_sightings(
    s: Seq<SightingView>,
    flows: Seq<TelemetryFlow>,
    evidence_macs: Seq<Seq<u8>>,
) -> Seq<SightingView>
    decreases flows.len(),
{
    if flows.len() == 0 {
        s
    } else {
        let prev = with_flow_sightings(s, flows.drop_last(), evidence_macs);
        let f = flows.last();
        if evidence_macs.contains(f.client_mac@) && address_bytes(f.client_ip@) && !has_mac(
            prev,
            f.client_mac@,
        ) {
            prev.push((f.client_mac@, f.client_ip@, Seq::empty(), f.last_seen_unix_ms))
        } else {
            prev
        }
    }
}

/// The sightings after the discovery contribution: a discovery with a MAC
/// and an address adds itself unless that MAC and address are already
/// there.
pub open spec fn with_discovery_sightings(
    s: Seq<SightingView>,
    discoveries: Seq<DiscoveryObservation>,
) -> Seq<SightingView>
    decreases discoveries.len(),
{
    if discoveries.len() == 0 {
        s
    } else {
        let prev = with_discovery_sightings(s, discoveries.drop_last());
        let d = discoveries.last();
        if d.mac@.len() == 6 && address_bytes(d.ip@) && !has_mac_and_address(prev, d.mac@, d.ip@) {
            prev.push((d.mac@, d.ip@, d.hostname@, d.observed_at_unix_ms))
        } else {
            prev
        }
    }
}

fn contains_bytes(list: &Vec<Vec<u8>>, b: &[u8]) -> (r: bool)
    ensures
        r == byte_strings(list@).contains(b@),
{
    let mut i: usize = 0;
    while i < list.len()
        invariant
            i <= list@.len(),
            forall|k: int| 0 <= k < i ==> list@[k]@ != b@,
        decreases list@.len() - i,
    {
        if bytes_eq(list[i].as_slice(), b) {
            assert(byte_strings(list@)[i as int] == b@);
            return true;
        }
        i = i + 1;
    }
    assert forall|k: int| 0 <= k < byte_strings(list@).len() implies byte_strings(list@)[k] != b@ by {
        assert(list@[k]@ != b@);
    }
    false
}

fn sighted(obs: &Vec<DeviceObservation>, mac: &[u8], ip: Option<&[u8]>) -> (r: bool)
    ensures
        r == match ip {
            Some(a) => has_mac_and_address(sightings(obs@), mac@, a@),
            None => has_mac(sightings(obs@), mac@),
        },
{
    let ghost s = sightings(obs@);
    let mut i: usize = 0;
    while i < obs.len()
        invariant
            i <= obs@.len(),
            s == sightings(obs@),
            forall|k: int|
                0 <= k < i ==> !(#[trigger] s[k].0 == mac@ && match ip {
                    Some(a) => s[k].1 == a@,
                    None => true,
                }),
        decreases obs@.len() - i,
    {
        let same_mac = bytes_eq(obs[i].mac.as_slice(), mac);
        let same_ip = match ip {
            Some(a) => bytes_eq(obs[i].ip.as_slice(), a),
            None => true,
        };
        if same_mac && same_ip {
            assert(s[i as int].0 == mac@);
            return true;
        }
        i = i + 1;
    }
    false
}

/// Adds the device sightings a batch implies beyond its own observations:
/// clients of flows whose MAC has supplemental evidence, then discovery
/// sightings. The batch's own observations stay as they were, first.
pub fn add_implied_sightings(
    observations: &mut Vec<DeviceObservation>,
    flows: &Vec<TelemetryFlow>,
    discoveries: &Vec<DiscoveryObservation>,
    evidence_macs: &Vec<Vec<u8>>,
)
    ensures
        sightings(final(observations)@) == with_discovery_sightings(
            with_flow_sightings(sightings(old(observations)@), flows@, byte_strings(evidence_macs@)),
            discoveries@,
        ),
        final(observations)@.len() >= old(observations)@.len(),
        forall|k: int| 0 <= k < old(observations)@.len() ==> #[trigger] final(observations)@[k] == old(observations)@[k],
        forall|k: int|
            old(observations)@.len() <= k < final(observations)@.len() ==> (#[trigger] final(observations)@[k]).dhcp is None,
{
    let ghost start = observations@;
    let ghost macs = byte_strings(evidence_macs@);
    let mut i: usize = 0;
    while i < flows.len()
        invariant
            i <= flows@.len(),
            macs == byte_strings(evidence_macs@),
            sightings(observations@) == with_flow_sightings(sightings(start), flows@.take(i as int), macs),
            observations@.len() >= start.len(),
            forall|k: int| 0 <= k < start.len() ==> #[trigger] observations@[k] == start[k],
            forall|k: int| start.len() <= k < observations@.len() ==> (#[trigger] observations@[k]).dhcp is None,
        decreases flows@.len() - i,
    {
        let f = &flows[i];
        proof {
            assert(flows@.take(i as int + 1).drop_last() =~= flows@.take(i as int));
            assert(flows@.take(i as int + 1).last() == flows@[i as int]);
        }
        let ip_len = f.client_ip.len();
        if contains_bytes(evidence_macs, f.client_mac.as_slice()) && (ip_len == 4 || ip_len == 16)
            && !sighted(observations, f.client_mac.as_slice(), None) {
            let ghost before = observations@;
            observations.push(
                DeviceObservation {
                    mac: copy_bytes(&f.client_mac),
                    ip: copy_bytes(&f.client_ip),
                    hostname: String::new(),
                    last_seen_unix_ms: f.last_seen_unix_ms,
                    dhcp: None,
                },
            );
            proof {
                assert(sightings(observations@) =~= sightings(before).push(
                    (f.client_mac@, f.client_ip@, Seq::empty(), f.last_seen_unix_ms),
                ));
            }
        }
        i = i + 1;
    }
    assert(flows@.take(i as int) =~= flows@);
    let ghost middle = sightings(observations@);
    let mut j: usize = 0;
    while j < discoveries.len()
        invariant
            j <= discoveries@.len(),
            sightings(observations@) == with_discovery_sightings(middle, discoveries@.take(j as int)),
            observations@.len() >= start.len(),
            forall|k: int| 0 <= k < start.len() ==> #[trigger] observations@[k] == start[k],
            forall|k: int| start.len() <= k < observations@.len() ==> (#[trigger] observations@[k]).dhcp is None,
        decreases discoveries@.len() - j,
    {
        let d = &discoveries[j];
        proof {
            assert(discoveries@.take(j as int + 1).drop_last() =~= discoveries@.take(j as int));
            assert(discoveries@.take(j as int + 1).last() == discoveries@[j as int]);
        }
        let ip_len = d.ip.len();
        if d.mac.len() == 6 && (ip_len == 4 || ip_len == 16) && !sighted(
            observations,
            d.mac.as_slice(),
            Some(d.ip.as_slice()),
        ) {
            let ghost before = observations@;
            observations.push(
                DeviceObservation {
                    mac: copy_bytes(&d.mac),
                    ip: copy_bytes(&d.ip),
                    hostname: d.hostname.clone(),
                    last_seen_unix_ms: d.observed_at_unix_ms,
                    dhcp: None,
                },
            );
            proof {
                assert(sightings(observations@) =~= sightings(before).push(
                    (d.mac@, d.ip@, d.hostname@, d.observed_at_unix_ms),
                ));
            }
        }
        j = j + 1;
    }
    assert(discoveries@.take(j as int) =~= discoveries@);
}


/// Whether some evidence item, as (type, value), is of the given type.
pub open spec fn has_evidence_type(evidence: Seq<(Seq<char>, Seq<char>)>, kind: Seq<char>) -> bool {
    exists|i: int| 0 <= i < evidence.len() && (#[trigger] evidence[i]).0 == kind
}

fn has_evidence_type_exec(evidence: &Vec<(String, String)>, kind: &str) -> (r: bool)
    ensures
        r == has_evidence_type(evidence_view(evidence@), kind@),
{
    let ghost v = evidence_view(evidence@);
    let mut i: usize = 0;
    while i < evidence.len()
        invariant
            i <= evidence@.len(),
            v == evidence_view(evidence@),
            forall|j: int| 0 <= j < i ==> (#[trigger] v[j]).0 != kind@,
        decreases evidence@.len() - i,
    {
        if str_eq(evidence[i].0.as_str(), kind) {
            assert(v[i as int].0 == kind@);
            return true;
        }
        i = i + 1;
    }
    false
}

/// The host name a flow is classified by once more: when no domain rule
/// matched its first classification, the host name that packet inspection
/// found (SNI or HTTP Host), if it is not empty and is not the domain the
/// flow was first classified by.
pub open spec fn second_look_host(
    evidence: Seq<(Seq<char>, Seq<char>)>,
    hostname: Option<Seq<char>>,
    domain: Option<Seq<char>>,
) -> Option<Seq<char>> {
    if has_evidence_type(evidence, "domain_application"@) {
        None
    } else {
        match hostname {
            Some(h) => if h.len() > 0 && domain != Some(h) {
                Some(h)
            } else {
                None
            },
            None => None,
        }
    }
}

/// The host name to classify a flow by once more, as `second_look_host`
/// gives it.
pub fn host_to_reclassify(
    evidence: &Vec<(String, String)>,
    hostname: &Option<String>,
    domain: &Option<String>,
) -> (r: Option<String>)
    ensures
        opt_string_view(r) == second_look_host(
            evidence_view(evidence@),
            opt_string_view(*hostname),
            opt_string_view(*domain),
        ),
{
    if has_evidence_type_exec(evidence, "domain_application") {
        return None;
    }
    match hostname {
        Some(h) => {
            let same = match domain {
                Some(d) => str_eq(d.as_str(), h.as_str()),
                None => false,
            };
            if !h.as_str().is_empty() && !same {
                Some(string_from_chars(chars_of(h.as_str()).as_slice()))
            } else {
                None
            }
        },
        None => None,
    }
}

/// Whether the classification by host name replaces the first one: only
/// when a domain rule matched the host name. The flow's domain then
/// becomes the host name.
pub fn host_classification_wins(host_evidence: &Vec<(String, String)>) -> (r: bool)
    ensures
        r == has_evidence_type(evidence_view(host_evidence@), "domain_application"@),
{
    has_evidence_type_exec(host_evidence, "domain_application")
}

/// Which confidence an attribution carries overall.
#[derive(Clone, Copy, Debug, PartialEq, Eq)]
pub enum ConfidenceSource {
    Application,
    Protocol,
    Organization,
}

/// The identifiers a flow is attributed with, `unknown` where the
/// classification names none, and where its overall confidence comes from.
#[derive(Clone, Debug, PartialEq, Eq)]
pub struct AttributionLabels {
    pub organization_id: String,
    pub application_id: String,
    pub category_id: String,
    pub traffic_role: String,
    pub protocol_id: String,
    pub confidence_from: ConfidenceSource,
}

pub open spec fn or_unknown(v: Option<Seq<char>>) -> Seq<char> {
    match v {
        Some(s) => s,
        None => "unknown"@,
    }
}

/// The overall confidence is the application's when one is named, else the
/// protocol's when one is named, else the organization's.
pub open spec fn confidence_source_spec(application_id: Seq<char>, protocol_id: Seq<char>) -> ConfidenceSource {
    if application_id != "unknown"@ {
        ConfidenceSource::Application
    } else if protocol_id != "unknown"@ {
        ConfidenceSource::Protocol
    } else {
        ConfidenceSource::Organization
    }
}

fn or_unknown_exec(v: &Option<String>) -> (r: String)
    ensures
        r@ == or_unknown(opt_string_view(*v)),
{
    match v {
        Some(s) => string_from_chars(chars_of(s.as_str()).as_slice()),
        None => "unknown".to_owned(),
    }
}

/// The labels of a classification that names (or leaves out) an
/// organization, application, traffic class, role and protocol.
pub fn attribution_labels(
    organization: &Option<String>,
    application: &Option<String>,
    traffic_class: &Option<String>,
    traffic_role: &Option<String>,
    protocol: &Option<String>,
) -> (r: AttributionLabels)
    ensures
        r.organization_id@ == or_unknown(opt_string_view(*organization)),
        r.application_id@ == or_unknown(opt_string_view(*application)),
        r.category_id@ == or_unknown(opt_string_view(*traffic_class)),
        r.traffic_role@ == or_unknown(opt_string_view(*traffic_role)),
        r.protocol_id@ == or_unknown(opt_string_view(*protocol)),
        r.confidence_from == confidence_source_spec(r.application_id@, r.protocol_id@),
{
    let organization_id = or_unknown_exec(organization);
    let application_id = or_unknown_exec(application);
    let category_id = or_unknown_exec(traffic_class);
    let role = or_unknown_exec(traffic_role);
    let protocol_id = or_unknown_exec(protocol);
    let confidence_from = if !str_eq(application_id.as_str(), "unknown") {
        ConfidenceSource::Application
    } else if !str_eq(protocol_id.as_str(), "unknown") {
        ConfidenceSource::Protocol
    } else {
        ConfidenceSource::Organization
    };
    AttributionLabels {
        organization_id,
        application_id,
        category_id,
        traffic_role: role,
        protocol_id,
        confidence_from,
    }
}

/// An endpoint's favicon identity replaces an attribution only when no
/// application was recognised.
pub fn favicon_identity_applies(application_id: &str) -> (r: bool)
    ensures
        r == (application_id@ == "unknown"@),
{
    str_eq(application_id, "unknown")
}


/// What storage made of a batch: stored, or recognised as one already
/// stored.
#[derive(Clone, Copy, Debug, PartialEq, Eq)]
pub enum BatchDisposition {
    Accepted,
    Duplicate,
}

/// The collector's running counts: batches accepted, duplicates skipped,
/// and the traffic bytes of accepted batches, each held at `u64::MAX`.
#[derive(Clone, Copy, Debug, PartialEq, Eq)]
pub struct BatchCounters {
    pub accepted_batches: u64,
    pub dedupe_hits: u64,
    pub traffic_bytes: u64,
}

impl BatchCounters {
    pub fn new() -> (r: Self)
        ensures
            r.accepted_batches == 0,
            r.dedupe_hits == 0,
            r.traffic_bytes == 0,
    {
        BatchCounters { accepted_batches: 0, dedupe_hits: 0, traffic_bytes: 0 }
    }

    /// Counts a batch after storage decided on it: a duplicate counts a
    /// dedupe hit; an accepted batch counts as accepted and adds the
    /// upload and download bytes of its flows.
    pub fn record(&mut self, disposition: BatchDisposition, flows: &Vec<TelemetryFlow>)
        ensures
            disposition == BatchDisposition::Duplicate ==> *final(self) == (BatchCounters {
                dedupe_hits: sat_add(old(self).dedupe_hits, 1),
                ..*old(self)
            }),
            disposition == BatchDisposition::Accepted ==> *final(self) == (BatchCounters {
                accepted_batches: sat_add(old(self).accepted_batches, 1),
                dedupe_hits: old(self).dedupe_hits,
                traffic_bytes: traffic_total(old(self).traffic_bytes, flows@),
            }),
    {
        match disposition {
            BatchDisposition::Duplicate => {
                self.dedupe_hits = self.dedupe_hits.saturating_add(1);
            },
            BatchDisposition::Accepted => {
                self.accepted_batches = self.accepted_batches.saturating_add(1);
                self.traffic_bytes = add_traffic_bytes(self.traffic_bytes, flows);
            },
        }
    }
}

/// The MACs among the first `n` observations, each once, in the order they
/// first appear: the devices whose stored evidence is read for a batch.
pub open spec fn distinct_macs_spec(obs: Seq<DeviceObservation>, n: int) -> Seq<Seq<u8>>
    decreases n,
{
    if n <= 0 {
        Seq::empty()
    } else {
        let prev = distinct_macs_spec(obs, n - 1);
        if prev.contains(obs[n - 1].mac@) {
            prev
        } else {
            prev.push(obs[n - 1].mac@)
        }
    }
}

/// The distinct MACs of a batch's observations, in first-seen order.
pub fn observed_macs(obs: &Vec<DeviceObservation>) -> (r: Vec<Vec<u8>>)
    ensures
        byte_strings(r@) == distinct_macs_spec(obs@, obs@.len() as int),
{
    let mut out: Vec<Vec<u8>> = Vec::new();
    assert(byte_strings(out@) =~= Seq::empty());
    let mut i: usize = 0;
    while i < obs.len()
        invariant
            i <= obs@.len(),
            byte_strings(out@) == distinct_macs_spec(obs@, i as int),
        decreases obs@.len() - i,
    {
        let mac = &obs[i].mac;
        let seen = contains_bytes(&out, mac.as_slice());
        if !seen {
            let ghost before = byte_strings(out@);
            out.push(copy_bytes(mac));
            assert(byte_strings(out@) =~= before.push(mac@));
        }
        i = i + 1;
    }
    out
}


} // verus!
