//! Favicon probing of private service endpoints: which endpoints to ask the
//! agent to probe, how long a request stays outstanding, and the
//! application identity a probe result establishes for its endpoint.

use vstd::prelude::*;

use crate::ingest::{private_endpoint, sat_add, TelemetryFlow};
use crate::keyed::{
    has_key, key_index, lemma_filter_keyed, lemma_key_index, lemma_lookup_at, lemma_lookup_filtered,
    lemma_put, lemma_remove_key, lookup, put, remove_key, unique_keys,
};
use crate::realtime::FlowAttribution;
use crate::sampling::bytes_eq;
use crate::text::{decimal, push_decimal, str_eq, string_from_chars};

verus! {

/// How long an endpoint identity learned from a favicon is kept.
pub const IDENTITY_TTL_MS: u64 = 86_400_000;

/// How long before the same endpoint is probed again.
pub const PROBE_RETRY_MS: u64 = 21_600_000;

/// Probe requests sent with one batch at most.
pub const MAX_PROBES_PER_BATCH: usize = 8;

/// A service endpoint: address bytes, IP protocol, port.
#[derive(Clone, Debug)]
pub struct EndpointKey {
    pub ip: Vec<u8>,
    pub protocol: u8,
    pub port: u16,
}

pub type KeyView = (Seq<u8>, u8, u16);

impl View for EndpointKey {
    type V = KeyView;

    open spec fn view(&self) -> KeyView {
        (self.ip@, self.protocol, self.port)
    }
}

/// The application a favicon identified an endpoint as, until when.
#[derive(Clone, Debug)]
pub struct FaviconIdentity {
    pub application_id: String,
    pub organization_id: String,
    pub traffic_class: String,
    pub evidence_json: String,
    pub expires_at: u64,
}

/// Application, organization, traffic class, evidence, expiry.
pub type IdentityView = (Seq<char>, Seq<char>, Seq<char>, Seq<char>, u64);

impl View for FaviconIdentity {
    type V = IdentityView;

    open spec fn view(&self) -> IdentityView {
        (
            self.application_id@,
            self.organization_id@,
            self.traffic_class@,
            self.evidence_json@,
            self.expires_at,
        )
    }
}

/// A request to the agent to fetch the favicon of an endpoint.
#[derive(Clone, Debug)]
pub struct ProbeRequest {
    pub request_id: String,
    pub target_ip: Vec<u8>,
    pub port: u32,
}

/// Request id, target address, port.
pub type RequestView = (Seq<char>, Seq<u8>, u32);

impl View for ProbeRequest {
    type V = RequestView;

    open spec fn view(&self) -> RequestView {
        (self.request_id@, self.target_ip@, self.port)
    }
}

/// The abstract state: identities by endpoint, outstanding requests by id
/// with the endpoint and the time asked, the last request time by endpoint,
/// the request counter, and the two lifetimes.
pub struct CacheView {
    pub identities: Seq<(KeyView, IdentityView)>,
    pub outstanding: Seq<(Seq<char>, (KeyView, u64))>,
    pub last_requested: Seq<(KeyView, u64)>,
    pub next_request: u64,
    pub ttl_ms: u64,
    pub retry_ms: u64,
}

/// Endpoint identities learned from favicon probes, and the probes still
/// awaited.
pub struct FaviconEndpointCache {
    identities: Vec<(EndpointKey, FaviconIdentity)>,
    outstanding: Vec<(String, (EndpointKey, u64))>,
    last_requested: Vec<(EndpointKey, u64)>,
    next_request: u64,
    ttl_ms: u64,
    retry_ms: u64,
}

pub open spec fn identities_view(s: Seq<(EndpointKey, FaviconIdentity)>) -> Seq<(KeyView, IdentityView)> {
    s.map_values(|e: (EndpointKey, FaviconIdentity)| (e.0@, e.1@))
}

pub open spec fn outstanding_view(s: Seq<(String, (EndpointKey, u64))>) -> Seq<(Seq<char>, (KeyView, u64))> {
    s.map_values(|e: (String, (EndpointKey, u64))| (e.0@, (e.1.0@, e.1.1)))
}

pub open spec fn last_view(s: Seq<(EndpointKey, u64)>) -> Seq<(KeyView, u64)> {
    s.map_values(|e: (EndpointKey, u64)| (e.0@, e.1))
}

impl View for FaviconEndpointCache {
    type V = CacheView;

    closed spec fn view(&self) -> CacheView {
        CacheView {
            identities: identities_view(self.identities@),
            outstanding: outstanding_view(self.outstanding@),
            last_requested: last_view(self.last_requested@),
            next_request: self.next_request,
            ttl_ms: self.ttl_ms,
            retry_ms: self.retry_ms,
        }
    }
}

/// One entry per endpoint among identities and request times, one per
/// request id among outstanding requests.
pub open spec fn cache_well_formed(v: CacheView) -> bool {
    &&& unique_keys(v.identities)
    &&& unique_keys(v.outstanding)
    &&& unique_keys(v.last_requested)
}

pub open spec fn identity_live(e: (KeyView, IdentityView), now: u64) -> bool {
    e.1.4 > now
}

pub open spec fn request_live(e: (Seq<char>, (KeyView, u64)), now: u64, retry_ms: u64) -> bool {
    sat_add(e.1.1, retry_ms) > now
}

pub open spec fn last_live(e: (KeyView, u64), now: u64, retry_ms: u64) -> bool {
    sat_add(e.1, retry_ms) > now
}

/// The state after dropping, at `now`, expired identities and requests
/// older than the retry interval.
pub open spec fn expired_view(v: CacheView, now: u64) -> CacheView {
    CacheView {
        identities: v.identities.filter(|e: (KeyView, IdentityView)| identity_live(e, now)),
        outstanding: v.outstanding.filter(
            |e: (Seq<char>, (KeyView, u64))| request_live(e, now, v.retry_ms),
        ),
        last_requested: v.last_requested.filter(|e: (KeyView, u64)| last_live(e, now, v.retry_ms)),
        ..v
    }
}

/// The identity known for an endpoint at `now`, unless it has expired.
pub open spec fn identity_at(v: CacheView, key: KeyView, now: u64) -> Option<IdentityView> {
    match lookup(v.identities, key) {
        Some(id) => if id.4 > now {
            Some(id)
        } else {
            None
        },
        None => None,
    }
}

/// What the classifier made of one favicon digest: the application it
/// identifies, with its organization, traffic class and evidence.
#[derive(Clone, Debug)]
pub struct FaviconMatch {
    pub application_id: String,
    pub organization_id: String,
    pub traffic_class: String,
    pub evidence_json: String,
}

pub type MatchView = (Seq<char>, Seq<char>, Seq<char>, Seq<char>);

impl View for FaviconMatch {
    type V = MatchView;

    open spec fn view(&self) -> MatchView {
        (self.application_id@, self.organization_id@, self.traffic_class@, self.evidence_json@)
    }
}

/// A favicon probe's outcome: the endpoint probed, and for each digest
/// fetched the application match, if the digest identifies one.
#[derive(Clone, Debug)]
pub struct FaviconOutcome {
    pub target_ip: Vec<u8>,
    pub port: u32,
    pub matches: Vec<Option<FaviconMatch>>,
}

/// A probe result the agent sent back: the request it answers, its status,
/// and the favicon outcome where it is one.
#[derive(Clone, Debug)]
pub struct ProbeResult {
    pub request_id: String,
    pub status: String,
    pub favicon: Option<FaviconOutcome>,
}

pub type OutcomeView = (Seq<u8>, u32, Seq<Option<MatchView>>);

pub type ResultView = (Seq<char>, Seq<char>, Option<OutcomeView>);

pub open spec fn option_match_view(m: Option<FaviconMatch>) -> Option<MatchView> {
    match m {
        Some(x) => Some(x@),
        None => None,
    }
}

pub open spec fn matches_view(m: Seq<Option<FaviconMatch>>) -> Seq<Option<MatchView>> {
    m.map_values(|x: Option<FaviconMatch>| option_match_view(x))
}

pub open spec fn result_view(r: ProbeResult) -> ResultView {
    (
        r.request_id@,
        r.status@,
        match r.favicon {
            Some(f) => Some((f.target_ip@, f.port, matches_view(f.matches@))),
            None => None,
        },
    )
}

pub open spec fn results_view(r: Seq<ProbeResult>) -> Seq<ResultView> {
    r.map_values(|x: ProbeResult| result_view(x))
}

/// The first digest that identifies an application, if any.
pub open spec fn first_match(m: Seq<Option<MatchView>>) -> Option<MatchView>
    decreases m.len(),
{
    if m.len() == 0 {
        None
    } else {
        match m[0] {
            Some(x) => Some(x),
            None => first_match(m.drop_first()),
        }
    }
}

/// The match that settles an endpoint: the first one, provided every digest
/// that identifies an application identifies the same one.
pub open spec fn sole_match(m: Seq<Option<MatchView>>) -> Option<MatchView> {
    match first_match(m) {
        Some(x) => if forall|i: int| 0 <= i < m.len() && (#[trigger] m[i]) is Some ==> (m[i]->0).0 == x.0 {
            Some(x)
        } else {
            None
        },
        None => None,
    }
}

/// One result's effect: it closes its outstanding request; an `ok` favicon
/// outcome for the very endpoint requested then sets the endpoint's
/// identity from the sole match, or clears it where the digests disagree or
/// identify nothing.
pub open spec fn observe_step(v: CacheView, r: ResultView, now: u64) -> CacheView {
    match lookup(v.outstanding, r.0) {
        None => v,
        Some(req) => {
            let v1 = CacheView { outstanding: remove_key(v.outstanding, r.0), ..v };
            match r.2 {
                None => v1,
                Some(fav) => if !(fav.0.len() == 4 || fav.0.len() == 16) || fav.1 > 65535 {
                    v1
                } else {
                    let key = (fav.0, 6u8, fav.1 as u16);
                    if key != req.0 || r.1 != "ok"@ {
                        v1
                    } else {
                        match sole_match(fav.2) {
                            Some(m) => CacheView {
                                identities: put(
                                    v1.identities,
                                    key,
                                    (m.0, m.1, m.2, m.3, sat_add(now, v.ttl_ms)),
                                ),
                                ..v1
                            },
                            None => CacheView { identities: remove_key(v1.identities, key), ..v1 },
                        }
                    }
                },
            }
        },
    }
}

/// The state after expiry at `now` and the first `n` results.
pub open spec fn observe_spec(v: CacheView, results: Seq<ResultView>, now: u64, n: int) -> CacheView
    decreases n,
{
    if n <= 0 {
        expired_view(v, now)
    } else {
        observe_step(observe_spec(v, results, now, n - 1), results[n - 1], now)
    }
}

/// A cache state together with the probe requests made so far.
pub struct ScheduleState {
    pub cache: CacheView,
    pub requests: Seq<RequestView>,
}

/// A flow whose endpoint is worth a favicon probe: TCP, still without an
/// application, to a private endpoint on a nonzero 16-bit port.
pub open spec fn probe_wanted(f: TelemetryFlow, a: FlowAttribution) -> bool {
    &&& f.protocol == 6
    &&& a.application_id@ == "unknown"@
    &&& private_endpoint(f.remote_ip@)
    &&& 0 < f.remote_port <= 65535
}

pub open spec fn probe_key(f: TelemetryFlow) -> KeyView {
    (f.remote_ip@, 6u8, f.remote_port as u16)
}

/// The id of the `n`th request, made with batch `sequence`.
pub open spec fn request_id_text(sequence: u64, n: u64) -> Seq<char> {
    decimal(sequence as nat) + "-"@ + decimal(n as nat)
}

/// Some outstanding request targets the endpoint.
pub open spec fn awaiting(outstanding: Seq<(Seq<char>, (KeyView, u64))>, key: KeyView) -> bool {
    exists|i: int| 0 <= i < outstanding.len() && (#[trigger] outstanding[i]).1.0 == key
}

/// The endpoint was asked for within the retry interval.
pub open spec fn recently_requested(v: CacheView, key: KeyView, now: u64) -> bool {
    match lookup(v.last_requested, key) {
        Some(t) => sat_add(t, v.retry_ms) > now,
        None => false,
    }
}

/// One flow's turn: while fewer than the per-batch maximum were made, a
/// wanted endpoint with no identity, no outstanding request and no recent
/// request gets a new request under the next id.
pub open spec fn schedule_step(
    st: ScheduleState,
    sequence: u64,
    now: u64,
    f: TelemetryFlow,
    a: FlowAttribution,
) -> ScheduleState {
    let key = probe_key(f);
    if st.requests.len() >= MAX_PROBES_PER_BATCH || !probe_wanted(f, a) || has_key(
        st.cache.identities,
        key,
    ) || awaiting(st.cache.outstanding, key) || recently_requested(st.cache, key, now) {
        st
    } else {
        let n = sat_add(st.cache.next_request, 1);
        let id = request_id_text(sequence, n);
        ScheduleState {
            cache: CacheView {
                outstanding: put(st.cache.outstanding, id, (key, now)),
                last_requested: put(st.cache.last_requested, key, now),
                next_request: n,
                ..st.cache
            },
            requests: st.requests.push((id, f.remote_ip@, f.remote_port)),
        }
    }
}

/// The state after the first `n` flows of a batch, after expiry at `now`.
pub open spec fn schedule_spec(
    v: CacheView,
    sequence: u64,
    flows: Seq<TelemetryFlow>,
    attributions: Seq<FlowAttribution>,
    now: u64,
    n: int,
) -> ScheduleState
    decreases n,
{
    if n <= 0 {
        ScheduleState { cache: expired_view(v, now), requests: Seq::empty() }
    } else {
        schedule_step(
            schedule_spec(v, sequence, flows, attributions, now, n - 1),
            sequence,
            now,
            flows[n - 1],
            attributions[n - 1],
        )
    }
}

/// A batch asks for at most the per-batch maximum of probes, each of a
/// private endpoint on a nonzero 16-bit port.
pub proof fn lemma_schedule_bounded(
    v: CacheView,
    sequence: u64,
    flows: Seq<TelemetryFlow>,
    attributions: Seq<FlowAttribution>,
    now: u64,
    n: int,
)
    requires
        n <= flows.len(),
        n <= attributions.len(),
    ensures
        schedule_spec(v, sequence, flows, attributions, now, n).requests.len() <= MAX_PROBES_PER_BATCH,
        forall|k: int|
            0 <= k < schedule_spec(v, sequence, flows, attributions, now, n).requests.len() ==> {
                let q = #[trigger] schedule_spec(v, sequence, flows, attributions, now, n).requests[k];
                private_endpoint(q.1) && 0 < q.2 <= 65535
            },
    decreases n,
{
    if n > 0 {
        lemma_schedule_bounded(v, sequence, flows, attributions, now, n - 1);
        let prev = schedule_spec(v, sequence, flows, attributions, now, n - 1);
        let cur = schedule_spec(v, sequence, flows, attributions, now, n);
        if cur.requests.len() != prev.requests.len() {
            assert forall|k: int| 0 <= k < cur.requests.len() implies {
                let q = #[trigger] cur.requests[k];
                private_endpoint(q.1) && 0 < q.2 <= 65535
            } by {
                if k < prev.requests.len() {
                    assert(cur.requests[k] == prev.requests[k]);
                }
            }
        }
    }
}

pub open spec fn requests_view(r: Seq<ProbeRequest>) -> Seq<RequestView> {
    r.map_values(|q: ProbeRequest| q@)
}

pub open spec fn min_len(a: int, b: int) -> int {
    if a < b {
        a
    } else {
        b
    }
}

/// The match that settles an endpoint, as `sole_match` describes.
pub fn sole_favicon_match(matches: &Vec<Option<FaviconMatch>>) -> (r: Option<&FaviconMatch>)
    ensures
        option_match_view(match r {
            Some(m) => Some(*m),
            None => None,
        }) == sole_match(matches_view(matches@)),
{
    let ghost mv = matches_view(matches@);
    let mut first: Option<&FaviconMatch> = None;
    let mut i: usize = 0;
    assert(mv.skip(0) =~= mv);
    while i < matches.len()
        invariant
            i <= matches@.len(),
            mv == matches_view(matches@),
            first_match(mv) == match first {
                Some(m) => Some(m@),
                None => first_match(mv.skip(i as int)),
            },
            first is None ==> forall|k: int| 0 <= k < i ==> mv[k] is None,
        decreases matches@.len() - i,
    {
        proof {
            assert(mv.skip(i as int).drop_first() =~= mv.skip(i as int + 1));
            assert(mv.skip(i as int)[0] == mv[i as int]);
        }
        if first.is_none() {
            match &matches[i] {
                Some(m) => {
                    first = Some(m);
                },
                None => {},
            }
        }
        i = i + 1;
    }
    let chosen = match first {
        Some(m) => m,
        None => {
            assert(mv.skip(i as int).len() == 0);
            return None;
        },
    };
    let mut j: usize = 0;
    while j < matches.len()
        invariant
            j <= matches@.len(),
            mv == matches_view(matches@),
            first_match(mv) == Some(chosen@),
            forall|k: int| 0 <= k < j && (#[trigger] mv[k]) is Some ==> (mv[k]->0).0 == chosen@.0,
        decreases matches@.len() - j,
    {
        match &matches[j] {
            Some(m) => {
                if !str_eq(m.application_id.as_str(), chosen.application_id.as_str()) {
                    assert(mv[j as int] is Some && (mv[j as int]->0).0 != chosen@.0);
                    return None;
                }
            },
            None => {},
        }
        j = j + 1;
    }
    Some(chosen)
}

fn same_endpoint(a: &EndpointKey, b: &EndpointKey) -> (r: bool)
    ensures
        r == (a@ == b@),
{
    bytes_eq(a.ip.as_slice(), b.ip.as_slice()) && a.protocol == b.protocol && a.port == b.port
}

fn copy_key(k: &EndpointKey) -> (r: EndpointKey)
    ensures
        r@ == k@,
{
    let ip = k.ip.clone();
    assert(ip@ =~= k.ip@);
    EndpointKey { ip, protocol: k.protocol, port: k.port }
}

impl FaviconEndpointCache {
    pub closed spec fn well_formed(&self) -> bool {
        cache_well_formed(self@)
    }

    /// An empty cache with a day-long identity lifetime and a six-hour
    /// retry interval.
    pub fn new() -> (r: Self)
        ensures
            r.well_formed(),
            r@.identities.len() == 0,
            r@.outstanding.len() == 0,
            r@.last_requested.len() == 0,
            r@.next_request == 0,
            r@.ttl_ms == IDENTITY_TTL_MS,
            r@.retry_ms == PROBE_RETRY_MS,
    {
        let r = FaviconEndpointCache {
            identities: Vec::new(),
            outstanding: Vec::new(),
            last_requested: Vec::new(),
            next_request: 0,
            ttl_ms: IDENTITY_TTL_MS,
            retry_ms: PROBE_RETRY_MS,
        };
        assert(r@.identities =~= Seq::empty());
        assert(r@.outstanding =~= Seq::empty());
        assert(r@.last_requested =~= Seq::empty());
        r
    }

    fn identity_position(&self, key: &EndpointKey) -> (r: Option<usize>)
        requires
            self.well_formed(),
        ensures
            match r {
                Some(i) => key_index(self@.identities, key@) == Some(i as int) && i
                    < self.identities@.len(),
                None => key_index(self@.identities, key@) is None,
            },
    {
        proof {
            lemma_key_index(self@.identities, key@);
        }
        let mut i: usize = 0;
        while i < self.identities.len()
            invariant
                i <= self.identities@.len(),
                self@.identities == identities_view(self.identities@),
                unique_keys(self@.identities),
                forall|k: int| 0 <= k < i ==> (#[trigger] self@.identities[k]).0 != key@,
            decreases self.identities@.len() - i,
        {
            if same_endpoint(&self.identities[i].0, key) {
                proof {
                    assert(self@.identities[i as int].0 == key@);
                    lemma_lookup_at(self@.identities, i as int);
                }
                return Some(i);
            }
            i = i + 1;
        }
        None
    }

    fn last_position(&self, key: &EndpointKey) -> (r: Option<usize>)
        requires
            self.well_formed(),
        ensures
            match r {
                Some(i) => key_index(self@.last_requested, key@) == Some(i as int) && i
                    < self.last_requested@.len(),
                None => key_index(self@.last_requested, key@) is None,
            },
    {
        proof {
            lemma_key_index(self@.last_requested, key@);
        }
        let mut i: usize = 0;
        while i < self.last_requested.len()
            invariant
                i <= self.last_requested@.len(),
                self@.last_requested == last_view(self.last_requested@),
                unique_keys(self@.last_requested),
                forall|k: int| 0 <= k < i ==> (#[trigger] self@.last_requested[k]).0 != key@,
            decreases self.last_requested@.len() - i,
        {
            if same_endpoint(&self.last_requested[i].0, key) {
                proof {
                    assert(self@.last_requested[i as int].0 == key@);
                    lemma_lookup_at(self@.last_requested, i as int);
                }
                return Some(i);
            }
            i = i + 1;
        }
        None
    }

    fn request_position(&self, id: &str) -> (r: Option<usize>)
        requires
            self.well_formed(),
        ensures
            match r {
                Some(i) => key_index(self@.outstanding, id@) == Some(i as int) && i
                    < self.outstanding@.len(),
                None => key_index(self@.outstanding, id@) is None,
            },
    {
        proof {
            lemma_key_index(self@.outstanding, id@);
        }
        let mut i: usize = 0;
        while i < self.outstanding.len()
            invariant
                i <= self.outstanding@.len(),
                self@.outstanding == outstanding_view(self.outstanding@),
                unique_keys(self@.outstanding),
                forall|k: int| 0 <= k < i ==> (#[trigger] self@.outstanding[k]).0 != id@,
            decreases self.outstanding@.len() - i,
        {
            if str_eq(self.outstanding[i].0.as_str(), id) {
                proof {
                    assert(self@.outstanding[i as int].0 == id@);
                    lemma_lookup_at(self@.outstanding, i as int);
                }
                return Some(i);
            }
            i = i + 1;
        }
        None
    }

    /// The identity of an endpoint at `now`, unless it has expired.
    pub fn identity(&self, key: &EndpointKey, now: u64) -> (r: Option<&FaviconIdentity>)
        requires
            self.well_formed(),
        ensures
            match r {
                Some(id) => identity_at(self@, key@, now) == Some(id@),
                None => identity_at(self@, key@, now) is None,
            },
    {
        match self.identity_position(key) {
            Some(i) => {
                let id = &self.identities[i].1;
                if id.expires_at > now {
                    Some(id)
                } else {
                    None
                }
            },
            None => None,
        }
    }

    fn is_awaiting(&self, key: &EndpointKey) -> (r: bool)
        ensures
            r == awaiting(self@.outstanding, key@),
    {
        let mut i: usize = 0;
        while i < self.outstanding.len()
            invariant
                i <= self.outstanding@.len(),
                self@.outstanding == outstanding_view(self.outstanding@),
                forall|k: int| 0 <= k < i ==> (#[trigger] self@.outstanding[k]).1.0 != key@,
            decreases self.outstanding@.len() - i,
        {
            if same_endpoint(&self.outstanding[i].1.0, key) {
                assert(self@.outstanding[i as int].1.0 == key@);
                return true;
            }
            i = i + 1;
        }
        false
    }

    fn was_recently_requested(&self, key: &EndpointKey, now: u64) -> (r: bool)
        requires
            self.well_formed(),
        ensures
            r == recently_requested(self@, key@, now),
    {
        match self.last_position(key) {
            Some(i) => self.last_requested[i].1.saturating_add(self.retry_ms) > now,
            None => false,
        }
    }

    fn put_request(&mut self, id: String, key: EndpointKey, at: u64)
        requires
            old(self).well_formed(),
        ensures
            final(self).well_formed(),
            final(self)@ == (CacheView {
                outstanding: put(old(self)@.outstanding, id@, (key@, at)),
                ..old(self)@
            }),
    {
        let ghost v0 = self@;
        proof {
            lemma_put(v0.outstanding, id@, (key@, at));
        }
        match self.request_position(id.as_str()) {
            Some(i) => {
                let ghost entry = (id@, (key@, at));
                self.outstanding.set(i, (id, (key, at)));
                assert(self@.outstanding =~= v0.outstanding.update(i as int, entry));
            },
            None => {
                let ghost entry = (id@, (key@, at));
                self.outstanding.push((id, (key, at)));
                assert(self@.outstanding =~= v0.outstanding.push(entry));
            },
        }
    }

    fn put_last_requested(&mut self, key: EndpointKey, at: u64)
        requires
            old(self).well_formed(),
        ensures
            final(self).well_formed(),
            final(self)@ == (CacheView {
                last_requested: put(old(self)@.last_requested, key@, at),
                ..old(self)@
            }),
    {
        let ghost v0 = self@;
        proof {
            lemma_put(v0.last_requested, key@, at);
        }
        match self.last_position(&key) {
            Some(i) => {
                let ghost entry = (key@, at);
                self.last_requested.set(i, (key, at));
                assert(self@.last_requested =~= v0.last_requested.update(i as int, entry));
            },
            None => {
                let ghost entry = (key@, at);
                self.last_requested.push((key, at));
                assert(self@.last_requested =~= v0.last_requested.push(entry));
            },
        }
    }

    fn schedule_one(
        &mut self,
        requests: &mut Vec<ProbeRequest>,
        sequence: u64,
        f: &TelemetryFlow,
        a: &FlowAttribution,
        now: u64,
    )
        requires
            old(self).well_formed(),
        ensures
            final(self).well_formed(),
            (ScheduleState { cache: final(self)@, requests: requests_view(final(requests)@) })
                == schedule_step(
                ScheduleState { cache: old(self)@, requests: requests_view(old(requests)@) },
                sequence,
                now,
                *f,
                *a,
            ),
    {
        let ghost st = ScheduleState { cache: self@, requests: requests_view(requests@) };
        if requests.len() >= MAX_PROBES_PER_BATCH || f.protocol != 6 || !str_eq(
            a.application_id.as_str(),
            "unknown",
        ) || !crate::ingest::is_private_endpoint(f.remote_ip.as_slice()) || f.remote_port == 0
            || f.remote_port > 65535 {
            proof {
                reveal_strlit("unknown");
            }
            return;
        }
        proof {
            reveal_strlit("unknown");
        }
        let key = EndpointKey { ip: crate::ingest::copy_bytes(&f.remote_ip), protocol: 6, port: f.remote_port as u16 };
        let known = match self.identity_position(&key) {
            Some(_) => true,
            None => false,
        };
        proof {
            lemma_key_index(self@.identities, key@);
        }
        if known || self.is_awaiting(&key) || self.was_recently_requested(&key, now) {
            return;
        }
        let n = self.next_request.saturating_add(1);
        self.next_request = n;
        let mut text: Vec<char> = Vec::new();
        push_decimal(&mut text, sequence);
        text.push('-');
        push_decimal(&mut text, n);
        proof {
            reveal_strlit("-");
            assert(text@ =~= request_id_text(sequence, n));
        }
        let id = string_from_chars(text.as_slice());
        let request_id = id.clone();
        let key2 = copy_key(&key);
        self.put_request(id, key, now);
        self.put_last_requested(key2, now);
        let ghost before = requests@;
        requests.push(
            ProbeRequest {
                request_id,
                target_ip: crate::ingest::copy_bytes(&f.remote_ip),
                port: f.remote_port,
            },
        );
        proof {
            assert(requests_view(requests@) =~= requests_view(before).push(
                (request_id_text(sequence, n), f.remote_ip@, f.remote_port),
            ));
        }
    }

    /// Expires old entries at `now`, then chooses the endpoints of a batch's
    /// flows to probe, flow by flow (flows and their attributions taken in
    /// pairs), and records each request made.
    pub fn schedule(
        &mut self,
        sequence: u64,
        flows: &Vec<TelemetryFlow>,
        attributions: &Vec<FlowAttribution>,
        now: u64,
    ) -> (r: Vec<ProbeRequest>)
        requires
            old(self).well_formed(),
        ensures
            final(self).well_formed(),
            (ScheduleState { cache: final(self)@, requests: requests_view(r@) }) == schedule_spec(
                old(self)@,
                sequence,
                flows@,
                attributions@,
                now,
                min_len(flows@.len() as int, attributions@.len() as int),
            ),
    {
        let ghost v0 = self@;
        self.expire(now);
        let n = if flows.len() < attributions.len() {
            flows.len()
        } else {
            attributions.len()
        };
        let mut requests: Vec<ProbeRequest> = Vec::new();
        let mut i: usize = 0;
        assert(requests_view(requests@) =~= Seq::<RequestView>::empty());
        while i < n
            invariant
                i <= n,
                n == min_len(flows@.len() as int, attributions@.len() as int),
                self.well_formed(),
                (ScheduleState { cache: self@, requests: requests_view(requests@) })
                    == schedule_spec(v0, sequence, flows@, attributions@, now, i as int),
            decreases n - i,
        {
            self.schedule_one(&mut requests, sequence, &flows[i], &attributions[i], now);
            i = i + 1;
        }
        requests
    }

    fn take_request(&mut self, id: &str) -> (r: Option<(EndpointKey, u64)>)
        requires
            old(self).well_formed(),
        ensures
            final(self).well_formed(),
            final(self)@ == (CacheView {
                outstanding: remove_key(old(self)@.outstanding, id@),
                ..old(self)@
            }),
            match r {
                Some(e) => lookup(old(self)@.outstanding, id@) == Some((e.0@, e.1)),
                None => lookup(old(self)@.outstanding, id@) is None,
            },
    {
        let ghost v0 = self@;
        proof {
            lemma_remove_key(v0.outstanding, id@);
        }
        match self.request_position(id) {
            Some(i) => {
                let e = self.outstanding.remove(i);
                assert(self@.outstanding =~= v0.outstanding.remove(i as int));
                Some(e.1)
            },
            None => None,
        }
    }

    fn put_identity(&mut self, key: EndpointKey, id: FaviconIdentity)
        requires
            old(self).well_formed(),
        ensures
            final(self).well_formed(),
            final(self)@ == (CacheView {
                identities: put(old(self)@.identities, key@, id@),
                ..old(self)@
            }),
    {
        let ghost v0 = self@;
        proof {
            lemma_put(v0.identities, key@, id@);
        }
        match self.identity_position(&key) {
            Some(i) => {
                let ghost entry = (key@, id@);
                self.identities.set(i, (key, id));
                assert(self@.identities =~= v0.identities.update(i as int, entry));
            },
            None => {
                let ghost entry = (key@, id@);
                self.identities.push((key, id));
                assert(self@.identities =~= v0.identities.push(entry));
            },
        }
    }

    fn drop_identity(&mut self, key: &EndpointKey)
        requires
            old(self).well_formed(),
        ensures
            final(self).well_formed(),
            final(self)@ == (CacheView {
                identities: remove_key(old(self)@.identities, key@),
                ..old(self)@
            }),
    {
        let ghost v0 = self@;
        proof {
            lemma_remove_key(v0.identities, key@);
        }
        match self.identity_position(key) {
            Some(i) => {
                self.identities.remove(i);
                assert(self@.identities =~= v0.identities.remove(i as int));
            },
            None => {},
        }
    }

    fn observe_one(&mut self, r: &ProbeResult, now: u64)
        requires
            old(self).well_formed(),
        ensures
            final(self).well_formed(),
            final(self)@ == observe_step(old(self)@, result_view(*r), now),
    {
        let requested = match self.take_request(r.request_id.as_str()) {
            Some(e) => e,
            None => {
                return;
            },
        };
        let fav = match &r.favicon {
            Some(f) => f,
            None => {
                return;
            },
        };
        let ip_len = fav.target_ip.len();
        if !(ip_len == 4 || ip_len == 16) || fav.port > 65535 {
            return;
        }
        let key = EndpointKey { ip: crate::ingest::copy_bytes(&fav.target_ip), protocol: 6, port: fav.port as u16 };
        let ok = str_eq(r.status.as_str(), "ok");
        proof {
            reveal_strlit("ok");
        }
        if !same_endpoint(&key, &requested.0) || !ok {
            return;
        }
        match sole_favicon_match(&fav.matches) {
            Some(m) => {
                let expires_at = now.saturating_add(self.ttl_ms);
                let id = FaviconIdentity {
                    application_id: m.application_id.clone(),
                    organization_id: m.organization_id.clone(),
                    traffic_class: m.traffic_class.clone(),
                    evidence_json: m.evidence_json.clone(),
                    expires_at,
                };
                self.put_identity(key, id);
            },
            None => {
                self.drop_identity(&key);
            },
        }
    }

    /// Expires old entries at `now`, then takes in the probe results in
    /// order.
    pub fn observe_results_at(&mut self, results: &Vec<ProbeResult>, now: u64)
        requires
            old(self).well_formed(),
        ensures
            final(self).well_formed(),
            final(self)@ == observe_spec(
                old(self)@,
                results_view(results@),
                now,
                results@.len() as int,
            ),
    {
        let ghost v0 = self@;
        self.expire(now);
        let mut i: usize = 0;
        while i < results.len()
            invariant
                i <= results@.len(),
                self.well_formed(),
                self@ == observe_spec(v0, results_view(results@), now, i as int),
            decreases results@.len() - i,
        {
            self.observe_one(&results[i], now);
            i = i + 1;
        }
    }

    /// Takes in a batch's probe results at the batch's send time, or at the
    /// clock's time where the agent left that out; returns the time used.
    pub fn observe_results(&mut self, sent_at: u64, results: &Vec<ProbeResult>) -> (now: u64)
        requires
            old(self).well_formed(),
        ensures
            sent_at != 0 ==> now == sent_at,
            final(self).well_formed(),
            final(self)@ == observe_spec(
                old(self)@,
                results_view(results@),
                now,
                results@.len() as int,
            ),
    {
        let now = if sent_at == 0 {
            crate::clock::unix_time_ms()
        } else {
            sent_at
        };
        self.observe_results_at(results, now);
        now
    }

    /// Drops expired identities, and requests and request times older than
    /// the retry interval, keeping the rest in order.
    pub fn expire(&mut self, now: u64)
        requires
            old(self).well_formed(),
        ensures
            final(self).well_formed(),
            final(self)@ == expired_view(old(self)@, now),
    {
        let ghost v0 = self@;
        let ghost out0 = self.outstanding@;
        let ghost last0 = self.last_requested@;
        let retry = self.retry_ms;
        let ghost p1 = |e: (KeyView, IdentityView)| identity_live(e, now);
        let ghost p2 = |e: (Seq<char>, (KeyView, u64))| request_live(e, now, retry);
        let ghost p3 = |e: (KeyView, u64)| last_live(e, now, retry);

        let mut rest1: Vec<(EndpointKey, FaviconIdentity)> = Vec::new();
        std::mem::swap(&mut self.identities, &mut rest1);
        let ghost o1 = rest1@;
        assert(o1.len() == rest1.len());
        let mut i: usize = 0;
        while rest1.len() > 0
            invariant
                i <= o1.len() <= usize::MAX,
                self.outstanding@ == out0,
                self.last_requested@ == last0,
                self.next_request == v0.next_request,
                self.ttl_ms == v0.ttl_ms,
                self.retry_ms == v0.retry_ms,
                p1 == (|e: (KeyView, IdentityView)| identity_live(e, now)),
                rest1@ == o1.skip(i as int),
                identities_view(self.identities@) == identities_view(o1.take(i as int)).filter(p1),
            decreases rest1@.len(),
        {
            let e = rest1.remove(0);
            proof {
                assert(o1[i as int] == e);
                identities_view(o1.take(i as int)).lemma_filter_push((e.0@, e.1@), p1);
                assert(identities_view(o1.take(i as int + 1)) =~= identities_view(
                    o1.take(i as int),
                ).push((e.0@, e.1@)));
                assert(rest1@ =~= o1.skip(i as int + 1));
            }
            let ghost before = self.identities@;
            if e.1.expires_at > now {
                self.identities.push(e);
                proof {
                    assert(identities_view(self.identities@) =~= identities_view(before).push(
                        (e.0@, e.1@),
                    ));
                }
            }
            i = i + 1;
        }
        proof {
            assert(o1.take(i as int) =~= o1);
        }
        let ghost f1 = self.identities@;

        let mut rest2: Vec<(String, (EndpointKey, u64))> = Vec::new();
        std::mem::swap(&mut self.outstanding, &mut rest2);
        let ghost o2 = rest2@;
        assert(o2.len() == rest2.len());
        let mut j: usize = 0;
        while rest2.len() > 0
            invariant
                j <= o2.len() <= usize::MAX,
                self.identities@ == f1,
                self.last_requested@ == last0,
                self.next_request == v0.next_request,
                self.ttl_ms == v0.ttl_ms,
                self.retry_ms == v0.retry_ms,
                retry == v0.retry_ms,
                p2 == (|e: (Seq<char>, (KeyView, u64))| request_live(e, now, retry)),
                rest2@ == o2.skip(j as int),
                outstanding_view(self.outstanding@) == outstanding_view(o2.take(j as int)).filter(p2),
            decreases rest2@.len(),
        {
            let e = rest2.remove(0);
            proof {
                assert(o2[j as int] == e);
                outstanding_view(o2.take(j as int)).lemma_filter_push((e.0@, (e.1.0@, e.1.1)), p2);
                assert(outstanding_view(o2.take(j as int + 1)) =~= outstanding_view(
                    o2.take(j as int),
                ).push((e.0@, (e.1.0@, e.1.1))));
                assert(rest2@ =~= o2.skip(j as int + 1));
            }
            let ghost before = self.outstanding@;
            if e.1.1.saturating_add(retry) > now {
                self.outstanding.push(e);
                proof {
                    assert(outstanding_view(self.outstanding@) =~= outstanding_view(before).push(
                        (e.0@, (e.1.0@, e.1.1)),
                    ));
                }
            }
            j = j + 1;
        }
        proof {
            assert(o2.take(j as int) =~= o2);
        }
        let ghost f2 = self.outstanding@;

        let mut rest3: Vec<(EndpointKey, u64)> = Vec::new();
        std::mem::swap(&mut self.last_requested, &mut rest3);
        let ghost o3 = rest3@;
        assert(o3.len() == rest3.len());
        let mut k: usize = 0;
        while rest3.len() > 0
            invariant
                k <= o3.len() <= usize::MAX,
                self.identities@ == f1,
                self.outstanding@ == f2,
                self.next_request == v0.next_request,
                self.ttl_ms == v0.ttl_ms,
                self.retry_ms == v0.retry_ms,
                retry == v0.retry_ms,
                p3 == (|e: (KeyView, u64)| last_live(e, now, retry)),
                rest3@ == o3.skip(k as int),
                last_view(self.last_requested@) == last_view(o3.take(k as int)).filter(p3),
            decreases rest3@.len(),
        {
            let e = rest3.remove(0);
            proof {
                assert(o3[k as int] == e);
                last_view(o3.take(k as int)).lemma_filter_push((e.0@, e.1), p3);
                assert(last_view(o3.take(k as int + 1)) =~= last_view(o3.take(k as int)).push(
                    (e.0@, e.1),
                ));
                assert(rest3@ =~= o3.skip(k as int + 1));
            }
            let ghost before = self.last_requested@;
            if e.1.saturating_add(retry) > now {
                self.last_requested.push(e);
                proof {
                    assert(last_view(self.last_requested@) =~= last_view(before).push((e.0@, e.1)));
                }
            }
            k = k + 1;
        }
        proof {
            assert(o3.take(k as int) =~= o3);
            lemma_filter_keyed(v0.identities, p1);
            lemma_filter_keyed(v0.outstanding, p2);
            lemma_filter_keyed(v0.last_requested, p3);
            assert(p2 =~= (|e: (Seq<char>, (KeyView, u64))| request_live(e, now, v0.retry_ms)));
            assert(p3 =~= (|e: (KeyView, u64)| last_live(e, now, v0.retry_ms)));
            assert(self@.identities == expired_view(v0, now).identities);
            assert(self@.outstanding == expired_view(v0, now).outstanding);
            assert(self@.last_requested == expired_view(v0, now).last_requested);
            assert(self@ == expired_view(v0, now));
        }
    }
}

} // verus!
