//! Endpoint-wide reuse of a strong self-hosted application attribution: a
//! service endpoint that once identified itself confidently lends that
//! identity to later, weaker flows to the same endpoint, for a while.

use vstd::prelude::*;

use crate::favicon_probe::{EndpointKey, KeyView};
use crate::ingest::sat_add;
use crate::keyed::{
    has_key, key_index, lemma_key_index, lemma_lookup_at, lemma_put, lemma_remove_key, lookup, put,
    remove_key, unique_keys,
};
use crate::text::{chars_of, decimal, push_decimal, push_str, split_once_chars, split_once_spec, string_from_chars};

verus! {

/// How long a binding lasts unless renewed.
pub const BINDING_TTL_MS: u64 = 900_000;

/// How many endpoints are bound at most.
pub const MAX_BINDINGS: usize = 4096;

/// A bound endpoint: the application it was identified as, the evidence
/// source, when it was last used and until when it holds, and the
/// attribution it lends.
pub struct Binding<T> {
    pub application_id: String,
    pub source: String,
    pub last_seen: u64,
    pub expires_at: u64,
    pub attribution: T,
}

/// Application, source, last use, expiry, attribution.
pub type BindingView<T> = (Seq<char>, Seq<char>, u64, u64, T);

pub open spec fn binding_view<T>(b: Binding<T>) -> BindingView<T> {
    (b.application_id@, b.source@, b.last_seen, b.expires_at, b.attribution)
}

/// The bindings by endpoint, with their lifetime and their maximum number.
pub struct ServiceBindings<T> {
    entries: Vec<(EndpointKey, Binding<T>)>,
    ttl_ms: u64,
    max_entries: usize,
}

pub struct BindingsView<T> {
    pub entries: Seq<(KeyView, BindingView<T>)>,
    pub ttl_ms: u64,
    pub max_entries: usize,
}

pub open spec fn entries_view<T>(s: Seq<(EndpointKey, Binding<T>)>) -> Seq<(KeyView, BindingView<T>)> {
    s.map_values(|e: (EndpointKey, Binding<T>)| (e.0@, binding_view(e.1)))
}

/// What applying a flow did.
pub enum BindingOutcome {
    /// The flow's own attribution stands.
    Kept,
    /// The flow bound its endpoint to its application.
    Bound,
    /// The flow disagreed with its endpoint's binding, which was dropped.
    Unbound,
    /// The flow takes the endpoint's bound attribution; the binding was
    /// renewed.
    Lent,
}

/// HTTP and HTTPS ports carry many applications behind one socket, so they
/// are never bound.
pub open spec fn multiplexed_port(port: u16) -> bool {
    port == 80 || port == 443
}

pub open spec fn binding_live<T>(e: (KeyView, BindingView<T>), now: u64) -> bool {
    e.1.3 > now
}

/// Whether the entry at `i` was used no later than every other.
pub open spec fn least_recent<T>(s: Seq<(KeyView, BindingView<T>)>, i: int) -> bool {
    0 <= i < s.len() && forall|j: int| 0 <= j < s.len() ==> s[i].1.2 <= (#[trigger] s[j]).1.2
}

/// The evidence source named at the start of a reason `source:detail`, or
/// the classifier where the reason names none.
pub open spec fn binding_source_spec(reason: Seq<char>) -> Seq<char> {
    match split_once_spec(reason, ":"@) {
        Some((a, _)) => a,
        None => "classifier"@,
    }
}

pub fn binding_source(reason: &str) -> (r: String)
    ensures
        r@ == binding_source_spec(reason@),
{
    let chars = chars_of(reason);
    let colon = chars_of(":");
    match split_once_chars(chars.as_slice(), colon.as_slice()) {
        Some((a, _)) => string_from_chars(a.as_slice()),
        None => {
            proof {
                reveal_strlit("classifier");
            }
            "classifier".to_owned()
        },
    }
}

/// The transport named in a lent reason: UDP for IP protocol 17, TCP
/// otherwise.
pub open spec fn transport_name(protocol: u8) -> Seq<char> {
    if protocol == 17 {
        "udp"@
    } else {
        "tcp"@
    }
}

/// The reason a lent attribution carries:
/// `service_binding:<ip>:<udp|tcp>/<port>`.
pub open spec fn lent_reason_spec(ip_text: Seq<char>, protocol: u8, port: u16) -> Seq<char> {
    "service_binding:"@ + ip_text + ":"@ + transport_name(protocol) + "/"@ + decimal(port as nat)
}

/// The reason of an attribution lent by the binding of endpoint
/// `ip_text` (the address as text), `protocol` and `port`.
pub fn lent_reason(ip_text: &str, protocol: u8, port: u16) -> (r: String)
    ensures
        r@ == lent_reason_spec(ip_text@, protocol, port),
{
    let mut out: Vec<char> = Vec::new();
    push_str(&mut out, "service_binding:");
    push_str(&mut out, ip_text);
    push_str(&mut out, ":");
    if protocol == 17 {
        push_str(&mut out, "udp");
    } else {
        push_str(&mut out, "tcp");
    }
    push_str(&mut out, "/");
    push_decimal(&mut out, port as u64);
    string_from_chars(out.as_slice())
}

/// What a lent binding was, before the flow renewed it: its source, last
/// use and expiry.
pub struct LentBinding {
    pub source: String,
    pub last_seen: u64,
    pub expires_at: u64,
}

/// The bindings after one flow, as `apply` describes them; `evicted` stands
/// for the least recently used binding dropped when a new binding would
/// exceed the maximum.
pub open spec fn apply_entries<T>(
    v: BindingsView<T>,
    key: KeyView,
    now: u64,
    application: Seq<char>,
    strong_self_host: bool,
    confident: bool,
    reason: Seq<char>,
    attribution: T,
    evicted: int,
) -> Seq<(KeyView, BindingView<T>)> {
    let e = v.entries.filter(|x: (KeyView, BindingView<T>)| binding_live(x, now));
    let mux = multiplexed_port(key.2);
    if strong_self_host && !mux {
        if lookup(e, key) is Some && (lookup(e, key)->0).0 != application {
            remove_key(e, key)
        } else {
            let p = put(
                e,
                key,
                (application, binding_source_spec(reason), now, sat_add(now, v.ttl_ms), attribution),
            );
            if p.len() <= v.max_entries {
                p
            } else {
                p.remove(evicted)
            }
        }
    } else if confident || mux {
        e
    } else {
        match lookup(e, key) {
            None => e,
            Some(b) => put(e, key, (b.0, b.1, now, sat_add(now, v.ttl_ms), b.4)),
        }
    }
}

/// The binding that would be dropped for room, as `apply` may choose it:
/// any of the least recently used (only consulted when one is dropped).
pub open spec fn may_evict<T>(
    v: BindingsView<T>,
    key: KeyView,
    now: u64,
    application: Seq<char>,
    reason: Seq<char>,
    attribution: T,
    evicted: int,
) -> bool {
    let e = v.entries.filter(|x: (KeyView, BindingView<T>)| binding_live(x, now));
    let p = put(
        e,
        key,
        (application, binding_source_spec(reason), now, sat_add(now, v.ttl_ms), attribution),
    );
    p.len() <= v.max_entries || least_recent(p, evicted)
}

impl<T> ServiceBindings<T> {
    pub closed spec fn view(&self) -> BindingsView<T> {
        BindingsView {
            entries: entries_view(self.entries@),
            ttl_ms: self.ttl_ms,
            max_entries: self.max_entries,
        }
    }

    pub open spec fn well_formed(&self) -> bool {
        &&& unique_keys(self.view().entries)
        &&& self.view().max_entries > 0
        &&& self.view().entries.len() <= self.view().max_entries
    }

    /// No bindings; each lasts `ttl_ms`, and at most `max_entries` are kept.
    pub fn new(ttl_ms: u64, max_entries: usize) -> (r: Self)
        requires
            max_entries > 0,
        ensures
            r.well_formed(),
            r.view().entries.len() == 0,
            r.view().ttl_ms == ttl_ms,
            r.view().max_entries == max_entries,
    {
        let r = ServiceBindings { entries: Vec::new(), ttl_ms, max_entries };
        assert(r.view().entries =~= Seq::empty());
        r
    }

    fn position(&self, key: &EndpointKey) -> (r: Option<usize>)
        requires
            unique_keys(self.view().entries),
        ensures
            match r {
                Some(i) => key_index(self.view().entries, key@) == Some(i as int) && i
                    < self.entries@.len(),
                None => key_index(self.view().entries, key@) is None,
            },
    {
        let ghost s = self.view().entries;
        proof {
            lemma_key_index(s, key@);
        }
        let mut i: usize = 0;
        while i < self.entries.len()
            invariant
                i <= self.entries@.len(),
                s == entries_view(self.entries@),
                unique_keys(s),
                forall|k: int| 0 <= k < i ==> (#[trigger] s[k]).0 != key@,
            decreases self.entries@.len() - i,
        {
            let e = &self.entries[i].0;
            if crate::sampling::bytes_eq(e.ip.as_slice(), key.ip.as_slice()) && e.protocol
                == key.protocol && e.port == key.port {
                proof {
                    assert(s[i as int].0 == key@);
                    lemma_lookup_at(s, i as int);
                }
                return Some(i);
            }
            i = i + 1;
        }
        None
    }

    /// Drops the bindings that expired by `now`, keeping the others in order.
    pub fn expire(&mut self, now: u64)
        requires
            old(self).well_formed(),
        ensures
            final(self).well_formed(),
            final(self).view() == (BindingsView {
                entries: old(self).view().entries.filter(
                    |e: (KeyView, BindingView<T>)| binding_live(e, now),
                ),
                ..old(self).view()
            }),
    {
        let ghost v0 = self.view();
        let ghost pred = |e: (KeyView, BindingView<T>)| binding_live(e, now);
        let mut rest: Vec<(EndpointKey, Binding<T>)> = Vec::new();
        std::mem::swap(&mut self.entries, &mut rest);
        let ghost orig = rest@;
        assert(orig.len() == rest.len());
        let mut i: usize = 0;
        while rest.len() > 0
            invariant
                i <= orig.len() <= usize::MAX,
                pred == (|e: (KeyView, BindingView<T>)| binding_live(e, now)),
                rest@ == orig.skip(i as int),
                entries_view(self.entries@) == entries_view(orig.take(i as int)).filter(pred),
                self.ttl_ms == v0.ttl_ms,
                self.max_entries == v0.max_entries,
            decreases rest@.len(),
        {
            let e = rest.remove(0);
            proof {
                assert(orig[i as int] == e);
                entries_view(orig.take(i as int)).lemma_filter_push((e.0@, binding_view(e.1)), pred);
                assert(entries_view(orig.take(i as int + 1)) =~= entries_view(orig.take(i as int)).push(
                    (e.0@, binding_view(e.1)),
                ));
                assert(rest@ =~= orig.skip(i as int + 1));
            }
            let ghost before = self.entries@;
            if e.1.expires_at > now {
                self.entries.push(e);
                proof {
                    assert(entries_view(self.entries@) =~= entries_view(before).push(
                        (e.0@, binding_view(e.1)),
                    ));
                }
            }
            i = i + 1;
        }
        proof {
            assert(orig.take(i as int) =~= orig);
            crate::keyed::lemma_filter_keyed(v0.entries, pred);
            v0.entries.filter_lemma(pred);
        }
    }

    /// The attribution a binding lends, if the endpoint is bound.
    pub fn bound_attribution(&self, key: &EndpointKey) -> (r: Option<&T>)
        requires
            self.well_formed(),
        ensures
            match r {
                Some(a) => lookup(self.view().entries, key@) matches Some(b) && b.4 == *a,
                None => lookup(self.view().entries, key@) is None,
            },
    {
        match self.position(key) {
            Some(i) => Some(&self.entries[i].1.attribution),
            None => None,
        }
    }

    /// Applies one flow to its endpoint at `now`, after expiring old
    /// bindings. A strong self-hosted identification (`strong_self_host`)
    /// on a port that is not HTTP(S) binds the endpoint to the flow's
    /// application, or drops the binding when it names another
    /// application. A flow that is not confidently identified (`confident`
    /// unset) on such a port takes the endpoint's binding, which is renewed.
    pub fn apply(
        &mut self,
        key: EndpointKey,
        now: u64,
        application_id: &str,
        strong_self_host: bool,
        confident: bool,
        reason: &str,
        attribution: T,
    ) -> (r: (BindingOutcome, Option<LentBinding>))
        requires
            old(self).well_formed(),
        ensures
            final(self).well_formed(),
            final(self).view().ttl_ms == old(self).view().ttl_ms,
            final(self).view().max_entries == old(self).view().max_entries,
            exists|evicted: int|
                may_evict(old(self).view(), key@, now, application_id@, reason@, attribution, evicted)
                    && final(self).view().entries == apply_entries(
                    old(self).view(),
                    key@,
                    now,
                    application_id@,
                    strong_self_host,
                    confident,
                    reason@,
                    attribution,
                    evicted,
                ),
            ({
                let e = old(self).view().entries.filter(
                    |x: (KeyView, BindingView<T>)| binding_live(x, now),
                );
                let mux = multiplexed_port(key.port);
                if strong_self_host && !mux {
                    if lookup(e, key@) is Some && (lookup(e, key@)->0).0 != application_id@ {
                        r.0 is Unbound && r.1 is None
                    } else {
                        r.0 is Bound && r.1 is None
                    }
                } else if confident || mux {
                    r.0 is Kept && r.1 is None
                } else {
                    match lookup(e, key@) {
                        None => r.0 is Kept && r.1 is None,
                        Some(b) => r.0 is Lent && (r.1 matches Some(l) && l.source@ == b.1
                            && l.last_seen == b.2 && l.expires_at == b.3),
                    }
                }
            }),
    {
        let ghost v0 = self.view();
        let ghost ka = key@;
        let ghost att = attribution;
        self.expire(now);
        let ghost e = self.view().entries;
        proof {
            lemma_key_index(e, ka);
        }
        let mux = key.port == 80 || key.port == 443;
        let ttl = self.ttl_ms;
        if strong_self_host && !mux {
            let pos = self.position(&key);
            match pos {
                Some(i) => {
                    if !crate::text::str_eq(self.entries[i].1.application_id.as_str(), application_id) {
                        self.entries.remove(i);
                        proof {
                            lemma_lookup_at(e, i as int);
                            assert(self.view().entries =~= e.remove(i as int));
                            lemma_remove_key(e, ka);
                            let w = eviction_witness(v0, ka, now, application_id@, reason@, att);
                            assert(apply_entries(v0, ka, now, application_id@, strong_self_host, confident, reason@, att, w) == e.remove(i as int));
                        }
                        return (BindingOutcome::Unbound, None);
                    }
                },
                None => {},
            }
            let source = binding_source(reason);
            let b = Binding {
                application_id: application_id.to_owned(),
                source,
                last_seen: now,
                expires_at: now.saturating_add(ttl),
                attribution,
            };
            let ghost bv = binding_view(b);
            proof {
                lemma_put(e, ka, bv);
            }
            match pos {
                Some(i) => {
                    proof {
                        lemma_lookup_at(e, i as int);
                    }
                    self.entries.remove(i);
                    self.entries.insert(i, (key, b));
                    assert(self.view().entries =~= e.update(i as int, (ka, bv)));
                },
                None => {
                    self.entries.push((key, b));
                    assert(self.view().entries =~= e.push((ka, bv)));
                },
            }
            let ghost p = self.view().entries;
            self.enforce_bound();
            proof {
                if p.len() <= v0.max_entries {
                    assert(may_evict(v0, ka, now, application_id@, reason@, att, 0));
                    assert(self.view().entries == apply_entries(v0, ka, now, application_id@, strong_self_host, confident, reason@, att, 0));
                } else {
                    let i = choose|i: int| least_recent(p, i) && self.view().entries == p.remove(i);
                    assert(may_evict(v0, ka, now, application_id@, reason@, att, i));
                    assert(self.view().entries == apply_entries(v0, ka, now, application_id@, strong_self_host, confident, reason@, att, i));
                }
            }
            return (BindingOutcome::Bound, None);
        }
        if confident || mux {
            proof {
                let w = eviction_witness(v0, ka, now, application_id@, reason@, att);
                assert(self.view().entries == apply_entries(v0, ka, now, application_id@, strong_self_host, confident, reason@, att, w));
            }
            return (BindingOutcome::Kept, None);
        }
        match self.position(&key) {
            None => {
                proof {
                    let w = eviction_witness(v0, ka, now, application_id@, reason@, att);
                    assert(self.view().entries == apply_entries(v0, ka, now, application_id@, strong_self_host, confident, reason@, att, w));
                }
                (BindingOutcome::Kept, None)
            },
            Some(i) => {
                proof {
                    lemma_lookup_at(e, i as int);
                }
                let (k, mut b) = self.entries.remove(i);
                let lent = LentBinding { source: b.source.clone(), last_seen: b.last_seen, expires_at: b.expires_at };
                b.last_seen = now;
                b.expires_at = now.saturating_add(ttl);
                let ghost bv = binding_view(b);
                self.entries.insert(i, (k, b));
                proof {
                    assert(self.view().entries =~= e.update(i as int, (ka, bv)));
                    lemma_put(e, ka, bv);
                    let w = eviction_witness(v0, ka, now, application_id@, reason@, att);
                    assert(self.view().entries == apply_entries(v0, ka, now, application_id@, strong_self_host, confident, reason@, att, w));
                }
                (BindingOutcome::Lent, Some(lent))
            },
        }
    }

    /// Drops least recently used bindings until at most the maximum remain.
    fn enforce_bound(&mut self)
        requires
            unique_keys(old(self).view().entries),
            old(self).view().max_entries > 0,
            old(self).view().entries.len() <= old(self).view().max_entries + 1,
        ensures
            final(self).well_formed(),
            final(self).view().ttl_ms == old(self).view().ttl_ms,
            final(self).view().max_entries == old(self).view().max_entries,
            old(self).view().entries.len() <= old(self).view().max_entries ==> final(self).view()
                == old(self).view(),
            old(self).view().entries.len() > old(self).view().max_entries ==> exists|i: int|
                least_recent(old(self).view().entries, i) && final(self).view().entries
                    == old(self).view().entries.remove(i),
    {
        if self.entries.len() > self.max_entries {
            let ghost s = self.view().entries;
            let mut best: usize = 0;
            let mut i: usize = 1;
            while i < self.entries.len()
                invariant
                    1 <= i <= self.entries@.len(),
                    best < i,
                    s == entries_view(self.entries@),
                    forall|j: int| 0 <= j < i ==> s[best as int].1.2 <= (#[trigger] s[j]).1.2,
                decreases self.entries@.len() - i,
            {
                if self.entries[i].1.last_seen < self.entries[best].1.last_seen {
                    best = i;
                }
                i = i + 1;
            }
            self.entries.remove(best);
            proof {
                assert(least_recent(s, best as int));
                assert(self.view().entries =~= s.remove(best as int));
                lemma_remove_unique(s, best as int);
            }
        }
    }
}

proof fn lemma_remove_unique<K, V>(s: Seq<(K, V)>, i: int)
    requires
        unique_keys(s),
        0 <= i < s.len(),
    ensures
        unique_keys(s.remove(i)),
{
    let t = s.remove(i);
    assert forall|a: int, b: int| 0 <= a < t.len() && 0 <= b < t.len() && a != b implies (#[trigger] t[a]).0 != (#[trigger] t[b]).0 by {
        assert(t[a] == s[if a < i { a } else { a + 1 }]);
        assert(t[b] == s[if b < i { b } else { b + 1 }]);
    }
}

proof fn lemma_least_recent_exists<T>(s: Seq<(KeyView, BindingView<T>)>)
    requires
        s.len() > 0,
    ensures
        exists|i: int| least_recent(s, i),
    decreases s.len(),
{
    if s.len() == 1 {
        assert(least_recent(s, 0));
    } else {
        let t = s.drop_last();
        lemma_least_recent_exists(t);
        let i = choose|i: int| least_recent(t, i);
        let n = s.len() - 1;
        if s[i].1.2 <= s[n].1.2 {
            assert forall|j: int| 0 <= j < s.len() implies s[i].1.2 <= (#[trigger] s[j]).1.2 by {
                if j < n {
                    assert(s[j] == t[j]);
                }
            }
            assert(least_recent(s, i));
        } else {
            assert forall|j: int| 0 <= j < s.len() implies s[n].1.2 <= (#[trigger] s[j]).1.2 by {
                if j < n {
                    assert(s[j] == t[j]);
                    assert(t[i] == s[i]);
                }
            }
            assert(least_recent(s, n));
        }
    }
}

/// Some binding may be the one dropped for room.
proof fn eviction_witness<T>(
    v: BindingsView<T>,
    key: KeyView,
    now: u64,
    application: Seq<char>,
    reason: Seq<char>,
    attribution: T,
) -> (i: int)
    requires
        v.max_entries > 0,
    ensures
        may_evict(v, key, now, application, reason, attribution, i),
{
    let e = v.entries.filter(|x: (KeyView, BindingView<T>)| binding_live(x, now));
    let p = put(
        e,
        key,
        (application, binding_source_spec(reason), now, sat_add(now, v.ttl_ms), attribution),
    );
    if p.len() <= v.max_entries {
        0
    } else {
        lemma_least_recent_exists(p);
        choose|i: int| least_recent(p, i)
    }
}

/// Flows to HTTP(S) ports neither bind their endpoint nor take a binding:
/// only expiry changes the bindings.
pub proof fn lemma_multiplexed_ports_never_bound<T>(
    v: BindingsView<T>,
    key: KeyView,
    now: u64,
    application: Seq<char>,
    strong_self_host: bool,
    confident: bool,
    reason: Seq<char>,
    attribution: T,
    evicted: int,
)
    requires
        multiplexed_port(key.2),
    ensures
        apply_entries(v, key, now, application, strong_self_host, confident, reason, attribution, evicted)
            == v.entries.filter(|x: (KeyView, BindingView<T>)| binding_live(x, now)),
{
}

} // verus!
