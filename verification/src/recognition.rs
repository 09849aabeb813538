//! Recognition diagnostics: how many stored clients have a device type,
//! vendor or evidence, and how stored flow sessions split between
//! identified applications, protocol-only and unknown traffic, with the
//! domains and packet-inspection names that no rule matched.

use vstd::prelude::*;
use vstd::multiset::Multiset;

use crate::classifier::strings_view;
use crate::keyed::{lemma_key_index, lemma_lookup_at, lemma_put, lookup, put, unique_keys};
use crate::realtime::{chars_le, chars_le_exec, lemma_chars_le_total, lemma_chars_le_trans};
use crate::text::{chars_of, str_eq};

verus! {

broadcast use vstd::seq_lib::group_to_multiset_ensures;

/// Entries kept in each list of unmatched names.
pub const TOP_UNMATCHED: usize = 20;

/// A text field is known when present, non-empty and not `unknown`.
pub open spec fn known_text(v: Option<String>) -> bool {
    match v {
        Some(s) => s@.len() > 0 && s@ != "unknown"@,
        None => false,
    }
}

fn is_known(v: &Option<String>) -> (r: bool)
    ensures
        r == known_text(*v),
{
    match v {
        Some(s) => !s.as_str().is_empty() && !str_eq(s.as_str(), "unknown"),
        None => false,
    }
}

/// A stored client: its device type and vendor, whether its MAC is private
/// (nonzero), and the sources of its identity evidence in order.
#[derive(Clone, Debug)]
pub struct DeviceRecord {
    pub device_type: Option<String>,
    pub vendor: Option<String>,
    pub private_mac: u64,
    pub evidence_sources: Vec<String>,
}

/// A group of stored flow sessions with the same attribution: application,
/// protocol, domain, classification evidence as (type, value) where each is
/// text, and how many sessions.
#[derive(Clone, Debug)]
pub struct FlowGroup {
    pub application_id: Option<String>,
    pub protocol_id: Option<String>,
    pub domain: Option<String>,
    pub evidence: Vec<(Option<String>, Option<String>)>,
    pub count: u64,
}

/// The distinct evidence sources of a client, first occurrences in order,
/// leaving out randomized-MAC evidence.
pub open spec fn distinct_sources(s: Seq<Seq<char>>, n: int) -> Seq<Seq<char>>
    decreases n,
{
    if n <= 0 {
        Seq::empty()
    } else {
        let prev = distinct_sources(s, n - 1);
        let x = s[n - 1];
        if x == "mac_random"@ || prev.contains(x) {
            prev
        } else {
            prev.push(x)
        }
    }
}

pub open spec fn device_sources(d: DeviceRecord) -> Seq<Seq<char>> {
    distinct_sources(strings_view(d.evidence_sources@), d.evidence_sources@.len() as int)
}

/// A tally: each name once, with its count.
pub type Tally = Seq<(Seq<char>, int)>;

pub open spec fn bump(t: Tally, k: Seq<char>, by: int) -> Tally {
    put(
        t,
        k,
        match lookup(t, k) {
            Some(v) => v + by,
            None => by,
        },
    )
}

pub open spec fn bump_all(t: Tally, keys: Seq<Seq<char>>, n: int) -> Tally
    decreases n,
{
    if n <= 0 {
        t
    } else {
        bump(bump_all(t, keys, n - 1), keys[n - 1], 1)
    }
}

/// Client counts: clients, with a device type, with a vendor, with a
/// private MAC, without a device type though with evidence, and without
/// either; and each evidence source's number of clients.
pub struct DeviceCounts {
    pub total: int,
    pub typed: int,
    pub vendors: int,
    pub private_macs: int,
    pub unknown_with_evidence: int,
    pub unknown_without_evidence: int,
    pub coverage: Tally,
}

pub open spec fn device_counts(ds: Seq<DeviceRecord>, n: int) -> DeviceCounts
    decreases n,
{
    if n <= 0 {
        DeviceCounts {
            total: 0,
            typed: 0,
            vendors: 0,
            private_macs: 0,
            unknown_with_evidence: 0,
            unknown_without_evidence: 0,
            coverage: Seq::empty(),
        }
    } else {
        let p = device_counts(ds, n - 1);
        let d = ds[n - 1];
        let sources = device_sources(d);
        let typed = known_text(d.device_type);
        DeviceCounts {
            total: p.total + 1,
            typed: p.typed + if typed { 1int } else { 0int },
            vendors: p.vendors + if known_text(d.vendor) { 1int } else { 0int },
            private_macs: p.private_macs + if d.private_mac != 0 { 1int } else { 0int },
            unknown_with_evidence: p.unknown_with_evidence + if !typed && sources.len() > 0 {
                1int
            } else {
                0int
            },
            unknown_without_evidence: p.unknown_without_evidence + if !typed && sources.len()
                == 0 {
                1int
            } else {
                0int
            },
            coverage: bump_all(p.coverage, sources, sources.len() as int),
        }
    }
}

pub open spec fn has_evidence(e: Seq<(Option<String>, Option<String>)>, kind: Seq<char>) -> bool {
    exists|i: int| 0 <= i < e.len() && ((#[trigger] e[i]).0 matches Some(t) && t@ == kind)
}

/// The packet-inspection names no rule matched, one per evidence item.
pub open spec fn unmatched_names(e: Seq<(Option<String>, Option<String>)>, n: int) -> Seq<Seq<char>>
    decreases n,
{
    if n <= 0 {
        Seq::empty()
    } else {
        let prev = unmatched_names(e, n - 1);
        match (e[n - 1].0, e[n - 1].1) {
            (Some(t), Some(v)) => if t@ == "unmatched_ndpi_application"@ {
                prev.push(v@)
            } else {
                prev
            },
            _ => prev,
        }
    }
}

pub open spec fn bump_each(t: Tally, keys: Seq<Seq<char>>, by: int, n: int) -> Tally
    decreases n,
{
    if n <= 0 {
        t
    } else {
        bump(bump_each(t, keys, by, n - 1), keys[n - 1], by)
    }
}

/// Flow-session counts: all sessions, with an application, by domain rule,
/// by packet-inspection rule, with only a protocol, with only TLS or QUIC,
/// and unknown; and the unmatched domains and packet-inspection names.
pub struct FlowCounts {
    pub total: int,
    pub applications: int,
    pub domain_rules: int,
    pub inspection_rules: int,
    pub protocol_only: int,
    pub tls_quic_only: int,
    pub unknown: int,
    pub unmatched_domains: Tally,
    pub unmatched_inspection: Tally,
}

pub open spec fn is_tls_or_quic(p: Option<String>) -> bool {
    match p {
        Some(s) => s@ == "tls"@ || s@ == "quic"@,
        None => false,
    }
}

pub open spec fn flow_counts(fs: Seq<FlowGroup>, n: int) -> FlowCounts
    decreases n,
{
    if n <= 0 {
        FlowCounts {
            total: 0,
            applications: 0,
            domain_rules: 0,
            inspection_rules: 0,
            protocol_only: 0,
            tls_quic_only: 0,
            unknown: 0,
            unmatched_domains: Seq::empty(),
            unmatched_inspection: Seq::empty(),
        }
    } else {
        let p = flow_counts(fs, n - 1);
        let f = fs[n - 1];
        let c = f.count as int;
        let app = known_text(f.application_id);
        let protocol = known_text(f.protocol_id);
        let by_domain = has_evidence(f.evidence@, "domain_application"@);
        let names = unmatched_names(f.evidence@, f.evidence@.len() as int);
        FlowCounts {
            total: p.total + c,
            applications: p.applications + if app { c } else { 0 },
            domain_rules: p.domain_rules + if app && by_domain { c } else { 0 },
            inspection_rules: p.inspection_rules + if app && has_evidence(
                f.evidence@,
                "ndpi_application"@,
            ) {
                c
            } else {
                0
            },
            protocol_only: p.protocol_only + if !app && protocol { c } else { 0 },
            tls_quic_only: p.tls_quic_only + if !app && is_tls_or_quic(f.protocol_id) { c } else { 0 },
            unknown: p.unknown + if !app && !protocol { c } else { 0 },
            unmatched_domains: if !by_domain && known_text(f.domain) {
                bump(p.unmatched_domains, f.domain->0@, c)
            } else {
                p.unmatched_domains
            },
            unmatched_inspection: bump_each(p.unmatched_inspection, names, c, names.len() as int),
        }
    }
}

/// Sessions summed over all groups.
pub open spec fn session_total(fs: Seq<FlowGroup>, n: int) -> int
    decreases n,
{
    if n <= 0 {
        0
    } else {
        session_total(fs, n - 1) + fs[n - 1].count
    }
}

pub open spec fn tally_view(t: Seq<(String, u64)>) -> Tally {
    t.map_values(|e: (String, u64)| (e.0@, e.1 as int))
}

/// A name's count in a tally, 0 when absent.
pub open spec fn count_of(t: Tally, k: Seq<char>) -> int {
    match lookup(t, k) {
        Some(v) => v,
        None => 0,
    }
}

/// Every name counts at least as much in `b` as in `a`.
pub open spec fn tally_le(a: Tally, b: Tally) -> bool {
    forall|k: Seq<char>| #[trigger] count_of(a, k) <= count_of(b, k)
}

proof fn lemma_bump(t: Tally, k: Seq<char>, by: int)
    requires
        unique_keys(t),
        by >= 0,
    ensures
        unique_keys(bump(t, k, by)),
        count_of(bump(t, k, by), k) == count_of(t, k) + by,
        forall|k2: Seq<char>| k2 != k ==> #[trigger] count_of(bump(t, k, by), k2) == count_of(t, k2),
        tally_le(t, bump(t, k, by)),
{
    let v = match lookup(t, k) {
        Some(x) => x,
        None => by,
    };
    lemma_put(t, k, match lookup(t, k) { Some(x) => x + by, None => by });
    assert forall|k2: Seq<char>| k2 != k implies #[trigger] count_of(bump(t, k, by), k2) == count_of(t, k2) by {}
    assert forall|k2: Seq<char>| #[trigger] count_of(t, k2) <= count_of(bump(t, k, by), k2) by {}
}

/// Adds `by` to the count of `k`, as `bump` does.
fn tally_add(t: &mut Vec<(String, u64)>, k: &str, by: u64)
    requires
        unique_keys(tally_view(old(t)@)),
        count_of(tally_view(old(t)@), k@) + by <= u64::MAX,
    ensures
        unique_keys(tally_view(final(t)@)),
        tally_view(final(t)@) == bump(tally_view(old(t)@), k@, by as int),
{
    let ghost v = tally_view(t@);
    proof {
        lemma_key_index(v, k@);
        lemma_bump(v, k@, by as int);
    }
    let mut i: usize = 0;
    while i < t.len()
        invariant
            i <= t@.len(),
            v == tally_view(t@),
            v == tally_view(old(t)@),
            unique_keys(v),
            count_of(v, k@) + by <= u64::MAX,
            forall|j: int| 0 <= j < i ==> (#[trigger] v[j]).0 != k@,
        decreases t@.len() - i,
    {
        if str_eq(t[i].0.as_str(), k) {
            proof {
                assert(v[i as int].0 == k@);
                assert(v[i as int].1 == t@[i as int].1 as int);
                lemma_lookup_at(v, i as int);
            }
            let name = t[i].0.clone();
            let total = t[i].1 + by;
            proof {
                assert(name@ == k@);
            }
            t.set(i, (name, total));
            assert(tally_view(t@) =~= v.update(i as int, (k@, total as int)));
            return;
        }
        i = i + 1;
    }
    t.push((k.to_owned(), by));
    assert(tally_view(t@) =~= v.push((k@, by as int)));
}

/// The distinct evidence sources of a client, as `device_sources` gives
/// them.
pub fn client_sources(d: &DeviceRecord) -> (r: Vec<String>)
    ensures
        strings_view(r@) == device_sources(*d),
        forall|a: int, b: int| 0 <= a < b < r@.len() ==> r@[a]@ != r@[b]@,
{
    let ghost s = strings_view(d.evidence_sources@);
    let mut out: Vec<String> = Vec::new();
    let mut i: usize = 0;
    while i < d.evidence_sources.len()
        invariant
            i <= d.evidence_sources@.len(),
            s == strings_view(d.evidence_sources@),
            strings_view(out@) == distinct_sources(s, i as int),
            forall|a: int, b: int| 0 <= a < b < out@.len() ==> out@[a]@ != out@[b]@,
        decreases d.evidence_sources@.len() - i,
    {
        let x = d.evidence_sources[i].as_str();
        let mut seen = false;
        let mut j: usize = 0;
        while j < out.len()
            invariant
                j <= out@.len(),
                seen == exists|k: int| 0 <= k < j && out@[k]@ == x@,
            decreases out@.len() - j,
        {
            if str_eq(out[j].as_str(), x) {
                seen = true;
            }
            j = j + 1;
        }
        proof {
            let prev = distinct_sources(s, i as int);
            assert(prev.contains(x@) == seen) by {
                if seen {
                    let k = choose|k: int| 0 <= k < out@.len() && out@[k]@ == x@;
                    assert(prev[k] == x@);
                }
                if prev.contains(x@) {
                    let k = choose|k: int| 0 <= k < prev.len() && prev[k] == x@;
                    assert(out@[k]@ == x@);
                }
            }
        }
        if !str_eq(x, "mac_random") && !seen {
            let ghost before = out@;
            out.push(d.evidence_sources[i].clone());
            assert(strings_view(out@) =~= strings_view(before).push(x@));
        }
        i = i + 1;
    }
    out
}

/// Client counts as `device_counts` describes them, the coverage tally in
/// the order sources first appear.
pub struct DeviceSummary {
    pub total: u64,
    pub typed: u64,
    pub vendors: u64,
    pub private_macs: u64,
    pub unknown_with_evidence: u64,
    pub unknown_without_evidence: u64,
    pub coverage: Vec<(String, u64)>,
}

pub open spec fn device_summary_matches(r: DeviceSummary, c: DeviceCounts) -> bool {
    &&& r.total == c.total
    &&& r.typed == c.typed
    &&& r.vendors == c.vendors
    &&& r.private_macs == c.private_macs
    &&& r.unknown_with_evidence == c.unknown_with_evidence
    &&& r.unknown_without_evidence == c.unknown_without_evidence
    &&& tally_view(r.coverage@) == c.coverage
}

/// Counts the stored clients.
pub fn count_devices(ds: &Vec<DeviceRecord>) -> (r: DeviceSummary)
    ensures
        device_summary_matches(r, device_counts(ds@, ds@.len() as int)),
{
    let mut total: u64 = 0;
    let mut typed_n: u64 = 0;
    let mut vendors: u64 = 0;
    let mut private_macs: u64 = 0;
    let mut with_evidence: u64 = 0;
    let mut without_evidence: u64 = 0;
    let mut coverage: Vec<(String, u64)> = Vec::new();
    assert(tally_view(coverage@) =~= Seq::empty());
    let n = ds.len();
    let mut i: usize = 0;
    while i < n
        invariant
            n == ds@.len(),
            i <= ds@.len(),
            ({
                let c = device_counts(ds@, i as int);
                &&& total == c.total
                &&& typed_n == c.typed
                &&& vendors == c.vendors
                &&& private_macs == c.private_macs
                &&& with_evidence == c.unknown_with_evidence
                &&& without_evidence == c.unknown_without_evidence
                &&& tally_view(coverage@) == c.coverage
            }),
            total == i,
            typed_n <= i && vendors <= i && private_macs <= i,
            with_evidence + without_evidence <= i,
            unique_keys(tally_view(coverage@)),
            forall|k: Seq<char>| #[trigger] count_of(tally_view(coverage@), k) <= i,
        decreases n - i,
    {
        let d = &ds[i];
        let sources = client_sources(d);
        let typed = is_known(&d.device_type);
        total = total + 1;
        if typed {
            typed_n = typed_n + 1;
        }
        if is_known(&d.vendor) {
            vendors = vendors + 1;
        }
        if d.private_mac != 0 {
            private_macs = private_macs + 1;
        }
        if !typed {
            if sources.len() > 0 {
                with_evidence = with_evidence + 1;
            } else {
                without_evidence = without_evidence + 1;
            }
        }
        let ghost start = tally_view(coverage@);
        let ghost srcs = strings_view(sources@);
        let mut j: usize = 0;
        while j < sources.len()
            invariant
                j <= sources@.len(),
                i < n,
                srcs == strings_view(sources@),
                forall|a: int, b: int| 0 <= a < b < sources@.len() ==> sources@[a]@ != sources@[b]@,
                unique_keys(tally_view(coverage@)),
                tally_view(coverage@) == bump_all(start, srcs, j as int),
                forall|k: Seq<char>| #[trigger] count_of(start, k) <= i,
                forall|k: Seq<char>| #[trigger] count_of(tally_view(coverage@), k) <= count_of(start, k) + if srcs.take(j as int).contains(k) { 1int } else { 0int },
            decreases sources@.len() - j,
        {
            let ghost before = tally_view(coverage@);
            let key = sources[j].as_str();
            proof {
                assert(srcs[j as int] == key@);
                assert(!srcs.take(j as int).contains(key@)) by {
                    if srcs.take(j as int).contains(key@) {
                        let a = choose|a: int| 0 <= a < j && srcs.take(j as int)[a] == key@;
                        assert(sources@[a]@ == sources@[j as int]@);
                    }
                }
                assert(count_of(before, key@) <= count_of(start, key@));
                assert(count_of(start, key@) <= i);
                assert(usize::MAX <= u64::MAX);
                assert(count_of(before, key@) + 1 <= u64::MAX);
                lemma_bump(before, key@, 1);
            }
            tally_add(&mut coverage, key, 1);
            proof {
                assert forall|k: Seq<char>| #[trigger] count_of(tally_view(coverage@), k) <= count_of(start, k) + if srcs.take(j as int + 1).contains(k) { 1int } else { 0int } by {
                    if k == key@ {
                        assert(srcs.take(j as int + 1)[j as int] == key@);
                    } else {
                        assert(count_of(tally_view(coverage@), k) == count_of(before, k));
                        if srcs.take(j as int).contains(k) {
                            let a = choose|a: int| 0 <= a < j && srcs.take(j as int)[a] == k;
                            assert(srcs.take(j as int + 1)[a] == k);
                        }
                    }
                }
            }
            j = j + 1;
        }
        proof {
            assert(srcs.take(j as int) =~= srcs);
            assert(srcs == device_sources(*d));
            assert forall|k: Seq<char>| #[trigger] count_of(tally_view(coverage@), k) <= i + 1 by {
                assert(count_of(start, k) <= i);
            }
        }
        i = i + 1;
    }
    DeviceSummary {
        total,
        typed: typed_n,
        vendors,
        private_macs,
        unknown_with_evidence: with_evidence,
        unknown_without_evidence: without_evidence,
        coverage,
    }
}


fn evidence_has(e: &Vec<(Option<String>, Option<String>)>, kind: &str) -> (r: bool)
    ensures
        r == has_evidence(e@, kind@),
{
    let mut i: usize = 0;
    while i < e.len()
        invariant
            i <= e@.len(),
            forall|j: int| 0 <= j < i ==> !((#[trigger] e@[j]).0 matches Some(t) && t@ == kind@),
        decreases e@.len() - i,
    {
        match &e[i].0 {
            Some(t) => {
                if str_eq(t.as_str(), kind) {
                    assert(e@[i as int].0 matches Some(t) && t@ == kind@);
                    return true;
                }
            },
            None => {},
        }
        i = i + 1;
    }
    false
}

/// The unmatched packet-inspection names among a group's evidence, as
/// `unmatched_names` lists them.
fn inspection_names(e: &Vec<(Option<String>, Option<String>)>) -> (r: Vec<String>)
    ensures
        strings_view(r@) == unmatched_names(e@, e@.len() as int),
{
    let mut out: Vec<String> = Vec::new();
    assert(strings_view(out@) =~= Seq::<Seq<char>>::empty());
    let mut i: usize = 0;
    while i < e.len()
        invariant
            i <= e@.len(),
            strings_view(out@) == unmatched_names(e@, i as int),
        decreases e@.len() - i,
    {
        match (&e[i].0, &e[i].1) {
            (Some(t), Some(v)) => {
                if str_eq(t.as_str(), "unmatched_ndpi_application") {
                    let ghost before = out@;
                    out.push(v.clone());
                    assert(strings_view(out@) =~= strings_view(before).push(v@));
                }
            },
            _ => {},
        }
        i = i + 1;
    }
    out
}

fn is_tls_or_quic_exec(p: &Option<String>) -> (r: bool)
    ensures
        r == is_tls_or_quic(*p),
{
    match p {
        Some(s) => str_eq(s.as_str(), "tls") || str_eq(s.as_str(), "quic"),
        None => false,
    }
}

proof fn lemma_tally_le_trans(a: Tally, b: Tally, c: Tally)
    requires
        tally_le(a, b),
        tally_le(b, c),
    ensures
        tally_le(a, c),
{
    assert forall|k: Seq<char>| #[trigger] count_of(a, k) <= count_of(c, k) by {
        assert(count_of(a, k) <= count_of(b, k));
        assert(count_of(b, k) <= count_of(c, k));
    }
}

/// Bumping names one after another keeps names unique and only raises
/// counts, so an earlier stage never counts more than a later one.
proof fn lemma_bump_each(t: Tally, keys: Seq<Seq<char>>, by: int, j: int, m: int)
    requires
        unique_keys(t),
        by >= 0,
        0 <= j <= m,
    ensures
        unique_keys(bump_each(t, keys, by, m)),
        tally_le(bump_each(t, keys, by, j), bump_each(t, keys, by, m)),
        tally_le(t, bump_each(t, keys, by, m)),
    decreases m,
{
    if m == 0 {
        assert(tally_le(t, t));
    } else {
        let jj = if j < m { j } else { m - 1 };
        lemma_bump_each(t, keys, by, jj, m - 1);
        let prev = bump_each(t, keys, by, m - 1);
        lemma_bump(prev, keys[m - 1], by);
        lemma_tally_le_trans(t, prev, bump_each(t, keys, by, m));
        if j < m {
            lemma_tally_le_trans(bump_each(t, keys, by, j), prev, bump_each(t, keys, by, m));
        } else {
            assert(tally_le(bump_each(t, keys, by, m), bump_each(t, keys, by, m)));
        }
    }
}

/// What holds of the counts after the first `i` groups: the total is the
/// sessions summed, every other count lies between 0 and the total, the
/// tallies name each entry once, and no domain counts more than the total.
proof fn lemma_flow_prefix(fs: Seq<FlowGroup>, i: int)
    requires
        0 <= i <= fs.len(),
    ensures
        ({
            let a = flow_counts(fs, i);
            &&& a.total == session_total(fs, i)
            &&& 0 <= a.applications <= a.total
            &&& 0 <= a.domain_rules <= a.total
            &&& 0 <= a.inspection_rules <= a.total
            &&& 0 <= a.protocol_only <= a.total
            &&& 0 <= a.tls_quic_only <= a.total
            &&& 0 <= a.unknown <= a.total
            &&& unique_keys(a.unmatched_domains)
            &&& unique_keys(a.unmatched_inspection)
            &&& forall|k: Seq<char>| #[trigger] count_of(a.unmatched_domains, k) <= a.total
        }),
    decreases i,
{
    if i > 0 {
        lemma_flow_prefix(fs, i - 1);
        let p = flow_counts(fs, i - 1);
        let f = fs[i - 1];
        let c = f.count as int;
        let a = flow_counts(fs, i);
        let names = unmatched_names(f.evidence@, f.evidence@.len() as int);
        lemma_bump_each(p.unmatched_inspection, names, c, 0, names.len() as int);
        if !has_evidence(f.evidence@, "domain_application"@) && known_text(f.domain) {
            lemma_bump(p.unmatched_domains, f.domain->0@, c);
        }
        assert forall|k: Seq<char>| #[trigger] count_of(a.unmatched_domains, k) <= a.total by {
            assert(count_of(p.unmatched_domains, k) <= p.total);
        }
    }
}

/// Session totals and packet-inspection counts only grow from one prefix
/// to a longer one.
proof fn lemma_flow_mono(fs: Seq<FlowGroup>, i: int, n: int)
    requires
        0 <= i <= n <= fs.len(),
    ensures
        session_total(fs, i) <= session_total(fs, n),
        tally_le(flow_counts(fs, i).unmatched_inspection, flow_counts(fs, n).unmatched_inspection),
    decreases n,
{
    if i == n {
        assert(tally_le(flow_counts(fs, i).unmatched_inspection, flow_counts(fs, n).unmatched_inspection));
    } else {
        lemma_flow_mono(fs, i, n - 1);
        lemma_flow_prefix(fs, n - 1);
        let p = flow_counts(fs, n - 1);
        let f = fs[n - 1];
        let names = unmatched_names(f.evidence@, f.evidence@.len() as int);
        lemma_bump_each(p.unmatched_inspection, names, f.count as int, 0, names.len() as int);
        lemma_tally_le_trans(
            flow_counts(fs, i).unmatched_inspection,
            p.unmatched_inspection,
            flow_counts(fs, n).unmatched_inspection,
        );
    }
}

/// The inputs on which counting stays within 64 bits: the sessions summed,
/// and each unmatched packet-inspection name's final count.
pub open spec fn flows_fit(fs: Seq<FlowGroup>) -> bool {
    &&& session_total(fs, fs.len() as int) <= u64::MAX
    &&& forall|k: Seq<char>| #[trigger] count_of(flow_counts(fs, fs.len() as int).unmatched_inspection, k) <= u64::MAX
}

/// Flow-session counts as `flow_counts` describes them, each tally in the
/// order its names first appear.
pub struct FlowSummary {
    pub total: u64,
    pub applications: u64,
    pub domain_rules: u64,
    pub inspection_rules: u64,
    pub protocol_only: u64,
    pub tls_quic_only: u64,
    pub unknown: u64,
    pub unmatched_domains: Vec<(String, u64)>,
    pub unmatched_inspection: Vec<(String, u64)>,
}

pub open spec fn flow_summary_matches(r: FlowSummary, c: FlowCounts) -> bool {
    &&& r.total == c.total
    &&& r.applications == c.applications
    &&& r.domain_rules == c.domain_rules
    &&& r.inspection_rules == c.inspection_rules
    &&& r.protocol_only == c.protocol_only
    &&& r.tls_quic_only == c.tls_quic_only
    &&& r.unknown == c.unknown
    &&& tally_view(r.unmatched_domains@) == c.unmatched_domains
    &&& tally_view(r.unmatched_inspection@) == c.unmatched_inspection
}

/// Counts the stored flow sessions, group by group.
pub fn count_flows(fs: &Vec<FlowGroup>) -> (r: FlowSummary)
    requires
        flows_fit(fs@),
    ensures
        flow_summary_matches(r, flow_counts(fs@, fs@.len() as int)),
{
    let ghost all = fs@.len() as int;
    let mut r = FlowSummary {
        total: 0,
        applications: 0,
        domain_rules: 0,
        inspection_rules: 0,
        protocol_only: 0,
        tls_quic_only: 0,
        unknown: 0,
        unmatched_domains: Vec::new(),
        unmatched_inspection: Vec::new(),
    };
    assert(tally_view(r.unmatched_domains@) =~= Seq::empty());
    assert(tally_view(r.unmatched_inspection@) =~= Seq::empty());
    let mut i: usize = 0;
    while i < fs.len()
        invariant
            i <= fs@.len(),
            all == fs@.len(),
            flows_fit(fs@),
            flow_summary_matches(r, flow_counts(fs@, i as int)),
        decreases fs@.len() - i,
    {
        proof {
            lemma_flow_prefix(fs@, i as int);
            lemma_flow_prefix(fs@, i as int + 1);
            lemma_flow_mono(fs@, i as int + 1, all);
        }
        let f = &fs[i];
        let c = f.count;
        let app = is_known(&f.application_id);
        let protocol = is_known(&f.protocol_id);
        let by_domain = evidence_has(&f.evidence, "domain_application");
        let by_inspection = evidence_has(&f.evidence, "ndpi_application");
        let generic = is_tls_or_quic_exec(&f.protocol_id);
        let ghost p = flow_counts(fs@, i as int);
        let ghost q = flow_counts(fs@, i as int + 1);
        r.total = r.total + c;
        if app {
            r.applications = r.applications + c;
        }
        if app && by_domain {
            r.domain_rules = r.domain_rules + c;
        }
        if app && by_inspection {
            r.inspection_rules = r.inspection_rules + c;
        }
        if !app && protocol {
            r.protocol_only = r.protocol_only + c;
        }
        if !app && generic {
            r.tls_quic_only = r.tls_quic_only + c;
        }
        if !app && !protocol {
            r.unknown = r.unknown + c;
        }
        if !by_domain && is_known(&f.domain) {
            match &f.domain {
                Some(d) => {
                    proof {
                        lemma_bump(p.unmatched_domains, d@, c as int);
                    }
                    tally_add(&mut r.unmatched_domains, d.as_str(), c);
                },
                None => {},
            }
        }
        let names = inspection_names(&f.evidence);
        let ghost nv = strings_view(names@);
        let ghost start = p.unmatched_inspection;
        let mut j: usize = 0;
        while j < names.len()
            invariant
                j <= names@.len(),
                nv == strings_view(names@),
                start == p.unmatched_inspection,
                unique_keys(start),
                r.total == q.total && r.applications == q.applications,
                r.domain_rules == q.domain_rules && r.inspection_rules == q.inspection_rules,
                r.protocol_only == q.protocol_only && r.tls_quic_only == q.tls_quic_only,
                r.unknown == q.unknown,
                tally_view(r.unmatched_domains@) == q.unmatched_domains,
                tally_view(r.unmatched_inspection@) == bump_each(start, nv, c as int, j as int),
                q.unmatched_inspection == bump_each(start, nv, c as int, nv.len() as int),
                forall|k: Seq<char>| #[trigger] count_of(q.unmatched_inspection, k) <= u64::MAX,
            decreases names@.len() - j,
        {
            let key = names[j].as_str();
            proof {
                lemma_bump_each(start, nv, c as int, j as int + 1, nv.len() as int);
                lemma_bump_each(start, nv, c as int, 0, j as int);
                let cur = bump_each(start, nv, c as int, j as int);
                lemma_bump(cur, key@, c as int);
                assert(count_of(bump_each(start, nv, c as int, j as int + 1), key@) <= count_of(q.unmatched_inspection, key@));
            }
            tally_add(&mut r.unmatched_inspection, key, c);
            j = j + 1;
        }
        proof {
            assert forall|k: Seq<char>| #[trigger] count_of(q.unmatched_inspection, k) <= u64::MAX by {
                assert(count_of(flow_counts(fs@, all).unmatched_inspection, k) <= u64::MAX);
            }
        }
        i = i + 1;
    }
    r
}


/// Listing order of tally entries: higher counts first, then names in
/// ascending order.
pub open spec fn ranks_before(a: (Seq<char>, int), b: (Seq<char>, int)) -> bool {
    a.1 > b.1 || (a.1 == b.1 && chars_le(a.0, b.0))
}

proof fn lemma_rank_order(a: (Seq<char>, int), b: (Seq<char>, int), c: (Seq<char>, int))
    ensures
        ranks_before(a, b) || ranks_before(b, a),
        ranks_before(a, b) && ranks_before(b, c) ==> ranks_before(a, c),
{
    lemma_chars_le_total(a.0, b.0);
    if ranks_before(a, b) && ranks_before(b, c) && a.1 == b.1 && b.1 == c.1 {
        lemma_chars_le_trans(a.0, b.0, c.0);
    }
}

fn ranks_before_exec(a: &(String, u64), b: &(String, u64)) -> (r: bool)
    ensures
        r == ranks_before((a.0@, a.1 as int), (b.0@, b.1 as int)),
{
    if a.1 != b.1 {
        a.1 > b.1
    } else {
        let x = chars_of(a.0.as_str());
        let y = chars_of(b.0.as_str());
        chars_le_exec(x.as_slice(), y.as_slice())
    }
}

/// `r` lists the first `limit` entries of `t` in listing order: as many as
/// there are up to `limit`, each taken from `t`, in order, and none left
/// out that ranks before one listed.
pub open spec fn is_top(r: Tally, t: Tally, limit: int) -> bool {
    &&& r.len() == if t.len() < limit { t.len() as int } else { limit }
    &&& r.to_multiset().subset_of(t.to_multiset())
    &&& forall|a: int, b: int| 0 <= a < b < r.len() ==> ranks_before(#[trigger] r[a], #[trigger] r[b])
    &&& forall|a: int, x: (Seq<char>, int)|
        0 <= a < r.len() && #[trigger] t.to_multiset().count(x) > r.to_multiset().count(x)
            ==> ranks_before(#[trigger] r[a], x)
}

/// The first `TOP_UNMATCHED` entries of a tally in listing order.
pub fn top(values: Vec<(String, u64)>) -> (r: Vec<(String, u64)>)
    ensures
        is_top(tally_view(r@), tally_view(values@), TOP_UNMATCHED as int),
{
    let ghost orig = tally_view(values@);
    let mut rest = values;
    let mut out: Vec<(String, u64)> = Vec::new();
    assert(tally_view(out@) =~= Seq::<(Seq<char>, int)>::empty());
    while out.len() < TOP_UNMATCHED && rest.len() > 0
        invariant
            tally_view(out@).to_multiset().add(tally_view(rest@).to_multiset()) == orig.to_multiset(),
            out@.len() + rest@.len() == orig.len(),
            out@.len() <= TOP_UNMATCHED,
            forall|a: int, b: int|
                0 <= a < b < out@.len() ==> ranks_before(
                    #[trigger] tally_view(out@)[a],
                    #[trigger] tally_view(out@)[b],
                ),
            forall|a: int, b: int|
                0 <= a < out@.len() && 0 <= b < rest@.len() ==> ranks_before(
                    #[trigger] tally_view(out@)[a],
                    #[trigger] tally_view(rest@)[b],
                ),
        decreases rest@.len(),
    {
        let ghost rv = tally_view(rest@);
        let mut best: usize = 0;
        let mut i: usize = 1;
        proof {
            lemma_rank_order(rv[0], rv[0], rv[0]);
        }
        while i < rest.len()
            invariant
                1 <= i <= rest@.len(),
                rv == tally_view(rest@),
                best < i,
                forall|j: int| 0 <= j < i ==> ranks_before(rv[best as int], #[trigger] rv[j]),
            decreases rest@.len() - i,
        {
            if !ranks_before_exec(&rest[best], &rest[i]) {
                proof {
                    assert(rv[best as int] == (rest@[best as int].0@, rest@[best as int].1 as int));
                    assert(rv[i as int] == (rest@[i as int].0@, rest@[i as int].1 as int));
                    assert forall|j: int| 0 <= j < i + 1 implies ranks_before(rv[i as int], #[trigger] rv[j]) by {
                        lemma_rank_order(rv[i as int], rv[best as int], rv[j]);
                        lemma_rank_order(rv[i as int], rv[i as int], rv[i as int]);
                        if j < i {
                            assert(ranks_before(rv[best as int], rv[j]));
                        }
                    }
                }
                best = i;
            }
            i = i + 1;
        }
        let ghost out0 = tally_view(out@);
        let x = rest.remove(best);
        proof {
            assert(tally_view(rest@) =~= rv.remove(best as int));
        }
        let ghost xv = (x.0@, x.1 as int);
        out.push(x);
        proof {
            assert(tally_view(out@) =~= out0.push(xv));
            assert(rv[best as int] == xv);
            assert forall|a: int, b: int|
                0 <= a < out@.len() && 0 <= b < rest@.len() implies ranks_before(
                #[trigger] tally_view(out@)[a],
                #[trigger] tally_view(rest@)[b],
            ) by {
                let ob = if b < best { b } else { b + 1 };
                assert(tally_view(rest@)[b] == rv[ob]);
                if a < out0.len() {
                    assert(tally_view(out@)[a] == out0[a]);
                }
            }
            assert forall|a: int, b: int| 0 <= a < b < out@.len() implies ranks_before(
                #[trigger] tally_view(out@)[a],
                #[trigger] tally_view(out@)[b],
            ) by {
                if b < out0.len() {
                    assert(tally_view(out@)[a] == out0[a]);
                    assert(tally_view(out@)[b] == out0[b]);
                } else {
                    assert(tally_view(out@)[a] == out0[a]);
                }
            }
        }
    }
    proof {
        let ov = tally_view(out@);
        let rv = tally_view(rest@);
        assert forall|a: int, x: (Seq<char>, int)|
            0 <= a < ov.len() && #[trigger] orig.to_multiset().count(x) > ov.to_multiset().count(x)
                implies ranks_before(#[trigger] ov[a], x) by {
            assert(rv.to_multiset().count(x) > 0);
            assert(rv.contains(x));
            let b = choose|b: int| 0 <= b < rv.len() && rv[b] == x;
            assert(ranks_before(ov[a], rv[b]));
        }
    }
    out
}

/// How stored flow sessions split, with the most frequent unmatched
/// packet-inspection names and domains.
pub struct TrafficSummary {
    pub since_unix_ms: u64,
    pub total: u64,
    pub applications: u64,
    pub domain_rules: u64,
    pub inspection_rules: u64,
    pub protocol_only: u64,
    pub tls_quic_only: u64,
    pub unknown: u64,
    pub top_unmatched_inspection: Vec<(String, u64)>,
    pub top_unmatched_domains: Vec<(String, u64)>,
}

/// Recognition diagnostics over stored clients and the flow sessions seen
/// since `since_unix_ms`.
pub struct RecognitionSummary {
    pub devices: DeviceSummary,
    pub traffic: TrafficSummary,
}

/// Summarizes stored clients and flow-session groups.
pub fn summarize(devices: &Vec<DeviceRecord>, flows: &Vec<FlowGroup>, since: u64) -> (r: RecognitionSummary)
    requires
        flows_fit(flows@),
    ensures
        device_summary_matches(r.devices, device_counts(devices@, devices@.len() as int)),
        ({
            let c = flow_counts(flows@, flows@.len() as int);
            let t = r.traffic;
            &&& t.since_unix_ms == since
            &&& t.total == c.total
            &&& t.applications == c.applications
            &&& t.domain_rules == c.domain_rules
            &&& t.inspection_rules == c.inspection_rules
            &&& t.protocol_only == c.protocol_only
            &&& t.tls_quic_only == c.tls_quic_only
            &&& t.unknown == c.unknown
            &&& is_top(tally_view(t.top_unmatched_inspection@), c.unmatched_inspection, TOP_UNMATCHED as int)
            &&& is_top(tally_view(t.top_unmatched_domains@), c.unmatched_domains, TOP_UNMATCHED as int)
        }),
{
    let d = count_devices(devices);
    let f = count_flows(flows);
    let FlowSummary {
        total,
        applications,
        domain_rules,
        inspection_rules,
        protocol_only,
        tls_quic_only,
        unknown,
        unmatched_domains,
        unmatched_inspection,
    } = f;
    let top_inspection = top(unmatched_inspection);
    let top_domains = top(unmatched_domains);
    RecognitionSummary {
        devices: d,
        traffic: TrafficSummary {
            since_unix_ms: since,
            total,
            applications,
            domain_rules,
            inspection_rules,
            protocol_only,
            tls_quic_only,
            unknown,
            top_unmatched_inspection: top_inspection,
            top_unmatched_domains: top_domains,
        },
    }
}


/// Every stored client is counted once among those with a device type,
/// those without one but with evidence, and those with neither.
pub proof fn lemma_clients_partition(ds: Seq<DeviceRecord>, n: int)
    requires
        0 <= n <= ds.len(),
    ensures
        ({
            let c = device_counts(ds, n);
            c.typed + c.unknown_with_evidence + c.unknown_without_evidence == c.total
        }),
    decreases n,
{
    if n > 0 {
        lemma_clients_partition(ds, n - 1);
    }
}

/// Every flow session is counted once among those with an application,
/// those with only a protocol and the unknown ones; rule hits and TLS/QUIC
/// sessions are parts of the first two.
pub proof fn lemma_sessions_partition(fs: Seq<FlowGroup>, n: int)
    requires
        0 <= n <= fs.len(),
    ensures
        ({
            let c = flow_counts(fs, n);
            &&& c.applications + c.protocol_only + c.unknown == c.total
            &&& c.domain_rules <= c.applications
            &&& c.inspection_rules <= c.applications
            &&& c.tls_quic_only <= c.protocol_only
        }),
    decreases n,
{
    if n > 0 {
        lemma_sessions_partition(fs, n - 1);
        let f = fs[n - 1];
        if is_tls_or_quic(f.protocol_id) {
            let p = f.protocol_id->0;
            reveal_strlit("tls");
            reveal_strlit("quic");
            reveal_strlit("unknown");
            assert(p@ != "unknown"@) by {
                if p@ == "tls"@ {
                    assert(p@[0] == 't');
                } else {
                    assert(p@[0] == 'q');
                }
                assert("unknown"@[0] == 'u');
            }
        }
    }
}

} // verus!
