//! Internet traffic by country and autonomous system: the per-address byte
//! totals folded by their geolocation, the top countries and networks, and
//! the country distribution with its "other" and "unknown" shares.

use vstd::prelude::*;
use vstd::multiset::Multiset;

use crate::ingest::sat_add;
use crate::keyed::{lemma_key_index, lemma_put, lookup, put, unique_keys, key_index};
use crate::realtime::{chars_le, chars_le_exec, lemma_chars_le_total, lemma_chars_le_trans};
use crate::text::{chars_of, str_eq};

verus! {

broadcast use vstd::seq_lib::group_to_multiset_ensures;

/// What geolocation says of an address.
#[derive(Clone, Debug)]
pub struct GeoRecord {
    pub country_code: Option<String>,
    pub country_name: Option<String>,
    pub asn: Option<u32>,
    pub organization: Option<String>,
}

/// Bytes to one country.
#[derive(Clone, Debug)]
pub struct CountryTotal {
    pub code: String,
    pub name: String,
    pub bytes: u64,
}

/// Bytes to one autonomous system.
#[derive(Clone, Debug)]
pub struct AsnTotal {
    pub asn: u32,
    pub organization: String,
    pub bytes: u64,
}

pub type CountryView = (Seq<char>, Seq<char>, u64);

pub type AsnView = (u32, Seq<char>, u64);

impl View for CountryTotal {
    type V = CountryView;

    open spec fn view(&self) -> CountryView {
        (self.code@, self.name@, self.bytes)
    }
}

impl View for AsnTotal {
    type V = AsnView;

    open spec fn view(&self) -> AsnView {
        (self.asn, self.organization@, self.bytes)
    }
}

pub open spec fn countries_view(s: Seq<CountryTotal>) -> Seq<CountryView> {
    s.map_values(|c: CountryTotal| c@)
}

pub open spec fn asns_view(s: Seq<AsnTotal>) -> Seq<AsnView> {
    s.map_values(|a: AsnTotal| a@)
}

/// Country totals keyed by (code, name), network totals keyed by (number,
/// organization), and the bytes no country was found for.
pub struct GeoTotals {
    pub countries: Vec<CountryTotal>,
    pub asns: Vec<AsnTotal>,
    pub unknown_bytes: u64,
}

pub struct TotalsView {
    pub countries: Seq<((Seq<char>, Seq<char>), u64)>,
    pub asns: Seq<((u32, Seq<char>), u64)>,
    pub unknown: u64,
}

pub open spec fn totals_view(t: GeoTotals) -> TotalsView {
    TotalsView {
        countries: t.countries@.map_values(|c: CountryTotal| ((c.code@, c.name@), c.bytes)),
        asns: t.asns@.map_values(|a: AsnTotal| ((a.asn, a.organization@), a.bytes)),
        unknown: t.unknown_bytes,
    }
}

/// Adds `bytes` to the total under `k`, held at `u64::MAX`.
pub open spec fn add_to<K>(s: Seq<(K, u64)>, k: K, bytes: u64) -> Seq<(K, u64)> {
    put(
        s,
        k,
        sat_add(
            match lookup(s, k) {
                Some(b) => b,
                None => 0,
            },
            bytes,
        ),
    )
}

/// One address's bytes: to its country (named by its code where the name
/// is missing) or else to the unknown share, and to its network (with an
/// unknown organization where none is given).
pub open spec fn geo_step(t: TotalsView, record: Option<GeoRecord>, bytes: u64) -> TotalsView {
    match record {
        None => TotalsView { unknown: sat_add(t.unknown, bytes), ..t },
        Some(r) => {
            let t1 = match r.country_code {
                Some(code) => {
                    let name = match r.country_name {
                        Some(n) => n@,
                        None => code@,
                    };
                    TotalsView { countries: add_to(t.countries, (code@, name), bytes), ..t }
                },
                None => TotalsView { unknown: sat_add(t.unknown, bytes), ..t },
            };
            match r.asn {
                Some(a) => {
                    let org = match r.organization {
                        Some(o) => o@,
                        None => "Unknown organization"@,
                    };
                    TotalsView { asns: add_to(t1.asns, (a, org), bytes), ..t1 }
                },
                None => t1,
            }
        },
    }
}

pub open spec fn geo_fold(rows: Seq<(Option<GeoRecord>, u64)>, n: int) -> TotalsView
    decreases n,
{
    if n <= 0 {
        TotalsView { countries: Seq::empty(), asns: Seq::empty(), unknown: 0 }
    } else {
        geo_step(geo_fold(rows, n - 1), rows[n - 1].0, rows[n - 1].1)
    }
}

fn add_country(t: &mut GeoTotals, code: &String, name: &String, bytes: u64)
    requires
        unique_keys(totals_view(*old(t)).countries),
    ensures
        unique_keys(totals_view(*final(t)).countries),
        totals_view(*final(t)) == (TotalsView {
            countries: add_to(totals_view(*old(t)).countries, (code@, name@), bytes),
            ..totals_view(*old(t))
        }),
{
    let ghost s = totals_view(*t).countries;
    let ghost k = (code@, name@);
    proof {
        lemma_key_index(s, k);
    }
    let mut i: usize = 0;
    while i < t.countries.len()
        invariant
            i <= t.countries@.len(),
            s == totals_view(*t).countries,
            s == totals_view(*old(t)).countries,
            k == (code@, name@),
            t.asns@ == old(t).asns@,
            t.unknown_bytes == old(t).unknown_bytes,
            unique_keys(s),
            forall|j: int| 0 <= j < i ==> (#[trigger] s[j]).0 != k,
        decreases t.countries@.len() - i,
    {
        assert(s[i as int] == ((t.countries@[i as int].code@, t.countries@[i as int].name@), t.countries@[i as int].bytes));
        if str_eq(t.countries[i].code.as_str(), code.as_str()) && str_eq(
            t.countries[i].name.as_str(),
            name.as_str(),
        ) {
            assert(s[i as int].0 == k);
            proof {
                crate::keyed::lemma_lookup_at(s, i as int);
            }
            let total = t.countries[i].bytes.saturating_add(bytes);
            let ghost before = t.countries@;
            t.countries.set(
                i,
                CountryTotal { code: t.countries[i].code.clone(), name: t.countries[i].name.clone(), bytes: total },
            );
            proof {
                lemma_put(s, k, total);
                assert(totals_view(*t).countries =~= s.update(i as int, (k, total)));
            }
            return;
        }
        i = i + 1;
    }
    proof {
        lemma_put(s, k, bytes);
        assert(key_index(s, k) is None);
    }
    let ghost before = t.countries@;
    t.countries.push(CountryTotal { code: code.clone(), name: name.clone(), bytes });
    proof {
        assert(sat_add(0, bytes) == bytes);
        assert(totals_view(*t).countries =~= s.push((k, bytes)));
    }
}

fn add_asn(t: &mut GeoTotals, asn: u32, organization: &String, bytes: u64)
    requires
        unique_keys(totals_view(*old(t)).asns),
    ensures
        unique_keys(totals_view(*final(t)).asns),
        totals_view(*final(t)) == (TotalsView {
            asns: add_to(totals_view(*old(t)).asns, (asn, organization@), bytes),
            ..totals_view(*old(t))
        }),
{
    let ghost s = totals_view(*t).asns;
    let ghost k = (asn, organization@);
    proof {
        lemma_key_index(s, k);
    }
    let mut i: usize = 0;
    while i < t.asns.len()
        invariant
            i <= t.asns@.len(),
            s == totals_view(*t).asns,
            s == totals_view(*old(t)).asns,
            k == (asn, organization@),
            t.countries@ == old(t).countries@,
            t.unknown_bytes == old(t).unknown_bytes,
            unique_keys(s),
            forall|j: int| 0 <= j < i ==> (#[trigger] s[j]).0 != k,
        decreases t.asns@.len() - i,
    {
        if t.asns[i].asn == asn && str_eq(t.asns[i].organization.as_str(), organization.as_str()) {
            assert(s[i as int].0 == k);
            proof {
                crate::keyed::lemma_lookup_at(s, i as int);
            }
            let total = t.asns[i].bytes.saturating_add(bytes);
            t.asns.set(i, AsnTotal { asn, organization: t.asns[i].organization.clone(), bytes: total });
            proof {
                lemma_put(s, k, total);
                assert(totals_view(*t).asns =~= s.update(i as int, (k, total)));
            }
            return;
        }
        i = i + 1;
    }
    proof {
        lemma_put(s, k, bytes);
        assert(key_index(s, k) is None);
    }
    t.asns.push(AsnTotal { asn, organization: organization.clone(), bytes });
    proof {
        assert(sat_add(0, bytes) == bytes);
        assert(totals_view(*t).asns =~= s.push((k, bytes)));
    }
}

/// Folds each address's bytes by what geolocation found for it (nothing,
/// where the lookup failed or the address is not one).
pub fn aggregate_geo_rows(rows: &Vec<(Option<GeoRecord>, u64)>) -> (r: GeoTotals)
    ensures
        totals_view(r) == geo_fold(rows@, rows@.len() as int),
        unique_keys(totals_view(r).countries),
        unique_keys(totals_view(r).asns),
{
    let mut t = GeoTotals { countries: Vec::new(), asns: Vec::new(), unknown_bytes: 0 };
    assert(totals_view(t).countries =~= Seq::empty());
    assert(totals_view(t).asns =~= Seq::empty());
    let mut i: usize = 0;
    while i < rows.len()
        invariant
            i <= rows@.len(),
            totals_view(t) == geo_fold(rows@, i as int),
            unique_keys(totals_view(t).countries),
            unique_keys(totals_view(t).asns),
        decreases rows@.len() - i,
    {
        let bytes = rows[i].1;
        match &rows[i].0 {
            None => {
                t.unknown_bytes = t.unknown_bytes.saturating_add(bytes);
            },
            Some(r) => {
                match &r.country_code {
                    Some(code) => {
                        let name = match &r.country_name {
                            Some(n) => n.clone(),
                            None => code.clone(),
                        };
                        add_country(&mut t, code, &name, bytes);
                    },
                    None => {
                        t.unknown_bytes = t.unknown_bytes.saturating_add(bytes);
                    },
                }
                match r.asn {
                    Some(a) => {
                        let org = match &r.organization {
                            Some(o) => o.clone(),
                            None => "Unknown organization".to_owned(),
                        };
                        add_asn(&mut t, a, &org, bytes);
                    },
                    None => {},
                }
            },
        }
        i = i + 1;
    }
    t
}

/// Countries are listed by bytes, most first, then by code.
pub open spec fn country_first(a: CountryView, b: CountryView) -> bool {
    a.2 > b.2 || (a.2 == b.2 && chars_le(a.0, b.0))
}

/// Networks are listed by bytes, most first, then by number.
pub open spec fn asn_first(a: AsnView, b: AsnView) -> bool {
    a.2 > b.2 || (a.2 == b.2 && a.0 <= b.0)
}

pub open spec fn countries_ordered(s: Seq<CountryView>) -> bool {
    forall|a: int, b: int| 0 <= a < b < s.len() ==> country_first(#[trigger] s[a], #[trigger] s[b])
}

pub open spec fn asns_ordered(s: Seq<AsnView>) -> bool {
    forall|a: int, b: int| 0 <= a < b < s.len() ==> asn_first(#[trigger] s[a], #[trigger] s[b])
}

proof fn lemma_country_order(a: CountryView, b: CountryView, c: CountryView)
    ensures
        country_first(a, a),
        country_first(a, b) || country_first(b, a),
        country_first(a, b) && country_first(b, c) ==> country_first(a, c),
{
    lemma_chars_le_total(a.0, a.0);
    lemma_chars_le_total(a.0, b.0);
    if country_first(a, b) && country_first(b, c) && a.2 == b.2 && b.2 == c.2 {
        lemma_chars_le_trans(a.0, b.0, c.0);
    }
}

fn country_first_exec(a: &CountryTotal, b: &CountryTotal) -> (r: bool)
    ensures
        r == country_first(a@, b@),
{
    if a.bytes != b.bytes {
        return a.bytes > b.bytes;
    }
    let x = chars_of(a.code.as_str());
    let y = chars_of(b.code.as_str());
    chars_le_exec(x.as_slice(), y.as_slice())
}

/// The countries in listing order.
pub fn sort_countries(v: Vec<CountryTotal>) -> (r: Vec<CountryTotal>)
    ensures
        countries_view(r@).to_multiset() == countries_view(v@).to_multiset(),
        countries_ordered(countries_view(r@)),
{
    let ghost orig = countries_view(v@);
    let mut rest = v;
    let mut out: Vec<CountryTotal> = Vec::new();
    assert(countries_view(out@) =~= Seq::<CountryView>::empty());
    while rest.len() > 0
        invariant
            countries_view(out@).to_multiset().add(countries_view(rest@).to_multiset())
                == orig.to_multiset(),
            countries_ordered(countries_view(out@)),
            forall|a: int, b: int|
                0 <= a < out@.len() && 0 <= b < rest@.len() ==> country_first(
                    #[trigger] out@[a]@,
                    #[trigger] rest@[b]@,
                ),
        decreases rest@.len(),
    {
        let mut best: usize = 0;
        let mut i: usize = 1;
        proof {
            lemma_country_order(rest@[0]@, rest@[0]@, rest@[0]@);
        }
        while i < rest.len()
            invariant
                1 <= i <= rest@.len(),
                best < i,
                forall|j: int| 0 <= j < i ==> country_first(rest@[best as int]@, #[trigger] rest@[j]@),
            decreases rest@.len() - i,
        {
            if !country_first_exec(&rest[best], &rest[i]) {
                proof {
                    assert forall|j: int| 0 <= j < i + 1 implies country_first(
                        rest@[i as int]@,
                        #[trigger] rest@[j]@,
                    ) by {
                        lemma_country_order(rest@[i as int]@, rest@[best as int]@, rest@[j]@);
                        lemma_country_order(rest@[best as int]@, rest@[i as int]@, rest@[j]@);
                    }
                }
                best = i;
            }
            i = i + 1;
        }
        let ghost rest0 = rest@;
        let ghost out0 = out@;
        let x = rest.remove(best);
        out.push(x);
        proof {
            assert(countries_view(rest@) =~= countries_view(rest0).remove(best as int));
            assert(countries_view(out@) =~= countries_view(out0).push(x@));
            assert(countries_view(rest0)[best as int] == x@);
            assert forall|a: int, b: int|
                0 <= a < out@.len() && 0 <= b < rest@.len() implies country_first(
                #[trigger] out@[a]@,
                #[trigger] rest@[b]@,
            ) by {
                let ob = if b < best { b } else { b + 1 };
                assert(rest@[b] == rest0[ob]);
                if a < out0.len() {
                    assert(out@[a] == out0[a]);
                }
            }
            assert forall|a: int, b: int| 0 <= a < b < countries_view(out@).len() implies country_first(
                #[trigger] countries_view(out@)[a],
                #[trigger] countries_view(out@)[b],
            ) by {
                if b < out0.len() {
                    assert(countries_view(out@)[a] == countries_view(out0)[a]);
                    assert(countries_view(out@)[b] == countries_view(out0)[b]);
                } else {
                    assert(out@[a] == out0[a]);
                }
            }
        }
    }
    assert(countries_view(rest@).to_multiset() =~= Multiset::empty());
    out
}

fn asn_first_exec(a: &AsnTotal, b: &AsnTotal) -> (r: bool)
    ensures
        r == asn_first(a@, b@),
{
    a.bytes > b.bytes || (a.bytes == b.bytes && a.asn <= b.asn)
}

/// The networks in listing order.
pub fn sort_asns(v: Vec<AsnTotal>) -> (r: Vec<AsnTotal>)
    ensures
        asns_view(r@).to_multiset() == asns_view(v@).to_multiset(),
        asns_ordered(asns_view(r@)),
{
    let ghost orig = asns_view(v@);
    let mut rest = v;
    let mut out: Vec<AsnTotal> = Vec::new();
    assert(asns_view(out@) =~= Seq::<AsnView>::empty());
    while rest.len() > 0
        invariant
            asns_view(out@).to_multiset().add(asns_view(rest@).to_multiset()) == orig.to_multiset(),
            asns_ordered(asns_view(out@)),
            forall|a: int, b: int|
                0 <= a < out@.len() && 0 <= b < rest@.len() ==> asn_first(
                    #[trigger] out@[a]@,
                    #[trigger] rest@[b]@,
                ),
        decreases rest@.len(),
    {
        let mut best: usize = 0;
        let mut i: usize = 1;
        while i < rest.len()
            invariant
                1 <= i <= rest@.len(),
                best < i,
                forall|j: int| 0 <= j < i ==> asn_first(rest@[best as int]@, #[trigger] rest@[j]@),
            decreases rest@.len() - i,
        {
            if !asn_first_exec(&rest[best], &rest[i]) {
                best = i;
            }
            i = i + 1;
        }
        let ghost rest0 = rest@;
        let ghost out0 = out@;
        let x = rest.remove(best);
        out.push(x);
        proof {
            assert(asns_view(rest@) =~= asns_view(rest0).remove(best as int));
            assert(asns_view(out@) =~= asns_view(out0).push(x@));
            assert(asns_view(rest0)[best as int] == x@);
            assert forall|a: int, b: int|
                0 <= a < out@.len() && 0 <= b < rest@.len() implies asn_first(
                #[trigger] out@[a]@,
                #[trigger] rest@[b]@,
            ) by {
                let ob = if b < best { b } else { b + 1 };
                assert(rest@[b] == rest0[ob]);
                if a < out0.len() {
                    assert(out@[a] == out0[a]);
                }
            }
            assert forall|a: int, b: int| 0 <= a < b < asns_view(out@).len() implies asn_first(
                #[trigger] asns_view(out@)[a],
                #[trigger] asns_view(out@)[b],
            ) by {
                if b < out0.len() {
                    assert(asns_view(out@)[a] == asns_view(out0)[a]);
                    assert(asns_view(out@)[b] == asns_view(out0)[b]);
                } else {
                    assert(out@[a] == out0[a]);
                }
            }
        }
    }
    assert(asns_view(rest@).to_multiset() =~= Multiset::empty());
    out
}

/// The first position at or after `i` whose bytes are below `bytes`.
pub open spec fn insert_position(s: Seq<CountryView>, bytes: u64, i: int) -> int
    decreases s.len() - i,
{
    if i < 0 || i >= s.len() || s[i].2 < bytes {
        i
    } else {
        insert_position(s, bytes, i + 1)
    }
}

/// `x` placed after every entry with at least its bytes.
pub open spec fn insert_by_bytes(s: Seq<CountryView>, x: CountryView) -> Seq<CountryView> {
    let p = insert_position(s, x.2, 0);
    s.take(p) + seq![x] + s.skip(p)
}

/// The bytes of all entries, added in order and held at `u64::MAX`.
pub open spec fn sum_bytes(s: Seq<CountryView>) -> u64
    decreases s.len(),
{
    if s.len() == 0 {
        0
    } else {
        sat_add(sum_bytes(s.drop_last()), s.last().2)
    }
}

/// The country distribution: the leading countries (four when some bytes
/// have no country, else five), the rest merged as "other", and the
/// unknown share; each share placed after those with at least its bytes.
pub open spec fn distribution_spec(sorted: Seq<CountryView>, unknown: u64) -> Seq<CountryView> {
    let visible: int = if unknown > 0 {
        4
    } else {
        5
    };
    let with_other = if sorted.len() > visible {
        insert_by_bytes(
            sorted.take(visible),
            ("other"@, "Other"@, sum_bytes(sorted.skip(visible))),
        )
    } else {
        sorted
    };
    if unknown > 0 {
        insert_by_bytes(with_other, ("unknown"@, "Unknown"@, unknown))
    } else {
        with_other
    }
}

pub open spec fn take_up_to<T>(s: Seq<T>, n: int) -> Seq<T> {
    if s.len() > n {
        s.take(n)
    } else {
        s
    }
}

proof fn lemma_insert_position(s: Seq<CountryView>, bytes: u64, i: int)
    requires
        0 <= i <= s.len(),
    ensures
        i <= insert_position(s, bytes, i) <= s.len(),
        forall|j: int| i <= j < insert_position(s, bytes, i) ==> (#[trigger] s[j]).2 >= bytes,
        insert_position(s, bytes, i) < s.len() ==> s[insert_position(s, bytes, i)].2 < bytes,
    decreases s.len() - i,
{
    if i < s.len() && s[i].2 >= bytes {
        lemma_insert_position(s, bytes, i + 1);
    }
}

pub open spec fn bytes_nonincreasing(s: Seq<CountryView>) -> bool {
    forall|a: int, b: int| 0 <= a < b < s.len() ==> (#[trigger] s[a]).2 >= (#[trigger] s[b]).2
}

proof fn lemma_insert_keeps_order(s: Seq<CountryView>, x: CountryView)
    requires
        bytes_nonincreasing(s),
    ensures
        bytes_nonincreasing(insert_by_bytes(s, x)),
        insert_by_bytes(s, x).len() == s.len() + 1,
{
    lemma_insert_position(s, x.2, 0);
    let p = insert_position(s, x.2, 0);
    let t = insert_by_bytes(s, x);
    assert forall|j: int| 0 <= j < t.len() implies #[trigger] t[j] == if j < p {
        s[j]
    } else if j == p {
        x
    } else {
        s[j - 1]
    } by {}
    assert forall|a: int, b: int| 0 <= a < b < t.len() implies (#[trigger] t[a]).2 >= (#[trigger] t[b]).2 by {
        if b > p && a == p {
            assert(s[p].2 < x.2);
            assert(s[b - 1].2 <= s[p].2);
        } else if b > p && a < p {
            assert(s[a].2 >= s[b - 1].2);
        }
    }
}

/// The distribution lists shares from most bytes to fewest.
pub proof fn lemma_distribution_ordered(sorted: Seq<CountryView>, unknown: u64)
    requires
        countries_ordered(sorted),
    ensures
        bytes_nonincreasing(distribution_spec(sorted, unknown)),
{
    let visible: int = if unknown > 0 {
        4
    } else {
        5
    };
    assert(bytes_nonincreasing(sorted));
    if sorted.len() > visible {
        let head = sorted.take(visible);
        assert(bytes_nonincreasing(head)) by {
            assert forall|a: int, b: int| 0 <= a < b < head.len() implies (#[trigger] head[a]).2 >= (#[trigger] head[b]).2 by {
                assert(head[a] == sorted[a] && head[b] == sorted[b]);
            }
        }
        lemma_insert_keeps_order(head, ("other"@, "Other"@, sum_bytes(sorted.skip(visible))));
    }
    let with_other = if sorted.len() > visible {
        insert_by_bytes(sorted.take(visible), ("other"@, "Other"@, sum_bytes(sorted.skip(visible))))
    } else {
        sorted
    };
    if unknown > 0 {
        lemma_insert_keeps_order(with_other, ("unknown"@, "Unknown"@, unknown));
    }
}

fn copy_country(c: &CountryTotal) -> (r: CountryTotal)
    ensures
        r@ == c@,
{
    CountryTotal { code: c.code.clone(), name: c.name.clone(), bytes: c.bytes }
}

fn copy_asn(a: &AsnTotal) -> (r: AsnTotal)
    ensures
        r@ == a@,
{
    AsnTotal { asn: a.asn, organization: a.organization.clone(), bytes: a.bytes }
}

fn leading_countries(s: &Vec<CountryTotal>, n: usize) -> (r: Vec<CountryTotal>)
    ensures
        countries_view(r@) == take_up_to(countries_view(s@), n as int),
{
    let mut r: Vec<CountryTotal> = Vec::new();
    let mut i: usize = 0;
    while i < s.len() && i < n
        invariant
            i <= s@.len(),
            i <= n,
            countries_view(r@) == countries_view(s@).take(i as int),
        decreases s@.len() - i,
    {
        let ghost before = r@;
        r.push(copy_country(&s[i]));
        assert(countries_view(r@) =~= countries_view(before).push(s@[i as int]@));
        i = i + 1;
        assert(countries_view(r@) =~= countries_view(s@).take(i as int));
    }
    assert(countries_view(r@) =~= take_up_to(countries_view(s@), n as int));
    r
}

fn leading_asns(s: &Vec<AsnTotal>, n: usize) -> (r: Vec<AsnTotal>)
    ensures
        asns_view(r@) == take_up_to(asns_view(s@), n as int),
{
    let mut r: Vec<AsnTotal> = Vec::new();
    let mut i: usize = 0;
    while i < s.len() && i < n
        invariant
            i <= s@.len(),
            i <= n,
            asns_view(r@) == asns_view(s@).take(i as int),
        decreases s@.len() - i,
    {
        let ghost before = r@;
        r.push(copy_asn(&s[i]));
        assert(asns_view(r@) =~= asns_view(before).push(s@[i as int]@));
        i = i + 1;
        assert(asns_view(r@) =~= asns_view(s@).take(i as int));
    }
    assert(asns_view(r@) =~= take_up_to(asns_view(s@), n as int));
    r
}

fn insert_share(s: &mut Vec<CountryTotal>, x: CountryTotal)
    ensures
        countries_view(final(s)@) == insert_by_bytes(countries_view(old(s)@), x@),
{
    let ghost v = countries_view(s@);
    proof {
        lemma_insert_position(v, x.bytes, 0);
    }
    let mut p: usize = 0;
    while p < s.len() && s[p].bytes >= x.bytes
        invariant
            p <= s@.len(),
            v == countries_view(s@),
            insert_position(v, x.bytes, 0) == insert_position(v, x.bytes, p as int),
        decreases s@.len() - p,
    {
        p = p + 1;
    }
    let ghost xv = x@;
    s.insert(p, x);
    assert(countries_view(s@) =~= v.take(p as int) + seq![xv] + v.skip(p as int));
}

fn rest_bytes(s: &Vec<CountryTotal>, from: usize) -> (r: u64)
    requires
        from <= s@.len(),
    ensures
        r == sum_bytes(countries_view(s@).skip(from as int)),
{
    let ghost v = countries_view(s@);
    let mut total: u64 = 0;
    let mut i = from;
    assert(v.skip(from as int).take(0) =~= Seq::<CountryView>::empty());
    while i < s.len()
        invariant
            from <= i <= s@.len(),
            v == countries_view(s@),
            total == sum_bytes(v.skip(from as int).take(i - from)),
        decreases s@.len() - i,
    {
        proof {
            let w = v.skip(from as int);
            assert(w.take(i - from + 1).drop_last() =~= w.take(i - from));
            assert(w.take(i - from + 1).last() == v[i as int]);
        }
        total = total.saturating_add(s[i].bytes);
        i = i + 1;
    }
    assert(v.skip(from as int).take(i - from) =~= v.skip(from as int));
    total
}

/// The country distribution from countries already in listing order.
pub fn country_distribution(sorted: &Vec<CountryTotal>, unknown_bytes: u64) -> (r: Vec<CountryTotal>)
    ensures
        countries_view(r@) == distribution_spec(countries_view(sorted@), unknown_bytes),
{
    let visible: usize = if unknown_bytes > 0 {
        4
    } else {
        5
    };
    let mut out = leading_countries(sorted, visible);
    if sorted.len() > visible {
        let other = rest_bytes(sorted, visible);
        let share = CountryTotal { code: "other".to_owned(), name: "Other".to_owned(), bytes: other };
        insert_share(&mut out, share);
    }
    if unknown_bytes > 0 {
        let share = CountryTotal {
            code: "unknown".to_owned(),
            name: "Unknown".to_owned(),
            bytes: unknown_bytes,
        };
        insert_share(&mut out, share);
    }
    out
}

/// The traffic summary by geography: the five leading countries and
/// networks, and the country distribution.
pub struct GeoSummary {
    pub top_countries: Vec<CountryTotal>,
    pub top_asns: Vec<AsnTotal>,
    pub distribution: Vec<CountryTotal>,
}

/// Orders the totals and summarizes them. Countries with the same bytes
/// and code, or networks with the same bytes and number, may come in
/// either order.
pub fn geo_summary(totals: GeoTotals) -> (r: GeoSummary)
    ensures
        exists|sc: Seq<CountryView>, sa: Seq<AsnView>|
            {
                &&& countries_ordered(sc)
                &&& sc.to_multiset() == countries_view(totals.countries@).to_multiset()
                &&& asns_ordered(sa)
                &&& sa.to_multiset() == asns_view(totals.asns@).to_multiset()
                &&& countries_view(r.top_countries@) == take_up_to(sc, 5)
                &&& asns_view(r.top_asns@) == take_up_to(sa, 5)
                &&& countries_view(r.distribution@) == distribution_spec(sc, totals.unknown_bytes)
            },
{
    let unknown = totals.unknown_bytes;
    let countries = sort_countries(totals.countries);
    let asns = sort_asns(totals.asns);
    let top_countries = leading_countries(&countries, 5);
    let top_asns = leading_asns(&asns, 5);
    let distribution = country_distribution(&countries, unknown);
    let r = GeoSummary { top_countries, top_asns, distribution };
    assert({
        let sc = countries_view(countries@);
        let sa = asns_view(asns@);
        &&& countries_ordered(sc)
        &&& sc.to_multiset() == countries_view(totals.countries@).to_multiset()
        &&& asns_ordered(sa)
        &&& sa.to_multiset() == asns_view(totals.asns@).to_multiset()
        &&& countries_view(r.top_countries@) == take_up_to(sc, 5)
        &&& asns_view(r.top_asns@) == take_up_to(sa, 5)
        &&& countries_view(r.distribution@) == distribution_spec(sc, totals.unknown_bytes)
    });
    r
}

} // verus!
