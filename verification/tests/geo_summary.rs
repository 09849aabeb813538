use netqmon_collector::geo_summary::{
    aggregate_geo_rows, country_distribution, geo_summary, sort_countries, CountryTotal, GeoRecord,
};

fn record(code: Option<&str>, name: Option<&str>, asn: Option<u32>, org: Option<&str>) -> Option<GeoRecord> {
    Some(GeoRecord {
        country_code: code.map(str::to_owned),
        country_name: name.map(str::to_owned),
        asn,
        organization: org.map(str::to_owned),
    })
}

fn country(code: &str, bytes: u64) -> CountryTotal {
    CountryTotal { code: code.to_owned(), name: code.to_uppercase(), bytes }
}

#[test]
fn geo_rows_fold_into_country_network_and_unknown_totals() {
    let rows = vec![
        (record(Some("US"), Some("United States"), Some(15_169), Some("Google")), 100),
        (record(Some("US"), Some("United States"), Some(15_169), Some("Google")), 50),
        (record(Some("DE"), None, Some(3_320), None), 30),
        (record(None, None, Some(13_335), Some("Cloudflare")), 7),
        (None, 5),
        (record(Some("FR"), Some("France"), None, None), u64::MAX),
        (record(Some("FR"), Some("France"), None, None), 1),
    ];
    let totals = aggregate_geo_rows(&rows);
    assert_eq!(totals.unknown_bytes, 12);
    let countries: Vec<(&str, &str, u64)> =
        totals.countries.iter().map(|c| (c.code.as_str(), c.name.as_str(), c.bytes)).collect();
    assert_eq!(
        countries,
        vec![("US", "United States", 150), ("DE", "DE", 30), ("FR", "France", u64::MAX)]
    );
    let asns: Vec<(u32, &str, u64)> =
        totals.asns.iter().map(|a| (a.asn, a.organization.as_str(), a.bytes)).collect();
    assert_eq!(
        asns,
        vec![(15_169, "Google", 150), (3_320, "Unknown organization", 30), (13_335, "Cloudflare", 7)]
    );
}

#[test]
fn countries_sort_by_bytes_then_code() {
    let sorted = sort_countries(vec![country("b", 10), country("a", 10), country("c", 30)]);
    let codes: Vec<&str> = sorted.iter().map(|c| c.code.as_str()).collect();
    assert_eq!(codes, vec!["c", "a", "b"]);
}

#[test]
fn distribution_merges_the_rest_and_places_shares_by_bytes() {
    let sorted = sort_countries(vec![
        country("a", 100),
        country("b", 90),
        country("c", 80),
        country("d", 70),
        country("e", 60),
        country("f", 50),
    ]);
    let with_unknown = country_distribution(&sorted, 85);
    let shares: Vec<(&str, u64)> = with_unknown.iter().map(|c| (c.code.as_str(), c.bytes)).collect();
    assert_eq!(
        shares,
        vec![("other", 110), ("a", 100), ("b", 90), ("unknown", 85), ("c", 80), ("d", 70)]
    );
    let without_unknown = country_distribution(&sorted, 0);
    let shares: Vec<(&str, u64)> = without_unknown.iter().map(|c| (c.code.as_str(), c.bytes)).collect();
    assert_eq!(
        shares,
        vec![("a", 100), ("b", 90), ("c", 80), ("d", 70), ("e", 60), ("other", 50)]
    );
    let few = country_distribution(&sort_countries(vec![country("a", 1)]), 0);
    assert_eq!(few.len(), 1);
}

#[test]
fn summary_lists_five_leading_countries_and_networks() {
    let rows: Vec<(Option<GeoRecord>, u64)> = (0..7u32)
        .map(|i| {
            let code = format!("c{i}");
            (record(Some(&code), None, Some(i), Some("net")), 10 + u64::from(i))
        })
        .collect();
    let summary = geo_summary(aggregate_geo_rows(&rows));
    let top: Vec<&str> = summary.top_countries.iter().map(|c| c.code.as_str()).collect();
    assert_eq!(top, vec!["c6", "c5", "c4", "c3", "c2"]);
    let asns: Vec<u32> = summary.top_asns.iter().map(|a| a.asn).collect();
    assert_eq!(asns, vec![6, 5, 4, 3, 2]);
    assert_eq!(summary.distribution.len(), 6);
    assert_eq!(summary.distribution[0].code, "other");
    assert_eq!(summary.distribution[0].bytes, 21);
}
